//! Statements, the control-flow signals their execution returns, and the
//! lookup from line numbers to program-counter values.

use core::cmp::Ordering;
use vstd::prelude::*;

use crate::console::Console;
use crate::errors::BasicError;
use crate::expression::{
    complete_expr, cond_text, eval_err, eval_expression, eval_to, eval_total, eval_val, evaluable,
    expr_text, num_text, rnd_free, spec_compare, Condition, Expression, Number, Relop,
};
use crate::text::{input_number, int_text, int_to_string, parse_input_number, push_char};
use crate::variables::Variables;

verus! {

/// A request a statement hands back to the engine: a control transfer or
/// an immediate command that only the engine or the host may carry out.
#[derive(Debug, PartialEq)]
pub enum ProgramSignal {
    Jump(i32),
    Call(i32),
    Return,
    /// Loop entry: variable, start value, end value, optional step.
    StartLoop(char, i32, i32, Option<i32>),
    EndLoop,
    List,
    Load(String),
    Save(String),
    Run,
    ClearVars,
    End,
}

/// A statement of the language, one variant per keyword.
pub enum Statement {
    Empty,
    Rem(String),
    Print(Vec<Expression>),
    Let(char, Expression),
    If(Condition, Box<Statement>),
    Goto(i32),
    Input(char),
    Gosub(i32),
    Return,
    For(char, Expression, Expression, Option<Expression>),
    Next,
    List,
    Load(String),
    Save(String),
    Run,
    Clear,
    End,
}

/// Whether the relational comparison holds across the promoted
/// representation; a comparison against a NaN never holds, so its negation
/// through NEQ always does.
pub open spec fn relop_holds(a: Number, op: Relop, b: Number) -> bool {
    match op {
        Relop::EQ => spec_compare(a, b) == Some(Ordering::Equal),
        Relop::NEQ => spec_compare(a, b) != Some(Ordering::Equal),
        Relop::LT => spec_compare(a, b) == Some(Ordering::Less),
        Relop::LTE => spec_compare(a, b) == Some(Ordering::Less) || spec_compare(a, b) == Some(
            Ordering::Equal,
        ),
        Relop::GT => spec_compare(a, b) == Some(Ordering::Greater),
        Relop::GTE => spec_compare(a, b) == Some(Ordering::Greater) || spec_compare(a, b) == Some(
            Ordering::Equal,
        ),
    }
}

/// Whether the expression can evaluate to the integer `i`.
pub open spec fn evals_to_int(e: Expression, env: Map<char, Number>, i: i32) -> bool {
    eval_to(e, env, Number::Integer(i))
}

/// The text PRINT writes for one argument: a string literal as it stands,
/// any other expression through its value.
pub open spec fn print_item_to(e: Expression, env: Map<char, Number>, t: Seq<char>) -> bool {
    match e {
        Expression::String(s) => t == s@,
        _ => exists|v: Number| eval_to(e, env, v) && t == #[trigger] num_text(v),
    }
}

/// The one text PRINT writes for an RND-free argument, or `None` when its
/// evaluation fails.
pub open spec fn print_item_val(e: Expression, env: Map<char, Number>) -> Option<Seq<char>> {
    match e {
        Expression::String(s) => Some(s@),
        _ => match eval_val(e, env) {
            Some(v) => Some(num_text(v)),
            None => None,
        },
    }
}

/// The one signal an RND-free FOR produces, or `None` when an expression
/// fails to evaluate or reduces to a float.
pub open spec fn for_val(
    var: char,
    s0: Expression,
    e0: Expression,
    stp: Option<Expression>,
    env: Map<char, Number>,
) -> Option<ProgramSignal> {
    let st = match stp {
        Some(se) => match eval_val(se, env) {
            Some(Number::Integer(i)) => Some(Some(i)),
            _ => None,
        },
        None => Some(None),
    };
    match st {
        None => None,
        Some(stepv) => match (eval_val(s0, env), eval_val(e0, env)) {
            (Some(Number::Integer(a)), Some(Number::Integer(b))) => Some(
                ProgramSignal::StartLoop(var, a, b, stepv),
            ),
            _ => None,
        },
    }
}

/// The statement shapes the executor accepts: every expression that will
/// be evaluated is evaluable, and a string literal stands only where the
/// executor tests for it.
pub open spec fn stmt_wf(s: Statement) -> bool
    decreases s,
{
    match s {
        Statement::Print(args) => forall|i: int|
            0 <= i < args.len() ==> ((#[trigger] args[i]) is String || evaluable(args[i])),
        Statement::Let(_, e) => e is String || evaluable(e),
        Statement::If(cond, cons) => (match cond {
            Condition::Boolean(l, _, r) => (l is String || evaluable(l)) && (r is String
                || evaluable(r)),
        }) && stmt_wf(*cons),
        Statement::For(_, s0, e0, stp) => evaluable(s0) && evaluable(e0) && (stp is Some
            ==> evaluable(stp->0)),
        _ => true,
    }
}

/// Every expression held by the statement has both children under each of
/// its operator nodes, so the statement can be rendered.
pub open spec fn stmt_complete(s: Statement) -> bool
    decreases s,
{
    match s {
        Statement::Print(args) => forall|i: int|
            0 <= i < args.len() ==> complete_expr(#[trigger] args[i]),
        Statement::Let(_, e) => complete_expr(e),
        Statement::If(con, sub) => (match con {
            Condition::Boolean(l, _, r) => complete_expr(l) && complete_expr(r),
        }) && stmt_complete(*sub),
        Statement::For(_, s0, e0, st) => complete_expr(s0) && complete_expr(e0) && (st is Some
            ==> complete_expr(st->0)),
        _ => true,
    }
}

/// The text of the first `n` PRINT arguments, separated by commas.
pub open spec fn print_args_text(args: Vec<Expression>, n: int) -> Seq<char>
    decreases args, n,
{
    if n <= 0 || n > args.len() {
        Seq::empty()
    } else if n == 1 {
        expr_text(args[0])
    } else {
        print_args_text(args, n - 1) + ", "@ + expr_text(args[n - 1])
    }
}

/// The canonical source text of a statement, as LIST and SAVE write it.
/// A loaded or empty line has no text of its own.
pub open spec fn stmt_text(s: Statement) -> Seq<char>
    decreases s,
{
    match s {
        Statement::Empty => Seq::empty(),
        Statement::Rem(c) => "rem "@ + c@,
        Statement::Print(args) => "print "@ + print_args_text(args, args.len() as int),
        Statement::Let(var, e) => "let "@ + seq![var] + "="@ + expr_text(e),
        Statement::If(con, sub) => "if "@ + cond_text(con) + " "@ + stmt_text(*sub),
        Statement::Goto(n) => "goto "@ + int_text(n as int),
        Statement::Input(var) => "input "@ + seq![var],
        Statement::Gosub(n) => "gosub "@ + int_text(n as int),
        Statement::Return => "return"@,
        Statement::For(var, s0, e0, st) => match st {
            Some(se) => "for "@ + seq![var] + "="@ + expr_text(s0) + " to "@ + expr_text(e0)
                + " step "@ + expr_text(se),
            None => "for "@ + seq![var] + "="@ + expr_text(s0) + " to "@ + expr_text(e0),
        },
        Statement::Next => "next"@,
        Statement::List => "list"@,
        Statement::Load(_) => Seq::empty(),
        Statement::Save(_) => Seq::empty(),
        Statement::Run => "run"@,
        Statement::Clear => "clear"@,
        Statement::End => "end"@,
    }
}

/// Whether executing the statement cannot fail, whatever values RND
/// returns: every expression that will be evaluated is total, an IF's
/// consequent is itself total, a FOR reduces to integer bounds, and
/// INPUT — which depends on the console — is never counted on.
pub open spec fn stmt_total(s: Statement, env: Map<char, Number>) -> bool
    decreases s,
{
    match s {
        Statement::Print(args) => forall|i: int|
            0 <= i < args.len() ==> ((#[trigger] args[i]) is String || eval_total(args[i], env)),
        Statement::Let(_, e) => !(e is String) && eval_total(e, env),
        Statement::If(cond, cons) => (match cond {
            Condition::Boolean(l, _, rgt) => !(l is String) && !(rgt is String) && eval_total(
                l,
                env,
            ) && eval_total(rgt, env),
        }) && stmt_total(*cons, env),
        Statement::Input(_) => false,
        Statement::For(var, s0, e0, st) => rnd_free(s0) && rnd_free(e0) && (st is Some ==> rnd_free(
            st->0,
        )) && for_val(var, s0, e0, st, env) is Some,
        _ => true,
    }
}

/// How one statement execution relates the environment, the console input
/// queue, the console output, and the outcome: `env0`, `in0` and `out0`
/// are the values before, `env1`, `in1` and `out1` those after. A
/// statement whose execution cannot fail is owed success.
pub open spec fn exec_rel(
    s: Statement,
    env0: Map<char, Number>,
    env1: Map<char, Number>,
    in0: Seq<Seq<char>>,
    in1: Seq<Seq<char>>,
    out0: Seq<Seq<char>>,
    out1: Seq<Seq<char>>,
    r: Result<Option<ProgramSignal>, BasicError>,
) -> bool
    decreases s,
{
    &&& (stmt_total(s, env0) ==> r is Ok)
    &&& match s {
        Statement::Empty => env1 == env0 && in1 == in0 && out1 == out0 && r == Ok::<
            Option<ProgramSignal>,
            BasicError,
        >(None),
        Statement::Rem(_) => env1 == env0 && in1 == in0 && out1 == out0 && r == Ok::<
            Option<ProgramSignal>,
            BasicError,
        >(None),
        Statement::Print(args) => env1 == env0 && in1 == in0 && {
            &&& {
                ||| {
                    &&& r == Ok::<Option<ProgramSignal>, BasicError>(None)
                    &&& out1.len() == out0.len() + args.len() + 1
                    &&& out1.subrange(0, out0.len() as int) == out0
                    &&& forall|i: int|
                        0 <= i < args.len() ==> print_item_to(
                            #[trigger] args[i],
                            env0,
                            out1[out0.len() + i],
                        )
                    &&& out1.last() == "\n"@
                }
                ||| {
                    &&& r matches Err(e) && e is RuntimeError
                    &&& out0.len() <= out1.len() <= out0.len() + args.len()
                    &&& out1.subrange(0, out0.len() as int) == out0
                    &&& forall|k: int|
                        out0.len() <= k < out1.len() ==> print_item_to(
                            args[k - out0.len()],
                            env0,
                            #[trigger] out1[k],
                        )
                }
            }
            &&& forall|i: int|
                0 <= i < args.len() && rnd_free(#[trigger] args[i]) && r is Ok ==> print_item_val(
                    args[i],
                    env0,
                ) == Some(out1[out0.len() + i])
            &&& (forall|i: int| 0 <= i < args.len() ==> rnd_free(#[trigger] args[i])) ==> (r is Ok
                <==> forall|i: int|
                0 <= i < args.len() ==> print_item_val(#[trigger] args[i], env0) is Some)
        },
        Statement::Let(var, e) => in1 == in0 && out1 == out0 && (if e is String {
            r matches Err(er) && er is RuntimeError && er.text()
                == "Can't assign strings to variables"@ && env1 == env0
        } else {
            &&& {
                ||| (r == Ok::<Option<ProgramSignal>, BasicError>(None) && exists|v: Number|
                    eval_to(e, env0, v) && env1 == #[trigger] env0.insert(var, v))
                ||| (r matches Err(er) && er is RuntimeError && env1 == env0)
            }
            &&& (rnd_free(e) ==> match eval_val(e, env0) {
                Some(v) => r == Ok::<Option<ProgramSignal>, BasicError>(None) && env1 == env0.insert(
                    var,
                    v,
                ),
                None => r is Err && env1 == env0,
            })
            &&& (rnd_free(e) ==> match eval_err(e, env0) {
                Some(m) => r matches Err(er) && er.text() == m,
                None => true,
            })
        }),
        Statement::If(cond, cons) => match cond {
            Condition::Boolean(l, op, rgt) => if l is String || rgt is String {
                r matches Err(er) && er is RuntimeError && er.text() == "Can't compare strings"@
                    && env1 == env0 && in1 == in0 && out1 == out0
            } else {
                &&& {
                    ||| exists|a: Number, b: Number|
                        eval_to(l, env0, a) && eval_to(rgt, env0, b) && (if #[trigger] relop_holds(
                            a,
                            op,
                            b,
                        ) {
                            exec_rel(*cons, env0, env1, in0, in1, out0, out1, r)
                        } else {
                            r == Ok::<Option<ProgramSignal>, BasicError>(None) && env1 == env0
                                && in1 == in0 && out1 == out0
                        })
                    ||| (r matches Err(er) && er is RuntimeError && env1 == env0 && in1 == in0
                        && out1 == out0)
                }
                &&& ((rnd_free(l) && rnd_free(rgt)) ==> match (eval_val(l, env0), eval_val(
                    rgt,
                    env0,
                )) {
                    (Some(a), Some(b)) => if relop_holds(a, op, b) {
                        exec_rel(*cons, env0, env1, in0, in1, out0, out1, r)
                    } else {
                        r == Ok::<Option<ProgramSignal>, BasicError>(None) && env1 == env0 && in1
                            == in0 && out1 == out0
                    },
                    _ => r is Err && env1 == env0 && in1 == in0 && out1 == out0,
                })
                &&& ((rnd_free(l) && rnd_free(rgt)) ==> match eval_err(l, env0) {
                    Some(m) => r matches Err(er) && er.text() == m,
                    None => match eval_err(rgt, env0) {
                        Some(m) => r matches Err(er) && er.text() == m,
                        None => true,
                    },
                })
            },
        },
        Statement::Goto(n) => env1 == env0 && in1 == in0 && out1 == out0 && r == Ok::<
            Option<ProgramSignal>,
            BasicError,
        >(Some(ProgramSignal::Jump(n))),
        Statement::Input(v) => out1 == out0.push("? "@) && (if in0.len() == 0 {
            r matches Err(e) && e is RuntimeError && e.text() == "Input error"@ && env1 == env0
                && in1 == in0
        } else {
            in1 == in0.drop_first() && match input_number(in0[0]) {
                Some(val) => env1 == env0.insert(v, val) && r == Ok::<
                    Option<ProgramSignal>,
                    BasicError,
                >(None),
                None => env1 == env0 && (r matches Err(e) && e is RuntimeError && e.text()
                    == "Parse error"@),
            }
        }),
        Statement::Gosub(n) => env1 == env0 && in1 == in0 && out1 == out0 && r == Ok::<
            Option<ProgramSignal>,
            BasicError,
        >(Some(ProgramSignal::Call(n))),
        Statement::Return => env1 == env0 && in1 == in0 && out1 == out0 && r == Ok::<
            Option<ProgramSignal>,
            BasicError,
        >(Some(ProgramSignal::Return)),
        Statement::For(var, s0, e0, stp) => env1 == env0 && in1 == in0 && out1 == out0 && {
            &&& {
                ||| (r matches Err(e) && e is RuntimeError)
                ||| match stp {
                    None => exists|si: i32, ei: i32|
                        #![trigger evals_to_int(s0, env0, si), evals_to_int(e0, env0, ei)]
                        evals_to_int(s0, env0, si) && evals_to_int(e0, env0, ei) && r == Ok::<
                            Option<ProgramSignal>,
                            BasicError,
                        >(Some(ProgramSignal::StartLoop(var, si, ei, None))),
                    Some(se) => exists|si: i32, ei: i32, ti: i32|
                        #![trigger evals_to_int(s0, env0, si), evals_to_int(e0, env0, ei), evals_to_int(se, env0, ti)]
                        evals_to_int(s0, env0, si) && evals_to_int(e0, env0, ei) && evals_to_int(
                            se,
                            env0,
                            ti,
                        ) && r == Ok::<Option<ProgramSignal>, BasicError>(
                            Some(ProgramSignal::StartLoop(var, si, ei, Some(ti))),
                        ),
                }
            }
            &&& ((rnd_free(s0) && rnd_free(e0) && (stp is Some ==> rnd_free(stp->0)))
                ==> match for_val(var, s0, e0, stp, env0) {
                Some(sig) => r == Ok::<Option<ProgramSignal>, BasicError>(Some(sig)),
                None => r is Err,
            })
            &&& ((rnd_free(s0) && rnd_free(e0) && (stp is Some ==> rnd_free(stp->0)) && (
            match stp {
                Some(se) => eval_val(se, env0) is Some,
                None => true,
            }) && eval_val(s0, env0) is Some && eval_val(e0, env0) is Some && for_val(
                var,
                s0,
                e0,
                stp,
                env0,
            ) is None) ==> (r matches Err(e) && e.text()
                == "Values in for statement must be integers"@))
        },
        Statement::Next => env1 == env0 && in1 == in0 && out1 == out0 && r == Ok::<
            Option<ProgramSignal>,
            BasicError,
        >(Some(ProgramSignal::EndLoop)),
        Statement::List => env1 == env0 && in1 == in0 && out1 == out0 && r == Ok::<
            Option<ProgramSignal>,
            BasicError,
        >(Some(ProgramSignal::List)),
        Statement::Load(p) => env1 == env0 && in1 == in0 && out1 == out0 && r == Ok::<
            Option<ProgramSignal>,
            BasicError,
        >(Some(ProgramSignal::Load(p))),
        Statement::Save(p) => env1 == env0 && in1 == in0 && out1 == out0 && r == Ok::<
            Option<ProgramSignal>,
            BasicError,
        >(Some(ProgramSignal::Save(p))),
        Statement::Run => env1 == env0 && in1 == in0 && out1 == out0 && r == Ok::<
            Option<ProgramSignal>,
            BasicError,
        >(Some(ProgramSignal::Run)),
        Statement::Clear => env1 == env0 && in1 == in0 && out1 == out0 && r == Ok::<
            Option<ProgramSignal>,
            BasicError,
        >(Some(ProgramSignal::ClearVars)),
        Statement::End => env1 == env0 && in1 == in0 && out1 == out0 && r == Ok::<
            Option<ProgramSignal>,
            BasicError,
        >(Some(ProgramSignal::End)),
    }
}

/// The index of the first program line with the given line number; the
/// index is a value for the engine's program counter.
pub fn find_line(program: &Vec<(i32, Statement)>, line_num: i32) -> (r: Option<usize>)
    ensures
        match r {
            Some(pc) => pc < program@.len() && program@[pc as int].0 == line_num && forall|j: int|
                0 <= j < pc ==> (#[trigger] program@[j]).0 != line_num,
            None => forall|j: int|
                0 <= j < program@.len() ==> (#[trigger] program@[j]).0 != line_num,
        },
{
    let n = program.len();
    let mut pc: usize = 0;
    while pc < n
        invariant
            pc <= n == program@.len(),
            forall|j: int| 0 <= j < pc ==> (#[trigger] program@[j]).0 != line_num,
        decreases n - pc,
    {
        if program[pc].0 == line_num {
            return Some(pc);
        }
        pc = pc + 1;
    }
    None
}

impl Statement {
    /// Execute one statement. A local effect (assignment, printing,
    /// reading input) happens here against the environment and console; a
    /// control statement returns its signal untouched for the engine.
    pub fn execute(&self, variables: &mut Variables, console: &mut Console) -> (r: Result<
        Option<ProgramSignal>,
        BasicError,
    >)
        requires
            stmt_wf(*self),
            old(variables).wf(),
        ensures
            final(variables).wf(),
            old(console).out_text().is_prefix_of(final(console).out_text()),
            final(console).in_text().is_suffix_of(old(console).in_text()),
            exec_rel(
                *self,
                old(variables)@,
                final(variables)@,
                old(console).in_text(),
                final(console).in_text(),
                old(console).out_text(),
                final(console).out_text(),
                r,
            ),
        decreases *self,
    {
        let ghost env0 = old(variables)@;
        let ghost in0 = old(console).in_text();
        let ghost out0 = old(console).out_text();
        match self {
            Statement::Empty => Ok(None),
            Statement::Rem(_) => Ok(None),
            // Print the supplied expressions, if any: each fragment is
            // written as it is produced, then the line break; fragments
            // written before a failure stay written.
            Statement::Print(args) => {
                let n = args.len();
                let mut i: usize = 0;
                while i < n
                    invariant
                        i <= n == args@.len(),
                        *self == Statement::Print(*args),
                        env0 == old(variables)@,
                        in0 == old(console).in_text(),
                        out0 == old(console).out_text(),
                        forall|j: int|
                            0 <= j < n ==> ((#[trigger] args@[j]) is String || evaluable(args@[j])),
                        variables.wf(),
                        variables@ == env0,
                        console.in_text() == in0,
                        console.out_text().len() == out0.len() + i,
                        console.out_text().subrange(0, out0.len() as int) == out0,
                        forall|j: int|
                            0 <= j < i ==> print_item_to(
                                args@[j],
                                env0,
                                #[trigger] console.out_text()[out0.len() + j],
                            ),
                        forall|j: int|
                            0 <= j < i && rnd_free(#[trigger] args@[j]) ==> print_item_val(
                                args@[j],
                                env0,
                            ) == Some(console.out_text()[out0.len() + j]),
                    decreases n - i,
                {
                    match &args[i] {
                        Expression::String(s) => {
                            console.write(s.clone());
                            proof {
                                assert(console.out_text().subrange(0, out0.len() as int) =~= out0);
                            }
                        },
                        other => {
                            match eval_expression(other, variables) {
                                Ok(v) => {
                                    let f = v.render();
                                    proof {
                                        assert(eval_to(args@[i as int], env0, v) && f@ == num_text(
                                            v,
                                        ));
                                    }
                                    console.write(f);
                                    proof {
                                        assert(console.out_text().subrange(
                                            0,
                                            out0.len() as int,
                                        ) =~= out0);
                                    }
                                },
                                Err(er) => {
                                    proof {
                                        if rnd_free(args@[i as int]) {
                                            assert(print_item_val(args@[i as int], env0) is None);
                                        }
                                        if stmt_total(*self, env0) {
                                            assert(args@[i as int] is String || eval_total(
                                                args@[i as int],
                                                env0,
                                            ));
                                            assert(false);
                                        }
                                    }
                                    return Err(er);
                                },
                            }
                        },
                    }
                    i = i + 1;
                }
                console.write("\n".to_owned());
                proof {
                    let out1 = console.out_text();
                    assert(out1.subrange(0, out0.len() as int) =~= out0);
                    assert(out1.last() == "\n"@);
                }
                Ok(None)
            },
            // Variable assignment; a string literal cannot be assigned.
            Statement::Let(var, e) => match e {
                Expression::String(_) => Err(
                    BasicError::RuntimeError("Can't assign strings to variables".to_owned()),
                ),
                _ => match eval_expression(e, variables) {
                    Ok(v) => {
                        variables.insert(*var, v);
                        proof {
                            assert(eval_to(*e, env0, v) && variables@ == env0.insert(*var, v));
                        }
                        Ok(None)
                    },
                    Err(er) => Err(er),
                },
            },
            // A condition and the consequent run when it holds.
            Statement::If(cond, cons) => match cond {
                Condition::Boolean(l, op, rgt) => {
                    if matches!(l, Expression::String(_)) || matches!(rgt, Expression::String(_)) {
                        return Err(
                            BasicError::RuntimeError("Can't compare strings".to_owned()),
                        );
                    }
                    let a = match eval_expression(l, variables) {
                        Ok(a) => a,
                        Err(er) => {
                            return Err(er);
                        },
                    };
                    let b = match eval_expression(rgt, variables) {
                        Ok(b) => b,
                        Err(er) => {
                            return Err(er);
                        },
                    };
                    if self.eval_relop(a, *op, b) {
                        let res = cons.execute(variables, console);
                        proof {
                            assert(eval_to(*l, env0, a) && eval_to(*rgt, env0, b) && relop_holds(
                                a,
                                *op,
                                b,
                            ));
                        }
                        res
                    } else {
                        proof {
                            assert(eval_to(*l, env0, a) && eval_to(*rgt, env0, b) && !relop_holds(
                                a,
                                *op,
                                b,
                            ));
                        }
                        Ok(None)
                    }
                },
            },
            // Unconditional jump.
            Statement::Goto(n) => Ok(Some(ProgramSignal::Jump(*n))),
            // Take one line of input and bind its number to the variable.
            Statement::Input(v) => {
                console.write("? ".to_owned());
                match console.read_line() {
                    None => Err(BasicError::RuntimeError("Input error".to_owned())),
                    Some(line) => match parse_input_number(line.as_str()) {
                        Some(val) => {
                            variables.insert(*v, val);
                            Ok(None)
                        },
                        None => Err(BasicError::RuntimeError("Parse error".to_owned())),
                    },
                }
            },
            // Subroutine call and return.
            Statement::Gosub(n) => Ok(Some(ProgramSignal::Call(*n))),
            Statement::Return => Ok(Some(ProgramSignal::Return)),
            // Loop entry: the bounds and the optional step must reduce to
            // integers.
            Statement::For(var, s0, e0, stp) => {
                let step_val: Option<i32> = match stp {
                    None => None,
                    Some(se) => {
                        let s = match eval_expression(se, variables) {
                            Ok(s) => s,
                            Err(er) => {
                                return Err(er);
                            },
                        };
                        match s {
                            Number::Integer(i) => Some(i),
                            Number::Float(_) => {
                                return Err(
                                    BasicError::RuntimeError(
                                        "Values in for statement must be integers".to_owned(),
                                    ),
                                );
                            },
                        }
                    },
                };
                let sv = match eval_expression(s0, variables) {
                    Ok(s) => s,
                    Err(er) => {
                        return Err(er);
                    },
                };
                let ev = match eval_expression(e0, variables) {
                    Ok(e) => e,
                    Err(er) => {
                        return Err(er);
                    },
                };
                match (sv, ev) {
                    (Number::Integer(si), Number::Integer(ei)) => {
                        proof {
                            assert(evals_to_int(*s0, env0, si) && evals_to_int(*e0, env0, ei));
                            if step_val is Some {
                                assert(evals_to_int(stp->0, env0, step_val->0));
                            }
                        }
                        Ok(Some(ProgramSignal::StartLoop(*var, si, ei, step_val)))
                    },
                    _ => Err(
                        BasicError::RuntimeError(
                            "Values in for statement must be integers".to_owned(),
                        ),
                    ),
                }
            },
            Statement::Next => Ok(Some(ProgramSignal::EndLoop)),
            Statement::List => Ok(Some(ProgramSignal::List)),
            Statement::Load(filename) => Ok(Some(ProgramSignal::Load(filename.clone()))),
            Statement::Save(filename) => Ok(Some(ProgramSignal::Save(filename.clone()))),
            Statement::Run => Ok(Some(ProgramSignal::Run)),
            Statement::Clear => Ok(Some(ProgramSignal::ClearVars)),
            Statement::End => Ok(Some(ProgramSignal::End)),
        }
    }

    /// The statement's canonical source text.
    pub fn render(&self) -> (s: String)
        requires
            stmt_complete(*self),
        ensures
            s@ == stmt_text(*self),
        decreases *self,
    {
        match self {
            Statement::Empty => String::new(),
            Statement::Rem(c) => {
                let mut s = "rem ".to_owned();
                s.append(c.as_str());
                s
            },
            Statement::Print(args) => {
                let mut s = "print ".to_owned();
                let n = args.len();
                let mut i: usize = 0;
                #[verifier::loop_isolation(false)]
                while i < n
                    invariant
                        i <= n,
                        s@ == "print "@ + print_args_text(*args, i as int),
                    decreases n - i,
                {
                    if i > 0 {
                        s.append(", ");
                    }
                    let t = args[i].render();
                    s.append(t.as_str());
                    proof {
                        assert(s@ =~= "print "@ + print_args_text(*args, i + 1));
                    }
                    i = i + 1;
                }
                s
            },
            Statement::Let(var, e) => {
                let mut s = "let ".to_owned();
                push_char(&mut s, *var);
                s.append("=");
                let t = e.render();
                s.append(t.as_str());
                proof {
                    assert(s@ =~= stmt_text(*self));
                }
                s
            },
            Statement::If(con, sub) => {
                let mut s = "if ".to_owned();
                let c = con.render();
                s.append(c.as_str());
                s.append(" ");
                let t = sub.render();
                s.append(t.as_str());
                proof {
                    assert(s@ =~= stmt_text(*self));
                }
                s
            },
            Statement::Goto(n) => {
                let mut s = "goto ".to_owned();
                let t = int_to_string(*n);
                s.append(t.as_str());
                s
            },
            Statement::Input(var) => {
                let mut s = "input ".to_owned();
                push_char(&mut s, *var);
                proof {
                    assert(s@ =~= stmt_text(*self));
                }
                s
            },
            Statement::Gosub(n) => {
                let mut s = "gosub ".to_owned();
                let t = int_to_string(*n);
                s.append(t.as_str());
                s
            },
            Statement::Return => "return".to_owned(),
            Statement::For(var, s0, e0, st) => {
                let mut s = "for ".to_owned();
                push_char(&mut s, *var);
                s.append("=");
                let t0 = s0.render();
                s.append(t0.as_str());
                s.append(" to ");
                let t1 = e0.render();
                s.append(t1.as_str());
                match st {
                    Some(se) => {
                        s.append(" step ");
                        let t2 = se.render();
                        s.append(t2.as_str());
                    },
                    None => {},
                }
                proof {
                    assert(s@ =~= stmt_text(*self));
                }
                s
            },
            Statement::Next => "next".to_owned(),
            Statement::List => "list".to_owned(),
            Statement::Load(_) => String::new(),
            Statement::Save(_) => String::new(),
            Statement::Run => "run".to_owned(),
            Statement::Clear => "clear".to_owned(),
            Statement::End => "end".to_owned(),
        }
    }

    /// Whether the comparison of the two values holds.
    fn eval_relop(&self, l_val: Number, relop: Relop, r_val: Number) -> (r: bool)
        ensures
            r == relop_holds(l_val, relop, r_val),
    {
        let c = l_val.compare(&r_val);
        match relop {
            Relop::EQ => matches!(c, Some(Ordering::Equal)),
            Relop::NEQ => !matches!(c, Some(Ordering::Equal)),
            Relop::LT => matches!(c, Some(Ordering::Less)),
            Relop::LTE => matches!(c, Some(Ordering::Less) | Some(Ordering::Equal)),
            Relop::GT => matches!(c, Some(Ordering::Greater)),
            Relop::GTE => matches!(c, Some(Ordering::Greater) | Some(Ordering::Equal)),
        }
    }
}

} // verus!
