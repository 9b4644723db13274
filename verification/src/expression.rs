//! The value model and the expression tree.
//!
//! A `Number` is an integer or a float; arithmetic between two numbers
//! promotes to float when either operand is a float, and integer division
//! truncates toward zero. Integer overflow and integer division by zero
//! surface as runtime errors rather than panics.

use core::cmp::Ordering;
use vstd::math::abs;
use vstd::prelude::*;

use crate::errors::BasicError;
use crate::fp::{
    add_bits, bits_of_int, cmp_bits, div_bits, fp_add, fp_cmp, fp_div, fp_mul, fp_of_int, fp_sub,
    fp_text, fp_trunc, mul_bits, render_bits, sub_bits, unit_float,
};
use crate::text::{int_text, int_to_string};
use crate::variables::Variables;

verus! {

broadcast use
    vstd::seq::axiom_seq_index_decreases,
    vstd::std_specs::vec::axiom_vec_decreases_to_view,
    vstd::std_specs::vec::axiom_vec_index_decreases,
;

/// A numeric value, either an integer or a float. The float is stored as
/// the bit pattern of an IEEE-754 double.
#[derive(Clone, Copy, Debug, PartialEq, Eq, Structural)]
pub enum Number {
    Integer(i32),
    Float(u64),
}

/// The double bits a number promotes to: the exact conversion for an
/// integer, the stored bits for a float.
pub open spec fn bits_of(n: Number) -> u64 {
    match n {
        Number::Integer(i) => fp_of_int(i as int),
        Number::Float(b) => b,
    }
}

/// Whether a mathematical integer fits an `i32`.
pub open spec fn in_i32(v: int) -> bool {
    i32::MIN <= v <= i32::MAX
}

/// Integer division truncating toward zero.
pub open spec fn trunc_div(a: int, b: int) -> int {
    if (a < 0) == (b < 0) {
        abs(a) as int / abs(b) as int
    } else {
        -(abs(a) as int / abs(b) as int)
    }
}

/// The sum of two numbers: an integer when both are integers and the sum
/// fits, a float when either side is a float, `None` on integer overflow.
pub open spec fn spec_add(a: Number, b: Number) -> Option<Number> {
    match (a, b) {
        (Number::Integer(x), Number::Integer(y)) => if in_i32(x + y) {
            Some(Number::Integer((x + y) as i32))
        } else {
            None
        },
        _ => Some(Number::Float(fp_add(bits_of(a), bits_of(b)))),
    }
}

/// The difference of two numbers, under the same promotion rule as `spec_add`.
pub open spec fn spec_sub(a: Number, b: Number) -> Option<Number> {
    match (a, b) {
        (Number::Integer(x), Number::Integer(y)) => if in_i32(x - y) {
            Some(Number::Integer((x - y) as i32))
        } else {
            None
        },
        _ => Some(Number::Float(fp_sub(bits_of(a), bits_of(b)))),
    }
}

/// The product of two numbers, under the same promotion rule as `spec_add`.
pub open spec fn spec_mul(a: Number, b: Number) -> Option<Number> {
    match (a, b) {
        (Number::Integer(x), Number::Integer(y)) => if in_i32(x * y) {
            Some(Number::Integer((x * y) as i32))
        } else {
            None
        },
        _ => Some(Number::Float(fp_mul(bits_of(a), bits_of(b)))),
    }
}

/// The quotient of two numbers: integer division truncates toward zero and
/// is `None` for a zero divisor or overflow; float division is total.
pub open spec fn spec_div(a: Number, b: Number) -> Option<Number> {
    match (a, b) {
        (Number::Integer(x), Number::Integer(y)) => if y == 0 || !in_i32(trunc_div(x as int, y as int)) {
            None
        } else {
            Some(Number::Integer(trunc_div(x as int, y as int) as i32))
        },
        _ => Some(Number::Float(fp_div(bits_of(a), bits_of(b)))),
    }
}

/// The comparison of two numbers across the promoted representation:
/// exact for two integers, the IEEE-754 comparison otherwise.
pub open spec fn spec_compare(a: Number, b: Number) -> Option<Ordering> {
    match (a, b) {
        (Number::Integer(x), Number::Integer(y)) => Some(
            if x < y {
                Ordering::Less
            } else if x == y {
                Ordering::Equal
            } else {
                Ordering::Greater
            },
        ),
        _ => fp_cmp(bits_of(a), bits_of(b)),
    }
}

/// The text of a number: decimal for an integer, the float rendering for
/// a float.
pub open spec fn num_text(n: Number) -> Seq<char> {
    match n {
        Number::Integer(i) => int_text(i as int),
        Number::Float(b) => fp_text(b),
    }
}

impl Number {
    /// Whether the number is an integer.
    pub fn is_int(&self) -> (r: bool)
        ensures
            r == (self is Integer),
    {
        match self {
            Number::Integer(_) => true,
            _ => false,
        }
    }

    /// The integer behind the number, or a type error for a float.
    pub fn int_value(&self) -> (r: Result<i32, BasicError>)
        ensures
            match *self {
                Number::Integer(i) => r == Ok::<i32, BasicError>(i),
                Number::Float(_) => r matches Err(e) && e is RuntimeError && e.text()
                    == "Type error"@,
            },
    {
        match self {
            Number::Integer(i) => Ok(*i),
            _ => Err(BasicError::RuntimeError("Type error".to_owned())),
        }
    }

    /// The double bits the number promotes to.
    pub fn promote(self) -> (r: u64)
        ensures
            r == bits_of(self),
    {
        match self {
            Number::Integer(i) => bits_of_int(i),
            Number::Float(b) => b,
        }
    }

    /// The sum, as `spec_add` gives it; integer overflow is a runtime error.
    pub fn add(self, rhs: Number) -> (r: Result<Number, BasicError>)
        ensures
            match spec_add(self, rhs) {
                Some(v) => r == Ok::<Number, BasicError>(v),
                None => r matches Err(e) && e is RuntimeError && e.text() == "Integer overflow"@,
            },
    {
        match (self, rhs) {
            (Number::Integer(x), Number::Integer(y)) => {
                let s: i64 = x as i64 + y as i64;
                if i32::MIN as i64 <= s && s <= i32::MAX as i64 {
                    Ok(Number::Integer(s as i32))
                } else {
                    Err(BasicError::RuntimeError("Integer overflow".to_owned()))
                }
            },
            _ => Ok(Number::Float(add_bits(self.promote(), rhs.promote()))),
        }
    }

    /// The difference, as `spec_sub` gives it.
    pub fn sub(self, rhs: Number) -> (r: Result<Number, BasicError>)
        ensures
            match spec_sub(self, rhs) {
                Some(v) => r == Ok::<Number, BasicError>(v),
                None => r matches Err(e) && e is RuntimeError && e.text() == "Integer overflow"@,
            },
    {
        match (self, rhs) {
            (Number::Integer(x), Number::Integer(y)) => {
                let s: i64 = x as i64 - y as i64;
                if i32::MIN as i64 <= s && s <= i32::MAX as i64 {
                    Ok(Number::Integer(s as i32))
                } else {
                    Err(BasicError::RuntimeError("Integer overflow".to_owned()))
                }
            },
            _ => Ok(Number::Float(sub_bits(self.promote(), rhs.promote()))),
        }
    }

    /// The product, as `spec_mul` gives it.
    pub fn mul(self, rhs: Number) -> (r: Result<Number, BasicError>)
        ensures
            match spec_mul(self, rhs) {
                Some(v) => r == Ok::<Number, BasicError>(v),
                None => r matches Err(e) && e is RuntimeError && e.text() == "Integer overflow"@,
            },
    {
        match (self, rhs) {
            (Number::Integer(x), Number::Integer(y)) => {
                proof {
                    assert((x as i64) * (y as i64) == x as int * y as int) by (nonlinear_arith);
                    assert(-0x4000_0000_0000_0000 <= x as int * y as int
                        <= 0x4000_0000_0000_0000) by (nonlinear_arith)
                        requires
                            -0x8000_0000 <= x as int <= 0x7fff_ffff,
                            -0x8000_0000 <= y as int <= 0x7fff_ffff,
                    ;
                }
                let s: i64 = x as i64 * y as i64;
                if i32::MIN as i64 <= s && s <= i32::MAX as i64 {
                    Ok(Number::Integer(s as i32))
                } else {
                    Err(BasicError::RuntimeError("Integer overflow".to_owned()))
                }
            },
            _ => Ok(Number::Float(mul_bits(self.promote(), rhs.promote()))),
        }
    }

    /// The quotient, as `spec_div` gives it; a zero integer divisor and
    /// integer overflow are runtime errors, each with its own message as
    /// `apply_err` gives it.
    pub fn div(self, rhs: Number) -> (r: Result<Number, BasicError>)
        ensures
            match spec_div(self, rhs) {
                Some(v) => r == Ok::<Number, BasicError>(v),
                None => r matches Err(e) && e is RuntimeError && Some(e.text()) == apply_err(
                    ArithOp::Divide,
                    self,
                    rhs,
                ),
            },
    {
        match (self, rhs) {
            (Number::Integer(x), Number::Integer(y)) => {
                if y == 0 {
                    return Err(BasicError::RuntimeError("Division by zero".to_owned()));
                }
                let xm: u64 = if x >= 0 {
                    x as u64
                } else {
                    (-(x as i64)) as u64
                };
                let ym: u64 = if y >= 0 {
                    y as u64
                } else {
                    (-(y as i64)) as u64
                };
                let q: u64 = xm / ym;
                let negative = (x < 0) != (y < 0);
                if negative {
                    Ok(Number::Integer((-(q as i64)) as i32))
                } else {
                    if q > i32::MAX as u64 {
                        return Err(BasicError::RuntimeError("Integer overflow".to_owned()));
                    }
                    Ok(Number::Integer(q as i32))
                }
            },
            _ => Ok(Number::Float(div_bits(self.promote(), rhs.promote()))),
        }
    }

    /// The promoted comparison, as `spec_compare` gives it.
    pub fn compare(&self, other: &Number) -> (r: Option<Ordering>)
        ensures
            r == spec_compare(*self, *other),
    {
        match (self, other) {
            (Number::Integer(x), Number::Integer(y)) => Some(
                if x < y {
                    Ordering::Less
                } else if x == y {
                    Ordering::Equal
                } else {
                    Ordering::Greater
                },
            ),
            _ => cmp_bits(self.promote(), other.promote()),
        }
    }

    /// The text of the number.
    pub fn render(&self) -> (s: String)
        ensures
            s@ == num_text(*self),
    {
        match self {
            Number::Integer(i) => int_to_string(*i),
            Number::Float(b) => render_bits(*b),
        }
    }
}

/// Arithmetic operators.
#[derive(Copy, Clone, Debug, PartialEq, Eq, Structural)]
pub enum ArithOp {
    Add,
    Subtract,
    Multiply,
    Divide,
}

/// Relational operators, used only by IF conditions.
#[derive(Copy, Clone, Debug, PartialEq, Eq, Structural)]
pub enum Relop {
    EQ,
    NEQ,
    LT,
    LTE,
    GT,
    GTE,
}

/// An expression in the language: a recursive tree whose non-leaf nodes
/// are binary operators or function calls.
#[derive(Debug)]
pub enum Expression {
    String(String),
    Numeric(Number),
    Variable(char),
    /// A binary operator node. Both children are present in every tree the
    /// parser builds; `evaluable` states that invariant.
    Operator(ArithOp, Option<Box<Expression>>, Option<Box<Expression>>),
    /// A function call with its arguments.
    Function(String, Vec<Expression>),
}

/// A condition compared by a relational operator, used only by IF.
pub enum Condition {
    Boolean(Expression, Relop, Expression),
}

/// The source text of an arithmetic operator.
pub open spec fn op_text(op: ArithOp) -> Seq<char> {
    match op {
        ArithOp::Add => "+"@,
        ArithOp::Subtract => "-"@,
        ArithOp::Multiply => "*"@,
        ArithOp::Divide => "/"@,
    }
}

/// The source text of a relational operator.
pub open spec fn relop_text(op: Relop) -> Seq<char> {
    match op {
        Relop::EQ => "="@,
        Relop::NEQ => "<>"@,
        Relop::LT => "<"@,
        Relop::LTE => "<="@,
        Relop::GT => ">"@,
        Relop::GTE => ">="@,
    }
}

/// Whether a child of a multiplicative operator needs parentheses to keep
/// its meaning: exactly when it is an additive operator node.
pub open spec fn needs_parens(op: ArithOp, e: Expression) -> bool {
    match op {
        ArithOp::Multiply | ArithOp::Divide => match e {
            Expression::Operator(other, _, _) => other == ArithOp::Add || other
                == ArithOp::Subtract,
            _ => false,
        },
        _ => false,
    }
}

/// Every operator node of the tree has both children.
pub open spec fn complete_expr(e: Expression) -> bool
    decreases e,
{
    match e {
        Expression::Operator(_, l, r) => l is Some && r is Some && complete_expr(*l->Some_0)
            && complete_expr(*r->Some_0),
        Expression::Function(_, args) => forall|i: int|
            0 <= i < args.len() ==> complete_expr(#[trigger] args[i]),
        _ => true,
    }
}

/// The canonical text of an expression: literals and variables as they
/// stand, operators infix with parentheses where precedence demands them,
/// a call as its name before its parenthesized arguments.
pub open spec fn expr_text(e: Expression) -> Seq<char>
    decreases e,
{
    match e {
        Expression::String(s) => seq!['"'] + s@ + seq!['"'],
        Expression::Numeric(n) => num_text(n),
        Expression::Variable(c) => seq![c],
        Expression::Operator(op, l, r) => {
            if l is Some && r is Some {
                (if needs_parens(op, *l->Some_0) {
                    seq!['('] + expr_text(*l->Some_0) + seq![')']
                } else {
                    expr_text(*l->Some_0)
                }) + op_text(op) + (if needs_parens(op, *r->Some_0) {
                    seq!['('] + expr_text(*r->Some_0) + seq![')']
                } else {
                    expr_text(*r->Some_0)
                })
            } else {
                Seq::empty()
            }
        },
        Expression::Function(name, args) => name@ + seq!['('] + fn_args_text(args) + seq![')'],
    }
}

/// The text of a call's arguments, in order.
pub open spec fn fn_args_text(args: Vec<Expression>) -> Seq<char>
    decreases args,
{
    fn_args_prefix_text(args, args.len() as int)
}

/// The text of the first `n` arguments of a call.
pub open spec fn fn_args_prefix_text(args: Vec<Expression>, n: int) -> Seq<char>
    decreases args, n,
{
    if n <= 0 || n > args.len() {
        Seq::empty()
    } else if n == 1 {
        expr_text(args[0])
    } else {
        fn_args_prefix_text(args, n - 1) + ", "@ + expr_text(args[n - 1])
    }
}

/// The text of a condition: its sides around the relational operator.
pub open spec fn cond_text(c: Condition) -> Seq<char> {
    match c {
        Condition::Boolean(l, op, r) => expr_text(l) + relop_text(op) + expr_text(r),
    }
}

impl ArithOp {
    /// The operator's source text.
    pub fn render(&self) -> (s: String)
        ensures
            s@ == op_text(*self),
    {
        proof {
            reveal_strlit("+");
            reveal_strlit("-");
            reveal_strlit("*");
            reveal_strlit("/");
        }
        match self {
            ArithOp::Add => "+".to_owned(),
            ArithOp::Subtract => "-".to_owned(),
            ArithOp::Multiply => "*".to_owned(),
            ArithOp::Divide => "/".to_owned(),
        }
    }
}

impl Relop {
    /// The operator's source text.
    pub fn render(&self) -> (s: String)
        ensures
            s@ == relop_text(*self),
    {
        match self {
            Relop::EQ => "=".to_owned(),
            Relop::NEQ => "<>".to_owned(),
            Relop::LT => "<".to_owned(),
            Relop::LTE => "<=".to_owned(),
            Relop::GT => ">".to_owned(),
            Relop::GTE => ">=".to_owned(),
        }
    }
}

impl Expression {
    /// The expression's canonical source text.
    pub fn render(&self) -> (s: String)
        requires
            complete_expr(*self),
        ensures
            s@ == expr_text(*self),
        decreases *self,
    {
        match self {
            Expression::String(t) => {
                proof {
                    reveal_strlit("\"");
                }
                let mut s = "\"".to_owned();
                s.append(t.as_str());
                s.append("\"");
                proof {
                    assert(s@ =~= seq!['"'] + t@ + seq!['"']);
                }
                s
            },
            Expression::Numeric(n) => n.render(),
            Expression::Variable(c) => {
                let mut s = String::new();
                crate::text::push_char(&mut s, *c);
                proof {
                    assert(s@ =~= seq![*c]);
                }
                s
            },
            Expression::Operator(op, l, r) => match (l, r) {
                (Some(lb), Some(rb)) => {
                    proof {
                        reveal_strlit("(");
                        reveal_strlit(")");
                    }
                    let mut s = String::new();
                    let lp = self.child_needs_parens(op, lb);
                    if lp {
                        s.append("(");
                    }
                    let lt = lb.render();
                    s.append(lt.as_str());
                    if lp {
                        s.append(")");
                    }
                    let ot = op.render();
                    s.append(ot.as_str());
                    let rp = self.child_needs_parens(op, rb);
                    if rp {
                        s.append("(");
                    }
                    let rt = rb.render();
                    s.append(rt.as_str());
                    if rp {
                        s.append(")");
                    }
                    proof {
                        assert(s@ =~= expr_text(*self));
                    }
                    s
                },
                _ => String::new(),
            },
            Expression::Function(name, args) => {
                proof {
                    reveal_strlit("(");
                    reveal_strlit(")");
                }
                let mut s = name.clone();
                s.append("(");
                let n = args.len();
                let mut i: usize = 0;
                proof {
                    assert(s@ =~= name@ + seq!['('] + fn_args_prefix_text(*args, 0));
                }
                proof {
                    assert(forall|j: int|
                        0 <= j < n ==> complete_expr(#[trigger] args@[j]));
                }
                #[verifier::loop_isolation(false)]
                while i < n
                    invariant
                        i <= n == args@.len(),
                        forall|j: int| 0 <= j < n ==> complete_expr(#[trigger] args@[j]),
                        s@ == name@ + seq!['('] + fn_args_prefix_text(*args, i as int),
                    decreases n - i,
                {
                    if i > 0 {
                        s.append(", ");
                    }
                    let t = args[i].render();
                    s.append(t.as_str());
                    proof {
                        assert(s@ =~= name@ + seq!['('] + fn_args_prefix_text(*args, i + 1));
                    }
                    i = i + 1;
                }
                s.append(")");
                proof {
                    assert(fn_args_text(*args) == fn_args_prefix_text(*args, n as int));
                    assert(s@ =~= expr_text(*self));
                }
                s
            },
        }
    }

    /// Whether the child must be parenthesized under the operator.
    fn child_needs_parens(&self, op: &ArithOp, child: &Box<Expression>) -> (r: bool)
        ensures
            r == needs_parens(*op, **child),
    {
        match op {
            ArithOp::Multiply | ArithOp::Divide => match &**child {
                Expression::Operator(other, _, _) => match other {
                    ArithOp::Add | ArithOp::Subtract => true,
                    _ => false,
                },
                _ => false,
            },
            _ => false,
        }
    }
}

impl Condition {
    /// The condition's canonical source text.
    pub fn render(&self) -> (s: String)
        requires
            (match *self {
                Condition::Boolean(l, _, r) => complete_expr(l) && complete_expr(r),
            }),
        ensures
            s@ == cond_text(*self),
    {
        match self {
            Condition::Boolean(l, op, r) => {
                let mut s = l.render();
                let ot = op.render();
                s.append(ot.as_str());
                let rt = r.render();
                s.append(rt.as_str());
                proof {
                    assert(s@ =~= cond_text(*self));
                }
                s
            },
        }
    }
}

/// The result of one arithmetic operator on two numbers.
pub open spec fn spec_apply(op: ArithOp, a: Number, b: Number) -> Option<Number> {
    match op {
        ArithOp::Add => spec_add(a, b),
        ArithOp::Subtract => spec_sub(a, b),
        ArithOp::Multiply => spec_mul(a, b),
        ArithOp::Divide => spec_div(a, b),
    }
}

/// The shapes the evaluator accepts: no string literal anywhere in the
/// tree, and both children present under every operator node.
pub open spec fn evaluable(e: Expression) -> bool
    decreases e,
{
    match e {
        Expression::String(_) => false,
        Expression::Numeric(_) => true,
        Expression::Variable(_) => true,
        Expression::Operator(_, l, r) => l is Some && r is Some && evaluable(*l->Some_0)
            && evaluable(*r->Some_0),
        Expression::Function(_, args) => forall|i: int|
            0 <= i < args.len() ==> evaluable(#[trigger] args[i]),
    }
}

/// Whether the expression calls RND nowhere; such an expression evaluates
/// to one value, given by `eval_val`.
pub open spec fn rnd_free(e: Expression) -> bool
    decreases e,
{
    match e {
        Expression::Operator(_, l, r) => (l is Some ==> rnd_free(*l->Some_0)) && (r is Some
            ==> rnd_free(*r->Some_0)),
        Expression::Function(name, args) => name@ != "rnd"@ && all_rnd_free(args),
        _ => true,
    }
}

/// Whether every expression of the vector is RND-free.
pub open spec fn all_rnd_free(args: Vec<Expression>) -> bool
    decreases args,
{
    forall|i: int| 0 <= i < args.len() ==> rnd_free(#[trigger] args[i])
}

/// What INT returns: a float truncated toward zero, an integer unchanged.
pub open spec fn spec_int_fn(v: Number) -> Number {
    match v {
        Number::Integer(i) => Number::Integer(i),
        Number::Float(b) => Number::Integer(fp_trunc(b)),
    }
}

/// The one value an RND-free expression evaluates to, or `None` when
/// evaluation fails: an unknown variable, an unknown function or a wrong
/// argument count, integer overflow, or integer division by zero.
pub open spec fn eval_val(e: Expression, env: Map<char, Number>) -> Option<Number>
    decreases e,
{
    match e {
        Expression::String(_) => None,
        Expression::Numeric(n) => Some(n),
        Expression::Variable(c) => if env.contains_key(c) {
            Some(env[c])
        } else {
            None
        },
        Expression::Operator(op, l, r) => if l is Some && r is Some {
            match (eval_val(*l->Some_0, env), eval_val(*r->Some_0, env)) {
                (Some(a), Some(b)) => spec_apply(op, a, b),
                _ => None,
            }
        } else {
            None
        },
        Expression::Function(name, args) => call_val(name, args, env),
    }
}

/// The one value an RND-free call of a built-in function evaluates to:
/// only INT with a single argument succeeds here.
pub open spec fn call_val(name: String, args: Vec<Expression>, env: Map<char, Number>) -> Option<
    Number,
>
    decreases args,
{
    if name@ == "int"@ && args.len() == 1 {
        match eval_val(args[0], env) {
            Some(a) => Some(spec_int_fn(a)),
            None => None,
        }
    } else {
        None
    }
}

/// The evaluation relation: `v` is a value the expression can evaluate to.
/// RND makes it a relation rather than a function: a call of RND can
/// return any float.
pub open spec fn eval_to(e: Expression, env: Map<char, Number>, v: Number) -> bool
    decreases e,
{
    match e {
        Expression::String(_) => false,
        Expression::Numeric(n) => v == n,
        Expression::Variable(c) => env.contains_key(c) && v == env[c],
        Expression::Operator(op, l, r) => l is Some && r is Some && exists|a: Number, b: Number|
            #[trigger] spec_apply(op, a, b) == Some(v) && eval_to(*l->Some_0, env, a) && eval_to(
                *r->Some_0,
                env,
                b,
            ),
        Expression::Function(name, args) => call_to(name, args, env, v),
    }
}

/// The evaluation relation for a call of a built-in function: RND with no
/// argument can return any float; INT with one argument truncates it.
pub open spec fn call_to(name: String, args: Vec<Expression>, env: Map<char, Number>, v: Number) -> bool
    decreases args,
{
    if name@ == "rnd"@ {
        args.len() == 0 && (v matches Number::Float(b) && unit_float(b))
    } else if name@ == "int"@ {
        args.len() == 1 && exists|a: Number|
            eval_to(args[0], env, a) && v == #[trigger] spec_int_fn(a)
    } else {
        false
    }
}

/// The failure an operator application reports: integer overflow, or a
/// zero integer divisor; promotion to float never fails.
pub open spec fn apply_err(op: ArithOp, a: Number, b: Number) -> Option<Seq<char>> {
    match (a, b) {
        (Number::Integer(x), Number::Integer(y)) => match op {
            ArithOp::Add => if in_i32(x + y) {
                None
            } else {
                Some("Integer overflow"@)
            },
            ArithOp::Subtract => if in_i32(x - y) {
                None
            } else {
                Some("Integer overflow"@)
            },
            ArithOp::Multiply => if in_i32(x * y) {
                None
            } else {
                Some("Integer overflow"@)
            },
            ArithOp::Divide => if y == 0 {
                Some("Division by zero"@)
            } else if !in_i32(trunc_div(x as int, y as int)) {
                Some("Integer overflow"@)
            } else {
                None
            },
        },
        _ => None,
    }
}

/// The message of the first failure evaluating an RND-free expression,
/// in evaluation order — left child, right child, then the operator —
/// or `None` when evaluation succeeds.
pub open spec fn eval_err(e: Expression, env: Map<char, Number>) -> Option<Seq<char>>
    decreases e,
{
    match e {
        Expression::String(_) => Some("Invalid type in expression"@),
        Expression::Numeric(_) => None,
        Expression::Variable(c) => if env.contains_key(c) {
            None
        } else {
            Some("Unknown variable "@ + seq![c])
        },
        Expression::Operator(op, l, r) => if l is Some && r is Some {
            match eval_err(*l->Some_0, env) {
                Some(m) => Some(m),
                None => match eval_err(*r->Some_0, env) {
                    Some(m) => Some(m),
                    None => match (eval_val(*l->Some_0, env), eval_val(*r->Some_0, env)) {
                        (Some(a), Some(b)) => apply_err(op, a, b),
                        _ => None,
                    },
                },
            }
        } else {
            Some("Invalid type in expression"@)
        },
        Expression::Function(name, args) => call_err(name, args, env),
    }
}

/// The message of the first failure evaluating an RND-free call of a
/// built-in function.
pub open spec fn call_err(name: String, args: Vec<Expression>, env: Map<char, Number>) -> Option<
    Seq<char>,
>
    decreases args,
{
    if name@ == "rnd"@ {
        if args.len() == 0 {
            None
        } else {
            Some("Incorrect number of arguments to function rnd"@)
        }
    } else if name@ == "int"@ {
        if args.len() != 1 {
            Some("Incorrect number of arguments to function int"@)
        } else {
            eval_err(args[0], env)
        }
    } else {
        Some("Unknown identifier "@ + name@)
    }
}

/// Whether evaluation of the expression cannot fail, whatever values RND
/// returns: every variable is bound, every call is a known function with
/// the right argument count, and no operator application over possible
/// operand values overflows or divides an integer by zero.
pub open spec fn eval_total(e: Expression, env: Map<char, Number>) -> bool
    decreases e,
{
    match e {
        Expression::String(_) => false,
        Expression::Numeric(_) => true,
        Expression::Variable(c) => env.contains_key(c),
        Expression::Operator(op, l, r) => l is Some && r is Some && eval_total(*l->Some_0, env)
            && eval_total(*r->Some_0, env) && (forall|a: Number, b: Number|
            eval_to(*l->Some_0, env, a) && eval_to(*r->Some_0, env, b) ==> (#[trigger] spec_apply(
                op,
                a,
                b,
            )) is Some),
        Expression::Function(name, args) => (name@ == "rnd"@ && args.len() == 0) || (name@
            == "int"@ && args.len() == 1 && eval_total(args[0], env)),
    }
}

/// The one value of an RND-free expression is a value of the evaluation
/// relation: the functional and the relational descriptions of the
/// evaluator agree.
pub proof fn lemma_eval_val_sound(e: Expression, env: Map<char, Number>)
    requires
        rnd_free(e),
        eval_val(e, env) is Some,
    ensures
        eval_to(e, env, eval_val(e, env)->0),
    decreases e,
{
    match e {
        Expression::Operator(op, l, r) => {
            assert(l is Some && r is Some);
            assert(eval_val(*l->Some_0, env) is Some && eval_val(*r->Some_0, env) is Some);
            let a = eval_val(*l->Some_0, env)->0;
            let b = eval_val(*r->Some_0, env)->0;
            lemma_eval_val_sound(*l->Some_0, env);
            lemma_eval_val_sound(*r->Some_0, env);
            assert(eval_val(e, env) == spec_apply(op, a, b));
            assert(spec_apply(op, a, b) == Some(eval_val(e, env)->0) && eval_to(*l->Some_0, env, a)
                && eval_to(*r->Some_0, env, b));
            assert(eval_to(e, env, eval_val(e, env)->0));
        },
        Expression::Function(name, args) => {
            assert(call_val(name, args, env) is Some);
            assert(name@ == "int"@ && args.len() == 1);
            assert(all_rnd_free(args));
            assert(rnd_free(args[0]));
            let a = eval_val(args[0], env)->0;
            lemma_eval_val_sound(args[0], env);
            assert(name@ != "rnd"@);
            assert(eval_to(args[0], env, a) && eval_val(e, env)->0 == spec_int_fn(a));
            assert(call_to(name, args, env, eval_val(e, env)->0));
        },
        _ => {},
    }
}

/// Reduce an expression to a single value against the environment.
///
/// For an RND-free expression the outcome is exactly what `eval_val`
/// gives; in general every `Ok` value satisfies the evaluation relation,
/// and every failure is a runtime error.
pub fn eval_expression(root: &Expression, variables: &Variables) -> (r: Result<Number, BasicError>)
    requires
        variables.wf(),
        evaluable(*root),
    ensures
        r matches Ok(v) ==> eval_to(*root, variables@, v),
        r is Err ==> r->Err_0 is RuntimeError,
        rnd_free(*root) ==> match eval_val(*root, variables@) {
            Some(v) => r == Ok::<Number, BasicError>(v),
            None => r is Err,
        },
        rnd_free(*root) ==> match eval_err(*root, variables@) {
            Some(m) => r matches Err(e) && e is RuntimeError && e.text() == m,
            None => r is Ok,
        },
        eval_total(*root, variables@) ==> r is Ok,
        (*root matches Expression::Variable(c) && !variables@.contains_key(c)) ==> (r matches Err(e)
            && e.text() == "Unknown variable "@ + seq![root->Variable_0]),
    decreases *root,
{
    match root {
        Expression::String(_) => Err(
            BasicError::RuntimeError("Invalid type in expression".to_owned()),
        ),
        Expression::Numeric(n) => Ok(*n),
        Expression::Variable(c) => match variables.get(*c) {
            Some(v) => Ok(v),
            None => {
                let mut m = "Unknown variable ".to_owned();
                crate::text::push_char(&mut m, *c);
                proof {
                    assert(m@ =~= "Unknown variable "@ + seq![*c]);
                }
                Err(BasicError::RuntimeError(m))
            },
        },
        Expression::Operator(op, l, r) => match (l, r) {
            (Some(lb), Some(rb)) => {
                let a = match eval_expression(lb, variables) {
                    Ok(a) => a,
                    Err(e) => {
                        return Err(e);
                    },
                };
                let b = match eval_expression(rb, variables) {
                    Ok(b) => b,
                    Err(e) => {
                        return Err(e);
                    },
                };
                let res = match op {
                    ArithOp::Add => a.add(b),
                    ArithOp::Subtract => a.sub(b),
                    ArithOp::Multiply => a.mul(b),
                    ArithOp::Divide => a.div(b),
                };
                proof {
                    if rnd_free(*root) {
                        assert(eval_err(**lb, variables@) is None && eval_err(
                            **rb,
                            variables@,
                        ) is None);
                        assert(eval_val(**lb, variables@) == Some(a) && eval_val(
                            **rb,
                            variables@,
                        ) == Some(b));
                        assert(eval_err(*root, variables@) == apply_err(*op, a, b));
                    }
                    match res {
                        Ok(v) => {
                            assert(spec_apply(*op, a, b) == Some(v) && eval_to(**lb, variables@, a)
                                && eval_to(**rb, variables@, b));
                        },
                        Err(_) => {
                            if eval_total(*root, variables@) {
                                assert(eval_to(**lb, variables@, a) && eval_to(
                                    **rb,
                                    variables@,
                                    b,
                                ));
                                assert(spec_apply(*op, a, b) is Some);
                            }
                        },
                    }
                }
                res
            },
            _ => Err(BasicError::RuntimeError("Invalid type in expression".to_owned())),
        },
        Expression::Function(name, args) => crate::function::eval_function(name, args, variables),
    }
}

} // verus!
