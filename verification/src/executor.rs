//! The execution engine: a program counter, a call stack and a loop stack
//! driven over the program store, and the immediate mode around it.

use vstd::prelude::*;

use crate::console::Console;
use crate::errors::BasicError;
use crate::expression::{spec_add, spec_compare, Number};
use crate::parser::{
    char_at, digits_end, skip_spaces_from, statement_matches_line, SourceReader,
};
use crate::program::{
    has_line, idx_of, insert_pos, lemma_insert_pos_bounds, lemma_upsert_all_push, sorted_unique,
    update_program, upsert_all,
};
use crate::text::{dec_val, is_digit_char};
use crate::statement::{
    exec_rel, find_line, stmt_complete, stmt_text, stmt_wf, ProgramSignal, Statement,
};
use crate::text::{int_text, int_to_string};
use crate::variables::Variables;

verus! {

/// File work that only the host may perform for immediate mode.
pub enum HostAction {
    Load(String),
    Save(String),
}

/// Every statement of the program can be executed and rendered.
pub open spec fn program_wf(p: Seq<(i32, Statement)>) -> bool {
    forall|i: int|
        0 <= i < p.len() ==> stmt_wf((#[trigger] p[i]).1) && stmt_complete(p[i].1)
}

/// The line number of the program line at `pc`.
pub open spec fn line_of(p: Seq<(i32, Statement)>, pc: int) -> i32 {
    p[pc].0
}

/// Whether `w` is `er` with " in line n" appended, keeping the kind.
pub open spec fn wrapped_err(er: BasicError, line: i32, w: BasicError) -> bool {
    &&& (w is SyntaxError <==> er is SyntaxError)
    &&& w.text() == er.text() + " in line "@ + int_text(line as int)
}

/// The text of one listed or saved program line.
pub open spec fn line_text(l: (i32, Statement)) -> Seq<char> {
    int_text(l.0 as int) + " "@ + stmt_text(l.1)
}

/// How the engine applies one control-flow signal to its state: the table
/// of jumps, calls, returns, loop entry and exit, and the immediate
/// commands it rejects mid-run.
pub open spec fn signal_rel(
    sig: ProgramSignal,
    program: Seq<(i32, Statement)>,
    pc0: int,
    pc1: int,
    run0: bool,
    run1: bool,
    env0: Map<char, Number>,
    env1: Map<char, Number>,
    stack0: Seq<usize>,
    stack1: Seq<usize>,
    loops0: Seq<(char, i32, i32, usize)>,
    loops1: Seq<(char, i32, i32, usize)>,
    r: Option<BasicError>,
) -> bool {
    match sig {
        // A jump resolves its line number to an index; a missing target
        // is reported against the source line, the one at `pc0`.
        ProgramSignal::Jump(n) => env1 == env0 && stack1 == stack0 && loops1 == loops0 && run1
            == run0 && (if has_line(program, n) {
            &&& 0 <= pc1 < program.len()
            &&& program[pc1].0 == n
            &&& forall|j: int| 0 <= j < pc1 ==> (#[trigger] program[j]).0 != n
            &&& r is None
        } else {
            &&& pc1 == pc0
            &&& (r matches Some(e) && e is RuntimeError && e.text() == "Unknown line number in line "@
                + int_text(line_of(program, pc0) as int))
        }),
        // A call pushes the calling position before resolving, as the
        // engine always has.
        ProgramSignal::Call(n) => env1 == env0 && loops1 == loops0 && run1 == run0 && stack1
            == stack0.push(pc0 as usize) && (if has_line(program, n) {
            &&& 0 <= pc1 < program.len()
            &&& program[pc1].0 == n
            &&& forall|j: int| 0 <= j < pc1 ==> (#[trigger] program[j]).0 != n
            &&& r is None
        } else {
            &&& pc1 == pc0
            &&& (r matches Some(e) && e is RuntimeError && e.text() == "Unknown line number in line "@
                + int_text(line_of(program, pc0) as int))
        }),
        // A return pops the saved position and resumes one past it.
        ProgramSignal::Return => env1 == env0 && loops1 == loops0 && run1 == run0 && (if stack0.len()
            == 0 {
            &&& stack1 == stack0
            &&& pc1 == pc0
            &&& (r matches Some(e) && e is RuntimeError && e.text()
                == "Return without gosub in line "@ + int_text(line_of(program, pc0) as int))
        } else {
            &&& stack1 == stack0.drop_last()
            &&& pc1 == stack0.last() + 1
            &&& r is None
        }),
        // Loop entry: a missing step is inferred from the direction of the
        // bounds; a zero step is always an error; re-entry into the active
        // loop is a no-op besides advancing.
        ProgramSignal::StartLoop(var, start, end, step_opt) => stack1 == stack0 && run1 == run0 && {
            let step: i32 = if step_opt is Some {
                step_opt->0
            } else if end < start {
                -1i32
            } else {
                1i32
            };
            if step == 0 {
                &&& env1 == env0
                &&& loops1 == loops0
                &&& pc1 == pc0
                &&& (r matches Some(e) && e is RuntimeError && e.text()
                    == "Step value cannot be zero"@)
            } else if loops0.len() == 0 || loops0.last().0 != var {
                &&& env1 == env0.insert(var, Number::Integer(start))
                &&& loops1 == loops0.push((var, end, step, pc0 as usize))
                &&& pc1 == pc0 + 1
                &&& r is None
            } else {
                &&& env1 == env0
                &&& loops1 == loops0
                &&& pc1 == pc0 + 1
                &&& r is None
            }
        },
        // Loop exit: step the variable; past the bound the frame is
        // dropped, otherwise control returns to the loop's FOR line.
        ProgramSignal::EndLoop => stack1 == stack0 && run1 == run0 && (if loops0.len() == 0 {
            &&& env1 == env0
            &&& loops1 == loops0
            &&& pc1 == pc0
            &&& (r matches Some(e) && e is RuntimeError && e.text() == "Next without for"@)
        } else {
            let frame = loops0.last();
            if !env0.contains_key(frame.0) {
                &&& env1 == env0
                &&& loops1 == loops0
                &&& pc1 == pc0
                &&& (r matches Some(e) && e is RuntimeError)
            } else {
                match spec_add(env0[frame.0], Number::Integer(frame.2)) {
                    None => {
                        &&& env1 == env0
                        &&& loops1 == loops0
                        &&& pc1 == pc0
                        &&& (r matches Some(e) && e is RuntimeError)
                    },
                    Some(nv) => {
                        let finished = if frame.2 < 0 {
                            spec_compare(nv, Number::Integer(frame.1)) == Some(
                                core::cmp::Ordering::Less,
                            )
                        } else {
                            spec_compare(nv, Number::Integer(frame.1)) == Some(
                                core::cmp::Ordering::Greater,
                            )
                        };
                        &&& env1 == env0.insert(frame.0, nv)
                        &&& (if finished {
                            loops1 == loops0.drop_last() && pc1 == pc0 + 1
                        } else {
                            loops1 == loops0 && pc1 == frame.3
                        })
                        &&& r is None
                    },
                }
            }
        }),
        // The immediate commands are rejected while a program runs.
        ProgramSignal::List => env1 == env0 && stack1 == stack0 && loops1 == loops0 && run1 == run0
            && pc1 == pc0 && (r matches Some(e) && e is RuntimeError && e.text()
            == "Cannot list a program during execution"@),
        ProgramSignal::Run => env1 == env0 && stack1 == stack0 && loops1 == loops0 && run1 == run0
            && pc1 == pc0 && (r matches Some(e) && e is RuntimeError && e.text()
            == "Cannot run a program that's already in execution"@),
        ProgramSignal::Load(_) => env1 == env0 && stack1 == stack0 && loops1 == loops0 && run1
            == run0 && pc1 == pc0 && (r matches Some(e) && e is RuntimeError && e.text()
            == "Cannot load a program during execution"@),
        ProgramSignal::Save(_) => env1 == env0 && stack1 == stack0 && loops1 == loops0 && run1
            == run0 && pc1 == pc0 && (r matches Some(e) && e is RuntimeError && e.text()
            == "Cannot save a program during execution"@),
        // Clearing the variables is allowed mid-run.
        ProgramSignal::ClearVars => env1 == Map::<char, Number>::empty() && stack1 == stack0
            && loops1 == loops0 && run1 == run0 && pc1 == pc0 + 1 && r is None,
        ProgramSignal::End => env1 == env0 && stack1 == stack0 && loops1 == loops0 && run1 == false
            && pc1 == pc0 && r is None,
    }
}

/// Apply one signal to the engine state.
pub fn apply_signal(
    signal: &ProgramSignal,
    pc: &mut usize,
    running: &mut bool,
    variables: &mut Variables,
    stack: &mut Vec<usize>,
    loop_stack: &mut Vec<(char, i32, i32, usize)>,
    program: &Vec<(i32, Statement)>,
) -> (r: Option<BasicError>)
    requires
        old(variables).wf(),
        *old(pc) < program@.len(),
        forall|i: int| 0 <= i < old(stack)@.len() ==> (#[trigger] old(stack)@[i]) < program@.len(),
        forall|i: int|
            0 <= i < old(loop_stack)@.len() ==> (#[trigger] old(loop_stack)@[i]).3
                < program@.len(),
    ensures
        final(variables).wf(),
        *final(pc) <= program@.len(),
        forall|i: int| 0 <= i < final(stack)@.len() ==> (#[trigger] final(stack)@[i]) < program@.len(),
        forall|i: int|
            0 <= i < final(loop_stack)@.len() ==> (#[trigger] final(loop_stack)@[i]).3
                < program@.len(),
        signal_rel(
            *signal,
            program@,
            *old(pc) as int,
            *final(pc) as int,
            *old(running),
            *final(running),
            old(variables)@,
            final(variables)@,
            old(stack)@,
            final(stack)@,
            old(loop_stack)@,
            final(loop_stack)@,
            r,
        ),
{
    let prog_len = program.len();
    match signal {
        ProgramSignal::Jump(line_num) => match find_line(program, *line_num) {
            Some(new_line) => {
                *pc = new_line;
                None
            },
            None => Some(unknown_line_error(program, *pc)),
        },
        ProgramSignal::Call(line_num) => {
            // Push the current location for a later return.
            stack.push(*pc);
            match find_line(program, *line_num) {
                Some(new_line) => {
                    *pc = new_line;
                    None
                },
                None => Some(unknown_line_error(program, *pc)),
            }
        },
        ProgramSignal::Return => {
            if stack.len() == 0 {
                let mut m = "Return without gosub in line ".to_owned();
                let t = int_to_string(program[*pc].0);
                m.append(t.as_str());
                return Some(BasicError::RuntimeError(m));
            }
            let address = stack[stack.len() - 1];
            stack.pop();
            proof {
                assert(stack@ =~= old(stack)@.drop_last());
            }
            *pc = address + 1;
            None
        },
        ProgramSignal::StartLoop(var, start_val, end_val, maybe_step_val) => {
            // Without a step the loop runs toward its end value: downward
            // when the end lies below the start.
            let step_val: i32 = match maybe_step_val {
                Some(v) => *v,
                None => {
                    if *end_val < *start_val {
                        -1
                    } else {
                        1
                    }
                },
            };
            if step_val == 0 {
                return Some(BasicError::RuntimeError("Step value cannot be zero".to_owned()));
            }
            // Entering a fresh loop sets the variable and pushes a frame;
            // re-executing the active loop's FOR line only advances.
            let entering = if loop_stack.len() == 0 {
                true
            } else {
                loop_stack[loop_stack.len() - 1].0 != *var
            };
            if entering {
                variables.insert(*var, Number::Integer(*start_val));
                loop_stack.push((*var, *end_val, step_val, *pc));
            }
            *pc = *pc + 1;
            None
        },
        ProgramSignal::EndLoop => {
            if loop_stack.len() == 0 {
                return Some(BasicError::RuntimeError("Next without for".to_owned()));
            }
            let frame = loop_stack[loop_stack.len() - 1];
            let current = match variables.get(frame.0) {
                Some(v) => v,
                None => {
                    let mut m = "Unknown variable ".to_owned();
                    crate::text::push_char(&mut m, frame.0);
                    return Some(BasicError::RuntimeError(m));
                },
            };
            let next_val = match current.add(Number::Integer(frame.2)) {
                Ok(v) => v,
                Err(e) => {
                    return Some(e);
                },
            };
            variables.insert(frame.0, next_val);
            // Past the end value the loop is done; otherwise return to
            // the FOR line, which re-executes as a no-op and advances
            // into the body.
            let end_reached = if frame.2 < 0 {
                matches!(next_val.compare(&Number::Integer(frame.1)), Some(core::cmp::Ordering::Less))
            } else {
                matches!(
                    next_val.compare(&Number::Integer(frame.1)),
                    Some(core::cmp::Ordering::Greater),
                )
            };
            if end_reached {
                loop_stack.pop();
                proof {
                    assert(loop_stack@ =~= old(loop_stack)@.drop_last());
                }
                *pc = *pc + 1;
            } else {
                *pc = frame.3;
            }
            None
        },
        ProgramSignal::List => Some(
            BasicError::RuntimeError("Cannot list a program during execution".to_owned()),
        ),
        ProgramSignal::Run => Some(
            BasicError::RuntimeError("Cannot run a program that's already in execution".to_owned()),
        ),
        ProgramSignal::Load(_) => Some(
            BasicError::RuntimeError("Cannot load a program during execution".to_owned()),
        ),
        ProgramSignal::Save(_) => Some(
            BasicError::RuntimeError("Cannot save a program during execution".to_owned()),
        ),
        ProgramSignal::ClearVars => {
            variables.clear();
            *pc = *pc + 1;
            None
        },
        ProgramSignal::End => {
            *running = false;
            None
        },
    }
}

/// A RETURN after a GOSUB resumes one line past the calling line, and
/// leaves the call stack as it was before the call: the call pushes the
/// calling position and resolves the target, the return pops it.
pub proof fn lemma_gosub_return_round_trip(
    target: i32,
    program: Seq<(i32, Statement)>,
    pc0: int,
    pc1: int,
    pc2: int,
    run0: bool,
    env0: Map<char, Number>,
    stack0: Seq<usize>,
    stack1: Seq<usize>,
    stack2: Seq<usize>,
    loops0: Seq<(char, i32, i32, usize)>,
)
    requires
        0 <= pc0 < usize::MAX,
        signal_rel(
            ProgramSignal::Call(target),
            program,
            pc0,
            pc1,
            run0,
            run0,
            env0,
            env0,
            stack0,
            stack1,
            loops0,
            loops0,
            None,
        ),
        signal_rel(
            ProgramSignal::Return,
            program,
            pc1,
            pc2,
            run0,
            run0,
            env0,
            env0,
            stack1,
            stack2,
            loops0,
            loops0,
            None,
        ),
    ensures
        pc2 == pc0 + 1,
        stack2 == stack0,
{
    assert(stack1 == stack0.push(pc0 as usize));
    assert(stack1.last() == pc0 as usize);
    assert(stack2 =~= stack0);
}

/// A RETURN with an empty call stack is a runtime error and moves
/// nothing.
pub proof fn lemma_return_without_gosub(
    program: Seq<(i32, Statement)>,
    pc0: int,
    pc1: int,
    run0: bool,
    run1: bool,
    env0: Map<char, Number>,
    env1: Map<char, Number>,
    stack1: Seq<usize>,
    loops0: Seq<(char, i32, i32, usize)>,
    loops1: Seq<(char, i32, i32, usize)>,
    r: Option<BasicError>,
)
    requires
        signal_rel(
            ProgramSignal::Return,
            program,
            pc0,
            pc1,
            run0,
            run1,
            env0,
            env1,
            Seq::<usize>::empty(),
            stack1,
            loops0,
            loops1,
            r,
        ),
    ensures
        r is Some && r->0 is RuntimeError,
        pc1 == pc0,
        stack1 == Seq::<usize>::empty(),
{
}

/// A STEP of zero is a runtime error whatever the start and end values
/// are, and moves nothing.
pub proof fn lemma_step_zero_always_fails(
    var: char,
    start: i32,
    end: i32,
    program: Seq<(i32, Statement)>,
    pc0: int,
    pc1: int,
    run0: bool,
    run1: bool,
    env0: Map<char, Number>,
    env1: Map<char, Number>,
    stack0: Seq<usize>,
    stack1: Seq<usize>,
    loops0: Seq<(char, i32, i32, usize)>,
    loops1: Seq<(char, i32, i32, usize)>,
    r: Option<BasicError>,
)
    requires
        signal_rel(
            ProgramSignal::StartLoop(var, start, end, Some(0)),
            program,
            pc0,
            pc1,
            run0,
            run1,
            env0,
            env1,
            stack0,
            stack1,
            loops0,
            loops1,
            r,
        ),
    ensures
        r is Some && r->0 is RuntimeError && r->0.text() == "Step value cannot be zero"@,
        pc1 == pc0,
        env1 == env0,
        loops1 == loops0,
{
}

/// A FOR without a STEP whose end lies below its start enters the loop
/// counting downward: the frame it pushes carries a step of minus one,
/// and the loop variable starts at the start value.
pub proof fn lemma_for_infers_downward_step(
    var: char,
    start: i32,
    end: i32,
    program: Seq<(i32, Statement)>,
    pc0: int,
    pc1: int,
    run0: bool,
    run1: bool,
    env0: Map<char, Number>,
    env1: Map<char, Number>,
    stack0: Seq<usize>,
    stack1: Seq<usize>,
    loops0: Seq<(char, i32, i32, usize)>,
    loops1: Seq<(char, i32, i32, usize)>,
    r: Option<BasicError>,
)
    requires
        end < start,
        loops0.len() == 0 || loops0.last().0 != var,
        signal_rel(
            ProgramSignal::StartLoop(var, start, end, None),
            program,
            pc0,
            pc1,
            run0,
            run1,
            env0,
            env1,
            stack0,
            stack1,
            loops0,
            loops1,
            r,
        ),
    ensures
        r is None,
        env1 == env0.insert(var, Number::Integer(start)),
        loops1 == loops0.push((var, end, -1i32, pc0 as usize)),
        pc1 == pc0 + 1,
{
}

/// Whether `r` wraps the error `er` with the number of the line at `pc0`.
pub open spec fn wrapped_from(
    er: BasicError,
    program: Seq<(i32, Statement)>,
    pc0: int,
    r: Option<BasicError>,
) -> bool {
    match r {
        Some(w) => wrapped_err(er, line_of(program, pc0), w),
        None => false,
    }
}

/// The relation one engine step establishes: the statement executes
/// against the environment and console, and the engine interprets what
/// came back. No signal advances the counter by one; a signal is applied
/// as `signal_rel` says; an execution error is wrapped with the source
/// line's number and ends the step with the control state untouched.
pub open spec fn indirect_rel(
    stmt: Statement,
    program: Seq<(i32, Statement)>,
    pc0: int,
    pc1: int,
    run0: bool,
    run1: bool,
    env0: Map<char, Number>,
    env1: Map<char, Number>,
    in0: Seq<Seq<char>>,
    in1: Seq<Seq<char>>,
    out0: Seq<Seq<char>>,
    out1: Seq<Seq<char>>,
    stack0: Seq<usize>,
    stack1: Seq<usize>,
    loops0: Seq<(char, i32, i32, usize)>,
    loops1: Seq<(char, i32, i32, usize)>,
    r: Option<BasicError>,
) -> bool {
    ||| {
        &&& exec_rel(stmt, env0, env1, in0, in1, out0, out1, Ok(None))
        &&& pc1 == pc0 + 1
        &&& run1 == run0
        &&& stack1 == stack0
        &&& loops1 == loops0
        &&& r is None
    }
    ||| (exists|sig: ProgramSignal, envm: Map<char, Number>|
        {
            &&& exec_rel(stmt, env0, envm, in0, in1, out0, out1, Ok(Some(sig)))
            &&& #[trigger] signal_rel(
                sig,
                program,
                pc0,
                pc1,
                run0,
                run1,
                envm,
                env1,
                stack0,
                stack1,
                loops0,
                loops1,
                r,
            )
        })
    ||| (exists|er: BasicError|
        {
            &&& #[trigger] wrapped_from(er, program, pc0, r)
            &&& exec_rel(stmt, env0, env1, in0, in1, out0, out1, Err(er))
            &&& pc1 == pc0
            &&& run1 == run0
            &&& stack1 == stack0
            &&& loops1 == loops0
        })
}

/// Execute one statement as part of a running program: one step of the
/// engine's fetch/execute loop.
pub fn execute_indirect(
    statement: &Statement,
    pc: &mut usize,
    running: &mut bool,
    variables: &mut Variables,
    stack: &mut Vec<usize>,
    loop_stack: &mut Vec<(char, i32, i32, usize)>,
    program: &Vec<(i32, Statement)>,
    console: &mut Console,
) -> (r: Option<BasicError>)
    requires
        stmt_wf(*statement),
        old(variables).wf(),
        *old(pc) < program@.len(),
        forall|i: int| 0 <= i < old(stack)@.len() ==> (#[trigger] old(stack)@[i]) < program@.len(),
        forall|i: int|
            0 <= i < old(loop_stack)@.len() ==> (#[trigger] old(loop_stack)@[i]).3
                < program@.len(),
    ensures
        final(variables).wf(),
        *final(pc) <= program@.len(),
        forall|i: int| 0 <= i < final(stack)@.len() ==> (#[trigger] final(stack)@[i]) < program@.len(),
        forall|i: int|
            0 <= i < final(loop_stack)@.len() ==> (#[trigger] final(loop_stack)@[i]).3
                < program@.len(),
        old(console).out_text().is_prefix_of(final(console).out_text()),
        final(console).in_text().is_suffix_of(old(console).in_text()),
        indirect_rel(
            *statement,
            program@,
            *old(pc) as int,
            *final(pc) as int,
            *old(running),
            *final(running),
            old(variables)@,
            final(variables)@,
            old(console).in_text(),
            final(console).in_text(),
            old(console).out_text(),
            final(console).out_text(),
            old(stack)@,
            final(stack)@,
            old(loop_stack)@,
            final(loop_stack)@,
            r,
        ),
{
    let prog_len = program.len();
    match statement.execute(variables, console) {
        Ok(maybe_flow) => match maybe_flow {
            None => {
                *pc = *pc + 1;
                None
            },
            Some(sig) => {
                let ghost gsig = sig;
                let ghost envm = variables@;
                let res = apply_signal(&sig, pc, running, variables, stack, loop_stack, program);
                proof {
                    assert(signal_rel(
                        gsig,
                        program@,
                        *old(pc) as int,
                        *pc as int,
                        *old(running),
                        *running,
                        envm,
                        variables@,
                        old(stack)@,
                        stack@,
                        old(loop_stack)@,
                        loop_stack@,
                        res,
                    ));
                }
                res
            },
        },
        Err(e) => {
            // Wrap the error with the number of the line that raised it.
            let ghost er = e;
            let suffix = {
                let mut t = " in line ".to_owned();
                let num = int_to_string(program[*pc].0);
                t.append(num.as_str());
                t
            };
            let ghost line = program@[*old(pc) as int].0;
            let w = match e {
                BasicError::SyntaxError(m) => {
                    let mut t = m;
                    t.append(suffix.as_str());
                    proof {
                        assert(t@ =~= er.text() + " in line "@ + int_text(line as int));
                    }
                    BasicError::SyntaxError(t)
                },
                BasicError::RuntimeError(m) => {
                    let mut t = m;
                    t.append(suffix.as_str());
                    proof {
                        assert(t@ =~= er.text() + " in line "@ + int_text(line as int));
                    }
                    BasicError::RuntimeError(t)
                },
            };
            let r = Some(w);
            proof {
                assert(wrapped_from(er, program@, *old(pc) as int, r));
            }
            r
        },
    }
}

/// The engine's whole state between two steps of a run.
pub struct EngineState {
    pub pc: int,
    pub running: bool,
    pub env: Map<char, Number>,
    pub input: Seq<Seq<char>>,
    pub output: Seq<Seq<char>>,
    pub stack: Seq<usize>,
    pub loops: Seq<(char, i32, i32, usize)>,
}

/// The state a run starts from: the first line, empty stacks, and
/// whatever environment and console the session carries.
pub open spec fn start_state(
    env: Map<char, Number>,
    input: Seq<Seq<char>>,
    output: Seq<Seq<char>>,
) -> EngineState {
    EngineState {
        pc: 0,
        running: true,
        env: env,
        input: input,
        output: output,
        stack: Seq::empty(),
        loops: Seq::empty(),
    }
}

/// One successful engine step: the statement under the counter executes
/// and its outcome is applied without an error.
pub open spec fn engine_step(program: Seq<(i32, Statement)>, a: EngineState, b: EngineState) -> bool {
    &&& 0 <= a.pc < program.len()
    &&& a.running
    &&& indirect_rel(
        program[a.pc].1,
        program,
        a.pc,
        b.pc,
        a.running,
        b.running,
        a.env,
        b.env,
        a.input,
        b.input,
        a.output,
        b.output,
        a.stack,
        b.stack,
        a.loops,
        b.loops,
        None,
    )
}

/// One failing engine step: the statement under the counter ends the run
/// with the error `e`.
pub open spec fn engine_failing_step(
    program: Seq<(i32, Statement)>,
    a: EngineState,
    b: EngineState,
    e: BasicError,
) -> bool {
    &&& 0 <= a.pc < program.len()
    &&& a.running
    &&& indirect_rel(
        program[a.pc].1,
        program,
        a.pc,
        b.pc,
        a.running,
        b.running,
        a.env,
        b.env,
        a.input,
        b.input,
        a.output,
        b.output,
        a.stack,
        b.stack,
        a.loops,
        b.loops,
        Some(e),
    )
}

/// Whether `b` arises from `a` by exactly `n` successful engine steps.
pub open spec fn engine_reach_n(
    program: Seq<(i32, Statement)>,
    a: EngineState,
    b: EngineState,
    n: nat,
) -> bool
    decreases n,
{
    if n == 0 {
        b == a
    } else {
        exists|m: EngineState|
            engine_reach_n(program, a, m, (n - 1) as nat) && #[trigger] engine_step(program, m, b)
    }
}

/// Whether `b` arises from `a` by some chain of successful engine steps.
pub open spec fn engine_reach(program: Seq<(i32, Statement)>, a: EngineState, b: EngineState) -> bool {
    exists|n: nat| engine_reach_n(program, a, b, n)
}

/// Run the program from its first line until the counter leaves the
/// store, an END stops it, or an error ends the run: the state the run
/// ends in arises from the starting state by a chain of legal engine
/// steps. The step bound keeps every loop in the library provably
/// finite; it is astronomically larger than any program that finishes
/// will use.
pub fn run(variables: &mut Variables, program: &Vec<(i32, Statement)>, console: &mut Console) -> (r:
    Option<BasicError>)
    requires
        old(variables).wf(),
        program_wf(program@),
    ensures
        final(variables).wf(),
        old(console).out_text().is_prefix_of(final(console).out_text()),
        final(console).in_text().is_suffix_of(old(console).in_text()),
        r is None ==> final(console).out_text().len() > 0 && final(console).out_text().last()
            == "Ready.\n"@,
        program@.len() == 0 ==> r is None && final(variables)@ == old(variables)@,
        r is None ==> exists|s: EngineState|
            {
                &&& #[trigger] engine_reach(
                    program@,
                    start_state(
                        old(variables)@,
                        old(console).in_text(),
                        old(console).out_text(),
                    ),
                    s,
                )
                &&& !(0 <= s.pc < program@.len() && s.running)
                &&& s.env == final(variables)@
                &&& s.input == final(console).in_text()
                &&& final(console).out_text() == s.output.push("Ready.\n"@)
            },
        r matches Some(e) ==> (exists|s: EngineState, s2: EngineState|
            {
                &&& engine_reach(
                    program@,
                    start_state(
                        old(variables)@,
                        old(console).in_text(),
                        old(console).out_text(),
                    ),
                    s,
                )
                &&& #[trigger] engine_failing_step(program@, s, s2, e)
                &&& s2.env == final(variables)@
                &&& s2.input == final(console).in_text()
                &&& s2.output == final(console).out_text()
            }) || (exists|s: EngineState|
            #[trigger] engine_reach_n(
                program@,
                start_state(old(variables)@, old(console).in_text(), old(console).out_text()),
                s,
                0xffff_ffff_ffff_ffff as nat,
            )),
{
    let mut pc: usize = 0;
    let mut running = true;
    let mut stack: Vec<usize> = Vec::new();
    let mut loop_stack: Vec<(char, i32, i32, usize)> = Vec::new();
    let mut fuel: u64 = 0xffff_ffff_ffff_ffff;
    let program_size = program.len();
    let ghost init = start_state(old(variables)@, old(console).in_text(), old(console).out_text());
    proof {
        assert(engine_reach_n(program@, init, init, 0));
        assert(stack@ =~= Seq::<usize>::empty());
        assert(loop_stack@ =~= Seq::<(char, i32, i32, usize)>::empty());
    }
    // Execution continues until the counter passes the last line or
    // something clears the running flag, such as the END command.
    while pc < program_size && running
        invariant
            program_size == program@.len(),
            program_wf(program@),
            variables.wf(),
            forall|i: int| 0 <= i < stack@.len() ==> (#[trigger] stack@[i]) < program_size,
            forall|i: int|
                0 <= i < loop_stack@.len() ==> (#[trigger] loop_stack@[i]).3 < program_size,
            old(console).out_text().is_prefix_of(console.out_text()),
            console.in_text().is_suffix_of(old(console).in_text()),
            program@.len() == 0 ==> variables@ == old(variables)@,
            init == start_state(
                old(variables)@,
                old(console).in_text(),
                old(console).out_text(),
            ),
            engine_reach_n(
                program@,
                init,
                EngineState {
                    pc: pc as int,
                    running: running,
                    env: variables@,
                    input: console.in_text(),
                    output: console.out_text(),
                    stack: stack@,
                    loops: loop_stack@,
                },
                (0xffff_ffff_ffff_ffff - fuel) as nat,
            ),
        decreases fuel,
    {
        if fuel == 0 {
            proof {
                let cur = EngineState {
                    pc: pc as int,
                    running: running,
                    env: variables@,
                    input: console.in_text(),
                    output: console.out_text(),
                    stack: stack@,
                    loops: loop_stack@,
                };
                assert(engine_reach_n(program@, init, cur, 0xffff_ffff_ffff_ffff as nat));
            }
            return Some(BasicError::RuntimeError("Execution limit reached".to_owned()));
        }
        let ghost steps0 = (0xffff_ffff_ffff_ffffu64 - fuel) as nat;
        fuel = fuel - 1;
        let ghost mid_out = console.out_text();
        let ghost mid_in = console.in_text();
        let ghost prev = EngineState {
            pc: pc as int,
            running: running,
            env: variables@,
            input: console.in_text(),
            output: console.out_text(),
            stack: stack@,
            loops: loop_stack@,
        };
        let s = &program[pc];
        proof {
            assert(stmt_wf(program@[pc as int].1));
        }
        let stepped = execute_indirect(
            &s.1,
            &mut pc,
            &mut running,
            variables,
            &mut stack,
            &mut loop_stack,
            program,
            console,
        );
        proof {
            lemma_prefix_trans(old(console).out_text(), mid_out, console.out_text());
            lemma_suffix_trans(console.in_text(), mid_in, old(console).in_text());
        }
        let ghost here = EngineState {
            pc: pc as int,
            running: running,
            env: variables@,
            input: console.in_text(),
            output: console.out_text(),
            stack: stack@,
            loops: loop_stack@,
        };
        match stepped {
            None => {
                proof {
                    assert(engine_step(program@, prev, here));
                    assert(engine_reach_n(program@, init, prev, steps0));
                    assert(engine_reach_n(program@, init, here, steps0 + 1));
                    assert(steps0 + 1 == (0xffff_ffff_ffff_ffff - fuel) as nat);
                }
            },
            Some(e) => {
                proof {
                    assert(engine_failing_step(program@, prev, here, e));
                    assert(engine_reach_n(program@, init, prev, steps0));
                    assert(engine_reach(program@, init, prev));
                }
                return Some(e);
            },
        }
    }
    let ghost done = EngineState {
        pc: pc as int,
        running: running,
        env: variables@,
        input: console.in_text(),
        output: console.out_text(),
        stack: stack@,
        loops: loop_stack@,
    };
    console.write("Ready.\n".to_owned());
    proof {
        assert(old(console).out_text() =~= console.out_text().subrange(
            0,
            old(console).out_text().len() as int,
        ));
        assert(engine_reach_n(program@, init, done, (0xffff_ffff_ffff_ffff - fuel) as nat));
        assert(engine_reach(program@, init, done) && !(0 <= done.pc < program@.len()
            && done.running) && done.env == variables@ && done.input == console.in_text()
            && console.out_text() == done.output.push("Ready.\n"@));
    }
    None
}

/// What a resumed run stopped for: the program finished, the next
/// statement is INPUT and the console holds no queued line, or an error
/// ended the run.
pub enum RunPause {
    Finished,
    AwaitingInput,
    Failed(BasicError),
}

/// The engine's control state across a paused run: the host can resume
/// after feeding the console.
pub struct Engine {
    pc: usize,
    running: bool,
    stack: Vec<usize>,
    loop_stack: Vec<(char, i32, i32, usize)>,
    fuel: u64,
}

impl Engine {
    /// Every saved position points into the program.
    pub closed spec fn ok_for(&self, program: Seq<(i32, Statement)>) -> bool {
        &&& forall|i: int| 0 <= i < self.stack@.len() ==> (#[trigger] self.stack@[i]) < program.len()
        &&& forall|i: int|
            0 <= i < self.loop_stack@.len() ==> (#[trigger] self.loop_stack@[i]).3 < program.len()
    }

    /// The steps the engine may still take before its bound ends a run.
    pub closed spec fn budget(&self) -> nat {
        self.fuel as nat
    }

    /// The engine state as a value, over the given environment and console.
    pub closed spec fn state(
        &self,
        env: Map<char, Number>,
        input: Seq<Seq<char>>,
        output: Seq<Seq<char>>,
    ) -> EngineState {
        EngineState {
            pc: self.pc as int,
            running: self.running,
            env: env,
            input: input,
            output: output,
            stack: self.stack@,
            loops: self.loop_stack@,
        }
    }

    /// An engine at the first line, with empty stacks.
    pub fn new() -> (e: Engine)
        ensures
            forall|program: Seq<(i32, Statement)>| e.ok_for(program),
            forall|env: Map<char, Number>, input: Seq<Seq<char>>, output: Seq<Seq<char>>|
                #[trigger] e.state(env, input, output) == start_state(env, input, output),
    {
        let e = Engine {
            pc: 0,
            running: true,
            stack: Vec::new(),
            loop_stack: Vec::new(),
            fuel: 0xffff_ffff_ffff_ffff,
        };
        proof {
            assert(e.stack@ =~= Seq::<usize>::empty());
            assert(e.loop_stack@ =~= Seq::<(char, i32, i32, usize)>::empty());
            assert forall|env: Map<char, Number>, input: Seq<Seq<char>>, output: Seq<Seq<char>>|
                #[trigger] e.state(env, input, output) == start_state(env, input, output) by {
            }
        }
        e
    }

    /// Run until the program ends, an error ends it, or the statement
    /// under the counter is INPUT while the console holds no queued
    /// line: then the engine pauses so the host can feed a line and
    /// resume. The state it stops in arises from the state it started in
    /// by a chain of legal engine steps.
    pub fn resume(
        &mut self,
        variables: &mut Variables,
        program: &Vec<(i32, Statement)>,
        console: &mut Console,
    ) -> (r: RunPause)
        requires
            old(self).ok_for(program@),
            old(variables).wf(),
            program_wf(program@),
        ensures
            final(self).ok_for(program@),
            final(variables).wf(),
            old(console).out_text().is_prefix_of(final(console).out_text()),
            final(console).in_text().is_suffix_of(old(console).in_text()),
            ({
                let entry = old(self).state(
                    old(variables)@,
                    old(console).in_text(),
                    old(console).out_text(),
                );
                let exit = final(self).state(
                    final(variables)@,
                    final(console).in_text(),
                    final(console).out_text(),
                );
                match r {
                    RunPause::Finished => engine_reach(program@, entry, exit) && !(0 <= exit.pc
                        < program@.len() && exit.running),
                    RunPause::AwaitingInput => engine_reach(program@, entry, exit) && 0 <= exit.pc
                        < program@.len() && exit.running && program@[exit.pc].1 is Input
                        && exit.input.len() == 0,
                    RunPause::Failed(e) => (exists|s: EngineState, s2: EngineState|
                        {
                            &&& engine_reach(program@, entry, s)
                            &&& #[trigger] engine_failing_step(program@, s, s2, e)
                            &&& s2.env == final(variables)@
                            &&& s2.input == final(console).in_text()
                            &&& s2.output == final(console).out_text()
                        }) || (exists|s: EngineState|
                        #[trigger] engine_reach_n(program@, entry, s, old(self).budget())),
                }
            }),
    {
        let ghost entry = old(self).state(
            old(variables)@,
            old(console).in_text(),
            old(console).out_text(),
        );
        let ghost fuel0 = self.fuel;
        let program_size = program.len();
        proof {
            assert(engine_reach_n(program@, entry, entry, 0));
        }
        while self.pc < program_size && self.running
            invariant
                program_size == program@.len(),
                program_wf(program@),
                variables.wf(),
                self.ok_for(program@),
                self.fuel <= fuel0,
                fuel0 == old(self).fuel,
                old(console).out_text().is_prefix_of(console.out_text()),
                console.in_text().is_suffix_of(old(console).in_text()),
                entry == old(self).state(
                    old(variables)@,
                    old(console).in_text(),
                    old(console).out_text(),
                ),
                engine_reach_n(
                    program@,
                    entry,
                    self.state(variables@, console.in_text(), console.out_text()),
                    (fuel0 - self.fuel) as nat,
                ),
            decreases self.fuel,
        {
            if self.fuel == 0 {
                proof {
                    assert(old(self).budget() == fuel0 as nat);
                    assert(engine_reach_n(
                        program@,
                        entry,
                        self.state(variables@, console.in_text(), console.out_text()),
                        old(self).budget(),
                    ));
                }
                return RunPause::Failed(
                    BasicError::RuntimeError("Execution limit reached".to_owned()),
                );
            }
            // Pause for the host when the next statement reads input the
            // console does not hold.
            let needs_input = matches!(program[self.pc].1, Statement::Input(_));
            if needs_input && console.input.len() == 0 {
                proof {
                    assert(console.in_text().len() == 0);
                }
                return RunPause::AwaitingInput;
            }
            let ghost steps0 = (fuel0 - self.fuel) as nat;
            self.fuel = self.fuel - 1;
            let ghost mid_out = console.out_text();
            let ghost mid_in = console.in_text();
            let ghost prev = self.state(variables@, console.in_text(), console.out_text());
            let cur = self.pc;
            proof {
                assert(stmt_wf(program@[cur as int].1));
            }
            let stepped = execute_indirect(
                &program[cur].1,
                &mut self.pc,
                &mut self.running,
                variables,
                &mut self.stack,
                &mut self.loop_stack,
                program,
                console,
            );
            proof {
                lemma_prefix_trans(old(console).out_text(), mid_out, console.out_text());
                lemma_suffix_trans(console.in_text(), mid_in, old(console).in_text());
            }
            let ghost here = self.state(variables@, console.in_text(), console.out_text());
            match stepped {
                None => {
                    proof {
                        assert(engine_step(program@, prev, here));
                        assert(engine_reach_n(program@, entry, prev, steps0));
                        assert(engine_reach_n(program@, entry, here, steps0 + 1));
                        assert(steps0 + 1 == (fuel0 - self.fuel) as nat);
                    }
                },
                Some(e) => {
                    proof {
                        assert(engine_failing_step(program@, prev, here, e));
                        assert(engine_reach_n(program@, entry, prev, steps0));
                        assert(engine_reach(program@, entry, prev));
                    }
                    return RunPause::Failed(e);
                },
            }
        }
        proof {
            assert(engine_reach(
                program@,
                entry,
                self.state(variables@, console.in_text(), console.out_text()),
            ));
        }
        RunPause::Finished
    }
}

proof fn lemma_prefix_trans(a: Seq<Seq<char>>, b: Seq<Seq<char>>, c: Seq<Seq<char>>)
    requires
        a.is_prefix_of(b),
        b.is_prefix_of(c),
    ensures
        a.is_prefix_of(c),
{
    assert(a =~= c.subrange(0, a.len() as int));
}

proof fn lemma_suffix_trans(a: Seq<Seq<char>>, b: Seq<Seq<char>>, c: Seq<Seq<char>>)
    requires
        a.is_suffix_of(b),
        b.is_suffix_of(c),
    ensures
        a.is_suffix_of(c),
{
    assert(a =~= c.subrange((c.len() - a.len()) as int, c.len() as int));
}

/// How immediate mode deals with what one statement execution produced:
/// `envm`, `inm` and `outm` are the environment and console after the
/// statement itself ran, `env1`, `in1` and `out1` those when immediate
/// mode is done with the signal.
pub open spec fn immediate_rel(
    res: Result<Option<ProgramSignal>, BasicError>,
    program: Seq<(i32, Statement)>,
    envm: Map<char, Number>,
    env1: Map<char, Number>,
    inm: Seq<Seq<char>>,
    in1: Seq<Seq<char>>,
    outm: Seq<Seq<char>>,
    out1: Seq<Seq<char>>,
    r: Result<Option<HostAction>, BasicError>,
) -> bool {
    match res {
        Err(e) => r == Err::<Option<HostAction>, BasicError>(e) && env1 == envm && in1 == inm
            && out1 == outm,
        Ok(None) => r == Ok::<Option<HostAction>, BasicError>(None) && env1 == envm && in1 == inm
            && out1 == outm,
        Ok(Some(sig)) => match sig {
            // Listing writes every program line as one fragment.
            ProgramSignal::List => {
                &&& r == Ok::<Option<HostAction>, BasicError>(None)
                &&& env1 == envm
                &&& in1 == inm
                &&& out1.len() == outm.len() + program.len()
                &&& out1.subrange(0, outm.len() as int) == outm
                &&& forall|i: int|
                    0 <= i < program.len() ==> out1[outm.len() + i] == line_text(
                        #[trigger] program[i],
                    ) + "\n"@
            },
            // Running delegates to the engine; the console only grows.
            ProgramSignal::Run => {
                &&& (r is Ok ==> r == Ok::<Option<HostAction>, BasicError>(None))
                &&& outm.is_prefix_of(out1)
                &&& in1.is_suffix_of(inm)
            },
            // File work goes back to the host.
            ProgramSignal::Load(f) => r == Ok::<Option<HostAction>, BasicError>(
                Some(HostAction::Load(f)),
            ) && env1 == envm && in1 == inm && out1 == outm,
            ProgramSignal::Save(f) => r == Ok::<Option<HostAction>, BasicError>(
                Some(HostAction::Save(f)),
            ) && env1 == envm && in1 == inm && out1 == outm,
            ProgramSignal::ClearVars => r == Ok::<Option<HostAction>, BasicError>(None) && env1
                == Map::<char, Number>::empty() && in1 == inm && out1 == outm,
            // Control transfers make no sense outside a running program.
            _ => {
                &&& (r matches Err(e) && e is RuntimeError && e.text()
                    == "Cannot execute this command outside of a program"@)
                &&& env1 == envm
                &&& in1 == inm
                &&& out1 == outm
            },
        },
    }
}

/// Execute a single statement immediately: its local effect happens, and
/// the signal it returns is carried out against the session rather than a
/// running program. File work comes back as a `HostAction` for the host
/// to perform.
pub fn execute_immediate(
    statement: &Statement,
    variables: &mut Variables,
    program: &mut Vec<(i32, Statement)>,
    console: &mut Console,
) -> (r: Result<Option<HostAction>, BasicError>)
    requires
        stmt_wf(*statement),
        old(variables).wf(),
        program_wf(old(program)@),
    ensures
        final(variables).wf(),
        final(program)@ == old(program)@,
        old(console).out_text().is_prefix_of(final(console).out_text()),
        final(console).in_text().is_suffix_of(old(console).in_text()),
        exists|
            res: Result<Option<ProgramSignal>, BasicError>,
            envm: Map<char, Number>,
            inm: Seq<Seq<char>>,
            outm: Seq<Seq<char>>,
        |
            {
                &&& exec_rel(
                    *statement,
                    old(variables)@,
                    envm,
                    old(console).in_text(),
                    inm,
                    old(console).out_text(),
                    outm,
                    res,
                )
                &&& #[trigger] immediate_rel(
                    res,
                    old(program)@,
                    envm,
                    final(variables)@,
                    inm,
                    final(console).in_text(),
                    outm,
                    final(console).out_text(),
                    r,
                )
            },
{
    let res = statement.execute(variables, console);
    let ghost gres = res;
    let ghost envm = variables@;
    let ghost inm = console.in_text();
    let ghost outm = console.out_text();
    match res {
        Err(e) => {
            let out: Result<Option<HostAction>, BasicError> = Err(e);
            proof {
                assert(immediate_rel(
                    gres,
                    old(program)@,
                    envm,
                    variables@,
                    inm,
                    console.in_text(),
                    outm,
                    console.out_text(),
                    out,
                ));
            }
            out
        },
        Ok(None) => {
            let out: Result<Option<HostAction>, BasicError> = Ok(None);
            proof {
                assert(immediate_rel(
                    gres,
                    old(program)@,
                    envm,
                    variables@,
                    inm,
                    console.in_text(),
                    outm,
                    console.out_text(),
                    out,
                ));
            }
            out
        },
        Ok(Some(signal)) => match signal {
            // List the program.
            ProgramSignal::List => {
                let n = program.len();
                let mut i: usize = 0;
                #[verifier::loop_isolation(false)]
                while i < n
                    invariant
                        i <= n,
                        console.in_text() == inm,
                        console.out_text().len() == outm.len() + i,
                        console.out_text().subrange(0, outm.len() as int) == outm,
                        forall|j: int|
                            0 <= j < i ==> console.out_text()[outm.len() + j] == line_text(
                                #[trigger] program@[j],
                            ) + "\n"@,
                        variables.wf(),
                        variables@ == envm,
                    decreases n - i,
                {
                    let mut line = int_to_string(program[i].0);
                    line.append(" ");
                    let t = program[i].1.render();
                    line.append(t.as_str());
                    line.append("\n");
                    proof {
                        assert(line@ =~= line_text(program@[i as int]) + "\n"@);
                    }
                    console.write(line);
                    proof {
                        assert(console.out_text().subrange(0, outm.len() as int) =~= outm);
                    }
                    i = i + 1;
                }
                let out: Result<Option<HostAction>, BasicError> = Ok(None);
                proof {
                    lemma_prefix_trans(old(console).out_text(), outm, console.out_text());
                    assert(immediate_rel(
                        gres,
                        old(program)@,
                        envm,
                        variables@,
                        inm,
                        console.in_text(),
                        outm,
                        console.out_text(),
                        out,
                    ));
                }
                out
            },
            // Run the program.
            ProgramSignal::Run => {
                let outcome = run(variables, program, console);
                let out: Result<Option<HostAction>, BasicError> = match outcome {
                    Some(e) => Err(e),
                    None => Ok(None),
                };
                proof {
                    lemma_prefix_trans(old(console).out_text(), outm, console.out_text());
                    lemma_suffix_trans(console.in_text(), inm, old(console).in_text());
                    assert(immediate_rel(
                        gres,
                        old(program)@,
                        envm,
                        variables@,
                        inm,
                        console.in_text(),
                        outm,
                        console.out_text(),
                        out,
                    ));
                }
                out
            },
            // File work is handed back to the host.
            ProgramSignal::Load(filename) => {
                let out: Result<Option<HostAction>, BasicError> = Ok(
                    Some(HostAction::Load(filename)),
                );
                proof {
                    assert(immediate_rel(
                        gres,
                        old(program)@,
                        envm,
                        variables@,
                        inm,
                        console.in_text(),
                        outm,
                        console.out_text(),
                        out,
                    ));
                }
                out
            },
            ProgramSignal::Save(filename) => {
                let out: Result<Option<HostAction>, BasicError> = Ok(
                    Some(HostAction::Save(filename)),
                );
                proof {
                    assert(immediate_rel(
                        gres,
                        old(program)@,
                        envm,
                        variables@,
                        inm,
                        console.in_text(),
                        outm,
                        console.out_text(),
                        out,
                    ));
                }
                out
            },
            // Clear all variables.
            ProgramSignal::ClearVars => {
                variables.clear();
                let out: Result<Option<HostAction>, BasicError> = Ok(None);
                proof {
                    assert(immediate_rel(
                        gres,
                        old(program)@,
                        envm,
                        variables@,
                        inm,
                        console.in_text(),
                        outm,
                        console.out_text(),
                        out,
                    ));
                }
                out
            },
            // These actions cannot be performed in immediate mode.
            _ => {
                let out: Result<Option<HostAction>, BasicError> = Err(
                    BasicError::RuntimeError(
                        "Cannot execute this command outside of a program".to_owned(),
                    ),
                );
                proof {
                    assert(immediate_rel(
                        gres,
                        old(program)@,
                        envm,
                        variables@,
                        inm,
                        console.in_text(),
                        outm,
                        console.out_text(),
                        out,
                    ));
                }
                out
            },
        },
    }
}

/// Whether the text of one stored line parses to the numbered statement:
/// the line begins with a digit run whose value is the line's number, and
/// what follows builds the statement, its variant and token payloads
/// pinned by the line's text.
pub open spec fn line_parses_to(t: Seq<char>, nl: (i32, Statement)) -> bool {
    let s = skip_spaces_from(t, 0);
    let e = digits_end(t, s);
    let run = t.subrange(s, e);
    &&& is_digit_char(char_at(t, s))
    &&& run.len() > 0 && dec_val(run) <= i32::MAX && nl.0 as int == dec_val(run)
    &&& stmt_wf(nl.1) && stmt_complete(nl.1)
    &&& statement_matches_line(t, skip_spaces_from(t, e), 0, nl.1)
}

/// Rebuild program lines from source text, as LOAD does: every line must
/// carry a line number, each parses through the ordinary grammar, and the
/// store becomes the old store with every parsed line upserted in order.
/// The first bad line ends the load; the lines before it stay loaded.
pub fn load_program(program: &mut Vec<(i32, Statement)>, lines: &Vec<String>) -> (r: Option<
    BasicError,
>)
    requires
        sorted_unique(old(program)@),
        program_wf(old(program)@),
    ensures
        sorted_unique(final(program)@),
        program_wf(final(program)@),
        lines@.len() == 0 ==> r is None && final(program)@ == old(program)@,
        r is None ==> exists|parsed: Seq<(i32, Statement)>|
            {
                &&& parsed.len() == lines@.len()
                &&& forall|i: int|
                    0 <= i < parsed.len() ==> line_parses_to((#[trigger] lines@[i])@, parsed[i])
                &&& final(program)@ == #[trigger] upsert_all(old(program)@, parsed)
            },
        r matches Some(e) ==> exists|parsed: Seq<(i32, Statement)>|
            {
                &&& parsed.len() < lines@.len()
                &&& forall|i: int|
                    0 <= i < parsed.len() ==> line_parses_to((#[trigger] lines@[i])@, parsed[i])
                &&& final(program)@ == #[trigger] upsert_all(old(program)@, parsed)
                &&& (!is_digit_char(
                    char_at(
                        lines@[parsed.len() as int]@,
                        skip_spaces_from(lines@[parsed.len() as int]@, 0),
                    ),
                ) ==> e is RuntimeError && e.text() == "Line number missing in file"@)
            },
{
    let n = lines.len();
    let mut i: usize = 0;
    let ghost mut parsed: Seq<(i32, Statement)> = Seq::empty();
    proof {
        assert(upsert_all(old(program)@, parsed) == old(program)@);
    }
    while i < n
        invariant
            i <= n == lines@.len(),
            sorted_unique(program@),
            program_wf(program@),
            parsed.len() == i,
            forall|j: int| 0 <= j < i ==> line_parses_to((#[trigger] lines@[j])@, parsed[j]),
            program@ == upsert_all(old(program)@, parsed),
        decreases n - i,
    {
        let mut reader = SourceReader::new(lines[i].clone());
        reader.skip_ws();
        // Every stored line begins with its number.
        if !reader.is_digit() {
            return Some(BasicError::RuntimeError("Line number missing in file".to_owned()));
        }
        let line_num = match reader.get_integer() {
            Ok(v) => v,
            Err(e) => {
                return Some(e);
            },
        };
        let stmt = match reader.build_statement() {
            Ok(s) => s,
            Err(e) => {
                return Some(e);
            },
        };
        let ghost p0 = program@;
        let ghost nl = (line_num, stmt);
        proof {
            assert(line_parses_to(lines@[i as int]@, nl));
        }
        update_program(program, (line_num, stmt));
        proof {
            lemma_upsert_all_push(old(program)@, parsed, nl);
            parsed = parsed.push(nl);
            assert(stmt_wf(nl.1) && stmt_complete(nl.1));
            assert forall|k: int| 0 <= k < program@.len() implies stmt_wf(
                (#[trigger] program@[k]).1,
            ) && stmt_complete(program@[k].1) by {
                if has_line(p0, nl.0) {
                    let idx = idx_of(p0, nl.0);
                    assert(0 <= idx < p0.len() && p0[idx].0 == nl.0);
                    if nl.1 is Empty {
                        if k < idx {
                            assert(program@[k] == p0[k]);
                        } else {
                            assert(program@[k] == p0[k + 1]);
                        }
                    } else {
                        if k != idx {
                            assert(program@[k] == p0[k]);
                        }
                    }
                } else {
                    if nl.1 is Empty {
                        assert(program@[k] == p0[k]);
                    } else {
                        lemma_insert_pos_bounds(p0, nl.0);
                        let pos = insert_pos(p0, nl.0);
                        if k < pos {
                            assert(program@[k] == p0[k]);
                        } else if k > pos {
                            assert(program@[k] == p0[k - 1]);
                        }
                    }
                }
            }
        }
        i = i + 1;
    }
    None
}

/// The canonical text of every program line, in order, as SAVE writes
/// them to a file.
pub fn render_program(program: &Vec<(i32, Statement)>) -> (lines: Vec<String>)
    requires
        program_wf(program@),
    ensures
        lines@.len() == program@.len(),
        forall|i: int|
            0 <= i < program@.len() ==> (#[trigger] lines@[i])@ == line_text(program@[i]),
{
    let n = program.len();
    let mut lines: Vec<String> = Vec::new();
    let mut i: usize = 0;
    #[verifier::loop_isolation(false)]
    while i < n
        invariant
            i <= n,
            lines@.len() == i,
            forall|j: int| 0 <= j < i ==> (#[trigger] lines@[j])@ == line_text(program@[j]),
        decreases n - i,
    {
        let mut line = int_to_string(program[i].0);
        line.append(" ");
        let t = program[i].1.render();
        line.append(t.as_str());
        proof {
            assert(line@ =~= line_text(program@[i as int]));
        }
        lines.push(line);
        i = i + 1;
    }
    lines
}

/// The runtime error a jump to a missing line raises, naming the source
/// line of the jump.
fn unknown_line_error(program: &Vec<(i32, Statement)>, pc: usize) -> (e: BasicError)
    requires
        pc < program@.len(),
    ensures
        e is RuntimeError,
        e.text() == "Unknown line number in line "@ + int_text(program@[pc as int].0 as int),
{
    let mut m = "Unknown line number in line ".to_owned();
    let t = int_to_string(program[pc].0);
    m.append(t.as_str());
    BasicError::RuntimeError(m)
}

} // verus!
