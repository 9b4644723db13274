// End-to-end tests of the engine: programs parsed from source and run to
// completion through the program counter, call stack and loop stack.

use minibasic::console::Console;
use minibasic::executor::{execute_immediate, load_program, run, Engine, HostAction, RunPause};
use minibasic::expression::Number;
use minibasic::parser::SourceReader;
use minibasic::statement::Statement;
use minibasic::variables::Variables;

fn build_program(src: &[&str]) -> Vec<(i32, Statement)> {
    let mut program: Vec<(i32, Statement)> = Vec::new();
    for src_line in src.iter() {
        let mut reader = SourceReader::new(src_line.to_string());
        let line_num = reader.get_integer().expect("Error letting line number");
        match reader.build_statement() {
            Ok(res) => program.push((line_num, res)),
            Err(e) => panic!("{}", e.message()),
        }
    }
    program
}

#[test]
fn jumps_correctly() {
    let program_src = vec![
        "5 let a=3 / 1",
        "10 goto 30",
        "20 let a = 2 / 1",
        "30 print a",
    ];
    let program = build_program(&program_src);
    let mut variables = Variables::new();
    let mut console = Console::new();
    match run(&mut variables, &program, &mut console) {
        Some(e) => panic!("{}", e.message()),
        None => {
            if let Some(v) = variables.get('a') {
                assert_eq!(v, Number::Integer(3));
            }
        }
    }
}

#[test]
fn loops_and_calls_correctly() {
    let program_src = vec![
        "5 let n = 2 + (3*4)",
        "10 for i = 1 to 3",
        "20 gosub 100",
        "30 next",
        "40 end",
        "100 n = n - 1",
        "110 return",
    ];
    let program = build_program(&program_src);
    let mut variables = Variables::new();
    let mut console = Console::new();
    match run(&mut variables, &program, &mut console) {
        Some(e) => panic!("{}", e.message()),
        None => {
            if let Some(v) = variables.get('n') {
                assert_eq!(v, Number::Integer(11));
            }
        }
    }
}

#[test]
fn loads_source_file() {
    let mut reader = SourceReader::new(String::from("load \"examples/hello.bas\""));
    let mut variables = Variables::new();
    let mut program: Vec<(i32, Statement)> = Vec::new();
    let mut console = Console::new();
    match reader.build_statement() {
        Err(e) => panic!("{}", e.message()),
        Ok(stmt) => match execute_immediate(&stmt, &mut variables, &mut program, &mut console) {
            Err(e) => panic!("{}", e.message()),
            Ok(action) => {
                // The library hands the file work back to the host, which
                // reads the lines and loads them.
                match action {
                    Some(HostAction::Load(path)) => assert_eq!(path, "examples/hello.bas"),
                    _ => panic!("Wrong statement"),
                }
                let lines = vec![String::from("10 print \"Hello, world!\"")];
                if let Some(e) = load_program(&mut program, &lines) {
                    panic!("{}", e.message());
                }
                assert_eq!(program.len(), 1);
                if let Some((n, p_stmt)) = program.get(0) {
                    assert_eq!(*n, 10);
                    if let Statement::Print(_) = p_stmt {
                        // OK
                    } else {
                        panic!("Wrong statement");
                    }
                }
            }
        },
    }
}

#[test]
fn goto_missing_line_names_source_line() {
    let program = build_program(&["10 goto 99"]);
    let mut variables = Variables::new();
    let mut console = Console::new();
    match run(&mut variables, &program, &mut console) {
        Some(e) => assert_eq!(e.message(), "Unknown line number in line 10"),
        None => panic!("expected an error"),
    }
}

#[test]
fn gosub_returns_past_the_calling_line() {
    let program = build_program(&[
        "10 gosub 100",
        "20 let a = 7",
        "30 end",
        "100 let b = 1",
        "110 return",
    ]);
    let mut variables = Variables::new();
    let mut console = Console::new();
    assert!(run(&mut variables, &program, &mut console).is_none());
    assert_eq!(variables.get('a'), Some(Number::Integer(7)));
    assert_eq!(variables.get('b'), Some(Number::Integer(1)));
}

#[test]
fn return_without_gosub_is_an_error() {
    let program = build_program(&["10 return"]);
    let mut variables = Variables::new();
    let mut console = Console::new();
    match run(&mut variables, &program, &mut console) {
        Some(e) => assert_eq!(e.message(), "Return without gosub in line 10"),
        None => panic!("expected an error"),
    }
}

#[test]
fn for_loop_runs_body_three_times_ascending() {
    let program = build_program(&[
        "10 let c = 0",
        "20 for i = 1 to 3",
        "30 c = c + 1",
        "40 s = s * 10 + i",
        "50 next",
        "60 end",
    ]);
    let mut variables = Variables::new();
    variables.insert('s', Number::Integer(0));
    let mut console = Console::new();
    assert!(run(&mut variables, &program, &mut console).is_none());
    assert_eq!(variables.get('c'), Some(Number::Integer(3)));
    // The loop variable took 1, 2, 3 in that order.
    assert_eq!(variables.get('s'), Some(Number::Integer(123)));
}

#[test]
fn for_loop_infers_downward_step() {
    let program = build_program(&[
        "10 let c = 0",
        "20 for i = 3 to 1",
        "30 c = c + 1",
        "40 s = s * 10 + i",
        "50 next",
        "60 end",
    ]);
    let mut variables = Variables::new();
    variables.insert('s', Number::Integer(0));
    let mut console = Console::new();
    assert!(run(&mut variables, &program, &mut console).is_none());
    assert_eq!(variables.get('c'), Some(Number::Integer(3)));
    assert_eq!(variables.get('s'), Some(Number::Integer(321)));
}

#[test]
fn step_zero_is_always_an_error() {
    for src in [
        &["10 for i = 1 to 3 step 0", "20 next"],
        &["10 for i = 3 to 1 step 0", "20 next"],
    ] {
        let program = build_program(src);
        let mut variables = Variables::new();
        let mut console = Console::new();
        match run(&mut variables, &program, &mut console) {
            Some(e) => assert_eq!(e.message(), "Step value cannot be zero"),
            None => panic!("expected an error"),
        }
    }
}

#[test]
fn skipped_line_never_executes() {
    // Keywords are lower-case in the grammar; variable names may be any
    // letter.
    let program = build_program(&["5 let A=3", "10 goto 30", "20 let A=2", "30 print A"]);
    let mut variables = Variables::new();
    let mut console = Console::new();
    assert!(run(&mut variables, &program, &mut console).is_none());
    assert_eq!(variables.get('A'), Some(Number::Integer(3)));
    assert!(console.output.contains(&String::from("3")));
}

#[test]
fn nested_gosub_in_loop_decrements() {
    let program = build_program(&[
        "10 for i = 1 to 3",
        "20 gosub 100",
        "30 next",
        "40 end",
        "100 n = n - 1",
        "110 return",
    ]);
    let mut variables = Variables::new();
    variables.insert('n', Number::Integer(5));
    let mut console = Console::new();
    assert!(run(&mut variables, &program, &mut console).is_none());
    assert_eq!(variables.get('n'), Some(Number::Integer(2)));
}

#[test]
fn next_without_for_is_an_error() {
    let program = build_program(&["10 next"]);
    let mut variables = Variables::new();
    let mut console = Console::new();
    match run(&mut variables, &program, &mut console) {
        Some(e) => assert_eq!(e.message(), "Next without for"),
        None => panic!("expected an error"),
    }
}

#[test]
fn control_statements_rejected_in_immediate_mode() {
    let mut reader = SourceReader::new(String::from("goto 10"));
    let stmt = reader.build_statement().expect("parse");
    let mut variables = Variables::new();
    let mut program: Vec<(i32, Statement)> = Vec::new();
    let mut console = Console::new();
    match execute_immediate(&stmt, &mut variables, &mut program, &mut console) {
        Err(e) => assert_eq!(
            e.message(),
            "Cannot execute this command outside of a program"
        ),
        Ok(_) => panic!("expected an error"),
    }
}

#[test]
fn input_reads_integer_then_float() {
    let program = build_program(&["10 input a", "20 input b", "30 end"]);
    let mut variables = Variables::new();
    let mut console = Console::new();
    console.feed(String::from(" 42 "));
    console.feed(String::from("2.5"));
    assert!(run(&mut variables, &program, &mut console).is_none());
    assert_eq!(variables.get('a'), Some(Number::Integer(42)));
    assert_eq!(variables.get('b'), Some(Number::Float(2.5f64.to_bits())));
}

#[test]
fn resumable_run_pauses_for_input() {
    let program = build_program(&["10 input a", "20 let b = a + 1", "30 end"]);
    let mut variables = Variables::new();
    let mut console = Console::new();
    let mut engine = Engine::new();
    match engine.resume(&mut variables, &program, &mut console) {
        RunPause::AwaitingInput => {}
        _ => panic!("expected a pause for input"),
    }
    console.feed(String::from("41"));
    match engine.resume(&mut variables, &program, &mut console) {
        RunPause::Finished => {}
        _ => panic!("expected completion"),
    }
    assert_eq!(variables.get('a'), Some(Number::Integer(41)));
    assert_eq!(variables.get('b'), Some(Number::Integer(42)));
}

#[test]
fn input_parse_error() {
    let program = build_program(&["10 input a"]);
    let mut variables = Variables::new();
    let mut console = Console::new();
    console.feed(String::from("forty-two"));
    match run(&mut variables, &program, &mut console) {
        Some(e) => assert_eq!(e.message(), "Parse error in line 10"),
        None => panic!("expected an error"),
    }
}

#[test]
fn print_writes_fragments_and_newline() {
    let program = build_program(&["10 print \"A=\", a", "20 end"]);
    let mut variables = Variables::new();
    variables.insert('a', Number::Integer(4));
    let mut console = Console::new();
    assert!(run(&mut variables, &program, &mut console).is_none());
    assert_eq!(console.output[0], "A=");
    assert_eq!(console.output[1], "4");
    assert_eq!(console.output[2], "\n");
}

#[test]
fn print_written_fragments_stay_on_error() {
    // Fragments printed before a failing argument are not rolled back.
    let program = build_program(&["10 print 1, q, 2"]);
    let mut variables = Variables::new();
    let mut console = Console::new();
    match run(&mut variables, &program, &mut console) {
        Some(e) => assert_eq!(e.message(), "Unknown variable q in line 10"),
        None => panic!("expected an error"),
    }
    assert_eq!(console.output, vec![String::from("1")]);
}

#[test]
fn load_stops_at_first_bad_line() {
    let mut program: Vec<(i32, Statement)> = Vec::new();
    let lines = vec![
        String::from("10 let a = 1"),
        String::from("no number here"),
        String::from("20 end"),
    ];
    match load_program(&mut program, &lines) {
        Some(e) => assert_eq!(e.message(), "Line number missing in file"),
        None => panic!("expected an error"),
    }
    // The line before the bad one stays loaded.
    assert_eq!(program.len(), 1);
    assert_eq!(program[0].0, 10);
}

#[test]
fn run_rejected_inside_a_program() {
    let program = build_program(&["10 run"]);
    let mut variables = Variables::new();
    let mut console = Console::new();
    match run(&mut variables, &program, &mut console) {
        Some(e) => assert_eq!(
            e.message(),
            "Cannot run a program that's already in execution"
        ),
        None => panic!("expected an error"),
    }
}

#[test]
fn empty_program_runs_to_ready() {
    let program: Vec<(i32, Statement)> = Vec::new();
    let mut variables = Variables::new();
    let mut console = Console::new();
    assert!(run(&mut variables, &program, &mut console).is_none());
    assert_eq!(console.output.last().map(String::as_str), Some("Ready.\n"));
}

#[test]
fn list_writes_each_program_line() {
    let mut program = build_program(&["10 let a=1", "20 end"]);
    let mut reader = SourceReader::new(String::from("list"));
    let stmt = reader.build_statement().expect("parse");
    let mut variables = Variables::new();
    let mut console = Console::new();
    assert!(execute_immediate(&stmt, &mut variables, &mut program, &mut console).is_ok());
    assert_eq!(console.output[0], "10 let a=1\n");
    assert_eq!(console.output[1], "20 end\n");
}

#[test]
fn clear_resets_variables_mid_run() {
    let program = build_program(&["10 let a = 1", "20 clear", "30 end"]);
    let mut variables = Variables::new();
    let mut console = Console::new();
    assert!(run(&mut variables, &program, &mut console).is_none());
    assert_eq!(variables.get('a'), None);
}
