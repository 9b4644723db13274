// Tests of the parser, the program store and the renderer.

use minibasic::errors::BasicError;
use minibasic::executor::render_program;
use minibasic::expression::{Expression, Number};
use minibasic::parser::SourceReader;
use minibasic::program::update_program;
use minibasic::statement::Statement;
use minibasic::variables::Variables;

#[test]
fn updates_an_empty_program() {
    let mut program: Vec<(i32, Statement)> = Vec::new();
    let new_line = (10, Statement::Rem(String::from("Hello")));
    update_program(&mut program, new_line);
    assert!(program.len() == 1);
}

#[test]
fn updates_with_one() {
    let mut program: Vec<(i32, Statement)> = Vec::new();
    let new_line_1 = (10, Statement::Rem(String::from("Hello")));
    let new_line_2 = (20, Statement::Rem(String::from("World")));
    update_program(&mut program, new_line_1);
    update_program(&mut program, new_line_2);
    assert_eq!(program.len(), 2);
    assert_eq!(program[0].0, 10);
    assert_eq!(program[1].0, 20);
}

#[test]
fn inserts_with_many() {
    let mut program: Vec<(i32, Statement)> = Vec::new();
    let new_line_1 = (10, Statement::Rem(String::from("Hello")));
    let new_line_2 = (20, Statement::Rem(String::from("World")));
    let new_line_3 = (15, Statement::Rem(String::from(", ")));
    update_program(&mut program, new_line_1);
    update_program(&mut program, new_line_2);
    update_program(&mut program, new_line_3);
    assert_eq!(program.len(), 3);
    assert_eq!(program[0].0, 10);
    assert_eq!(program[1].0, 15);
    assert_eq!(program[2].0, 20);
}

#[test]
fn replaces_and_deletes_lines() {
    let mut program: Vec<(i32, Statement)> = Vec::new();
    update_program(&mut program, (10, Statement::Rem(String::from("one"))));
    update_program(&mut program, (20, Statement::Rem(String::from("two"))));
    update_program(&mut program, (30, Statement::Rem(String::from("three"))));
    // Replacing keeps the position.
    update_program(&mut program, (20, Statement::End));
    assert_eq!(program.len(), 3);
    assert!(matches!(program[1].1, Statement::End));
    // An empty statement deletes the line.
    update_program(&mut program, (20, Statement::Empty));
    assert_eq!(program.len(), 2);
    assert_eq!(program[0].0, 10);
    assert_eq!(program[1].0, 30);
}

#[test]
fn deleting_missing_line_is_a_noop() {
    let mut program: Vec<(i32, Statement)> = Vec::new();
    update_program(&mut program, (10, Statement::Rem(String::from("one"))));
    update_program(&mut program, (30, Statement::Rem(String::from("two"))));
    // Deleting absent lines leaves the store as it was: no phantom line
    // appears before, between or after the stored ones.
    update_program(&mut program, (5, Statement::Empty));
    update_program(&mut program, (20, Statement::Empty));
    update_program(&mut program, (40, Statement::Empty));
    assert_eq!(program.len(), 2);
    assert_eq!(program[0].0, 10);
    assert_eq!(program[1].0, 30);
    let mut empty: Vec<(i32, Statement)> = Vec::new();
    update_program(&mut empty, (10, Statement::Empty));
    assert!(empty.is_empty());
}

#[test]
fn keeps_order_under_mixed_updates() {
    let mut program: Vec<(i32, Statement)> = Vec::new();
    for n in [50, 10, 40, 20, 30, 10, 60, 5] {
        update_program(&mut program, (n, Statement::Rem(String::from("x"))));
    }
    update_program(&mut program, (40, Statement::Empty));
    let numbers: Vec<i32> = program.iter().map(|l| l.0).collect();
    assert_eq!(numbers, vec![5, 10, 20, 30, 50, 60]);
}

#[test]
fn parses_goto() {
    let mut reader = SourceReader::new(String::from("goto 30"));
    match reader.build_statement() {
        Ok(Statement::Goto(n)) => assert_eq!(n, 30),
        _ => panic!("Wrong statement"),
    }
}

#[test]
fn parses_implicit_let() {
    let mut reader = SourceReader::new(String::from("a = 5"));
    match reader.build_statement() {
        Ok(Statement::Let(v, _)) => assert_eq!(v, 'a'),
        _ => panic!("Wrong statement"),
    }
}

#[test]
fn empty_line_is_empty_statement() {
    let mut reader = SourceReader::new(String::from("   "));
    assert!(matches!(reader.build_statement(), Ok(Statement::Empty)));
}

#[test]
fn unknown_keyword_is_a_syntax_error() {
    let mut reader = SourceReader::new(String::from("frobnicate 1"));
    match reader.build_statement() {
        Err(BasicError::SyntaxError(m)) => assert_eq!(m, "Unknown keyword"),
        _ => panic!("expected a syntax error"),
    }
}

#[test]
fn unterminated_string_is_a_syntax_error() {
    let mut reader = SourceReader::new(String::from("print \"oops"));
    match reader.build_statement() {
        Err(BasicError::SyntaxError(m)) => assert_eq!(m, "Unterminated string"),
        _ => panic!("expected a syntax error"),
    }
}

#[test]
fn unbalanced_parenthesis_is_a_syntax_error() {
    let mut reader = SourceReader::new(String::from("let a = (1+2"));
    match reader.build_statement() {
        Err(BasicError::SyntaxError(m)) => assert_eq!(m, "Invalid expression"),
        _ => panic!("expected a syntax error"),
    }
}

#[test]
fn trailing_text_is_a_syntax_error() {
    let mut reader = SourceReader::new(String::from("return 5"));
    match reader.build_statement() {
        Err(BasicError::SyntaxError(m)) => assert_eq!(m, "Unexpected token"),
        _ => panic!("expected a syntax error"),
    }
}

#[test]
fn line_number_overflow_is_a_syntax_error() {
    let mut reader = SourceReader::new(String::from("99999999999 end"));
    match reader.get_integer() {
        Err(BasicError::SyntaxError(m)) => assert_eq!(m, "Error reading number"),
        _ => panic!("expected a syntax error"),
    }
}

#[test]
fn parses_float_literal() {
    let mut reader = SourceReader::new(String::from("3.14"));
    match reader.get_number() {
        Ok(n) => assert_eq!(n, Number::Float(3.14f64.to_bits())),
        Err(e) => panic!("{}", e.message()),
    }
}

#[test]
fn parses_integer_literal() {
    let mut reader = SourceReader::new(String::from("42"));
    match reader.get_number() {
        Ok(n) => assert_eq!(n, Number::Integer(42)),
        Err(e) => panic!("{}", e.message()),
    }
}

#[test]
fn negative_factor_parses() {
    let mut reader = SourceReader::new(String::from("let a = -5"));
    let stmt = reader.build_statement().expect("parse");
    let mut variables = Variables::new();
    match stmt {
        Statement::Let(_, e) => {
            let v = minibasic::expression::eval_expression(&e, &variables).expect("eval");
            assert_eq!(v, Number::Integer(-5));
        }
        _ => panic!("Wrong statement"),
    }
    variables.clear();
}

#[test]
fn function_call_parses() {
    let mut reader = SourceReader::new(String::from("let a = int(2.9)"));
    let stmt = reader.build_statement().expect("parse");
    match stmt {
        Statement::Let(_, Expression::Function(name, args)) => {
            assert_eq!(name, "int");
            assert_eq!(args.len(), 1);
        }
        _ => panic!("Wrong statement"),
    }
}

#[test]
fn renders_program_lines() {
    let mut program: Vec<(i32, Statement)> = Vec::new();
    let mut r1 = SourceReader::new(String::from("print \"Hi\", a"));
    update_program(&mut program, (10, r1.build_statement().expect("parse")));
    let mut r2 = SourceReader::new(String::from("for i = 1 to 3 step 2"));
    update_program(&mut program, (20, r2.build_statement().expect("parse")));
    let lines = render_program(&program);
    assert_eq!(lines[0], "10 print \"Hi\", a");
    assert_eq!(lines[1], "20 for i=1 to 3 step 2");
}

#[test]
fn rendered_lines_parse_back() {
    let mut program: Vec<(i32, Statement)> = Vec::new();
    let sources = ["10 let a=3+4*2", "20 goto 40", "30 rem note", "40 end"];
    for src in sources {
        let mut reader = SourceReader::new(src.to_string());
        let n = reader.get_integer().expect("number");
        update_program(&mut program, (n, reader.build_statement().expect("parse")));
    }
    let lines = render_program(&program);
    let mut reloaded: Vec<(i32, Statement)> = Vec::new();
    assert!(minibasic::executor::load_program(&mut reloaded, &lines).is_none());
    assert_eq!(reloaded.len(), program.len());
    let renders_again = render_program(&reloaded);
    assert_eq!(lines, renders_again);
}

#[test]
fn call_arguments_render_comma_separated() {
    let call = Expression::Function(
        String::from("int"),
        vec![
            Expression::Numeric(Number::Integer(1)),
            Expression::Numeric(Number::Integer(2)),
        ],
    );
    assert_eq!(call.render(), "int(1, 2)");
}

#[test]
fn precedence_keeps_parens_in_rendering() {
    let mut reader = SourceReader::new(String::from("let a = (3+4)*2"));
    let stmt = reader.build_statement().expect("parse");
    assert_eq!(stmt.render(), "let a=(3+4)*2");
}
