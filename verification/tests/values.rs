// Tests of the value model, expression evaluation, the built-in
// functions, and single-statement execution.

use std::collections::HashMap;

use minibasic::console::Console;
use minibasic::errors::BasicError;
use minibasic::expression::{
    eval_expression, ArithOp, Condition, Expression, Number, Relop,
};
use minibasic::function::eval_function;
use minibasic::parser::SourceReader;
use minibasic::statement::{ProgramSignal, Statement};
use minibasic::variables::Variables;

#[test]
fn evaluates_int() {
    let args = vec![Expression::Numeric(Number::Float(3.14f64.to_bits()))];
    let variables = Variables::new();
    match eval_function(&String::from("int"), &args, &variables) {
        Ok(res) => {
            if let Number::Integer(i) = res {
                assert_eq!(i, 3);
            }
        }
        Err(e) => panic!("Error: {}", e.message()),
    }
}

#[test]
fn evaluates_rnd() {
    let variables = Variables::new();
    match eval_function(&String::from("rnd"), &Vec::new(), &variables) {
        Ok(res) => {
            if let Number::Float(bits) = res {
                let n = f64::from_bits(bits);
                assert!(n >= 0.0 && n < 1.0);
            } else {
                panic!("rnd must return a float");
            }
        }
        Err(e) => panic!("{}", e.message()),
    }
}

#[test]
fn unknown_function_is_a_runtime_error() {
    let variables = Variables::new();
    match eval_function(&String::from("sqr"), &Vec::new(), &variables) {
        Err(BasicError::RuntimeError(m)) => assert_eq!(m, "Unknown identifier sqr"),
        _ => panic!("expected a runtime error"),
    }
}

#[test]
fn int_arity_is_checked() {
    let variables = Variables::new();
    match eval_function(&String::from("int"), &Vec::new(), &variables) {
        Err(BasicError::RuntimeError(m)) => {
            assert_eq!(m, "Incorrect number of arguments to function int")
        }
        _ => panic!("expected a runtime error"),
    }
}

#[test]
fn int_truncates_toward_zero() {
    let variables = Variables::new();
    let args = vec![Expression::Numeric(Number::Float((-2.7f64).to_bits()))];
    assert_eq!(
        eval_function(&String::from("int"), &args, &variables).expect("eval"),
        Number::Integer(-2)
    );
}

#[test]
fn prints_string() {
    let mut variables = Variables::new();
    let mut console = Console::new();
    let mut lines: HashMap<i32, Statement> = HashMap::new();
    lines.insert(
        10,
        Statement::Print(vec![Expression::String(String::from("Hello, world!"))]),
    );
    match lines
        .get(&10)
        .expect("Error")
        .execute(&mut variables, &mut console)
    {
        Ok(maybe_flow) => assert!(maybe_flow.is_none()),
        Err(e) => panic!("{}", e.message()),
    }
}

#[test]
fn assigns_variable() {
    let mut variables = Variables::new();
    let mut console = Console::new();
    let mut lines: HashMap<i32, Statement> = HashMap::new();
    lines.insert(
        10,
        Statement::Let('A', Expression::Numeric(Number::Integer(42))),
    );
    match lines
        .get(&10)
        .expect("Error")
        .execute(&mut variables, &mut console)
    {
        Ok(maybe_flow) => assert!(maybe_flow.is_none()),
        Err(e) => panic!("{}", e.message()),
    }
    assert_eq!(variables.get('A').unwrap(), Number::Integer(42));
}

#[test]
fn evaluates_condition() {
    let mut variables = Variables::new();
    let mut console = Console::new();
    let mut lines: HashMap<i32, Statement> = HashMap::new();
    variables.insert('A', Number::Integer(42));
    lines.insert(
        20,
        Statement::If(
            Condition::Boolean(
                Expression::Variable('A'),
                Relop::EQ,
                Expression::Numeric(Number::Integer(42)),
            ),
            Box::new(Statement::Let(
                'A',
                Expression::Numeric(Number::Integer(69)),
            )),
        ),
    );
    match lines
        .get(&20)
        .expect("Error")
        .execute(&mut variables, &mut console)
    {
        Ok(maybe_flow) => assert!(maybe_flow.is_none()),
        Err(e) => panic!("{}", e.message()),
    }
    assert_eq!(variables.get('A').unwrap(), Number::Integer(69));
}

#[test]
fn evaluates_complex_expressions() {
    let mut variables = Variables::new();
    let mut console = Console::new();
    let mut lines: HashMap<i32, Statement> = HashMap::new();
    let exp = Expression::Operator(
        ArithOp::Add,
        Some(Box::new(Expression::Numeric(Number::Integer(2)))),
        Some(Box::new(Expression::Operator(
            ArithOp::Multiply,
            Some(Box::new(Expression::Numeric(Number::Integer(3)))),
            Some(Box::new(Expression::Numeric(Number::Integer(4)))),
        ))),
    );
    lines.insert(10, Statement::Let('N', exp));
    match lines
        .get(&10)
        .expect("Error")
        .execute(&mut variables, &mut console)
    {
        Ok(maybe_flow) => assert!(maybe_flow.is_none()),
        Err(e) => panic!("{}", e.message()),
    }
    assert_eq!(variables.get('N').unwrap(), Number::Integer(14));
}

#[test]
fn branches_unconditionally() {
    let mut variables = Variables::new();
    let mut console = Console::new();
    let mut lines: HashMap<i32, Statement> = HashMap::new();
    variables.insert('X', Number::Integer(1));
    lines.insert(10, Statement::Goto(30));
    lines.insert(
        20,
        Statement::Let('X', Expression::Numeric(Number::Integer(2))),
    );
    lines.insert(
        30,
        Statement::Let('X', Expression::Numeric(Number::Integer(3))),
    );
    match lines
        .get(&10)
        .expect("Error")
        .execute(&mut variables, &mut console)
    {
        Ok(maybe_flow) => match maybe_flow.unwrap() {
            ProgramSignal::Jump(f) => assert_eq!(f, 30),
            _ => panic!("Wrong type of program flow"),
        },
        Err(e) => panic!("{}", e.message()),
    }
}

#[test]
fn precedence_multiplication_binds_tighter() {
    let mut reader = SourceReader::new(String::from("x=3+4*2"));
    let stmt = reader.build_statement().expect("parse");
    let mut variables = Variables::new();
    let mut console = Console::new();
    assert!(stmt.execute(&mut variables, &mut console).is_ok());
    assert_eq!(variables.get('x'), Some(Number::Integer(11)));
}

#[test]
fn parens_override_precedence() {
    let mut reader = SourceReader::new(String::from("x=(3+4)*2"));
    let stmt = reader.build_statement().expect("parse");
    let mut variables = Variables::new();
    let mut console = Console::new();
    assert!(stmt.execute(&mut variables, &mut console).is_ok());
    assert_eq!(variables.get('x'), Some(Number::Integer(14)));
}

#[test]
fn unknown_variable_is_a_runtime_error() {
    let variables = Variables::new();
    match eval_expression(&Expression::Variable('q'), &variables) {
        Err(BasicError::RuntimeError(m)) => assert_eq!(m, "Unknown variable q"),
        _ => panic!("expected a runtime error"),
    }
}

#[test]
fn division_by_zero_is_a_runtime_error() {
    match Number::Integer(1).div(Number::Integer(0)) {
        Err(BasicError::RuntimeError(m)) => assert_eq!(m, "Division by zero"),
        _ => panic!("expected a runtime error"),
    }
}

#[test]
fn integer_overflow_is_a_runtime_error() {
    match Number::Integer(i32::MAX).add(Number::Integer(1)) {
        Err(BasicError::RuntimeError(m)) => assert_eq!(m, "Integer overflow"),
        _ => panic!("expected a runtime error"),
    }
}

#[test]
fn integer_division_truncates_toward_zero() {
    assert_eq!(
        Number::Integer(-7).div(Number::Integer(2)).expect("div"),
        Number::Integer(-3)
    );
    assert_eq!(
        Number::Integer(7).div(Number::Integer(-2)).expect("div"),
        Number::Integer(-3)
    );
}

#[test]
fn arithmetic_promotes_to_float() {
    let one_half = Number::Float(0.5f64.to_bits());
    assert_eq!(
        Number::Integer(1).add(one_half).expect("add"),
        Number::Float(1.5f64.to_bits())
    );
    assert_eq!(
        Number::Integer(2).mul(one_half).expect("mul"),
        Number::Float(1.0f64.to_bits())
    );
    assert_eq!(
        Number::Integer(1).sub(one_half).expect("sub"),
        Number::Float(0.5f64.to_bits())
    );
    assert_eq!(
        Number::Integer(1).div(one_half).expect("div"),
        Number::Float(2.0f64.to_bits())
    );
}

#[test]
fn comparison_crosses_representations() {
    let one = Number::Integer(1);
    let one_f = Number::Float(1.0f64.to_bits());
    let two_f = Number::Float(2.0f64.to_bits());
    assert_eq!(one.compare(&one_f), Some(std::cmp::Ordering::Equal));
    assert_eq!(one.compare(&two_f), Some(std::cmp::Ordering::Less));
    assert_eq!(two_f.compare(&one), Some(std::cmp::Ordering::Greater));
}

#[test]
fn type_error_for_float_int_value() {
    match Number::Float(1.5f64.to_bits()).int_value() {
        Err(BasicError::RuntimeError(m)) => assert_eq!(m, "Type error"),
        _ => panic!("expected a runtime error"),
    }
    assert_eq!(Number::Integer(9).int_value().expect("value"), 9);
}

#[test]
fn cannot_assign_string_to_variable() {
    let mut variables = Variables::new();
    let mut console = Console::new();
    let stmt = Statement::Let('a', Expression::String(String::from("hi")));
    match stmt.execute(&mut variables, &mut console) {
        Err(BasicError::RuntimeError(m)) => assert_eq!(m, "Can't assign strings to variables"),
        _ => panic!("expected a runtime error"),
    }
}

#[test]
fn cannot_compare_strings() {
    let mut variables = Variables::new();
    let mut console = Console::new();
    let stmt = Statement::If(
        Condition::Boolean(
            Expression::String(String::from("a")),
            Relop::EQ,
            Expression::Numeric(Number::Integer(1)),
        ),
        Box::new(Statement::End),
    );
    match stmt.execute(&mut variables, &mut console) {
        Err(BasicError::RuntimeError(m)) => assert_eq!(m, "Can't compare strings"),
        _ => panic!("expected a runtime error"),
    }
}

#[test]
fn for_values_must_be_integers() {
    let mut variables = Variables::new();
    let mut console = Console::new();
    let stmt = Statement::For(
        'i',
        Expression::Numeric(Number::Float(1.5f64.to_bits())),
        Expression::Numeric(Number::Integer(3)),
        None,
    );
    match stmt.execute(&mut variables, &mut console) {
        Err(BasicError::RuntimeError(m)) => {
            assert_eq!(m, "Values in for statement must be integers")
        }
        _ => panic!("expected a runtime error"),
    }
}

#[test]
fn float_renders_and_parses_back() {
    let half = Number::Float(2.5f64.to_bits());
    let text = half.render();
    assert!(!text.is_empty());
    let mut reader = SourceReader::new(text);
    assert_eq!(reader.get_number().expect("parse"), half);
}

#[test]
fn integer_renders_exactly() {
    assert_eq!(Number::Integer(-204).render(), "-204");
    assert_eq!(Number::Integer(0).render(), "0");
    assert_eq!(Number::Integer(i32::MIN).render(), "-2147483648");
}
