use rlox::value::Value;
use rlox::vm::InterpretResult;
use rlox::{compile_and_run, interpret};

fn run_number(source: &str) -> f64 {
    let s = String::from(source);
    match compile_and_run(&s) {
        Ok(Value::Number(bits)) => f64::from_bits(bits),
        other => panic!("expected a number from {:?}, got {:?}", source, other),
    }
}

#[test]
fn single_literal_evaluates() {
    assert_eq!(run_number("1"), 1.0);
}

#[test]
fn unary_minus_evaluates() {
    assert_eq!(run_number("-1"), -1.0);
}

#[test]
fn addition_evaluates() {
    assert_eq!(run_number("1+2"), 3.0);
}

#[test]
fn nested_grouping_evaluates() {
    // 1 + (2 - (3 * (4/5))) = 0.6, up to IEEE rounding of the parts
    assert_eq!(run_number("1 + (2 - (3 * (4 / 5)))"), 1.0 + (2.0 - (3.0 * (4.0 / 5.0))));
}

#[test]
fn precedence_evaluates() {
    // `*` binds before `+`
    assert_eq!(run_number("(1 + 3 * 4) + 5"), 18.0);
}

#[test]
fn division_by_zero_is_infinity() {
    let v = run_number("1 / 0");
    assert!(v.is_infinite());
    assert!(v > 0.0);
}

#[test]
fn left_associativity() {
    assert_eq!(run_number("10 - 4 - 3"), 3.0);
    assert_eq!(run_number("100 / 10 / 5"), 2.0);
}

#[test]
fn fractional_literals_evaluate() {
    assert_eq!(run_number("3.5 * 2"), 7.0);
    assert_eq!(run_number("0.1 + 0.2"), 0.1f64 + 0.2f64);
}

#[test]
fn interpret_reports_ok() {
    let s = String::from("1 + 2 * 3");
    assert_eq!(interpret(&s), InterpretResult::InterpretOk);
}

#[test]
fn interpret_reports_compile_error() {
    let bad = ["", "(", "1 +", "1 2", "\"abc", "@", "+1", "and"];
    for source in bad.iter() {
        let s = String::from(*source);
        assert_eq!(interpret(&s), InterpretResult::InterpretCompilerError);
    }
}

#[test]
fn compile_and_run_rejects_garbage_after_expression() {
    let s = String::from("1 + 2 )");
    assert_eq!(compile_and_run(&s), Err(InterpretResult::InterpretCompilerError));
}

#[test]
fn comments_are_skipped() {
    assert_eq!(run_number("1 + // one more\n 2"), 3.0);
}
