use lisp::{evaluate, EvalFault, RisprError};

fn value(line: &str) -> i64 {
    match evaluate(line) {
        Ok(v) => v,
        Err(e) => panic!("{} failed: {}", line, e.message()),
    }
}

#[test]
fn empty_sum_is_zero() {
    assert_eq!(value("(+)"), 0);
}

#[test]
fn empty_product_is_one() {
    assert_eq!(value("(*)"), 1);
}

#[test]
fn subtraction_goes_left_to_right() {
    assert_eq!(value("(- 10 1 2 3)"), 4);
}

#[test]
fn division_goes_left_to_right() {
    assert_eq!(value("(/ 100 5 2)"), 10);
}

#[test]
fn nested_expression() {
    assert_eq!(value("(+ 1 (* 2 3) 4)"), 11);
}

#[test]
fn bare_literal() {
    assert_eq!(value("5"), 5);
    assert_eq!(value("(5)"), 5);
}

#[test]
fn division_by_zero_is_reported() {
    assert!(matches!(
        evaluate("(/ 5 0)"),
        Err(RisprError::EvalError(EvalFault::DivisionByZero))
    ));
    assert_eq!(evaluate("(/ 5 0)").unwrap_err().message(), "division by zero");
}

#[test]
fn overflow_is_reported() {
    assert!(matches!(
        evaluate("(+ 9223372036854775807 1)"),
        Err(RisprError::EvalError(EvalFault::Overflow))
    ));
    assert!(matches!(
        evaluate("(* 4294967296 4294967296)"),
        Err(RisprError::EvalError(EvalFault::Overflow))
    ));
    assert!(matches!(
        evaluate("(/ -9223372036854775808 -1)"),
        Err(RisprError::EvalError(EvalFault::Overflow))
    ));
    assert!(matches!(
        evaluate("(- -9223372036854775808 1)"),
        Err(RisprError::EvalError(EvalFault::Overflow))
    ));
}

#[test]
fn division_truncates_toward_zero() {
    assert_eq!(value("(/ -7 2)"), -3);
    assert_eq!(value("(/ 7 -2)"), -3);
    assert_eq!(value("(/ -7 -2)"), 3);
}

#[test]
fn single_operand() {
    assert_eq!(value("(- 5)"), 5);
    assert_eq!(value("(/ 5)"), 5);
    assert_eq!(value("(+ 5)"), 5);
}

#[test]
fn defaults_to_zero() {
    assert_eq!(value("(-)"), 0);
    assert_eq!(value("(/)"), 0);
    assert_eq!(value("((+ 1 2) 3)"), 0);
}

#[test]
fn number_head_is_the_value() {
    assert_eq!(value("(7 (/ 1 0))"), 7);
}

#[test]
fn several_top_level_forms_form_one_list() {
    assert_eq!(value("+ 1 2"), 3);
    assert_eq!(value("* 2 (+ 3 4)"), 14);
}

#[test]
fn signed_numerals() {
    assert_eq!(value("(+ -3 +5)"), 2);
    assert_eq!(value("(-3)"), -3);
}

#[test]
fn operand_failure_comes_first() {
    assert!(matches!(
        evaluate("(+ (/ 1 0) 9223372036854775807 1)"),
        Err(RisprError::EvalError(EvalFault::DivisionByZero))
    ));
}

#[test]
fn evaluate_reports_parse_errors() {
    assert!(matches!(evaluate("(+ 1 2"), Err(RisprError::ParseError(_))));
}
