use agm::error::ErrorKind;
use agm::eval::{apply_operator, evalrpn, Evaluated};
use agm::lexer::tokenize;
use agm::postfix::to_postfix;
use agm::table::Table;
use agm::token::Operator;

fn eval_in(src: &str, vars: &Table<i32>) -> Result<Evaluated, ErrorKind> {
    let pf = to_postfix(&tokenize(src).unwrap()).unwrap();
    evalrpn(&pf, vars)
}

fn eval(src: &str) -> Result<Evaluated, ErrorKind> {
    eval_in(src, &Table::new())
}

fn number(src: &str) -> i32 {
    match eval(src) {
        Ok(Evaluated::Number(n)) => n,
        other => panic!("{} gave {:?}", src, other),
    }
}

fn error(src: &str) -> ErrorKind {
    match eval(src) {
        Err(e) => e,
        other => panic!("{} gave {:?}", src, other),
    }
}

#[test]
fn precedence_examples() {
    assert_eq!(number("2 + 3 * 4"), 14);
    assert_eq!(number("(2 + 3) * 4"), 20);
}

#[test]
fn left_to_right_for_equal_precedence() {
    assert_eq!(number("10 - 4 - 3"), 3);
    assert_eq!(number("100 / 10 / 5"), 2);
    assert_eq!(number("2 * (3 - (4 + 1))"), -4);
}

#[test]
fn division_truncates_toward_zero() {
    assert_eq!(number("0 - 7 / 2"), -3);
    assert_eq!(number("(0 - 7) / 2"), -3);
    assert_eq!(number("(0 - 7) % 2"), -1);
    assert_eq!(number("7 % (0 - 2)"), 1);
}

#[test]
fn bitwise_operators() {
    assert_eq!(number("12 & 10"), 8);
    assert_eq!(number("12 | 10"), 14);
    assert_eq!(number("12 ^ 10"), 6);
    assert_eq!(number("1 + 12 & 10"), 9);
}

#[test]
fn division_by_zero_is_reported() {
    assert_eq!(error("1 / 0"), ErrorKind::DivisionByZeroError);
    assert_eq!(error("5 % (2 - 2)"), ErrorKind::DivisionByZeroError);
}

#[test]
fn overflow_is_reported() {
    assert_eq!(error("2147483647 + 1"), ErrorKind::OverflowError);
    assert_eq!(error("0 - 2147483647 - 2"), ErrorKind::OverflowError);
    assert_eq!(error("65536 * 65536"), ErrorKind::OverflowError);
    assert_eq!(apply_operator(Operator::Div, i32::MIN, -1), Err(ErrorKind::OverflowError));
    assert_eq!(apply_operator(Operator::Mod, i32::MIN, -1), Err(ErrorKind::OverflowError));
}

#[test]
fn missing_operand_is_an_arity_error() {
    assert_eq!(error("+ 1"), ErrorKind::ArityError);
    assert_eq!(error("-"), ErrorKind::ArityError);
}

#[test]
fn unknown_identifiers() {
    assert_eq!(error("$y + 1"), ErrorKind::UnknownIdentifierError);
    assert_eq!(error("skip"), ErrorKind::UnknownIdentifierError);
}

#[test]
fn number_and_text_conflict() {
    assert_eq!(error("5 \"a\""), ErrorKind::TypeConflictError);
}

#[test]
fn empty_text_does_not_conflict() {
    assert_eq!(number("5 \"\""), 5);
}

#[test]
fn leftover_operands_are_malformed() {
    assert_eq!(error("1 2"), ErrorKind::SyntaxError);
}

#[test]
fn text_result() {
    match eval("\"hello\"") {
        Ok(Evaluated::Text(s)) => assert_eq!(s, "hello"),
        other => panic!("unexpected {:?}", other),
    }
}

#[test]
fn variables_are_read_without_sigil() {
    let mut vars = Table::new();
    vars.set("x", 6);
    match eval_in("$x * 7", &vars) {
        Ok(Evaluated::Number(n)) => assert_eq!(n, 42),
        other => panic!("unexpected {:?}", other),
    }
    assert_eq!(vars.get("x"), Some(6));
    vars.set("x", 1);
    assert_eq!(vars.get("x"), Some(1));
    assert_eq!(vars.get("y"), None);
}
