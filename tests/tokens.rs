use agm::error::ErrorKind;
use agm::lexer::tokenize;
use agm::postfix::to_postfix;
use agm::render::{serialize, token_text};
use agm::token::{keyword_of, precedence, token_to_string, unwindopstack, Keyword, Operator, Token, Value};

fn text_of(src: &str) -> String {
    serialize(&tokenize(src).unwrap())
}

fn postfix_of(src: &str) -> Result<String, ErrorKind> {
    to_postfix(&tokenize(src).unwrap()).map(|v| serialize(&v))
}

#[test]
fn word_keeps_trailing_digits() {
    let toks = tokenize("$x1").unwrap();
    assert_eq!(toks.len(), 1);
    assert_eq!(token_to_string(&toks[0]).map(|s| s.as_str()), Some("$x1"));
}

#[test]
fn letters_after_digits_are_malformed() {
    assert!(matches!(tokenize("12ab"), Err(ErrorKind::SyntaxError)));
    assert!(matches!(tokenize("3$x"), Err(ErrorKind::SyntaxError)));
}

#[test]
fn string_literal_keeps_everything_inside() {
    let toks = tokenize("\"a + b; (c)\"").unwrap();
    assert_eq!(toks.len(), 1);
    match &toks[0] {
        Token::Val(Value::Str(s)) => assert_eq!(s, "a + b; (c)"),
        other => panic!("unexpected token {:?}", other),
    }
}

#[test]
fn unterminated_string_is_malformed() {
    assert!(matches!(tokenize("PRINT \"abc"), Err(ErrorKind::SyntaxError)));
}

#[test]
fn unknown_character_is_malformed() {
    assert!(matches!(tokenize("1 # 2"), Err(ErrorKind::SyntaxError)));
    assert!(matches!(tokenize("$x = 2"), Err(ErrorKind::SyntaxError)));
}

#[test]
fn integer_literal_range() {
    assert_eq!(text_of("2147483647"), "2147483647");
    assert!(matches!(tokenize("2147483648"), Err(ErrorKind::OverflowError)));
}

#[test]
fn empty_statement_has_no_tokens() {
    assert_eq!(tokenize("").unwrap().len(), 0);
    assert_eq!(tokenize("  \t ").unwrap().len(), 0);
}

#[test]
fn operators_split_words_and_numbers() {
    assert_eq!(text_of("$a+12*(b-3)%4&5|6^7/8"), "$a + 12 * ( b - 3 ) % 4 & 5 | 6 ^ 7 / 8");
}

#[test]
fn round_trip_reproduces_statement_modulo_whitespace() {
    let src = "PRINT   $x1+( 42 *\"hi  there\")";
    let first = tokenize(src).unwrap();
    let canonical = serialize(&first);
    assert_eq!(canonical, "PRINT $x1 + ( 42 * \"hi  there\" )");
    let second = tokenize(&canonical).unwrap();
    assert_eq!(serialize(&second), canonical);
    assert_eq!(second.len(), first.len());
}

#[test]
fn round_trip_normalises_leading_zeros() {
    let canonical = text_of("007+ 0");
    assert_eq!(canonical, "7 + 0");
    assert_eq!(text_of(&canonical), canonical);
}

#[test]
fn token_text_of_each_kind() {
    assert_eq!(token_text(&Token::Val(Value::Int(-5))), "-5");
    assert_eq!(token_text(&Token::Val(Value::Int(i32::MIN))), "-2147483648");
    assert_eq!(token_text(&Token::Val(Value::Int(0))), "0");
    assert_eq!(token_text(&Token::Val(Value::Str("q".to_string()))), "\"q\"");
    assert_eq!(token_text(&Token::Op(Operator::Closed)), ")");
}

#[test]
fn precedence_table() {
    assert_eq!(precedence(Operator::Open), 0);
    assert_eq!(precedence(Operator::Closed), 0);
    assert_eq!(precedence(Operator::Plus), 1);
    assert_eq!(precedence(Operator::Minus), 1);
    assert_eq!(precedence(Operator::Mul), 2);
    assert_eq!(precedence(Operator::Xor), 2);
}

#[test]
fn unwinding_pops_equal_or_tighter() {
    assert!(!unwindopstack(&vec![], Operator::Plus));
    assert!(unwindopstack(&vec![Operator::Plus], Operator::Minus));
    assert!(unwindopstack(&vec![Operator::Mul], Operator::Plus));
    assert!(!unwindopstack(&vec![Operator::Plus], Operator::Mul));
    assert!(!unwindopstack(&vec![Operator::Open], Operator::Plus));
}

#[test]
fn keywords_are_recognised() {
    assert_eq!(keyword_of("PRINT"), Some(Keyword::Print));
    assert_eq!(keyword_of("GOTO"), Some(Keyword::Goto));
    assert_eq!(keyword_of("BZ"), Some(Keyword::BranchIfZero));
    assert_eq!(keyword_of("BG"), Some(Keyword::BranchIfNonZero));
    assert_eq!(keyword_of("NEWL"), Some(Keyword::Newline));
    assert_eq!(keyword_of("END"), Some(Keyword::End));
    assert_eq!(keyword_of("print"), None);
}

#[test]
fn postfix_respects_precedence() {
    assert_eq!(postfix_of("2 + 3 * 4").unwrap(), "2 3 4 * +");
    assert_eq!(postfix_of("(2 + 3) * 4").unwrap(), "2 3 + 4 *");
    assert_eq!(postfix_of("1 - 2 - 3").unwrap(), "1 2 - 3 -");
    assert_eq!(postfix_of("2 * (3 + 4) - 5").unwrap(), "2 3 4 + * 5 -");
}

#[test]
fn postfix_flushes_before_keywords() {
    assert_eq!(postfix_of("BZ $x - 1 PRINT $y + 2").unwrap(), "BZ $x 1 - PRINT $y 2 +");
}

#[test]
fn mismatched_parentheses() {
    assert!(matches!(postfix_of("(1 + 2"), Err(ErrorKind::MismatchedParenthesesError)));
    assert!(matches!(postfix_of("1 + 2)"), Err(ErrorKind::MismatchedParenthesesError)));
    assert!(matches!(postfix_of("BZ (1 PRINT 2)"), Err(ErrorKind::MismatchedParenthesesError)));
}
