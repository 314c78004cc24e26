//! Tokenizer, parser and printer tests.

use rlisp::data::{ParseError, Token, Value};
use rlisp::lexer::Tokenizer;
use rlisp::parser::Parser;

fn parse_displays(src: &str) -> Result<Vec<String>, ParseError> {
    Parser::new(src).parse().map(|vs| vs.iter().map(|v| v.display_text()).collect())
}

#[test]
fn tokenizes_punctuation_and_atoms() {
    let mut t = Tokenizer::new(" ( )'x 12 -3 -");
    assert!(matches!(t.next(), Token::Lparen));
    assert!(matches!(t.next(), Token::Rparen));
    assert!(matches!(t.next(), Token::Quote));
    match t.next() {
        Token::Ident(s) => assert_eq!(s.iter().collect::<String>(), "x"),
        other => panic!("expected an identifier, got {:?}", other),
    }
    assert!(matches!(t.next(), Token::Number(12)));
    assert!(matches!(t.next(), Token::Number(-3)));
    match t.next() {
        Token::Ident(s) => assert_eq!(s.iter().collect::<String>(), "-"),
        other => panic!("expected an identifier, got {:?}", other),
    }
    assert!(matches!(t.next(), Token::End));
    assert!(matches!(t.next(), Token::End));
}

#[test]
fn tokenizes_string_escapes() {
    let mut t = Tokenizer::new("\"a\\nb\\tc\\\\d\\\"e\"");
    match t.next() {
        Token::Str(s) => assert_eq!(s.iter().collect::<String>(), "a\nb\tc\\d\"e"),
        other => panic!("expected a string, got {:?}", other),
    }
}

#[test]
fn unterminated_string_is_an_error() {
    let mut t = Tokenizer::new("\"abc");
    assert!(matches!(t.next(), Token::Error(ParseError::UnclosedString)));
}

#[test]
fn digit_led_garbage_is_invalid_number() {
    let mut t = Tokenizer::new("5x");
    assert!(matches!(t.next(), Token::Error(ParseError::InvalidNumber)));
}

#[test]
fn minus_led_garbage_is_an_identifier() {
    let mut t = Tokenizer::new("-foo");
    match t.next() {
        Token::Ident(s) => assert_eq!(s.iter().collect::<String>(), "-foo"),
        other => panic!("expected an identifier, got {:?}", other),
    }
}

#[test]
fn overflowing_number_literal_is_invalid() {
    let mut t = Tokenizer::new("9223372036854775808");
    assert!(matches!(t.next(), Token::Error(ParseError::InvalidNumber)));
    // the most negative literal still fits
    let mut t = Tokenizer::new("-9223372036854775808");
    assert!(matches!(t.next(), Token::Number(i64::MIN)));
}

#[test]
fn parses_nested_lists() {
    assert_eq!(
        parse_displays("(a (b c) ((d)) ())").unwrap(),
        vec!["(a (b c) ((d)) ())"]
    );
}

#[test]
fn parses_quote_sugar() {
    assert_eq!(parse_displays("'(1 2)").unwrap(), vec!["(quote (1 2))"]);
    assert_eq!(parse_displays("'x").unwrap(), vec!["(quote x)"]);
}

#[test]
fn parses_many_expressions() {
    assert_eq!(parse_displays("1 2 (+ 1 2)").unwrap(), vec!["1", "2", "(+ 1 2)"]);
    assert_eq!(parse_displays("").unwrap(), Vec::<String>::new());
    assert_eq!(parse_displays("   ").unwrap(), Vec::<String>::new());
}

#[test]
fn parse_error_unclosed_list() {
    assert_eq!(parse_displays("(1 2"), Err(ParseError::UnclosedList));
}

#[test]
fn parse_error_unexpected_rparen() {
    assert_eq!(parse_displays(")"), Err(ParseError::UnexpectedRparen));
}

#[test]
fn parse_error_missing_quote_argument() {
    assert_eq!(parse_displays("'"), Err(ParseError::NoQuoteArg));
}

#[test]
fn parse_error_propagates_lex_error() {
    assert_eq!(parse_displays("(1 \"x)"), Err(ParseError::UnclosedString));
}

#[test]
fn parse_value_reports_end_of_stream() {
    let mut p = Parser::new("");
    assert_eq!(p.parse_value().map(|_| ()), Err(ParseError::EndOfStream));
}

#[test]
fn parse_error_messages() {
    assert_eq!(ParseError::UnclosedString.message(), "Unclosed string");
    assert_eq!(ParseError::InvalidNumber.message(), "Invalid number literal");
    assert_eq!(ParseError::UnclosedList.message(), "Unclosed list");
    assert_eq!(ParseError::UnexpectedRparen.message(), "Unexpected ')'");
    assert_eq!(ParseError::NoQuoteArg.message(), "Missing quote argument");
    assert_eq!(ParseError::EndOfStream.message(), "End of stream");
}

#[test]
fn displays_every_variant() {
    assert_eq!(Value::Nil.display_text(), "nil");
    assert_eq!(Value::Bool(true).display_text(), "#t");
    assert_eq!(Value::Bool(false).display_text(), "#f");
    assert_eq!(Value::Number(0).display_text(), "0");
    assert_eq!(Value::Number(-42).display_text(), "-42");
    assert_eq!(Value::Number(i64::MIN).display_text(), "-9223372036854775808");
    assert_eq!(Value::Number(i64::MAX).display_text(), "9223372036854775807");
    assert_eq!(Value::Symbol("abc".chars().collect()).display_text(), "abc");
    assert_eq!(Value::Str("hi".chars().collect()).display_text(), "\"hi\"");
    assert_eq!(
        Value::Builtin(rlisp::builtins::Builtin::Add).display_text(),
        "#<builtin:+>"
    );
}

#[test]
fn debug_form_is_type_tagged() {
    assert_eq!(Value::Number(7).debug_text(), "Number(7)");
    assert_eq!(Value::Symbol("s".chars().collect()).debug_text(), "Symbol(s)");
    assert_eq!(Value::Str("s".chars().collect()).debug_text(), "String(\"s\")");
}

#[test]
fn type_text_is_one_of_the_seven_names() {
    let names = ["Nil", "Bool", "Number", "Symbol", "String", "Function", "List"];
    for v in [
        Value::Nil,
        Value::Bool(false),
        Value::Number(1),
        Value::Symbol("a".chars().collect()),
        Value::Str("a".chars().collect()),
        Value::Builtin(rlisp::builtins::Builtin::Car),
        Value::List(rlisp::data::List::End),
    ] {
        assert!(names.contains(&v.type_text()));
    }
}

#[test]
fn extract_string_reads_to_the_closing_quote() {
    // the opening quote is already consumed
    let chars: Vec<char> = "ab\\nc\" rest".chars().collect();
    let mut pos = 0usize;
    let r = rlisp::lexer::extract_string(&chars, &mut pos).unwrap();
    assert_eq!(r.iter().collect::<String>(), "ab\nc");
    assert_eq!(pos, 6);
}

#[test]
fn extract_ident_stops_at_a_separator() {
    // the first character is already consumed
    let chars: Vec<char> = "bc(d".chars().collect();
    let mut pos = 0usize;
    let r = rlisp::lexer::extract_ident(&chars, &mut pos, 'a');
    assert_eq!(r.iter().collect::<String>(), "abc");
    assert_eq!(pos, 2);
}

#[test]
fn multi_line_strings_are_permitted() {
    assert_eq!(parse_displays("\"a\nb\"").unwrap(), vec!["\"a\nb\""]);
}
