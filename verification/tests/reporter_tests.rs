use sapphire::error::{ParseError, RuntimeError};
use sapphire::sapphire::Sapphire;
use sapphire::text::decimal_string;
use sapphire::token::Token;
use sapphire::token_type::TokenType;
use sapphire::value::Value;

fn render(bits: u64) -> String {
    f64::from_bits(bits).to_string()
}

#[test]
fn new_reporter_is_clean() {
    let main = Sapphire::new();
    assert!(!main.had_error);
    assert!(!main.had_runtime_error);
    assert!(main.messages.is_empty());
}

#[test]
fn error_renders_line_and_message() {
    let mut main = Sapphire::new();
    main.error(12, "Unterminated string".to_string());
    assert!(main.had_error);
    assert!(!main.had_runtime_error);
    assert_eq!(main.messages, vec!["[line 12] [Error]: Unterminated string".to_string()]);
}

#[test]
fn report_renders_place() {
    let mut main = Sapphire::new();
    main.report(3, " at 'x'".to_string(), "bad".to_string());
    main.report(0, String::new(), String::new());
    assert_eq!(
        main.messages,
        vec!["[line 3] [Error at 'x']: bad".to_string(), "[line 0] [Error]: ".to_string()]
    );
}

#[test]
fn token_error_names_lexeme_or_end() {
    let mut main = Sapphire::new();
    let plus = Token {
        token_type: TokenType::Plus,
        lexeme: "+".to_string(),
        literal: Value::Null,
        line: 4,
    };
    let end = Token {
        token_type: TokenType::EOF,
        lexeme: String::new(),
        literal: Value::Null,
        line: 5,
    };
    main.token_error(plus, "first".to_string());
    main.token_error(end, "second".to_string());
    assert!(main.had_error);
    assert_eq!(
        main.messages,
        vec!["[line 4] [Error at '+']: first".to_string(), "[line 5] [Error at end]: second".to_string()]
    );
}

#[test]
fn runtime_error_raises_its_own_flag() {
    let mut main = Sapphire::new();
    main.runtime_error(RuntimeError::new("boom", 1024));
    assert!(!main.had_error);
    assert!(main.had_runtime_error);
    assert_eq!(main.messages, vec!["[line 1024] [RuntimeError] boom".to_string()]);
}

#[test]
fn errors_carry_their_message() {
    let error = RuntimeError::new("m", 3);
    assert_eq!(error.message, "m");
    assert_eq!(error.line, 3);
    assert_eq!(error.to_string(), "m");
    let error = ParseError::new("p");
    assert_eq!(error.message, "p");
    assert_eq!(error.to_string(), "p");
}

#[test]
fn decimal_numerals() {
    assert_eq!(decimal_string(0), "0");
    assert_eq!(decimal_string(7), "7");
    assert_eq!(decimal_string(10), "10");
    assert_eq!(decimal_string(1234567890), "1234567890");
    assert_eq!(decimal_string(usize::MAX), usize::MAX.to_string());
}

#[test]
fn value_to_string() {
    assert_eq!(Value::Str("abc".to_string()).to_string(&render), "abc");
    assert_eq!(Value::Number(1.0f64.to_bits()).to_string(&render), "1");
    assert_eq!(Value::Number(2.5f64.to_bits()).to_string(&render), "2.5");
    assert_eq!(Value::Bool(true).to_string(&render), "true");
    assert_eq!(Value::Bool(false).to_string(&render), "false");
    assert_eq!(Value::Null.to_string(&render), "nil");
}

#[test]
fn value_equality_is_structural() {
    assert_eq!(Value::Null, Value::Null);
    assert_eq!(Value::Str("a".to_string()), Value::Str("a".to_string()));
    assert_ne!(Value::Str("a".to_string()), Value::Str("b".to_string()));
    assert_eq!(Value::Number(0.0f64.to_bits()), Value::Number((-0.0f64).to_bits()));
    assert_ne!(Value::Number(f64::NAN.to_bits()), Value::Number(f64::NAN.to_bits()));
    assert_ne!(Value::Bool(true), Value::Null);
    assert_eq!(Value::Bool(true).clone(), Value::Bool(true));
}
