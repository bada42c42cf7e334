use sapphire::expr::Expr;
use sapphire::parser::Parser;
use sapphire::sapphire::Sapphire;
use sapphire::scanner::Scanner;
use sapphire::token::Token;
use sapphire::token_type::TokenType;
use sapphire::value::Value;

fn parse_number(text: &str) -> u64 {
    text.parse::<f64>().unwrap().to_bits()
}

fn tokens_of(source: &str) -> Vec<Token> {
    let mut main = Sapphire::new();
    let mut scanner = Scanner::new(&mut main, source.to_string(), &parse_number);
    scanner.scan_tokens()
}

fn parse(source: &str) -> (Result<Expr, String>, Sapphire) {
    let tokens = tokens_of(source);
    let mut main = Sapphire::new();
    let result = {
        let mut parser = Parser::new(&mut main, tokens);
        parser.parse()
    };
    (result.map_err(|e| e.to_string()), main)
}

// A compact rendering of a tree, for comparing shapes.
fn shape(expr: &Expr) -> String {
    match expr {
        Expr::Binary { left, operator, right } => {
            format!("({} {} {})", operator.lexeme, shape(left), shape(right))
        }
        Expr::Grouping { expression } => format!("[{}]", shape(expression)),
        Expr::Literal { value } => match value {
            Value::Number(bits) => format!("{}", f64::from_bits(*bits)),
            Value::Str(s) => format!("{:?}", s),
            Value::Bool(b) => format!("{}", b),
            Value::Null => "nil".to_string(),
        },
        Expr::Unary { operator, right } => format!("({} {})", operator.lexeme, shape(right)),
    }
}

fn shape_of(source: &str) -> String {
    let (result, main) = parse(source);
    assert!(!main.had_error);
    shape(&result.unwrap())
}

#[test]
fn multiplication_binds_tighter_than_addition() {
    assert_eq!(shape_of("1 + 2 * 3"), "(+ 1 (* 2 3))");
    assert_eq!(shape_of("1 * 2 + 3"), "(+ (* 1 2) 3)");
}

#[test]
fn binary_operators_fold_to_the_left() {
    assert_eq!(shape_of("1 - 2 - 3"), "(- (- 1 2) 3)");
    assert_eq!(shape_of("8 / 4 / 2"), "(/ (/ 8 4) 2)");
    assert_eq!(shape_of("1 < 2 < 3"), "(< (< 1 2) 3)");
    assert_eq!(shape_of("1 == 2 != 3"), "(!= (== 1 2) 3)");
}

#[test]
fn precedence_ladder() {
    assert_eq!(shape_of("1 == 2 < 3 + 4 * -5"), "(== 1 (< 2 (+ 3 (* 4 (- 5)))))");
    assert_eq!(shape_of("-1 * 2 + 3 >= 4 != true"), "(!= (>= (+ (* (- 1) 2) 3) 4) true)");
}

#[test]
fn grouping_overrides_precedence() {
    assert_eq!(shape_of("(1 + 2) * 3"), "(* [(+ 1 2)] 3)");
    assert_eq!(shape_of("((1))"), "[[1]]");
}

#[test]
fn unary_is_right_associative() {
    assert_eq!(shape_of("!!true"), "(! (! true))");
    assert_eq!(shape_of("-!-1"), "(- (! (- 1)))");
}

#[test]
fn literals() {
    assert_eq!(shape_of("true"), "true");
    assert_eq!(shape_of("false"), "false");
    assert_eq!(shape_of("nil"), "nil");
    assert_eq!(shape_of("12.5"), "12.5");
    assert_eq!(shape_of("\"hi\""), "\"hi\"");
}

#[test]
fn parse_stops_after_one_expression() {
    let tokens = tokens_of("1 2");
    let mut main = Sapphire::new();
    let mut parser = Parser::new(&mut main, tokens);
    let result = parser.parse();
    assert!(result.is_ok());
    assert_eq!(parser.current, 1);
}

#[test]
fn concatenation_operator_is_no_binary_level() {
    // `..` is no operator of the grammar: the expression ends before it
    let tokens = tokens_of("1 .. 2");
    let mut main = Sapphire::new();
    let mut parser = Parser::new(&mut main, tokens);
    let result = parser.parse();
    assert_eq!(shape(&result.unwrap()), "1");
    assert_eq!(parser.current, 1);
}

#[test]
fn missing_closing_parenthesis_is_one_error_at_end() {
    let (result, main) = parse("(1 + 2");
    assert_eq!(result.unwrap_err(), "Expect ')' to close grouping expression.");
    assert!(main.had_error);
    assert!(!main.had_runtime_error);
    assert_eq!(
        main.messages,
        vec!["[line 1] [Error at end]: Expect ')' to close grouping expression.".to_string()]
    );
}

#[test]
fn wrong_token_in_place_of_closing_parenthesis() {
    let (result, main) = parse("(1 2)");
    assert_eq!(result.unwrap_err(), "Expect ')' to close grouping expression.");
    assert_eq!(
        main.messages,
        vec!["[line 1] [Error at '2']: Expect ')' to close grouping expression.".to_string()]
    );
}

#[test]
fn token_that_starts_no_expression() {
    let (result, main) = parse("1 +\n* 2");
    assert_eq!(result.unwrap_err(), "Expected expression");
    assert_eq!(main.messages, vec!["[line 2] [Error at '*']: Expected expression".to_string()]);
}

#[test]
fn empty_input_fails_at_the_end_marker() {
    let (result, main) = parse("");
    assert_eq!(result.unwrap_err(), "Expected expression");
    assert!(main.had_error);
    assert_eq!(main.messages, vec!["[line 1] [Error at end]: Expected expression".to_string()]);
}

#[test]
fn operator_without_right_operand() {
    let (result, main) = parse("1 +");
    assert_eq!(result.unwrap_err(), "Expected expression");
    assert_eq!(main.messages, vec!["[line 1] [Error at end]: Expected expression".to_string()]);
}

#[test]
fn cursor_helpers() {
    let tokens = tokens_of("1 + 2");
    let mut main = Sapphire::new();
    let mut parser = Parser::new(&mut main, tokens);
    assert_eq!(parser.peek().token_type, TokenType::Number);
    assert!(!parser.is_at_end());
    assert!(parser.check(TokenType::Number));
    assert!(!parser.check(TokenType::Plus));
    assert!(!parser.match_types(vec![TokenType::Plus, TokenType::Minus]));
    assert_eq!(parser.current, 0);
    assert!(parser.match_types(vec![TokenType::Plus, TokenType::Number]));
    assert_eq!(parser.current, 1);
    assert_eq!(parser.previous().lexeme, "1");
    assert_eq!(parser.advance().unwrap().token_type, TokenType::Plus);
    assert!(parser.consume(TokenType::Number, "number".to_string()).is_ok());
    assert!(parser.is_at_end());
    assert!(!parser.check(TokenType::EOF));
    assert!(!parser.match_types(vec![TokenType::EOF]));
    assert_eq!(parser.current, 3);
    assert!(parser.advance().is_err());
    assert_eq!(parser.current, 3);
    assert_eq!(parser.main.messages, vec!["[line 1] [Error at end]: Expected expression".to_string()]);
}

#[test]
fn consume_failure_reports_at_token() {
    let tokens = tokens_of("1 + 2");
    let mut main = Sapphire::new();
    let mut parser = Parser::new(&mut main, tokens);
    let error = parser.consume(TokenType::Plus, "wanted plus".to_string()).unwrap_err();
    assert_eq!(error.message, "wanted plus");
    assert_eq!(parser.current, 0);
    assert_eq!(main.messages, vec!["[line 1] [Error at '1']: wanted plus".to_string()]);
}

#[test]
fn error_reports_and_returns_message() {
    let tokens = tokens_of("x");
    let token = tokens[0].clone();
    let mut main = Sapphire::new();
    let mut parser = Parser::new(&mut main, tokens);
    let error = parser.error(token, "bad".to_string());
    assert_eq!(error.to_string(), "bad");
    assert!(main.had_error);
    assert_eq!(main.messages, vec!["[line 1] [Error at 'x']: bad".to_string()]);
}

#[test]
fn synchronize_stops_after_semicolon() {
    let tokens = tokens_of("1 + ; 2 3");
    let mut main = Sapphire::new();
    let mut parser = Parser::new(&mut main, tokens);
    parser.synchronize();
    assert_eq!(parser.current, 3);
    assert!(!main.had_error);
}

#[test]
fn synchronize_stops_before_statement_keyword() {
    for keyword in ["class", "fn", "var", "for", "if", "while", "println", "return"] {
        let tokens = tokens_of(&format!("1 + 2 {} x", keyword));
        let mut main = Sapphire::new();
        let mut parser = Parser::new(&mut main, tokens);
        parser.synchronize();
        assert_eq!(parser.current, 3);
    }
}

#[test]
fn synchronize_always_skips_first_token() {
    let tokens = tokens_of("var x");
    let mut main = Sapphire::new();
    let mut parser = Parser::new(&mut main, tokens);
    parser.synchronize();
    assert_eq!(parser.current, 2);
    assert!(parser.is_at_end());
}

#[test]
fn synchronize_at_end_reports_nothing() {
    let tokens = tokens_of("");
    let mut main = Sapphire::new();
    let mut parser = Parser::new(&mut main, tokens);
    parser.synchronize();
    assert_eq!(parser.current, 0);
    assert!(!main.had_error);
    assert!(main.messages.is_empty());
}

#[test]
fn failure_at_end_marker_names_its_line() {
    let (result, main) = parse("1 +\n\n");
    assert_eq!(result.unwrap_err(), "Expected expression");
    assert!(main.had_error);
    assert_eq!(main.messages, vec!["[line 3] [Error at end]: Expected expression".to_string()]);
}
