use sapphire::astprinter::AstPrinter;
use sapphire::expr::Expr;
use sapphire::parser::Parser;
use sapphire::sapphire::Sapphire;
use sapphire::scanner::Scanner;
use sapphire::token::Token;
use sapphire::token_type::TokenType;
use sapphire::value::Value;

fn parse_number(text: &str) -> u64 {
    text.parse::<f64>().unwrap().to_bits()
}

fn render(bits: u64) -> String {
    f64::from_bits(bits).to_string()
}

fn print(expr: &Expr) -> String {
    let mut printer = AstPrinter { render: &render };
    printer.print(expr)
}

fn printed(source: &str) -> String {
    let mut main = Sapphire::new();
    let tokens = {
        let mut scanner = Scanner::new(&mut main, source.to_string(), &parse_number);
        scanner.scan_tokens()
    };
    let mut parser = Parser::new(&mut main, tokens);
    print(&parser.parse().unwrap())
}

#[test]
fn prints_literals() {
    assert_eq!(print(&Expr::Literal { value: Value::Number(1.0f64.to_bits()) }), "1");
    assert_eq!(print(&Expr::Literal { value: Value::Number(45.67f64.to_bits()) }), "45.67");
    assert_eq!(print(&Expr::Literal { value: Value::Str("hi".to_string()) }), "\"hi\"");
    assert_eq!(print(&Expr::Literal { value: Value::Bool(true) }), "true");
    assert_eq!(print(&Expr::Literal { value: Value::Bool(false) }), "false");
    assert_eq!(print(&Expr::Literal { value: Value::Null }), "nil");
}

#[test]
fn prints_infix_notation() {
    let expr = Expr::Binary {
        left: Box::new(Expr::Unary {
            operator: Token {
                token_type: TokenType::Minus,
                lexeme: "-".to_string(),
                literal: Value::Null,
                line: 1,
            },
            right: Box::new(Expr::Literal { value: Value::Number(123.0f64.to_bits()) }),
        }),
        operator: Token {
            token_type: TokenType::Star,
            lexeme: "*".to_string(),
            literal: Value::Null,
            line: 1,
        },
        right: Box::new(Expr::Grouping {
            expression: Box::new(Expr::Literal { value: Value::Number(45.67f64.to_bits()) }),
        }),
    };
    assert_eq!(print(&expr), "((-123) * (45.67))");
}

#[test]
fn prints_parsed_trees() {
    assert_eq!(printed("1 + 2 * 3"), "(1 + (2 * 3))");
    assert_eq!(printed("(1 + 2) * 3"), "(((1 + 2)) * 3)");
    assert_eq!(printed("1 - 2 - 3"), "((1 - 2) - 3)");
    assert_eq!(printed("!(nil == \"a\")"), "(!((nil == \"a\")))");
    assert_eq!(printed("1 >= 2 != !true"), "((1 >= 2) != (!true))");
}

#[test]
fn expression_clone_prints_alike() {
    let mut main = Sapphire::new();
    let tokens = {
        let mut scanner = Scanner::new(&mut main, "-(1 + 2) <= 3".to_string(), &parse_number);
        scanner.scan_tokens()
    };
    let mut parser = Parser::new(&mut main, tokens);
    let expr = parser.parse().unwrap();
    let copy = expr.clone();
    assert_eq!(print(&copy), print(&expr));
    assert_eq!(print(&copy), "((-((1 + 2))) <= 3)");
}
