use sapphire::astprinter::AstPrinter;
use sapphire::error::RuntimeError;
use sapphire::expr::Expr;
use sapphire::interpreter::Interpreter;
use sapphire::number::Arithmetic;
use sapphire::parser::Parser;
use sapphire::sapphire::Sapphire;
use sapphire::scanner::Scanner;
use sapphire::token::Token;
use sapphire::token_type::TokenType;
use sapphire::value::Value;

fn parse_number(text: &str) -> u64 {
    text.parse::<f64>().unwrap().to_bits()
}

fn arith(op: Arithmetic, a: u64, b: u64) -> u64 {
    let x = f64::from_bits(a);
    let y = f64::from_bits(b);
    let r = match op {
        Arithmetic::Add => x + y,
        Arithmetic::Subtract => x - y,
        Arithmetic::Multiply => x * y,
        Arithmetic::Divide => x / y,
    };
    r.to_bits()
}

fn render(bits: u64) -> String {
    f64::from_bits(bits).to_string()
}

fn plain(token_type: TokenType) -> Token {
    Token { token_type, lexeme: String::new(), literal: Value::Null, line: 1 }
}

fn operator(token_type: TokenType, lexeme: &str, line: usize) -> Token {
    Token { token_type, lexeme: lexeme.to_string(), literal: Value::Null, line }
}

fn literal_token(value: &Value) -> Token {
    match value {
        Value::Bool(true) => plain(TokenType::True),
        Value::Bool(false) => plain(TokenType::False),
        Value::Null => plain(TokenType::Nil),
        Value::Number(_) => Token {
            token_type: TokenType::Number,
            lexeme: String::new(),
            literal: value.clone(),
            line: 1,
        },
        Value::Str(_) => Token {
            token_type: TokenType::String,
            lexeme: String::new(),
            literal: value.clone(),
            line: 1,
        },
    }
}

// The tree in infix notation, every operator node between parentheses.
fn infix(expr: &Expr, out: &mut Vec<Token>) {
    match expr {
        Expr::Literal { value } => out.push(literal_token(value)),
        Expr::Grouping { expression } => {
            out.push(plain(TokenType::LeftParen));
            infix(expression, out);
            out.push(plain(TokenType::RightParen));
        }
        Expr::Unary { operator, right } => {
            out.push(plain(TokenType::LeftParen));
            out.push(operator.clone());
            infix(right, out);
            out.push(plain(TokenType::RightParen));
        }
        Expr::Binary { left, operator, right } => {
            out.push(plain(TokenType::LeftParen));
            infix(left, out);
            out.push(operator.clone());
            infix(right, out);
            out.push(plain(TokenType::RightParen));
        }
    }
}

fn eval(expr: &Expr) -> Result<Value, RuntimeError> {
    let mut main = Sapphire::new();
    let mut interpreter = Interpreter::new(&mut main, &arith, &render);
    interpreter.evaluate(expr)
}

fn same_outcome(a: &Result<Value, RuntimeError>, b: &Result<Value, RuntimeError>) -> bool {
    match (a, b) {
        (Ok(Value::Number(x)), Ok(Value::Number(y))) => x == y,
        (Ok(x), Ok(y)) => x == y,
        (Err(x), Err(y)) => x.message == y.message && x.line == y.line,
        _ => false,
    }
}

fn num(x: f64) -> Expr {
    Expr::Literal { value: Value::Number(x.to_bits()) }
}

fn text(s: &str) -> Expr {
    Expr::Literal { value: Value::Str(s.to_string()) }
}

fn binary(left: Expr, token_type: TokenType, lexeme: &str, line: usize, right: Expr) -> Expr {
    Expr::Binary {
        left: Box::new(left),
        operator: operator(token_type, lexeme, line),
        right: Box::new(right),
    }
}

fn unary(token_type: TokenType, lexeme: &str, line: usize, right: Expr) -> Expr {
    Expr::Unary { operator: operator(token_type, lexeme, line), right: Box::new(right) }
}

fn trees() -> Vec<Expr> {
    vec![
        num(1.0),
        text("a\"b"),
        Expr::Literal { value: Value::Bool(true) },
        Expr::Literal { value: Value::Null },
        Expr::Grouping { expression: Box::new(num(-2.5)) },
        // a tree that no unparenthesized source gives: addition below multiplication
        binary(binary(num(1.0), TokenType::Plus, "+", 1, num(2.0)), TokenType::Star, "*", 1, num(3.0)),
        // right-nested subtraction
        binary(num(1.0), TokenType::Minus, "-", 1, binary(num(2.0), TokenType::Minus, "-", 1, num(3.0))),
        binary(
            unary(TokenType::Minus, "-", 2, num(4.0)),
            TokenType::LessEqual,
            "<=",
            3,
            unary(TokenType::Bang, "!", 4, Expr::Literal { value: Value::Bool(false) }),
        ),
        binary(num(1.0), TokenType::EqualEqual, "==", 1, binary(num(0.5), TokenType::Slash, "/", 1, num(0.5))),
        binary(num(1.0), TokenType::BangEqual, "!=", 1, binary(num(2.0), TokenType::Greater, ">", 1, num(1.0))),
        // failures keep their line
        binary(num(1.0), TokenType::Plus, "+", 7, unary(TokenType::Minus, "-", 9, text("x"))),
        unary(TokenType::Minus, "-", 5, unary(TokenType::Minus, "-", 6, Expr::Literal { value: Value::Null })),
        binary(text("a"), TokenType::GreaterEqual, ">=", 8, text("b")),
    ]
}

#[test]
fn infix_notation_parses_back_to_a_tree_with_the_same_outcome() {
    for tree in trees() {
        let mut tokens = Vec::new();
        infix(&tree, &mut tokens);
        let length = tokens.len();
        tokens.push(Token {
            token_type: TokenType::EOF,
            lexeme: String::new(),
            literal: Value::Null,
            line: 1,
        });
        let mut main = Sapphire::new();
        let mut parser = Parser::new(&mut main, tokens);
        let parsed = parser.parse().unwrap();
        assert_eq!(parser.current, length);
        assert!(!main.had_error);
        assert!(same_outcome(&eval(&parsed), &eval(&tree)), "{:?}", tree);
    }
}

#[test]
fn infix_notation_parses_to_the_tree_with_groupings() {
    let tree = binary(num(1.0), TokenType::Minus, "-", 1, unary(TokenType::Bang, "!", 1, num(2.0)));
    let mut tokens = Vec::new();
    infix(&tree, &mut tokens);
    tokens.push(plain(TokenType::EOF));
    let mut main = Sapphire::new();
    let mut parser = Parser::new(&mut main, tokens);
    let parsed = parser.parse().unwrap();
    let mut printer = AstPrinter { render: &render };
    assert_eq!(printer.print(&parsed), "((1 - ((!2))))");
}

fn print_scan_parse(tree: &Expr) -> (Result<Expr, String>, Sapphire) {
    let printed = {
        let mut printer = AstPrinter { render: &render };
        printer.print(tree)
    };
    let mut main = Sapphire::new();
    let tokens = {
        let mut scanner = Scanner::new(&mut main, printed, &parse_number);
        scanner.scan_tokens()
    };
    assert!(!main.had_error);
    let result = {
        let mut parser = Parser::new(&mut main, tokens);
        parser.parse()
    };
    (result.map_err(|e| e.message), main)
}

#[test]
fn printed_literal_comes_back() {
    for value in [
        Value::Bool(true),
        Value::Bool(false),
        Value::Null,
        Value::Number(0.0f64.to_bits()),
        Value::Number(12.5f64.to_bits()),
        Value::Number(1e21f64.to_bits()),
        Value::Number(1e-7f64.to_bits()),
        Value::Str(String::new()),
        Value::Str("abc".to_string()),
        Value::Str("two\nlines".to_string()),
    ] {
        let tree = Expr::Literal { value: value.clone() };
        let (parsed, main) = print_scan_parse(&tree);
        assert!(!main.had_error);
        assert_eq!(eval(&parsed.unwrap()).unwrap(), value);
    }
}

fn source_tree(source: &str) -> Expr {
    let mut main = Sapphire::new();
    let tokens = {
        let mut scanner = Scanner::new(&mut main, source.to_string(), &parse_number);
        scanner.scan_tokens()
    };
    let mut parser = Parser::new(&mut main, tokens);
    parser.parse().unwrap()
}

fn print(tree: &Expr) -> String {
    let mut printer = AstPrinter { render: &render };
    printer.print(tree)
}

#[test]
fn printed_tree_comes_back_with_the_same_value() {
    for source in [
        "1 + 2 * 3",
        "1 - 2 - 3",
        "(1 + 2) * 3",
        "-(1 + 2) <= 3",
        "!true",
        "--4 / 8 != 0.5",
        "1 < 2",
        "3 >= 2.5 * 2",
        "!!(1 > 2)",
        "\"a\nb\"",
        "nil",
    ] {
        let tree = source_tree(source);
        let value = eval(&tree).unwrap();
        let (parsed, main) = print_scan_parse(&tree);
        assert!(!main.had_error, "{}", source);
        let parsed = parsed.unwrap();
        assert_eq!(eval(&parsed).unwrap(), value, "{}", source);
    }
}

#[test]
fn printed_tree_that_fails_comes_back_failing_alike() {
    for source in
        ["-\"x\"", "1 + nil", "\"a\" < \"b\"", "!nil", "(1 + 2) * (3 == true)", "!true == false"]
    {
        let tree = source_tree(source);
        let failure = eval(&tree).unwrap_err();
        let (parsed, main) = print_scan_parse(&tree);
        assert!(!main.had_error, "{}", source);
        assert_eq!(eval(&parsed.unwrap()).unwrap_err().message, failure.message, "{}", source);
    }
}

#[test]
fn printing_again_wraps_every_operator_once_more() {
    // the tree that comes back has a grouping around every operator node
    let tree = source_tree("1 + 2 * 3");
    assert_eq!(print(&tree), "(1 + (2 * 3))");
    let (parsed, _) = print_scan_parse(&tree);
    assert_eq!(print(&parsed.unwrap()), "((1 + ((2 * 3))))");
}

#[test]
fn printed_tree_built_by_hand_comes_back() {
    // addition below multiplication: no source without parentheses gives it
    let tree = binary(
        binary(num(1.0), TokenType::Plus, "+", 1, num(2.0)),
        TokenType::Star,
        "*",
        1,
        unary(TokenType::Minus, "-", 1, num(3.0)),
    );
    assert_eq!(print(&tree), "((1 + 2) * (-3))");
    let (parsed, main) = print_scan_parse(&tree);
    assert!(!main.had_error);
    assert_eq!(eval(&parsed.unwrap()).unwrap(), Value::Number((-9.0f64).to_bits()));
}
