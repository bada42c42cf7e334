use sapphire::error::RuntimeError;
use sapphire::expr::Expr;
use sapphire::interpreter::Interpreter;
use sapphire::number::Arithmetic;
use sapphire::sapphire::Sapphire;
use sapphire::token::Token;
use sapphire::token_type::TokenType;
use sapphire::value::Value;

fn arith(op: Arithmetic, a: u64, b: u64) -> u64 {
    let x = f64::from_bits(a);
    let y = f64::from_bits(b);
    let r = match op {
        Arithmetic::Add => x + y,
        Arithmetic::Subtract => x - y,
        Arithmetic::Multiply => x * y,
        Arithmetic::Divide => x / y,
    };
    r.to_bits()
}

fn render(bits: u64) -> String {
    f64::from_bits(bits).to_string()
}

fn num(x: f64) -> Expr {
    Expr::Literal { value: Value::Number(x.to_bits()) }
}

fn text(s: &str) -> Expr {
    Expr::Literal { value: Value::Str(s.to_string()) }
}

fn boolean(b: bool) -> Expr {
    Expr::Literal { value: Value::Bool(b) }
}

fn nil() -> Expr {
    Expr::Literal { value: Value::Null }
}

fn op(token_type: TokenType, lexeme: &str, line: usize) -> Token {
    Token { token_type, lexeme: lexeme.to_string(), literal: Value::Null, line }
}

fn binary(left: Expr, token_type: TokenType, lexeme: &str, right: Expr) -> Expr {
    Expr::Binary { left: Box::new(left), operator: op(token_type, lexeme, 1), right: Box::new(right) }
}

fn unary(token_type: TokenType, lexeme: &str, right: Expr) -> Expr {
    Expr::Unary { operator: op(token_type, lexeme, 1), right: Box::new(right) }
}

fn eval(expr: &Expr) -> Result<Value, RuntimeError> {
    let mut main = Sapphire::new();
    let result = {
        let mut interpreter = Interpreter::new(&mut main, &arith, &render);
        interpreter.evaluate(expr)
    };
    // evaluating reports nothing by itself
    assert!(!main.had_error);
    assert!(!main.had_runtime_error);
    assert!(main.messages.is_empty());
    result
}

fn value_of(expr: &Expr) -> Value {
    eval(expr).unwrap()
}

fn failure_of(expr: &Expr) -> (String, usize) {
    let error = eval(expr).unwrap_err();
    (error.message, error.line)
}

fn number_of(expr: &Expr) -> f64 {
    match value_of(expr) {
        Value::Number(bits) => f64::from_bits(bits),
        other => panic!("not a number: {:?}", other),
    }
}

#[test]
fn literal_is_its_value() {
    assert_eq!(value_of(&num(2.5)), Value::Number(2.5f64.to_bits()));
    assert_eq!(value_of(&text("a")), Value::Str("a".to_string()));
    assert_eq!(value_of(&boolean(true)), Value::Bool(true));
    assert_eq!(value_of(&nil()), Value::Null);
}

#[test]
fn grouping_is_its_inner_value() {
    let expr = Expr::Grouping { expression: Box::new(num(4.0)) };
    assert_eq!(value_of(&expr), Value::Number(4.0f64.to_bits()));
    let failing = Expr::Grouping { expression: Box::new(unary(TokenType::Minus, "-", text("x"))) };
    assert!(eval(&failing).is_err());
}

#[test]
fn arithmetic_on_numbers() {
    assert_eq!(number_of(&binary(num(1.5), TokenType::Plus, "+", num(2.25))), 3.75);
    assert_eq!(number_of(&binary(num(1.5), TokenType::Minus, "-", num(2.25))), -0.75);
    assert_eq!(number_of(&binary(num(1.5), TokenType::Star, "*", num(4.0))), 6.0);
    assert_eq!(number_of(&binary(num(1.0), TokenType::Slash, "/", num(8.0))), 0.125);
    assert_eq!(number_of(&binary(num(0.1), TokenType::Plus, "+", num(0.2))), 0.1 + 0.2);
}

#[test]
fn division_by_zero_follows_ieee() {
    assert_eq!(number_of(&binary(num(1.0), TokenType::Slash, "/", num(0.0))), f64::INFINITY);
    assert_eq!(number_of(&binary(num(-1.0), TokenType::Slash, "/", num(0.0))), f64::NEG_INFINITY);
    assert!(number_of(&binary(num(0.0), TokenType::Slash, "/", num(0.0))).is_nan());
}

#[test]
fn comparison_on_numbers() {
    let cases = [(1.0, 2.0), (2.0, 1.0), (2.0, 2.0), (-1.0, 1.0), (-2.0, -1.0), (0.0, -0.0)];
    for (a, b) in cases {
        assert_eq!(value_of(&binary(num(a), TokenType::Greater, ">", num(b))), Value::Bool(a > b));
        assert_eq!(
            value_of(&binary(num(a), TokenType::GreaterEqual, ">=", num(b))),
            Value::Bool(a >= b)
        );
        assert_eq!(value_of(&binary(num(a), TokenType::Less, "<", num(b))), Value::Bool(a < b));
        assert_eq!(
            value_of(&binary(num(a), TokenType::LessEqual, "<=", num(b))),
            Value::Bool(a <= b)
        );
        assert_eq!(
            value_of(&binary(num(a), TokenType::EqualEqual, "==", num(b))),
            Value::Bool(a == b)
        );
        assert_eq!(
            value_of(&binary(num(a), TokenType::BangEqual, "!=", num(b))),
            Value::Bool(a != b)
        );
    }
}

#[test]
fn comparison_with_nan() {
    let nan = f64::NAN;
    assert_eq!(value_of(&binary(num(nan), TokenType::EqualEqual, "==", num(nan))), Value::Bool(false));
    assert_eq!(value_of(&binary(num(nan), TokenType::BangEqual, "!=", num(nan))), Value::Bool(true));
    assert_eq!(value_of(&binary(num(nan), TokenType::Less, "<", num(1.0))), Value::Bool(false));
    assert_eq!(value_of(&binary(num(1.0), TokenType::GreaterEqual, ">=", num(nan))), Value::Bool(false));
}

#[test]
fn concatenation_converts_both_operands() {
    assert_eq!(
        value_of(&binary(num(1.0), TokenType::DoubleDot, "..", num(2.0))),
        Value::Str("12".to_string())
    );
    assert_eq!(
        value_of(&binary(text("a"), TokenType::DoubleDot, "..", num(2.5))),
        Value::Str("a2.5".to_string())
    );
    assert_eq!(
        value_of(&binary(boolean(true), TokenType::DoubleDot, "..", nil())),
        Value::Str("truenil".to_string())
    );
    assert_eq!(
        value_of(&binary(text(""), TokenType::DoubleDot, "..", boolean(false))),
        Value::Str("false".to_string())
    );
}

#[test]
fn text_with_number_under_plus_is_type_mismatch() {
    let expr = Expr::Binary {
        left: Box::new(text("a")),
        operator: op(TokenType::Plus, "+", 7),
        right: Box::new(num(1.0)),
    };
    assert_eq!(
        failure_of(&expr),
        ("TypeError - Type mismatch for operands of binary operation.".to_string(), 7)
    );
    assert_eq!(
        failure_of(&binary(num(1.0), TokenType::Plus, "+", text("a"))).0,
        "TypeError - Type mismatch for operands of binary operation."
    );
    assert_eq!(
        failure_of(&binary(boolean(true), TokenType::EqualEqual, "==", boolean(true))).0,
        "TypeError - Type mismatch for operands of binary operation."
    );
    assert_eq!(
        failure_of(&binary(nil(), TokenType::EqualEqual, "==", nil())).0,
        "TypeError - Type mismatch for operands of binary operation."
    );
}

#[test]
fn two_texts_under_any_other_operator_are_unsupported() {
    for (token_type, lexeme) in [
        (TokenType::Plus, "+"),
        (TokenType::Minus, "-"),
        (TokenType::EqualEqual, "=="),
        (TokenType::Less, "<"),
    ] {
        assert_eq!(
            failure_of(&binary(text("a"), token_type, lexeme, text("b"))),
            ("TypeError - Unsupported operation for Str".to_string(), 1)
        );
    }
}

#[test]
fn foreign_operator_on_numbers_is_unsupported() {
    assert_eq!(
        failure_of(&binary(num(1.0), TokenType::Comma, ",", num(2.0))),
        ("OperationError - Unsupported operand for binary operation on Number".to_string(), 1)
    );
}

#[test]
fn minus_on_text_is_invalid_unary_operand() {
    let expr = Expr::Unary { operator: op(TokenType::Minus, "-", 3), right: Box::new(text("x")) };
    assert_eq!(
        failure_of(&expr),
        ("TypeError - Invalid type for unary: 'Str', operand must be Number".to_string(), 3)
    );
    assert_eq!(
        failure_of(&unary(TokenType::Bang, "!", text("x"))).0,
        "TypeError - Invalid type for unary: 'Str', operand must be Number"
    );
    assert_eq!(
        failure_of(&unary(TokenType::Minus, "-", nil())).0,
        "TypeError - Invalid type for unary: 'Null', operand must be Number"
    );
    assert_eq!(
        failure_of(&unary(TokenType::Bang, "!", nil())).0,
        "TypeError - Invalid type for unary: 'Null', operand must be Number"
    );
}

#[test]
fn unary_on_numbers_and_booleans() {
    assert_eq!(number_of(&unary(TokenType::Minus, "-", num(2.0))), -2.0);
    assert_eq!(number_of(&unary(TokenType::Minus, "-", num(-2.0))), 2.0);
    let negative_zero = number_of(&unary(TokenType::Minus, "-", num(0.0)));
    assert_eq!(negative_zero.to_bits(), (-0.0f64).to_bits());
    assert_eq!(value_of(&unary(TokenType::Minus, "-", boolean(true))), Value::Bool(false));
    assert_eq!(value_of(&unary(TokenType::Minus, "-", boolean(false))), Value::Bool(true));
    assert_eq!(value_of(&unary(TokenType::Bang, "!", boolean(true))), Value::Bool(false));
    assert_eq!(value_of(&unary(TokenType::Bang, "!", boolean(false))), Value::Bool(true));
    assert_eq!(value_of(&unary(TokenType::Bang, "!", num(0.0))), Value::Bool(false));
}

#[test]
fn left_failure_comes_first() {
    let left = Expr::Unary { operator: op(TokenType::Minus, "-", 1), right: Box::new(text("x")) };
    let right = Expr::Unary { operator: op(TokenType::Minus, "-", 2), right: Box::new(nil()) };
    let expr = binary(left, TokenType::Plus, "+", right);
    assert_eq!(
        failure_of(&expr),
        ("TypeError - Invalid type for unary: 'Str', operand must be Number".to_string(), 1)
    );
}

#[test]
fn operand_failure_goes_up_through_concatenation() {
    let right = Expr::Unary { operator: op(TokenType::Minus, "-", 2), right: Box::new(nil()) };
    let expr = binary(num(1.0), TokenType::DoubleDot, "..", right);
    assert_eq!(
        failure_of(&expr),
        ("TypeError - Invalid type for unary: 'Null', operand must be Number".to_string(), 2)
    );
}

#[test]
fn truthiness() {
    let mut main = Sapphire::new();
    let mut interpreter = Interpreter::new(&mut main, &arith, &render);
    assert_eq!(interpreter.is_truthy(&Value::Str(String::new())).unwrap(), true);
    assert_eq!(interpreter.is_truthy(&Value::Str("x".to_string())).unwrap(), true);
    assert_eq!(interpreter.is_truthy(&Value::Number(0.0f64.to_bits())).unwrap(), true);
    assert_eq!(interpreter.is_truthy(&Value::Bool(true)).unwrap(), true);
    assert_eq!(interpreter.is_truthy(&Value::Bool(false)).unwrap(), false);
    assert_eq!(interpreter.is_truthy(&Value::Null).unwrap(), false);
}

#[test]
fn equality_of_values() {
    let mut main = Sapphire::new();
    let mut interpreter = Interpreter::new(&mut main, &arith, &render);
    let one = Value::Number(1.0f64.to_bits());
    assert!(interpreter.is_equal(&Value::Null, &Value::Null));
    assert!(interpreter.is_equal(&one, &Value::Number(1.0f64.to_bits())));
    assert!(!interpreter.is_equal(&one, &Value::Number(2.0f64.to_bits())));
    assert!(interpreter.is_equal(&Value::Number(0.0f64.to_bits()), &Value::Number((-0.0f64).to_bits())));
    assert!(!interpreter.is_equal(&Value::Number(f64::NAN.to_bits()), &Value::Number(f64::NAN.to_bits())));
    assert!(interpreter.is_equal(&Value::Str("a".to_string()), &Value::Str("a".to_string())));
    assert!(!interpreter.is_equal(&Value::Str("a".to_string()), &Value::Str("b".to_string())));
    assert!(interpreter.is_equal(&Value::Bool(false), &Value::Bool(false)));
    assert!(!interpreter.is_equal(&Value::Bool(false), &Value::Bool(true)));
    assert!(!interpreter.is_equal(&Value::Null, &Value::Bool(false)));
    assert!(!interpreter.is_equal(&one, &Value::Str("1".to_string())));
}

#[test]
fn interpret_returns_value_or_reports() {
    let mut main = Sapphire::new();
    {
        let mut interpreter = Interpreter::new(&mut main, &arith, &render);
        let value = interpreter.interpret(&binary(num(1.0), TokenType::Plus, "+", num(2.0)));
        assert_eq!(value, Some(Value::Number(3.0f64.to_bits())));
    }
    assert!(!main.had_runtime_error);
    {
        let mut interpreter = Interpreter::new(&mut main, &arith, &render);
        let failing = Expr::Unary { operator: op(TokenType::Minus, "-", 4), right: Box::new(text("x")) };
        assert_eq!(interpreter.interpret(&failing), None);
    }
    assert!(main.had_runtime_error);
    assert!(!main.had_error);
    assert_eq!(
        main.messages,
        vec![
            "[line 4] [RuntimeError] TypeError - Invalid type for unary: 'Str', operand must be Number"
                .to_string()
        ]
    );
}

#[test]
fn evaluation_uses_the_supplied_arithmetic() {
    // a function that ignores the operation shows that the evaluator asks
    // it, and hands over the operation and both operands in order
    let odd = |op: Arithmetic, a: u64, b: u64| -> u64 {
        match op {
            Arithmetic::Subtract => a * 10 + b,
            _ => 0,
        }
    };
    let mut main = Sapphire::new();
    let mut interpreter = Interpreter::new(&mut main, &odd, &render);
    let expr = Expr::Binary {
        left: Box::new(Expr::Literal { value: Value::Number(3) }),
        operator: op(TokenType::Minus, "-", 1),
        right: Box::new(Expr::Literal { value: Value::Number(4) }),
    };
    assert_eq!(interpreter.evaluate(&expr).unwrap(), Value::Number(34));
}
