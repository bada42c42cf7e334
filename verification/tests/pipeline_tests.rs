use sapphire::number::Arithmetic;
use sapphire::sapphire::Sapphire;
use sapphire::value::Value;

fn parse_number(text: &str) -> u64 {
    text.parse::<f64>().unwrap().to_bits()
}

fn arith(op: Arithmetic, a: u64, b: u64) -> u64 {
    let x = f64::from_bits(a);
    let y = f64::from_bits(b);
    let r = match op {
        Arithmetic::Add => x + y,
        Arithmetic::Subtract => x - y,
        Arithmetic::Multiply => x * y,
        Arithmetic::Divide => x / y,
    };
    r.to_bits()
}

fn render(bits: u64) -> String {
    f64::from_bits(bits).to_string()
}

fn run(source: &str) -> (Option<Value>, Sapphire) {
    let mut main = Sapphire::new();
    let value = main.run(source.to_string(), &parse_number, &arith, &render);
    (value, main)
}

fn number(x: f64) -> Option<Value> {
    Some(Value::Number(x.to_bits()))
}

#[test]
fn precedence_of_multiplication() {
    let (value, main) = run("1 + 2 * 3");
    assert_eq!(value, number(7.0));
    assert!(!main.had_error);
    assert!(!main.had_runtime_error);
    assert!(main.messages.is_empty());
}

#[test]
fn subtraction_is_left_associative() {
    assert_eq!(run("1 - 2 - 3").0, number(-4.0));
}

#[test]
fn grouping_comes_first() {
    assert_eq!(run("(1 + 2) * 3").0, number(9.0));
}

#[test]
fn assorted_expressions() {
    assert_eq!(run("10 / 4").0, number(2.5));
    assert_eq!(run("-3 * -(2 + 1)").0, number(9.0));
    assert_eq!(run("1 < 2").0, Some(Value::Bool(true)));
    assert_eq!(run("1 + 1 == 2").0, Some(Value::Bool(true)));
    assert_eq!(run("1 != 1").0, Some(Value::Bool(false)));
    assert_eq!(run("!true").0, Some(Value::Bool(false)));
    assert_eq!(run("-true").0, Some(Value::Bool(false)));
    assert_eq!(run("!0").0, Some(Value::Bool(false)));
    assert_eq!(run("\"abc\"").0, Some(Value::Str("abc".to_string())));
    assert_eq!(run("nil").0, Some(Value::Null));
    assert_eq!(run("// nothing\n 0.5").0, number(0.5));
}

#[test]
fn unary_minus_on_text_is_runtime_error() {
    let (value, main) = run("\n-\"x\"");
    assert_eq!(value, None);
    assert!(!main.had_error);
    assert!(main.had_runtime_error);
    assert_eq!(
        main.messages,
        vec![
            "[line 2] [RuntimeError] TypeError - Invalid type for unary: 'Str', operand must be Number"
                .to_string()
        ]
    );
}

#[test]
fn text_plus_number_is_runtime_error() {
    let (value, main) = run("\"a\" + 1");
    assert_eq!(value, None);
    assert!(main.had_runtime_error);
    assert_eq!(
        main.messages,
        vec![
            "[line 1] [RuntimeError] TypeError - Type mismatch for operands of binary operation."
                .to_string()
        ]
    );
}

#[test]
fn missing_closing_parenthesis_stops_before_evaluation() {
    let (value, main) = run("(1 + 2");
    assert_eq!(value, None);
    assert!(main.had_error);
    assert!(!main.had_runtime_error);
    assert_eq!(
        main.messages,
        vec!["[line 1] [Error at end]: Expect ')' to close grouping expression.".to_string()]
    );
}

#[test]
fn scan_error_stops_before_parsing() {
    // the parser would fail on `+` too; only the scan error is reported
    let (value, main) = run("@ +");
    assert_eq!(value, None);
    assert!(main.had_error);
    assert_eq!(main.messages, vec!["[line 1] [Error]: Unexpected character \"@\".".to_string()]);
}

#[test]
fn unterminated_string_stops_the_run() {
    let (value, main) = run("1 + \"abc");
    assert_eq!(value, None);
    assert!(main.had_error);
    assert_eq!(main.messages, vec!["[line 1] [Error]: Unterminated string".to_string()]);
}

#[test]
fn raised_error_flag_stops_the_run_after_scanning() {
    let mut main = Sapphire::new();
    main.error(9, "earlier".to_string());
    let value = main.run("1 + 2".to_string(), &parse_number, &arith, &render);
    assert_eq!(value, None);
    assert_eq!(main.messages, vec!["[line 9] [Error]: earlier".to_string()]);
    // with the flag lowered, the same reporter runs again
    main.had_error = false;
    let value = main.run("1 + 2".to_string(), &parse_number, &arith, &render);
    assert_eq!(value, number(3.0));
}

#[test]
fn runtime_error_flag_does_not_stop_the_next_run() {
    let mut main = Sapphire::new();
    assert_eq!(main.run("-nil".to_string(), &parse_number, &arith, &render), None);
    assert!(main.had_runtime_error);
    assert_eq!(main.run("2 * 2".to_string(), &parse_number, &arith, &render), number(4.0));
}

#[test]
fn tokens_after_the_expression_are_ignored() {
    // `..` is scanned but stands at no level of the grammar
    assert_eq!(run("1 .. 2").0, number(1.0));
    assert_eq!(run("1 2").0, number(1.0));
}

#[test]
fn empty_source_fails_to_parse() {
    let (value, main) = run("");
    assert_eq!(value, None);
    assert!(main.had_error);
    assert_eq!(main.messages, vec!["[line 1] [Error at end]: Expected expression".to_string()]);
}
