//! The evaluator: what an expression evaluates to, and the tree walk that
//! computes it.

use vstd::prelude::*;
use vstd::pervasive::unreached;
use crate::error::{RuntimeError, SpecRuntimeError};
use crate::expr::{Expr, SpecExpr};
use crate::number::{
    equal, less, negated, number_equal, number_less, number_less_equal, number_negate, Arithmetic,
};
use crate::sapphire::Sapphire;
use crate::token::SpecToken;
use crate::token_type::TokenType;
use crate::value::{truthy, value_text, values_equal, SpecValue, Value};

verus! {

/// The model of what an evaluation gives: a value or a failure.
pub type Outcome = Result<SpecValue, SpecRuntimeError>;

/// The outcome that is a value.
#[verifier::inline]
pub open spec fn gives(value: SpecValue) -> Outcome {
    Ok(value)
}

/// The outcome that is a failure.
#[verifier::inline]
pub open spec fn fails(error: SpecRuntimeError) -> Outcome {
    Err(error)
}

pub open spec fn invalid_unary_text() -> Seq<char> {
    "TypeError - Invalid type for unary: 'Str', operand must be Number"@
}

pub open spec fn invalid_unary_null() -> Seq<char> {
    "TypeError - Invalid type for unary: 'Null', operand must be Number"@
}

pub open spec fn unsupported_on_number() -> Seq<char> {
    "OperationError - Unsupported operand for binary operation on Number"@
}

pub open spec fn unsupported_on_text() -> Seq<char> {
    "TypeError - Unsupported operation for Str"@
}

pub open spec fn type_mismatch() -> Seq<char> {
    "TypeError - Type mismatch for operands of binary operation."@
}

/// A failure at the line of `operator`.
pub open spec fn failure(message: Seq<char>, operator: SpecToken) -> Outcome {
    Err(SpecRuntimeError { message, line: operator.line })
}

/// What a unary operator, `!` or `-`, makes of the value of its operand.
/// Text and `Null` are refused. `!` negates the truthiness of the operand;
/// `-` negates a number and flips a boolean.
pub open spec fn unary_result(operator: SpecToken, operand: SpecValue) -> Outcome {
    match operand {
        SpecValue::Str(_) => failure(invalid_unary_text(), operator),
        SpecValue::Null => failure(invalid_unary_null(), operator),
        SpecValue::Bool(b) => Ok(SpecValue::Bool(!b)),
        SpecValue::Number(bits) => if operator.token_type == TokenType::Bang {
            Ok(SpecValue::Bool(!truthy(operand)))
        } else {
            Ok(SpecValue::Number(negated(bits)))
        },
    }
}

/// `out` is a number that the arithmetic function may return for `a op b`.
pub open spec fn computes<A: Fn(Arithmetic, u64, u64) -> u64>(
    arith: A,
    op: Arithmetic,
    a: u64,
    b: u64,
    out: Outcome,
) -> bool {
    exists|bits: u64| #[trigger] arith.ensures((op, a, b), bits) && out == gives(SpecValue::Number(bits))
}

/// `out` is an outcome of a binary operator, other than concatenation, on
/// two numbers: arithmetic gives a number, comparison and equality a
/// boolean, any other operator a failure.
pub open spec fn numeric_outcome<A: Fn(Arithmetic, u64, u64) -> u64>(
    operator: SpecToken,
    a: u64,
    b: u64,
    arith: A,
    out: Outcome,
) -> bool {
    match operator.token_type {
        TokenType::Plus => computes(arith, Arithmetic::Add, a, b, out),
        TokenType::Minus => computes(arith, Arithmetic::Subtract, a, b, out),
        TokenType::Star => computes(arith, Arithmetic::Multiply, a, b, out),
        TokenType::Slash => computes(arith, Arithmetic::Divide, a, b, out),
        TokenType::Greater => out == gives(
            SpecValue::Bool(less(b, a)),
        ),
        TokenType::GreaterEqual => out == gives(
            SpecValue::Bool(less(b, a) || equal(b, a)),
        ),
        TokenType::Less => out == gives(SpecValue::Bool(less(a, b))),
        TokenType::LessEqual => out == gives(
            SpecValue::Bool(less(a, b) || equal(a, b)),
        ),
        TokenType::BangEqual => out == gives(
            SpecValue::Bool(!equal(a, b)),
        ),
        TokenType::EqualEqual => out == gives(
            SpecValue::Bool(equal(a, b)),
        ),
        _ => out == failure(unsupported_on_number(), operator),
    }
}

/// `out` is an outcome of a binary operator on the values of its operands.
/// Concatenation joins the textual forms of both, whatever their types. Any
/// other operator works on two numbers; on two texts it is unsupported, and
/// on anything else the types do not match.
pub open spec fn binary_outcome<A: Fn(Arithmetic, u64, u64) -> u64, R: Fn(u64) -> String>(
    operator: SpecToken,
    left: SpecValue,
    right: SpecValue,
    arith: A,
    render: R,
    out: Outcome,
) -> bool {
    if operator.token_type == TokenType::DoubleDot {
        exists|l: Seq<char>, r: Seq<char>|
            #![trigger value_text(left, render, l), value_text(right, render, r)]
            value_text(left, render, l) && value_text(right, render, r) && out == gives(
                SpecValue::Str(l + r),
            )
    } else {
        match (left, right) {
            (SpecValue::Number(a), SpecValue::Number(b)) => numeric_outcome(
                operator,
                a,
                b,
                arith,
                out,
            ),
            (SpecValue::Str(_), SpecValue::Str(_)) => out == failure(
                unsupported_on_text(),
                operator,
            ),
            _ => out == failure(type_mismatch(), operator),
        }
    }
}

/// `out` follows from the outcome of the operand of a unary operator: the
/// failure of the operand, or what the operator makes of its value.
pub open spec fn unary_outcome(
    operator: SpecToken,
    operand: Outcome,
    out: Outcome,
) -> bool {
    match operand {
        Ok(value) => out == unary_result(operator, value),
        Err(error) => out == fails(error),
    }
}

/// `out` follows from the outcomes of the operands of a binary operator:
/// the failure of the left operand, whatever the right one is; else the
/// failure of the right operand; else an outcome of the operator on the two
/// values.
pub open spec fn binary_step<A: Fn(Arithmetic, u64, u64) -> u64, R: Fn(u64) -> String>(
    operator: SpecToken,
    left: Outcome,
    right: Outcome,
    arith: A,
    render: R,
    out: Outcome,
) -> bool {
    match left {
        Ok(left_value) => match right {
            Ok(right_value) => binary_outcome(operator, left_value, right_value, arith, render, out),
            Err(error) => out == fails(error),
        },
        Err(error) => out == fails(error),
    }
}

/// `out` is an outcome of evaluating `expr` with the given arithmetic and
/// rendering functions. A literal is its value and a grouping the outcome of
/// what it encloses. An operator evaluates its operands first, the left one
/// before the right one and the right one only if the left one has a value,
/// and its outcome follows from theirs.
pub open spec fn evaluates<A: Fn(Arithmetic, u64, u64) -> u64, R: Fn(u64) -> String>(
    expr: SpecExpr,
    arith: A,
    render: R,
    out: Outcome,
) -> bool
    decreases expr,
{
    match expr {
        SpecExpr::Literal { value } => out == gives(value),
        SpecExpr::Grouping { expression } => evaluates(*expression, arith, render, out),
        SpecExpr::Unary { operator, right } => exists|operand: Outcome|
            evaluates(*right, arith, render, operand) && #[trigger] unary_outcome(
                operator,
                operand,
                out,
            ),
        SpecExpr::Binary { left, operator, right } => exists|
            l: Outcome,
            r: Outcome,
        |
            evaluates(*left, arith, render, l) && (l is Ok ==> evaluates(*right, arith, render, r))
                && #[trigger] binary_step(operator, l, r, arith, render, out),
    }
}

/// The two supplied functions are functions: what they return depends on
/// their arguments alone.
pub open spec fn deterministic<A: Fn(Arithmetic, u64, u64) -> u64, R: Fn(u64) -> String>(
    arith: A,
    render: R,
) -> bool {
    &&& forall|op: Arithmetic, a: u64, b: u64, x: u64, y: u64|
        #![trigger arith.ensures((op, a, b), x), arith.ensures((op, a, b), y)]
        arith.ensures((op, a, b), x) && arith.ensures((op, a, b), y) ==> x == y
    &&& forall|bits: u64, x: String, y: String|
        #![trigger render.ensures((bits,), x), render.ensures((bits,), y)]
        render.ensures((bits,), x) && render.ensures((bits,), y) ==> x@ == y@
}

/// With supplied functions that are functions, a value has one textual
/// form.
pub proof fn lemma_value_text_unique<R: Fn(u64) -> String>(
    value: SpecValue,
    render: R,
    a: Seq<char>,
    b: Seq<char>,
)
    requires
        forall|bits: u64, x: String, y: String|
            #![trigger render.ensures((bits,), x), render.ensures((bits,), y)]
            render.ensures((bits,), x) && render.ensures((bits,), y) ==> x@ == y@,
        value_text(value, render, a),
        value_text(value, render, b),
    ensures
        a == b,
{
    match value {
        SpecValue::Number(bits) => {
            let x = choose|x: String| x@ == a && #[trigger] render.ensures((bits,), x);
            let y = choose|y: String| y@ == b && #[trigger] render.ensures((bits,), y);
        },
        _ => {},
    }
}

/// With supplied functions that are functions, evaluation is a function:
/// an expression has one outcome.
pub proof fn lemma_evaluates_unique<A, R>(
    expr: SpecExpr,
    arith: A,
    render: R,
    a: Outcome,
    b: Outcome,
) where A: Fn(Arithmetic, u64, u64) -> u64, R: Fn(u64) -> String
    requires
        deterministic(arith, render),
        evaluates(expr, arith, render, a),
        evaluates(expr, arith, render, b),
    ensures
        a == b,
    decreases expr,
{
    match expr {
        SpecExpr::Literal { value } => {},
        SpecExpr::Grouping { expression } => {
            lemma_evaluates_unique(*expression, arith, render, a, b);
        },
        SpecExpr::Unary { operator, right } => {
            let x = choose|x: Outcome|
                evaluates(*right, arith, render, x) && #[trigger] unary_outcome(operator, x, a);
            let y = choose|y: Outcome|
                evaluates(*right, arith, render, y) && #[trigger] unary_outcome(operator, y, b);
            lemma_evaluates_unique(*right, arith, render, x, y);
        },
        SpecExpr::Binary { left, operator, right } => {
            let (l1, r1) = choose|
                l: Outcome,
                r: Outcome,
            |
                evaluates(*left, arith, render, l) && (l is Ok ==> evaluates(
                    *right,
                    arith,
                    render,
                    r,
                )) && #[trigger] binary_step(operator, l, r, arith, render, a);
            let (l2, r2) = choose|
                l: Outcome,
                r: Outcome,
            |
                evaluates(*left, arith, render, l) && (l is Ok ==> evaluates(
                    *right,
                    arith,
                    render,
                    r,
                )) && #[trigger] binary_step(operator, l, r, arith, render, b);
            lemma_evaluates_unique(*left, arith, render, l1, l2);
            if l1 is Ok {
                lemma_evaluates_unique(*right, arith, render, r1, r2);
                if r1 is Ok {
                    let left_value = l1->Ok_0;
                    let right_value = r1->Ok_0;
                    if operator.token_type == TokenType::DoubleDot {
                        let (s1, t1) = choose|s: Seq<char>, t: Seq<char>|
                            #![trigger
                                value_text(left_value, render, s),
                                value_text(right_value, render, t)]
                            value_text(left_value, render, s) && value_text(right_value, render, t)
                                && a == gives(SpecValue::Str(s + t));
                        let (s2, t2) = choose|s: Seq<char>, t: Seq<char>|
                            #![trigger
                                value_text(left_value, render, s),
                                value_text(right_value, render, t)]
                            value_text(left_value, render, s) && value_text(right_value, render, t)
                                && b == gives(SpecValue::Str(s + t));
                        lemma_value_text_unique(left_value, render, s1, s2);
                        lemma_value_text_unique(right_value, render, t1, t2);
                    }
                }
            }
        },
    }
}

/// The model of what an evaluation returned.
pub open spec fn outcome(r: Result<Value, RuntimeError>) -> Outcome {
    match r {
        Ok(value) => Ok(value@),
        Err(error) => Err(error@),
    }
}

/// The evaluator: it walks an expression tree and computes its value, with
/// the arithmetic on numbers and their rendering supplied by the caller.
///
/// The reporter is borrowed for as long as the evaluator lives; the clause
/// `*final(final(self).main) == *final(old(self).main)` says that the
/// evaluator still holds the same borrow.
pub struct Interpreter<'a, A, R> {
    pub main: &'a mut Sapphire,
    /// Carries out an arithmetic operation on two numbers.
    pub arith: &'a A,
    /// Writes a number as decimal text.
    pub render: &'a R,
}

impl<'a, A: Fn(Arithmetic, u64, u64) -> u64, R: Fn(u64) -> String> Interpreter<'a, A, R> {
    /// The two supplied functions accept every number.
    pub open spec fn wf(&self) -> bool {
        &&& forall|op: Arithmetic, a: u64, b: u64| self.arith.requires((op, a, b))
        &&& forall|bits: u64| self.render.requires((bits,))
    }

    /// An evaluator that reports to `main`.
    pub fn new(main: &'a mut Sapphire, arith: &'a A, render: &'a R) -> (interpreter: Self)
        ensures
            interpreter.arith == arith,
            interpreter.render == render,
            *interpreter.main == *old(main),
            *final(interpreter.main) == *final(main),
    {
        Self { main, arith, render }
    }

    /// Evaluates the expression and returns its value; a failure is reported
    /// as a runtime error, and nothing is returned.
    pub fn interpret(&mut self, expression: &Expr) -> (r: Option<Value>)
        requires
            old(self).wf(),
            expression@.well_formed(),
        ensures
            exists|out: Outcome|
                #[trigger] evaluates(expression@, *old(self).arith, *old(self).render, out)
                    && match out {
                    Ok(value) => {
                        &&& r matches Some(v)
                        &&& v@ == value
                        &&& final(self).main@ == old(self).main@
                    },
                    Err(error) => {
                        &&& r is None
                        &&& final(self).main@ == old(self).main@.runtime_error(error)
                    },
                },
            final(self).arith == old(self).arith,
            final(self).render == old(self).render,
            *final(final(self).main) == *final(old(self).main),
    {
        let result: Result<Value, RuntimeError> = self.evaluate(expression);
        assert(evaluates(expression@, *old(self).arith, *old(self).render, outcome(result)));
        match result {
            Ok(val) => Some(val),
            Err(error) => {
                self.main.runtime_error(error);
                None
            },
        }
    }

    /// Evaluates the expression.
    pub fn evaluate(&mut self, expression: &Expr) -> (r: Result<Value, RuntimeError>)
        requires
            old(self).wf(),
            expression@.well_formed(),
        ensures
            evaluates(expression@, *old(self).arith, *old(self).render, outcome(r)),
            *final(self) == *old(self),
        decreases expression, 1nat,
    {
        match expression {
            Expr::Binary { .. } => self.visit_binary(expression),
            Expr::Grouping { .. } => self.visit_grouping(expression),
            Expr::Literal { .. } => self.visit_literal(expression),
            Expr::Unary { .. } => self.visit_unary(expression),
        }
    }

    /// Text and numbers are true, a boolean is itself, `Null` is false.
    pub fn is_truthy(&mut self, value: &Value) -> (r: Result<bool, RuntimeError>)
        ensures
            r matches Ok(b) && b == truthy(value@),
            *final(self) == *old(self),
    {
        match *value {
            Value::Str(_) => Ok(true),
            Value::Number(_) => Ok(true),
            Value::Bool(bool_value) => Ok(bool_value),
            Value::Null => Ok(false),
        }
    }

    /// Whether two values are equal: of the same variant, and equal as such.
    pub fn is_equal(&mut self, val1: &Value, val2: &Value) -> (r: bool)
        ensures
            r == values_equal(val1@, val2@),
            *final(self) == *old(self),
    {
        match (val1, val2) {
            (Value::Null, Value::Null) => true,
            (Value::Number(n1), Value::Number(n2)) => number_equal(*n1, *n2),
            (Value::Str(s1), Value::Str(s2)) => *s1 == *s2,
            (Value::Bool(b1), Value::Bool(b2)) => *b1 == *b2,
            _ => false,  // Catches all other combinations
        }
    }

    fn visit_literal(&mut self, expr: &Expr) -> (r: Result<Value, RuntimeError>)
        requires
            expr is Literal,
        ensures
            evaluates(expr@, *old(self).arith, *old(self).render, outcome(r)),
            *final(self) == *old(self),
    {
        match expr {
            Expr::Literal { value } => Ok(value.clone()),
            _ => unreached(),
        }
    }

    fn visit_binary(&mut self, expr: &Expr) -> (r: Result<Value, RuntimeError>)
        requires
            old(self).wf(),
            expr is Binary,
            expr@.well_formed(),
        ensures
            evaluates(expr@, *old(self).arith, *old(self).render, outcome(r)),
            *final(self) == *old(self),
        decreases expr, 0nat,
    {
        match expr {
            Expr::Binary { left, operator, right } => {
                let result_left: Value = match self.evaluate(&**left) {
                    Ok(value) => value,
                    Err(error) => {
                        assert(binary_step(
                            operator@,
                            Err(error@),
                            Err(error@),
                            *self.arith,
                            *self.render,
                            Err(error@),
                        ));
                        return Err(error);
                    },
                };
                let result_right: Value = match self.evaluate(&**right) {
                    Ok(value) => value,
                    Err(error) => {
                        assert(binary_step(
                            operator@,
                            Ok(result_left@),
                            Err(error@),
                            *self.arith,
                            *self.render,
                            Err(error@),
                        ));
                        return Err(error);
                    },
                };
                let ghost l = Ok(result_left@);
                let ghost r = Ok(result_right@);

                if operator.token_type == TokenType::DoubleDot {
                    let text_left = result_left.to_string(self.render);
                    let text_right = result_right.to_string(self.render);
                    let joined = text_left.concat(text_right.as_str());
                    assert(value_text(result_left@, *self.render, text_left@) && value_text(
                        result_right@,
                        *self.render,
                        text_right@,
                    ));
                    assert(binary_step(
                        operator@,
                        l,
                        r,
                        *self.arith,
                        *self.render,
                        Ok(SpecValue::Str(joined@)),
                    ));
                    return Ok(Value::Str(joined));
                }
                let out = match (&result_left, &result_right) {
                    (Value::Number(nl), Value::Number(nr)) => {
                        let nl = *nl;
                        let nr = *nr;
                        match operator.token_type {
                            TokenType::Plus => Ok(
                                Value::Number((self.arith)(Arithmetic::Add, nl, nr)),
                            ),
                            TokenType::Minus => Ok(
                                Value::Number((self.arith)(Arithmetic::Subtract, nl, nr)),
                            ),
                            TokenType::Star => Ok(
                                Value::Number((self.arith)(Arithmetic::Multiply, nl, nr)),
                            ),
                            TokenType::Slash => Ok(
                                Value::Number((self.arith)(Arithmetic::Divide, nl, nr)),
                            ),
                            TokenType::Greater => Ok(Value::Bool(number_less(nr, nl))),
                            TokenType::GreaterEqual => Ok(Value::Bool(number_less_equal(nr, nl))),
                            TokenType::Less => Ok(Value::Bool(number_less(nl, nr))),
                            TokenType::LessEqual => Ok(Value::Bool(number_less_equal(nl, nr))),
                            TokenType::BangEqual => Ok(Value::Bool(!number_equal(nl, nr))),
                            TokenType::EqualEqual => Ok(Value::Bool(number_equal(nl, nr))),
                            _ => Err(
                                RuntimeError::new(
                                    "OperationError - Unsupported operand for binary operation on Number",
                                    operator.line,
                                ),
                            ),
                        }
                    },
                    (Value::Str(_), Value::Str(_)) => Err(
                        RuntimeError::new(
                            "TypeError - Unsupported operation for Str",
                            operator.line,
                        ),
                    ),
                    _ => Err(
                        RuntimeError::new(
                            "TypeError - Type mismatch for operands of binary operation.",
                            operator.line,
                        ),
                    ),
                };
                assert(binary_step(operator@, l, r, *self.arith, *self.render, outcome(out)));
                out
            },
            _ => unreached(),
        }
    }

    fn visit_grouping(&mut self, expr: &Expr) -> (r: Result<Value, RuntimeError>)
        requires
            old(self).wf(),
            expr is Grouping,
            expr@.well_formed(),
        ensures
            evaluates(expr@, *old(self).arith, *old(self).render, outcome(r)),
            *final(self) == *old(self),
        decreases expr, 0nat,
    {
        match expr {
            Expr::Grouping { expression } => self.evaluate(&**expression),
            _ => unreached(),
        }
    }

    fn visit_unary(&mut self, expr: &Expr) -> (r: Result<Value, RuntimeError>)
        requires
            old(self).wf(),
            expr is Unary,
            expr@.well_formed(),
        ensures
            evaluates(expr@, *old(self).arith, *old(self).render, outcome(r)),
            *final(self) == *old(self),
        decreases expr, 0nat,
    {
        match expr {
            Expr::Unary { operator, right } => {
                let result_right: Value = match self.evaluate(&**right) {
                    Ok(value) => value,
                    Err(error) => {
                        assert(unary_outcome(
                            operator@,
                            Err(error@),
                            Err(error@),
                        ));
                        return Err(error);
                    },
                };
                let ghost operand = Ok(result_right@);
                assert(unary_outcome(operator@, operand, unary_result(operator@, result_right@)));

                match result_right {
                    Value::Str(_) => {
                        return Err(
                            RuntimeError::new(
                                "TypeError - Invalid type for unary: 'Str', operand must be Number",
                                operator.line,
                            ),
                        )
                    },
                    Value::Null => {
                        return Err(
                            RuntimeError::new(
                                "TypeError - Invalid type for unary: 'Null', operand must be Number",
                                operator.line,
                            ),
                        )
                    },
                    _ => (),
                }

                match operator.token_type {
                    TokenType::Bang => {
                        let truth = match self.is_truthy(&result_right) {
                            Ok(truth) => truth,
                            Err(error) => return Err(error),
                        };
                        Ok(Value::Bool(!truth))
                    },
                    TokenType::Minus => {
                        match result_right {
                            Value::Bool(val) => Ok(Value::Bool(!val)),
                            Value::Number(val) => Ok(Value::Number(number_negate(val))),
                            _ => unreached(),
                        }
                    },
                    _ => unreached(),
                }
            },
            _ => unreached(),
        }
    }
}

} // verus!
