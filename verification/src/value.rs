//! Runtime values.

use vstd::prelude::*;
use vstd::std_specs::cmp::PartialEqSpecImpl;
use crate::number::{equal, number_equal};

verus! {

/// A runtime value.
#[derive(Debug)]
pub enum Value {
    Str(String),
    /// A binary64 number, held as its bit pattern.
    Number(u64),
    Bool(bool),
    Null,
}

/// The mathematical model of a [`Value`]: text is a sequence of characters.
pub enum SpecValue {
    Str(Seq<char>),
    Number(u64),
    Bool(bool),
    Null,
}

impl View for Value {
    type V = SpecValue;

    open spec fn view(&self) -> SpecValue {
        match self {
            Value::Str(s) => SpecValue::Str(s@),
            Value::Number(bits) => SpecValue::Number(*bits),
            Value::Bool(b) => SpecValue::Bool(*b),
            Value::Null => SpecValue::Null,
        }
    }
}

/// Structural equality of two values: text by content, numbers by IEEE-754
/// equality, booleans by value; `Null` equals only `Null`, and values of
/// different variants are never equal.
pub open spec fn values_equal(a: SpecValue, b: SpecValue) -> bool {
    match (a, b) {
        (SpecValue::Null, SpecValue::Null) => true,
        (SpecValue::Number(x), SpecValue::Number(y)) => equal(x, y),
        (SpecValue::Str(x), SpecValue::Str(y)) => x == y,
        (SpecValue::Bool(x), SpecValue::Bool(y)) => x == y,
        _ => false,
    }
}

/// The rule that turns a value into a boolean: text and numbers are true,
/// a boolean is itself, `Null` is false.
pub open spec fn truthy(v: SpecValue) -> bool {
    match v {
        SpecValue::Str(_) => true,
        SpecValue::Number(_) => true,
        SpecValue::Bool(b) => b,
        SpecValue::Null => false,
    }
}

/// `text` is what the caller's rendering function may return for `bits`.
pub open spec fn renders<R: Fn(u64) -> String>(render: R, bits: u64, text: Seq<char>) -> bool {
    exists|s: String| s@ == text && #[trigger] render.ensures((bits,), s)
}

/// `text` is a textual form of `v`: text is itself, a number is what the
/// rendering function gives, a boolean is `true` or `false`, `Null` is `nil`.
pub open spec fn value_text<R: Fn(u64) -> String>(v: SpecValue, render: R, text: Seq<char>) -> bool {
    match v {
        SpecValue::Str(s) => text == s,
        SpecValue::Number(bits) => renders(render, bits, text),
        SpecValue::Bool(b) => text == if b {
            "true"@
        } else {
            "false"@
        },
        SpecValue::Null => text == "nil"@,
    }
}

impl Clone for Value {
    fn clone(&self) -> (r: Self)
        ensures
            r@ == self@,
    {
        match self {
            Value::Str(s) => Value::Str(s.clone()),
            Value::Number(bits) => Value::Number(*bits),
            Value::Bool(b) => Value::Bool(*b),
            Value::Null => Value::Null,
        }
    }
}

impl PartialEq for Value {
    fn eq(&self, other: &Self) -> (r: bool) {
        match (self, other) {
            (Value::Null, Value::Null) => true,
            (Value::Number(x), Value::Number(y)) => number_equal(*x, *y),
            (Value::Str(x), Value::Str(y)) => *x == *y,
            (Value::Bool(x), Value::Bool(y)) => *x == *y,
            _ => false,
        }
    }
}

impl PartialEqSpecImpl for Value {
    open spec fn obeys_eq_spec() -> bool {
        true
    }

    open spec fn eq_spec(&self, other: &Self) -> bool {
        values_equal(self@, other@)
    }
}

impl Value {
    /// The textual form of the value, with numbers rendered by `render`.
    pub fn to_string<R: Fn(u64) -> String>(&self, render: &R) -> (r: String)
        requires
            forall|bits: u64| render.requires((bits,)),
        ensures
            value_text(self@, *render, r@),
    {
        match self {
            Value::Str(s) => s.clone(),
            Value::Number(bits) => render(*bits),
            Value::Bool(b) => if *b {
                String::from_str("true")
            } else {
                String::from_str("false")
            },
            Value::Null => String::from_str("nil"),
        }
    }
}

} // verus!
