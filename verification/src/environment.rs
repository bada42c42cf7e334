//! The bindings of names to values.

use vstd::prelude::*;
use vstd::hash_map::StringHashMap;
use crate::error::{RuntimeError, SpecRuntimeError};
use crate::token::Token;
use crate::value::{SpecValue, Value};

verus! {

/// The bindings of names to values.
pub struct Environment {
    pub values: StringHashMap<Value>,
}

impl View for Environment {
    type V = Map<Seq<char>, SpecValue>;

    open spec fn view(&self) -> Map<Seq<char>, SpecValue> {
        self.values@.map_values(|value: Value| value@)
    }
}

/// The message for a name that has no binding.
pub open spec fn undefined_variable(name: Seq<char>) -> Seq<char> {
    "Undefined variable: '"@ + name + "'."@
}

impl Environment {
    pub fn new() -> (r: Self)
        ensures
            r@ == Map::<Seq<char>, SpecValue>::empty(),
    {
        let r = Self { values: StringHashMap::new() };
        assert(r@ =~= Map::<Seq<char>, SpecValue>::empty());
        r
    }

    /// The value bound to the name that the token spells; without a binding,
    /// a failure at the line of the token.
    pub fn get(&mut self, name: &Token) -> (r: Result<Value, RuntimeError>)
        ensures
            *final(self) == *old(self),
            old(self)@.contains_key(name@.lexeme) ==> {
                &&& r matches Ok(value)
                &&& value@ == old(self)@[name@.lexeme]
            },
            !old(self)@.contains_key(name@.lexeme) ==> {
                &&& r matches Err(error)
                &&& error@ == (SpecRuntimeError {
                    message: undefined_variable(name@.lexeme),
                    line: name.line,
                })
            },
    {
        if self.values.contains_key(name.lexeme.as_str()) {
            Ok(self.values.get(name.lexeme.as_str()).unwrap().clone())
        } else {
            let mut message = String::from_str("Undefined variable: '");
            message.append(name.lexeme.as_str());
            message.append("'.");
            Err(RuntimeError::new(message.as_str(), name.line))
        }
    }

    /// Binds the name to the value, in place of what it was bound to.
    pub fn define(&mut self, name: String, value: Value)
        ensures
            final(self)@ == old(self)@.insert(name@, value@),
    {
        self.values.insert(name, value);
        assert(self@ =~= old(self)@.insert(name@, value@));
    }
}

} // verus!
