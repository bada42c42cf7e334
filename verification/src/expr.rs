//! The expression tree.

use vstd::prelude::*;
use crate::token::{SpecToken, Token};
use crate::token_type::TokenType;
use crate::value::{SpecValue, Value};

verus! {

/// An expression tree. Each node owns its children.
#[derive(Debug)]
pub enum Expr {
    Binary { left: Box<Expr>, operator: Token, right: Box<Expr> },
    Grouping { expression: Box<Expr> },
    Literal { value: Value },
    Unary { operator: Token, right: Box<Expr> },
}

/// The mathematical model of an [`Expr`].
pub enum SpecExpr {
    Binary { left: Box<SpecExpr>, operator: SpecToken, right: Box<SpecExpr> },
    Grouping { expression: Box<SpecExpr> },
    Literal { value: SpecValue },
    Unary { operator: SpecToken, right: Box<SpecExpr> },
}

impl SpecExpr {
    /// Every unary node carries one of the two unary operators, `!` or `-`.
    pub open spec fn well_formed(self) -> bool
        decreases self,
    {
        match self {
            SpecExpr::Binary { left, operator, right } => left.well_formed() && right.well_formed(),
            SpecExpr::Grouping { expression } => expression.well_formed(),
            SpecExpr::Literal { value } => true,
            SpecExpr::Unary { operator, right } => {
                &&& operator.token_type == TokenType::Bang || operator.token_type
                    == TokenType::Minus
                &&& right.well_formed()
            },
        }
    }
}

impl View for Expr {
    type V = SpecExpr;

    open spec fn view(&self) -> SpecExpr
        decreases self,
    {
        match self {
            Expr::Binary { left, operator, right } => SpecExpr::Binary {
                left: Box::new((**left).view()),
                operator: operator@,
                right: Box::new((**right).view()),
            },
            Expr::Grouping { expression } => SpecExpr::Grouping {
                expression: Box::new((**expression).view()),
            },
            Expr::Literal { value } => SpecExpr::Literal { value: value@ },
            Expr::Unary { operator, right } => SpecExpr::Unary {
                operator: operator@,
                right: Box::new((**right).view()),
            },
        }
    }
}

impl Clone for Expr {
    fn clone(&self) -> (r: Self)
        ensures
            r@ == self@,
        decreases self,
    {
        match self {
            Expr::Binary { left, operator, right } => Expr::Binary {
                left: Box::new((&**left).clone()),
                operator: operator.clone(),
                right: Box::new((&**right).clone()),
            },
            Expr::Grouping { expression } => Expr::Grouping {
                expression: Box::new((&**expression).clone()),
            },
            Expr::Literal { value } => Expr::Literal { value: value.clone() },
            Expr::Unary { operator, right } => Expr::Unary {
                operator: operator.clone(),
                right: Box::new((&**right).clone()),
            },
        }
    }
}

} // verus!
