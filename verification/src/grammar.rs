//! What holds of every parse: the tree respects precedence and
//! associativity, and the tokens it was parsed from spell it.

use vstd::prelude::*;
use crate::expr::SpecExpr;
use crate::parser::{
    at_end, level_operators, levels, matches_any, parse_binary, parse_chain, parse_expression,
    parse_primary, parse_unary, Parsed,
};
use crate::token::SpecToken;
use crate::token_type::TokenType;
use crate::value::SpecValue;

verus! {

/// The binary level whose operator a token kind is, if it is one.
pub open spec fn operator_level(kind: TokenType) -> Option<nat> {
    match kind {
        TokenType::BangEqual | TokenType::EqualEqual => Some(0),
        TokenType::Greater | TokenType::GreaterEqual | TokenType::Less | TokenType::LessEqual => Some(
            1,
        ),
        TokenType::Minus | TokenType::Plus => Some(2),
        TokenType::Slash | TokenType::Star => Some(3),
        _ => None,
    }
}

/// The operators of a level are the kinds whose level it is.
pub proof fn lemma_operator_level(level: nat, kind: TokenType)
    requires
        level < levels(),
    ensures
        level_operators(level).contains(kind) <==> operator_level(kind) == Some(level),
{
    let operators = level_operators(level);
    if operator_level(kind) == Some(level) {
        if level == 0 {
            assert(operators[0] == TokenType::BangEqual && operators[1] == TokenType::EqualEqual);
        } else if level == 1 {
            assert(operators[0] == TokenType::Greater && operators[1] == TokenType::GreaterEqual
                && operators[2] == TokenType::Less && operators[3] == TokenType::LessEqual);
        } else if level == 2 {
            assert(operators[0] == TokenType::Minus && operators[1] == TokenType::Plus);
        } else {
            assert(operators[0] == TokenType::Slash && operators[1] == TokenType::Star);
        }
    }
}

/// How tightly the root of a tree binds: a binary node as the level of its
/// operator, a unary node tighter than every binary one, a literal or a
/// grouping tightest.
pub open spec fn binding(expr: SpecExpr) -> nat {
    match expr {
        SpecExpr::Binary { left, operator, right } => match operator_level(operator.token_type) {
            Some(level) => level,
            None => 0,
        },
        SpecExpr::Unary { operator, right } => levels(),
        _ => levels() + 1,
    }
}

/// The tree needs no parentheses beyond its groupings. A binary node
/// carries an operator of a binary level; its left operand binds at least
/// as tightly as the operator, so that operators of one level group to the
/// left, and its right operand binds tighter. A unary node carries `!` or
/// `-`, and its operand is no binary node.
pub open spec fn layered(expr: SpecExpr) -> bool
    decreases expr,
{
    match expr {
        SpecExpr::Literal { value } => true,
        SpecExpr::Grouping { expression } => layered(*expression),
        SpecExpr::Unary { operator, right } => {
            &&& operator.token_type == TokenType::Bang || operator.token_type
                == TokenType::Minus
            &&& binding(*right) >= levels()
            &&& layered(*right)
        },
        SpecExpr::Binary { left, operator, right } => {
            &&& operator_level(operator.token_type) is Some
            &&& binding(*left) >= binding(expr)
            &&& binding(*right) > binding(expr)
            &&& layered(*left)
            &&& layered(*right)
        },
    }
}

/// What holds of every outcome of parsing from `pos` at a rule whose trees
/// bind at least as tightly as `level`: a tree is layered, binds that
/// tightly, and ends behind `pos`, inside the tokens.
pub open spec fn well_parsed(tokens: Seq<SpecToken>, pos: int, level: nat, outcome: Parsed) -> bool {
    outcome matches Parsed::Tree { expr, next } ==> {
        &&& layered(expr)
        &&& binding(expr) >= level
        &&& pos < next <= tokens.len()
    }
}

/// Every tree that `primary` parses is a literal or a grouping of a layered
/// tree.
pub proof fn lemma_primary_layered(tokens: Seq<SpecToken>, pos: int)
    requires
        0 <= pos,
    ensures
        well_parsed(tokens, pos, levels() + 1, parse_primary(tokens, pos)),
    decreases tokens.len() - pos, 0nat, 0nat,
{
    if !at_end(tokens, pos) && tokens[pos].token_type == TokenType::LeftParen {
        lemma_expression_layered(tokens, pos + 1);
    }
}

/// Every tree that `unary` parses is layered and no binary node.
pub proof fn lemma_unary_layered(tokens: Seq<SpecToken>, pos: int)
    requires
        0 <= pos,
    ensures
        well_parsed(tokens, pos, levels(), parse_unary(tokens, pos)),
    decreases tokens.len() - pos, 0nat, 1nat,
{
    let kinds = seq![TokenType::Bang, TokenType::Minus];
    if matches_any(tokens, pos, kinds) {
        lemma_unary_layered(tokens, pos + 1);
        let i = choose|i: int| 0 <= i < kinds.len() && kinds[i] == tokens[pos].token_type;
    } else {
        lemma_primary_layered(tokens, pos);
    }
}

/// Every tree that a binary level parses is layered and binds at least as
/// tightly as the level: precedence and left associativity hold of every
/// input.
pub proof fn lemma_binary_layered(tokens: Seq<SpecToken>, level: nat, pos: int)
    requires
        0 <= pos,
        level <= levels(),
    ensures
        well_parsed(tokens, pos, level, parse_binary(tokens, level, pos)),
    decreases tokens.len() - pos, crate::parser::height(level), 1nat,
{
    if level >= levels() {
        lemma_unary_layered(tokens, pos);
    } else {
        lemma_binary_layered(tokens, level + 1, pos);
        match parse_binary(tokens, level + 1, pos) {
            Parsed::Tree { expr, next } => {
                lemma_chain_layered(tokens, level, expr, pos, next);
            },
            _ => {},
        }
    }
}

/// The rest of a chain keeps a layered tree layered.
pub proof fn lemma_chain_layered(
    tokens: Seq<SpecToken>,
    level: nat,
    left: SpecExpr,
    start: int,
    pos: int,
)
    requires
        0 <= start < pos <= tokens.len(),
        level < levels(),
        layered(left),
        binding(left) >= level,
    ensures
        well_parsed(tokens, start, level, parse_chain(tokens, level, left, pos)),
    decreases tokens.len() - pos, crate::parser::height(level), 0nat,
{
    if matches_any(tokens, pos, level_operators(level)) {
        lemma_operator_level(level, tokens[pos].token_type);
        lemma_binary_layered(tokens, level + 1, pos + 1);
        match parse_binary(tokens, level + 1, pos + 1) {
            Parsed::Tree { expr, next } => {
                let node = SpecExpr::Binary {
                    left: Box::new(left),
                    operator: tokens[pos],
                    right: Box::new(expr),
                };
                assert(layered(node));
                lemma_chain_layered(tokens, level, node, start, next);
            },
            _ => {},
        }
    }
}

/// Every tree that the parser returns is layered.
pub proof fn lemma_expression_layered(tokens: Seq<SpecToken>, pos: int)
    requires
        0 <= pos,
    ensures
        well_parsed(tokens, pos, 0, parse_expression(tokens, pos)),
    decreases tokens.len() - pos, levels() + 2, 0nat,
{
    lemma_binary_layered(tokens, 0, pos);
}

/// The value that a token stands for where it is a literal by itself.
pub open spec fn literal_of(token: SpecToken) -> Option<SpecValue> {
    match token.token_type {
        TokenType::True => Some(SpecValue::Bool(true)),
        TokenType::False => Some(SpecValue::Bool(false)),
        TokenType::Nil => Some(SpecValue::Null),
        TokenType::Number => Some(token.literal),
        TokenType::String => Some(token.literal),
        _ => None,
    }
}

/// The operator `operator` stands at `middle`.
pub open spec fn operator_at(tokens: Seq<SpecToken>, middle: int, operator: SpecToken) -> bool {
    0 <= middle < tokens.len() && tokens[middle] == operator
}

/// The tokens from `pos` up to `next` spell the tree: read from left to
/// right, the tree is these tokens and no others. A literal is one token
/// that stands for its value, a grouping its inner tree between
/// parentheses, a unary node its operator and then its operand, a binary
/// node its left operand, its operator and its right operand.
pub open spec fn spells(tokens: Seq<SpecToken>, pos: int, next: int, expr: SpecExpr) -> bool
    decreases expr,
{
    &&& 0 <= pos < next <= tokens.len()
    &&& match expr {
        SpecExpr::Literal { value } => next == pos + 1 && literal_of(tokens[pos]) == Some(value),
        SpecExpr::Grouping { expression } => {
            &&& tokens[pos].token_type == TokenType::LeftParen
            &&& tokens[next - 1].token_type == TokenType::RightParen
            &&& spells(tokens, pos + 1, next - 1, *expression)
        },
        SpecExpr::Unary { operator, right } => {
            &&& tokens[pos] == operator
            &&& spells(tokens, pos + 1, next, *right)
        },
        SpecExpr::Binary { left, operator, right } => exists|middle: int|
            spells(tokens, pos, middle, *left) && #[trigger] operator_at(tokens, middle, operator)
                && spells(tokens, middle + 1, next, *right),
    }
}

/// What holds of every outcome of parsing from `pos`: the tokens that a
/// tree was parsed from spell it.
pub open spec fn spelled(tokens: Seq<SpecToken>, pos: int, outcome: Parsed) -> bool {
    outcome matches Parsed::Tree { expr, next } ==> spells(tokens, pos, next, expr)
}

/// The tokens that `primary` parsed a tree from spell it.
pub proof fn lemma_primary_spelled(tokens: Seq<SpecToken>, pos: int)
    requires
        0 <= pos,
    ensures
        spelled(tokens, pos, parse_primary(tokens, pos)),
    decreases tokens.len() - pos, 0nat, 0nat,
{
    if !at_end(tokens, pos) && tokens[pos].token_type == TokenType::LeftParen {
        lemma_expression_spelled(tokens, pos + 1);
        match parse_expression(tokens, pos + 1) {
            Parsed::Tree { expr, next } => {
                let kinds = seq![TokenType::RightParen];
                if matches_any(tokens, next, kinds) {
                    let i = choose|i: int| 0 <= i < kinds.len() && kinds[i] == tokens[next].token_type;
                }
            },
            _ => {},
        }
    }
}

/// The tokens that `unary` parsed a tree from spell it.
pub proof fn lemma_unary_spelled(tokens: Seq<SpecToken>, pos: int)
    requires
        0 <= pos,
    ensures
        spelled(tokens, pos, parse_unary(tokens, pos)),
    decreases tokens.len() - pos, 0nat, 1nat,
{
    if matches_any(tokens, pos, seq![TokenType::Bang, TokenType::Minus]) {
        lemma_unary_spelled(tokens, pos + 1);
    } else {
        lemma_primary_spelled(tokens, pos);
    }
}

/// The tokens that a binary level parsed a tree from spell it.
pub proof fn lemma_binary_spelled(tokens: Seq<SpecToken>, level: nat, pos: int)
    requires
        0 <= pos,
        level <= levels(),
    ensures
        spelled(tokens, pos, parse_binary(tokens, level, pos)),
    decreases tokens.len() - pos, crate::parser::height(level), 1nat,
{
    if level >= levels() {
        lemma_unary_spelled(tokens, pos);
    } else {
        lemma_binary_spelled(tokens, level + 1, pos);
        match parse_binary(tokens, level + 1, pos) {
            Parsed::Tree { expr, next } => {
                lemma_chain_spelled(tokens, level, expr, pos, next);
            },
            _ => {},
        }
    }
}

/// The rest of a chain goes on spelling: where the tokens from `start` up
/// to `pos` spell the operands so far, the tokens from `start` on spell the
/// whole chain.
pub proof fn lemma_chain_spelled(
    tokens: Seq<SpecToken>,
    level: nat,
    left: SpecExpr,
    start: int,
    pos: int,
)
    requires
        level < levels(),
        spells(tokens, start, pos, left),
    ensures
        spelled(tokens, start, parse_chain(tokens, level, left, pos)),
    decreases tokens.len() - pos, crate::parser::height(level), 0nat,
{
    if matches_any(tokens, pos, level_operators(level)) {
        lemma_binary_spelled(tokens, level + 1, pos + 1);
        match parse_binary(tokens, level + 1, pos + 1) {
            Parsed::Tree { expr, next } => {
                let node = SpecExpr::Binary {
                    left: Box::new(left),
                    operator: tokens[pos],
                    right: Box::new(expr),
                };
                assert(operator_at(tokens, pos, tokens[pos]));
                assert(spells(tokens, start, next, node));
                lemma_chain_spelled(tokens, level, node, start, next);
            },
            _ => {},
        }
    }
}

/// The tokens that the parser parsed a tree from spell it: the parser
/// neither skips a token nor makes one up.
pub proof fn lemma_expression_spelled(tokens: Seq<SpecToken>, pos: int)
    requires
        0 <= pos,
    ensures
        spelled(tokens, pos, parse_expression(tokens, pos)),
    decreases tokens.len() - pos, levels() + 2, 0nat,
{
    lemma_binary_spelled(tokens, 0, pos);
}

} // verus!
