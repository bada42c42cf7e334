//! From a tree to text or tokens and back: the printed form of a tree scans
//! and parses to a tree with the same values, and so do the tokens of its
//! infix notation.

use vstd::prelude::*;
use crate::astprinter::{
    binary_text, grouped_text, is_binary, is_grouped, is_unary, prints, quoted, unary_text,
};
use crate::error::SpecRuntimeError;
use crate::expr::SpecExpr;
use crate::grammar::{lemma_operator_level, literal_of, operator_at, operator_level, spells};
use crate::interpreter::{
    binary_outcome, binary_step, evaluates, unary_outcome, unary_result, Outcome,
};
use crate::number::Arithmetic;
use crate::parser::{
    at_end, levels, matches_any, parse, parse_binary, parse_chain, parse_primary, parse_unary,
    Parsed,
};
use crate::scanner::{
    is_alpha, is_alpha_numeric, is_digit, is_number_literal, lemma_run_end, lemma_run_end_at,
    newlines, number_end, run_end, scan, scan_from, step, string_step, token_of, token_step,
    tokens_of, word_kind, Lexeme, Step,
};
use crate::token::SpecToken;
use crate::token_type::TokenType;
use crate::value::{renders, SpecValue};

verus! {

/// No operator of `level` or of a tighter level follows at `pos`: a chain
/// of any of these levels ends there.
pub open spec fn chain_ends(tokens: Seq<SpecToken>, pos: int, level: nat) -> bool {
    at_end(tokens, pos) || match operator_level(tokens[pos].token_type) {
        Some(l) => l < level,
        None => true,
    }
}

/// A token of an operator of `level` follows at `pos`.
pub open spec fn chain_goes_on(tokens: Seq<SpecToken>, pos: int, level: nat) -> bool {
    !at_end(tokens, pos) && operator_level(tokens[pos].token_type) == Some(level)
}

/// An operand that no operator of `level` or tighter follows is the whole
/// expression at these levels: where `unary` parses a tree from `start` and
/// the chains end behind it, each of these levels parses that tree and
/// stops at the same place.
pub proof fn lemma_lone_operand(tokens: Seq<SpecToken>, level: nat, start: int)
    requires
        parse_unary(tokens, start) is Tree,
        start < parse_unary(tokens, start)->Tree_next <= tokens.len(),
        chain_ends(tokens, parse_unary(tokens, start)->Tree_next, level),
    ensures
        parse_binary(tokens, level, start) == parse_unary(tokens, start),
    decreases levels() - level,
{
    if level < levels() {
        lemma_lone_operand(tokens, level + 1, start);
        let operand = parse_unary(tokens, start);
        let next = operand->Tree_next;
        lemma_operator_level(level, tokens[next].token_type);
        assert(parse_chain(tokens, level, operand->Tree_expr, next) == operand);
        assert(parse_binary(tokens, level + 1, start) == operand);
    } else {
        assert(parse_binary(tokens, level, start) == parse_unary(tokens, start));
    }
}

/// Two operands with an operator of `level` between them, and no operator
/// of that level or a looser one behind them, are one binary node at that
/// level and at every looser one.
pub proof fn lemma_one_operator(tokens: Seq<SpecToken>, level: nat, at: nat, start: int)
    requires
        at <= level < levels(),
        parse_unary(tokens, start) is Tree,
        start < parse_unary(tokens, start)->Tree_next < tokens.len(),
        chain_goes_on(tokens, parse_unary(tokens, start)->Tree_next, level),
        parse_unary(tokens, parse_unary(tokens, start)->Tree_next + 1) is Tree,
        parse_unary(tokens, start)->Tree_next + 1 < parse_unary(
            tokens,
            parse_unary(tokens, start)->Tree_next + 1,
        )->Tree_next <= tokens.len(),
        chain_ends(
            tokens,
            parse_unary(tokens, parse_unary(tokens, start)->Tree_next + 1)->Tree_next,
            0,
        ),
    ensures
        parse_binary(tokens, at, start) == (Parsed::Tree {
            expr: SpecExpr::Binary {
                left: Box::new(parse_unary(tokens, start)->Tree_expr),
                operator: tokens[parse_unary(tokens, start)->Tree_next],
                right: Box::new(
                    parse_unary(tokens, parse_unary(tokens, start)->Tree_next + 1)->Tree_expr,
                ),
            },
            next: parse_unary(tokens, parse_unary(tokens, start)->Tree_next + 1)->Tree_next,
        }),
    decreases level - at,
{
    let left = parse_unary(tokens, start);
    let middle = left->Tree_next;
    let right = parse_unary(tokens, middle + 1);
    let end = right->Tree_next;
    let node = SpecExpr::Binary {
        left: Box::new(left->Tree_expr),
        operator: tokens[middle],
        right: Box::new(right->Tree_expr),
    };
    let whole = Parsed::Tree { expr: node, next: end };
    if at == level {
        // the left operand alone at the tighter levels, then the operator
        lemma_lone_operand(tokens, level + 1, start);
        lemma_lone_operand(tokens, level + 1, middle + 1);
        lemma_operator_level(level, tokens[middle].token_type);
        lemma_operator_level(level, tokens[end].token_type);
        assert(parse_chain(tokens, level, node, end) == whole);
        assert(parse_chain(tokens, level, left->Tree_expr, middle) == whole);
    } else {
        lemma_one_operator(tokens, level, at + 1, start);
        lemma_operator_level(at, tokens[end].token_type);
        assert(parse_chain(tokens, at, node, end) == whole);
    }
}

/// A token of the given kind that stands for itself.
pub open spec fn plain_token(token_type: TokenType) -> SpecToken {
    SpecToken { token_type, lexeme: Seq::empty(), literal: SpecValue::Null, line: 1 }
}

/// A token that is the literal `value`.
pub open spec fn literal_token(value: SpecValue) -> SpecToken {
    match value {
        SpecValue::Bool(b) => plain_token(
            if b {
                TokenType::True
            } else {
                TokenType::False
            },
        ),
        SpecValue::Null => plain_token(TokenType::Nil),
        SpecValue::Number(_) => SpecToken {
            token_type: TokenType::Number,
            lexeme: Seq::empty(),
            literal: value,
            line: 1,
        },
        SpecValue::Str(_) => SpecToken {
            token_type: TokenType::String,
            lexeme: Seq::empty(),
            literal: value,
            line: 1,
        },
    }
}

/// The tree in infix notation, as tokens, with every operator node between
/// parentheses.
pub open spec fn infix(expr: SpecExpr) -> Seq<SpecToken>
    decreases expr,
{
    match expr {
        SpecExpr::Literal { value } => seq![literal_token(value)],
        SpecExpr::Grouping { expression } => seq![plain_token(TokenType::LeftParen)] + infix(
            *expression,
        ) + seq![plain_token(TokenType::RightParen)],
        SpecExpr::Unary { operator, right } => seq![plain_token(TokenType::LeftParen), operator]
            + infix(*right) + seq![plain_token(TokenType::RightParen)],
        SpecExpr::Binary { left, operator, right } => seq![plain_token(TokenType::LeftParen)]
            + infix(*left) + seq![operator] + infix(*right) + seq![
            plain_token(TokenType::RightParen),
        ],
    }
}

/// The tree can be written in infix notation: every unary node carries `!`
/// or `-`, and every binary node an operator of a binary level.
pub open spec fn expressible(expr: SpecExpr) -> bool
    decreases expr,
{
    match expr {
        SpecExpr::Literal { value } => true,
        SpecExpr::Grouping { expression } => expressible(*expression),
        SpecExpr::Unary { operator, right } => {
            &&& operator.token_type == TokenType::Bang || operator.token_type
                == TokenType::Minus
            &&& expressible(*right)
        },
        SpecExpr::Binary { left, operator, right } => {
            &&& operator_level(operator.token_type) is Some
            &&& expressible(*left)
            &&& expressible(*right)
        },
    }
}

/// The tree that the infix notation of `expr` parses to: `expr` with a
/// grouping around every operator node.
pub open spec fn regrouped(expr: SpecExpr) -> SpecExpr
    decreases expr,
{
    match expr {
        SpecExpr::Literal { value } => expr,
        SpecExpr::Grouping { expression } => SpecExpr::Grouping {
            expression: Box::new(regrouped(*expression)),
        },
        SpecExpr::Unary { operator, right } => SpecExpr::Grouping {
            expression: Box::new(
                SpecExpr::Unary { operator, right: Box::new(regrouped(*right)) },
            ),
        },
        SpecExpr::Binary { left, operator, right } => SpecExpr::Grouping {
            expression: Box::new(
                SpecExpr::Binary {
                    left: Box::new(regrouped(*left)),
                    operator,
                    right: Box::new(regrouped(*right)),
                },
            ),
        },
    }
}

/// The infix notation of `expr` stands in `tokens` from `pos` on, and a
/// token follows it.
pub open spec fn holds_infix(tokens: Seq<SpecToken>, pos: int, expr: SpecExpr) -> bool {
    &&& 0 <= pos
    &&& pos + infix(expr).len() < tokens.len()
    &&& tokens.subrange(pos, pos + infix(expr).len()) == infix(expr)
}

/// The infix notation of a tree starts with a literal or an opening
/// parenthesis, and holds no end marker.
pub proof fn lemma_infix_shape(expr: SpecExpr)
    requires
        expressible(expr),
    ensures
        infix(expr).len() >= 1,
        literal_of(infix(expr)[0]) is Some || infix(expr)[0].token_type == TokenType::LeftParen,
        literal_of(infix(expr)[0]) == match expr {
            SpecExpr::Literal { value } => Some(value),
            _ => None,
        },
    decreases expr,
{
    match expr {
        SpecExpr::Literal { value } => {},
        SpecExpr::Grouping { expression } => {
            lemma_infix_shape(*expression);
        },
        SpecExpr::Unary { operator, right } => {
            lemma_infix_shape(*right);
        },
        SpecExpr::Binary { left, operator, right } => {
            lemma_infix_shape(*left);
            lemma_infix_shape(*right);
        },
    }
}

/// Where the infix notation of an expressible tree stands, `primary`
/// parses the regrouped tree and stops behind the notation, and `unary`
/// does the same.
pub proof fn lemma_parse_infix(tokens: Seq<SpecToken>, pos: int, expr: SpecExpr)
    requires
        expressible(expr),
        holds_infix(tokens, pos, expr),
    ensures
        parse_primary(tokens, pos) == (Parsed::Tree {
            expr: regrouped(expr),
            next: pos + infix(expr).len(),
        }),
        parse_unary(tokens, pos) == parse_primary(tokens, pos),
    decreases expr,
{
    let n = infix(expr).len() as int;
    lemma_infix_shape(expr);
    assert forall|i: int| 0 <= i < n implies tokens[pos + i] == #[trigger] infix(expr)[i] by {
        assert(tokens.subrange(pos, pos + n)[i] == tokens[pos + i]);
    }
    assert(tokens[pos] == infix(expr)[0]);
    assert(!seq![TokenType::Bang, TokenType::Minus].contains(tokens[pos].token_type));
    assert(parse_unary(tokens, pos) == parse_primary(tokens, pos));
    let close = plain_token(TokenType::RightParen);
    match expr {
        SpecExpr::Literal { value } => {},
        SpecExpr::Grouping { expression } => {
            let inner = infix(*expression);
            let start = pos + 1;
            let end = start + inner.len();
            assert(tokens.subrange(start, end) =~= inner) by {
                assert forall|i: int| 0 <= i < inner.len() implies tokens[start + i] == inner[i] by {
                    assert(infix(expr)[1 + i] == inner[i]);
                }
            }
            lemma_parse_infix(tokens, start, *expression);
            assert(tokens[end] == close) by {
                assert(infix(expr)[end - pos] == close);
            }
            lemma_lone_operand(tokens, 0, start);
            assert(seq![TokenType::RightParen][0] == TokenType::RightParen);
        },
        SpecExpr::Unary { operator, right } => {
            let inner = infix(*right);
            let start = pos + 2;
            let end = start + inner.len();
            assert(tokens.subrange(start, end) =~= inner) by {
                assert forall|i: int| 0 <= i < inner.len() implies tokens[start + i] == inner[i] by {
                    assert(infix(expr)[2 + i] == inner[i]);
                }
            }
            lemma_parse_infix(tokens, start, *right);
            assert(tokens[pos + 1] == operator) by {
                assert(infix(expr)[1] == operator);
            }
            assert(tokens[end] == close) by {
                assert(infix(expr)[end - pos] == close);
            }
            let kinds = seq![TokenType::Bang, TokenType::Minus];
            assert(kinds[0] == TokenType::Bang && kinds[1] == TokenType::Minus);
            assert(matches_any(tokens, pos + 1, kinds));
            assert(parse_unary(tokens, pos + 1) == (Parsed::Tree {
                expr: SpecExpr::Unary { operator, right: Box::new(regrouped(*right)) },
                next: end,
            }));
            lemma_lone_operand(tokens, 0, pos + 1);
            assert(seq![TokenType::RightParen][0] == TokenType::RightParen);
        },
        SpecExpr::Binary { left, operator, right } => {
            let first = infix(*left);
            let second = infix(*right);
            let start = pos + 1;
            let middle = start + first.len();
            let end = middle + 1 + second.len();
            assert(tokens.subrange(start, middle) =~= first) by {
                assert forall|i: int| 0 <= i < first.len() implies tokens[start + i] == first[i] by {
                    assert(infix(expr)[1 + i] == first[i]);
                }
            }
            assert(tokens.subrange(middle + 1, end) =~= second) by {
                assert forall|i: int| 0 <= i < second.len() implies tokens[middle + 1 + i]
                    == second[i] by {
                    assert(infix(expr)[middle + 1 - pos + i] == second[i]);
                }
            }
            lemma_parse_infix(tokens, start, *left);
            lemma_parse_infix(tokens, middle + 1, *right);
            assert(tokens[middle] == operator) by {
                assert(infix(expr)[middle - pos] == operator);
            }
            assert(tokens[end] == close) by {
                assert(infix(expr)[end - pos] == close);
            }
            let level = operator_level(operator.token_type)->0;
            lemma_one_operator(tokens, level, 0, start);
            assert(seq![TokenType::RightParen][0] == TokenType::RightParen);
        },
    }
}

/// Groupings change no outcome: the regrouped tree has the outcomes of the
/// tree.
pub proof fn lemma_regrouped_evaluates<A, R>(expr: SpecExpr, arith: A, render: R) where
    A: Fn(Arithmetic, u64, u64) -> u64,
    R: Fn(u64) -> String,

    ensures
        forall|out: Outcome|
            evaluates(regrouped(expr), arith, render, out) <==> evaluates(expr, arith, render, out),
    decreases expr,
{
    match expr {
        SpecExpr::Literal { value } => {
            assert(regrouped(expr) == expr);
        },
        SpecExpr::Grouping { expression } => {
            lemma_regrouped_evaluates(*expression, arith, render);
            assert forall|out: Outcome|
                evaluates(regrouped(expr), arith, render, out) <==> evaluates(
                    expr,
                    arith,
                    render,
                    out,
                ) by {
                assert(evaluates(regrouped(expr), arith, render, out) == evaluates(
                    regrouped(*expression),
                    arith,
                    render,
                    out,
                ));
                assert(evaluates(expr, arith, render, out) == evaluates(
                    *expression,
                    arith,
                    render,
                    out,
                ));
            }
        },
        SpecExpr::Unary { operator, right } => {
            lemma_regrouped_evaluates(*right, arith, render);
            let node = SpecExpr::Unary { operator, right: Box::new(regrouped(*right)) };
            assert forall|out: Outcome|
                evaluates(regrouped(expr), arith, render, out) <==> evaluates(
                    expr,
                    arith,
                    render,
                    out,
                ) by {
                assert(evaluates(regrouped(expr), arith, render, out) == evaluates(
                    node,
                    arith,
                    render,
                    out,
                ));
                if evaluates(node, arith, render, out) {
                    let operand = choose|operand: Outcome|
                        evaluates(regrouped(*right), arith, render, operand)
                            && #[trigger] unary_outcome(operator, operand, out);
                    assert(evaluates(*right, arith, render, operand));
                }
                if evaluates(expr, arith, render, out) {
                    let operand = choose|operand: Outcome|
                        evaluates(*right, arith, render, operand) && #[trigger] unary_outcome(
                            operator,
                            operand,
                            out,
                        );
                    assert(evaluates(regrouped(*right), arith, render, operand));
                }
            }
        },
        SpecExpr::Binary { left, operator, right } => {
            lemma_regrouped_evaluates(*left, arith, render);
            lemma_regrouped_evaluates(*right, arith, render);
            let node = SpecExpr::Binary {
                left: Box::new(regrouped(*left)),
                operator,
                right: Box::new(regrouped(*right)),
            };
            assert forall|out: Outcome|
                evaluates(regrouped(expr), arith, render, out) <==> evaluates(
                    expr,
                    arith,
                    render,
                    out,
                ) by {
                assert(evaluates(regrouped(expr), arith, render, out) == evaluates(
                    node,
                    arith,
                    render,
                    out,
                ));
                if evaluates(node, arith, render, out) {
                    let (l, r) = choose|
                        l: Outcome,
                        r: Outcome,
                    |
                        evaluates(regrouped(*left), arith, render, l) && (l is Ok ==> evaluates(
                            regrouped(*right),
                            arith,
                            render,
                            r,
                        )) && #[trigger] binary_step(operator, l, r, arith, render, out);
                    assert(evaluates(*left, arith, render, l));
                    assert(l is Ok ==> evaluates(*right, arith, render, r));
                }
                if evaluates(expr, arith, render, out) {
                    let (l, r) = choose|
                        l: Outcome,
                        r: Outcome,
                    |
                        evaluates(*left, arith, render, l) && (l is Ok ==> evaluates(
                            *right,
                            arith,
                            render,
                            r,
                        )) && #[trigger] binary_step(operator, l, r, arith, render, out);
                    assert(evaluates(regrouped(*left), arith, render, l));
                    assert(l is Ok ==> evaluates(regrouped(*right), arith, render, r));
                }
            }
        },
    }
}

/// A tree comes back from its infix notation: the notation, with the end
/// marker behind it, parses without failure and is consumed whole, and the
/// tree it parses to has the outcomes of the tree.
pub proof fn lemma_infix_round_trip<A, R>(expr: SpecExpr, end: SpecToken, arith: A, render: R) where
    A: Fn(Arithmetic, u64, u64) -> u64,
    R: Fn(u64) -> String,

    requires
        expressible(expr),
        end.token_type == TokenType::EOF,
    ensures
        parse(infix(expr).push(end)) == (Parsed::Tree {
            expr: regrouped(expr),
            next: infix(expr).len() as int,
        }),
        forall|out: Outcome|
            evaluates(regrouped(expr), arith, render, out) <==> evaluates(expr, arith, render, out),
{
    let tokens = infix(expr).push(end);
    let n = infix(expr).len() as int;
    assert(tokens.subrange(0, n) =~= infix(expr));
    lemma_parse_infix(tokens, 0, expr);
    lemma_lone_operand(tokens, 0, 0);
    lemma_regrouped_evaluates(expr, arith, render);
}

/// The tree is a literal or a grouping, and so is every operand in it: no
/// operator has an operator node for an operand without parentheses around
/// it. Every unary node carries `!` or `-` and every binary node an
/// operator of a binary level.
pub open spec fn closed(expr: SpecExpr) -> bool
    decreases expr,
{
    match expr {
        SpecExpr::Literal { value } => true,
        SpecExpr::Grouping { expression } => match *expression {
            SpecExpr::Unary { operator, right } => {
                &&& operator.token_type == TokenType::Bang || operator.token_type
                    == TokenType::Minus
                &&& closed(*right)
            },
            SpecExpr::Binary { left, operator, right } => {
                &&& operator_level(operator.token_type) is Some
                &&& closed(*left)
                &&& closed(*right)
            },
            inner => closed(inner),
        },
        _ => false,
    }
}

/// Tokens that spell a closed tree parse to it: where they stand and
/// another token follows them, `primary` parses the tree and stops behind
/// them, and `unary` does the same.
pub proof fn lemma_parse_spelled(tokens: Seq<SpecToken>, pos: int, next: int, expr: SpecExpr)
    requires
        closed(expr),
        spells(tokens, pos, next, expr),
        next < tokens.len(),
    ensures
        parse_primary(tokens, pos) == (Parsed::Tree { expr, next }),
        parse_unary(tokens, pos) == parse_primary(tokens, pos),
    decreases expr,
{
    assert(!seq![TokenType::Bang, TokenType::Minus].contains(tokens[pos].token_type));
    assert(parse_unary(tokens, pos) == parse_primary(tokens, pos));
    match expr {
        SpecExpr::Literal { value } => {},
        SpecExpr::Grouping { expression } => {
            let start = pos + 1;
            let end = next - 1;
            assert(spells(tokens, start, end, *expression));
            match *expression {
                SpecExpr::Unary { operator, right } => {
                    lemma_parse_spelled(tokens, start + 1, end, *right);
                    let kinds = seq![TokenType::Bang, TokenType::Minus];
                    assert(kinds[0] == TokenType::Bang && kinds[1] == TokenType::Minus);
                    assert(matches_any(tokens, start, kinds));
                    assert(parse_unary(tokens, start) == (Parsed::Tree {
                        expr: *expression,
                        next: end,
                    }));
                    lemma_lone_operand(tokens, 0, start);
                },
                SpecExpr::Binary { left, operator, right } => {
                    let middle = choose|middle: int|
                        spells(tokens, start, middle, *left) && #[trigger] operator_at(
                            tokens,
                            middle,
                            operator,
                        ) && spells(tokens, middle + 1, end, *right);
                    lemma_parse_spelled(tokens, start, middle, *left);
                    lemma_parse_spelled(tokens, middle + 1, end, *right);
                    let level = operator_level(operator.token_type)->0;
                    lemma_one_operator(tokens, level, 0, start);
                },
                inner => {
                    lemma_parse_spelled(tokens, start, end, inner);
                    lemma_lone_operand(tokens, 0, start);
                },
            }
            assert(seq![TokenType::RightParen][0] == TokenType::RightParen);
        },
        _ => {},
    }
}

/// The two tokens are the same operator: of one kind and one lexeme. Their
/// lines may differ.
pub open spec fn same_operator(a: SpecToken, b: SpecToken) -> bool {
    a.token_type == b.token_type && a.lexeme == b.lexeme
}

/// The two trees are the same but for the lines, and the literal fields,
/// of their operator tokens.
pub open spec fn alike(a: SpecExpr, b: SpecExpr) -> bool
    decreases a,
{
    match a {
        SpecExpr::Literal { value } => b == a,
        SpecExpr::Grouping { expression } => b matches SpecExpr::Grouping { expression: other }
            && alike(*expression, *other),
        SpecExpr::Unary { operator, right } => b matches SpecExpr::Unary {
            operator: other_operator,
            right: other,
        } && same_operator(operator, other_operator) && alike(*right, *other),
        SpecExpr::Binary { left, operator, right } => b matches SpecExpr::Binary {
            left: other_left,
            operator: other_operator,
            right: other_right,
        } && same_operator(operator, other_operator) && alike(*left, *other_left) && alike(
            *right,
            *other_right,
        ),
    }
}

/// The two outcomes are the same value, or failures with the same message.
pub open spec fn same_but_line(a: Outcome, b: Outcome) -> bool {
    match a {
        Ok(value) => b == a,
        Err(error) => b matches Err(other) && other.message == error.message,
    }
}

/// The outcome `out` with its failure, if it is one, moved to the line of
/// `operator`.
pub open spec fn at_line_of(out: Outcome, operator: SpecToken) -> Outcome {
    match out {
        Ok(value) => out,
        Err(error) => Err(SpecRuntimeError { message: error.message, line: operator.line }),
    }
}

/// Trees that are alike evaluate alike: to every outcome of the one, the
/// other has the same outcome but for the line of a failure.
pub proof fn lemma_alike_evaluates<A, R>(
    a: SpecExpr,
    b: SpecExpr,
    arith: A,
    render: R,
    out: Outcome,
) -> (other: Outcome) where A: Fn(Arithmetic, u64, u64) -> u64, R: Fn(u64) -> String
    requires
        alike(a, b),
        evaluates(a, arith, render, out),
    ensures
        evaluates(b, arith, render, other),
        same_but_line(out, other),
    decreases a,
{
    match a {
        SpecExpr::Literal { value } => out,
        SpecExpr::Grouping { expression } => {
            let inner = b->Grouping_expression;
            lemma_alike_evaluates(*expression, *inner, arith, render, out)
        },
        SpecExpr::Unary { operator, right } => {
            let other_operator = b->Unary_operator;
            let other_right = b->Unary_right;
            let operand = choose|operand: Outcome|
                evaluates(*right, arith, render, operand) && #[trigger] unary_outcome(
                    operator,
                    operand,
                    out,
                );
            let other_operand = lemma_alike_evaluates(*right, *other_right, arith, render, operand);
            let other = match other_operand {
                Ok(value) => unary_result(other_operator, value),
                Err(error) => other_operand,
            };
            assert(unary_outcome(other_operator, other_operand, other));
            other
        },
        SpecExpr::Binary { left, operator, right } => {
            let other_operator = b->Binary_operator;
            let other_left = b->Binary_left;
            let other_right = b->Binary_right;
            let (l, r) = choose|l: Outcome, r: Outcome|
                evaluates(*left, arith, render, l) && (l is Ok ==> evaluates(
                    *right,
                    arith,
                    render,
                    r,
                )) && #[trigger] binary_step(operator, l, r, arith, render, out);
            let l2 = lemma_alike_evaluates(*left, *other_left, arith, render, l);
            match l {
                Ok(left_value) => {
                    let r2 = lemma_alike_evaluates(*right, *other_right, arith, render, r);
                    match r {
                        Ok(right_value) => {
                            let other = at_line_of(out, other_operator);
                            assert(binary_outcome(
                                other_operator,
                                left_value,
                                right_value,
                                arith,
                                render,
                                other,
                            ));
                            assert(binary_step(other_operator, l2, r2, arith, render, other));
                            other
                        },
                        Err(error) => {
                            assert(binary_step(other_operator, l2, r2, arith, render, r2));
                            r2
                        },
                    }
                },
                Err(error) => {
                    assert(binary_step(other_operator, l2, l2, arith, render, l2));
                    l2
                },
            }
        },
    }
}

/// Being alike goes both ways.
pub proof fn lemma_alike_symmetric(a: SpecExpr, b: SpecExpr)
    requires
        alike(a, b),
    ensures
        alike(b, a),
    decreases a,
{
    match a {
        SpecExpr::Literal { value } => {},
        SpecExpr::Grouping { expression } => {
            lemma_alike_symmetric(*expression, *b->Grouping_expression);
        },
        SpecExpr::Unary { operator, right } => {
            lemma_alike_symmetric(*right, *b->Unary_right);
        },
        SpecExpr::Binary { left, operator, right } => {
            lemma_alike_symmetric(*left, *b->Binary_left);
            lemma_alike_symmetric(*right, *b->Binary_right);
        },
    }
}

/// How an operator is written.
pub open spec fn spelling(kind: TokenType) -> Seq<char> {
    match kind {
        TokenType::Bang => seq!['!'],
        TokenType::Minus => seq!['-'],
        TokenType::Plus => seq!['+'],
        TokenType::Star => seq!['*'],
        TokenType::Slash => seq!['/'],
        TokenType::BangEqual => seq!['!', '='],
        TokenType::EqualEqual => seq!['=', '='],
        TokenType::Greater => seq!['>'],
        TokenType::GreaterEqual => seq!['>', '='],
        TokenType::Less => seq!['<'],
        TokenType::LessEqual => seq!['<', '='],
        _ => Seq::empty(),
    }
}

/// Whatever the reading function returns for `text`, it is `bits`.
pub open spec fn reads_as<P: Fn(&str) -> u64>(read: P, text: Seq<char>, bits: u64) -> bool {
    forall|lexeme: &str, other: u64|
        lexeme@ == text && #[trigger] read.ensures((lexeme,), other) ==> other == bits
}

/// Reading back what was rendered gives the same number: whatever the
/// rendering function returns for `bits` is a number literal, and read as
/// `bits`.
pub open spec fn reads_back<P: Fn(&str) -> u64, R: Fn(u64) -> String>(
    read: P,
    render: R,
    bits: u64,
) -> bool {
    forall|text: Seq<char>| #[trigger]
        renders(render, bits, text) ==> is_number_literal(text) && reads_as(read, text, bits)
}

/// The printed form of the tree can be read again: no text in it holds a
/// double quote, every number in it reads back from what it is rendered
/// as, every unary node carries `!` or `-` and every binary node an
/// operator of a binary level, and the lexeme of each operator is its
/// spelling.
pub open spec fn printable<P: Fn(&str) -> u64, R: Fn(u64) -> String>(
    expr: SpecExpr,
    read: P,
    render: R,
) -> bool
    decreases expr,
{
    match expr {
        SpecExpr::Literal { value } => match value {
            SpecValue::Str(text) => !text.contains('"'),
            SpecValue::Number(bits) => reads_back(read, render, bits),
            _ => true,
        },
        SpecExpr::Grouping { expression } => printable(*expression, read, render),
        SpecExpr::Unary { operator, right } => {
            &&& operator.token_type == TokenType::Bang || operator.token_type
                == TokenType::Minus
            &&& operator.lexeme == spelling(operator.token_type)
            &&& printable(*right, read, render)
        },
        SpecExpr::Binary { left, operator, right } => {
            &&& operator_level(operator.token_type) is Some
            &&& operator.lexeme == spelling(operator.token_type)
            &&& printable(*left, read, render)
            &&& printable(*right, read, render)
        },
    }
}

/// A character that a printed operand starts with.
pub open spec fn starts_operand(c: char) -> bool {
    c == '(' || c == '"' || is_digit(c) || c == 't' || c == 'f' || c == 'n'
}

/// The text ends at `pos`, or a closing parenthesis or a space stands
/// there: a word or a number before `pos` ends there.
pub open spec fn ends_word(s: Seq<char>, pos: int) -> bool {
    pos >= s.len() || s[pos] == ')' || s[pos] == ' '
}

/// The scan from `pos` on finds no error.
#[verifier::opaque]
pub open spec fn clean_from(s: Seq<char>, pos: int, line: int) -> bool {
    scan_from(s, pos, line).faults.len() == 0
}

/// The tokens from the one at `k` on are those of the scan from `pos` on.
#[verifier::opaque]
pub open spec fn follows<P: Fn(&str) -> u64>(
    tokens: Seq<SpecToken>,
    k: int,
    s: Seq<char>,
    pos: int,
    line: int,
    read: P,
) -> bool {
    &&& 0 <= k <= tokens.len()
    &&& tokens_of(tokens.subrange(k, tokens.len() as int), scan_from(s, pos, line).lexemes, read)
}

/// The printed form of a tree that can be read again starts as an operand
/// does.
pub proof fn lemma_printed_first<P: Fn(&str) -> u64, R: Fn(u64) -> String>(
    expr: SpecExpr,
    read: P,
    render: R,
    text: Seq<char>,
)
    requires
        printable(expr, read, render),
        prints(expr, render, text),
    ensures
        text.len() > 0,
        starts_operand(text[0]),
{
    match expr {
        SpecExpr::Literal { value } => {},
        SpecExpr::Grouping { expression } => {
            let inner = choose|inner: Seq<char>|
                prints(*expression, render, inner) && #[trigger] is_grouped(text, inner);
        },
        SpecExpr::Unary { operator, right } => {
            let operand = choose|operand: Seq<char>|
                prints(*right, render, operand) && #[trigger] is_unary(
                    text,
                    operator.lexeme,
                    operand,
                );
        },
        SpecExpr::Binary { left, operator, right } => {
            let (l, r) = choose|l: Seq<char>, r: Seq<char>|
                prints(*left, render, l) && prints(*right, render, r) && #[trigger] is_binary(
                    text,
                    l,
                    operator.lexeme,
                    r,
                );
        },
    }
}

/// One step of the scan, seen in the tokens: where the step finds no
/// error, the scan from its place has the errors of the scan from behind
/// it; a token that it finds is the next of the tokens, and the tokens
/// behind that one are those of the scan from behind the step.
pub proof fn lemma_follow_step<P: Fn(&str) -> u64>(
    tokens: Seq<SpecToken>,
    k: int,
    s: Seq<char>,
    pos: int,
    line: int,
    read: P,
)
    requires
        follows(tokens, k, s, pos, line, read),
        0 <= pos < s.len(),
        step(s, pos, line).error is None,
    ensures
        clean_from(s, step(s, pos, line).next, step(s, pos, line).line) ==> clean_from(
            s,
            pos,
            line,
        ),
        match step(s, pos, line).kind {
            Some(kind) => {
                &&& k < tokens.len()
                &&& token_of(
                    tokens[k],
                    Lexeme {
                        token_type: kind,
                        text: s.subrange(pos, step(s, pos, line).next),
                        line: step(s, pos, line).line,
                    },
                    read,
                )
                &&& follows(tokens, k + 1, s, step(s, pos, line).next, step(s, pos, line).line, read)
            },
            None => follows(tokens, k, s, step(s, pos, line).next, step(s, pos, line).line, read),
        },
{
    reveal(follows);
    reveal(clean_from);
    let here = step(s, pos, line);
    let rest = scan_from(s, here.next, here.line);
    let tail = tokens.subrange(k, tokens.len() as int);
    match here.kind {
        Some(kind) => {
            let whole = scan_from(s, pos, line).lexemes;
            assert(whole.len() == rest.lexemes.len() + 1);
            assert(tail[0] == tokens[k]);
            let shorter = tokens.subrange(k + 1, tokens.len() as int);
            assert forall|i: int| 0 <= i < shorter.len() implies token_of(
                #[trigger] shorter[i],
                rest.lexemes[i],
                read,
            ) by {
                assert(shorter[i] == tail[i + 1]);
                assert(whole[i + 1] == rest.lexemes[i]);
            }
        },
        None => {},
    }
}

/// The words `true`, `false` and `nil` are of their own kinds.
pub proof fn lemma_literal_words()
    ensures
        word_kind(seq!['t', 'r', 'u', 'e']) == TokenType::True,
        word_kind(seq!['f', 'a', 'l', 's', 'e']) == TokenType::False,
        word_kind(seq!['n', 'i', 'l']) == TokenType::Nil,
{
    reveal_strlit("true");
    reveal_strlit("false");
    reveal_strlit("fn");
    reveal_strlit("for");
    reveal_strlit("if");
    reveal_strlit("nil");
    reveal_strlit("or");
    reveal_strlit("println");
    reveal_strlit("return");
    reveal_strlit("super");
    reveal_strlit("this");
    reveal_strlit("var");
    reveal_strlit("while");
    assert(seq!['t', 'r', 'u', 'e'] =~= "true"@);
    assert(seq!['f', 'a', 'l', 's', 'e'] =~= "false"@);
    assert(seq!['n', 'i', 'l'] =~= "nil"@);
}

/// A word that stands in a text, and ends there, scans as one token of its
/// kind.
pub proof fn lemma_word_step(s: Seq<char>, pos: int, line: int, word: Seq<char>)
    requires
        0 <= pos,
        pos + word.len() <= s.len(),
        s.subrange(pos, pos + word.len()) == word,
        word.len() > 0,
        is_alpha(word[0]),
        forall|i: int| 0 <= i < word.len() ==> is_alpha_numeric(#[trigger] word[i]),
        ends_word(s, pos + word.len()),
    ensures
        step(s, pos, line) == (Step {
            next: pos + word.len(),
            line,
            kind: Some(word_kind(word)),
            error: None,
        }),
{
    let end = pos + word.len();
    assert forall|i: int| pos + 1 <= i < end implies is_alpha_numeric(#[trigger] s[i]) by {
        assert(s[i] == s.subrange(pos, end)[i - pos]);
    }
    assert(s[pos] == s.subrange(pos, end)[0]);
    lemma_run_end_at(s, pos + 1, end, |c: char| is_alpha_numeric(c));
}

/// A number literal that stands in a text, and ends there, scans as one
/// number token.
pub proof fn lemma_number_step(s: Seq<char>, pos: int, line: int, text: Seq<char>)
    requires
        0 <= pos,
        pos + text.len() <= s.len(),
        s.subrange(pos, pos + text.len()) == text,
        is_number_literal(text),
        ends_word(s, pos + text.len()),
    ensures
        step(s, pos, line) == (Step {
            next: pos + text.len(),
            line,
            kind: Some(TokenType::Number),
            error: None,
        }),
{
    let digits = |c: char| is_digit(c);
    let end = pos + text.len();
    assert forall|i: int| 0 <= i < text.len() implies s[pos + i] == #[trigger] text[i] by {
        assert(s[pos + i] == s.subrange(pos, end)[i]);
    }
    assert(s[pos] == text[0]);
    let whole = run_end(text, 1, digits);
    lemma_run_end(text, 1, digits);
    assert forall|i: int| pos + 1 <= i < pos + whole implies digits(#[trigger] s[i]) by {
        assert(s[i] == text[i - pos]);
    }
    if whole < text.len() {
        assert(s[pos + whole] == text[whole]);
        lemma_run_end_at(s, pos + 1, pos + whole, digits);
        lemma_run_end(text, whole + 1, digits);
        assert(s[pos + whole + 1] == text[whole + 1]);
        assert forall|i: int| pos + whole + 1 <= i < end implies digits(#[trigger] s[i]) by {
            assert(s[i] == text[i - pos]);
        }
        lemma_run_end_at(s, pos + whole + 1, end, digits);
    } else {
        lemma_run_end_at(s, pos + 1, end, digits);
    }
    assert(number_end(s, pos) == end);
}

/// Text between double quotes, with no double quote inside, scans as one
/// string token, and the line counter moves by the newlines in it.
pub proof fn lemma_quoted_step(s: Seq<char>, pos: int, line: int, inner: Seq<char>)
    requires
        0 <= pos,
        pos + inner.len() + 2 <= s.len(),
        s.subrange(pos, pos + inner.len() + 2) == quoted(inner),
        !inner.contains('"'),
    ensures
        step(s, pos, line) == (Step {
            next: pos + inner.len() + 2,
            line: line + newlines(s, pos + 1, pos + 1 + inner.len()),
            kind: Some(TokenType::String),
            error: None,
        }),
{
    let text = quoted(inner);
    let end = pos + inner.len() + 2;
    assert forall|i: int| 0 <= i < text.len() implies s[pos + i] == #[trigger] text[i] by {
        assert(s[pos + i] == s.subrange(pos, end)[i]);
    }
    assert(s[pos] == text[0]);
    assert(s[end - 1] == text[end - 1 - pos]);
    assert forall|i: int| pos + 1 <= i < end - 1 implies #[trigger] s[i] != '"' by {
        assert(s[i] == text[i - pos]);
        assert(text[i - pos] == inner[i - pos - 1]);
    }
    lemma_run_end_at(s, pos + 1, end - 1, |c: char| c != '"');
    assert(step(s, pos, line) == string_step(s, pos, line));
}

/// An operator that stands in a text as it is spelled, before a space or
/// the start of an operand, scans as one token of its kind.
pub proof fn lemma_operator_step(s: Seq<char>, pos: int, line: int, kind: TokenType)
    requires
        0 <= pos,
        spelling(kind).len() > 0,
        pos + spelling(kind).len() < s.len(),
        s.subrange(pos, pos + spelling(kind).len()) == spelling(kind),
        s[pos + spelling(kind).len()] == ' ' || starts_operand(s[pos + spelling(kind).len()]),
    ensures
        step(s, pos, line) == token_step(pos, line, spelling(kind).len() as int, kind),
{
    let word = spelling(kind);
    let end = pos + word.len();
    assert forall|i: int| 0 <= i < word.len() implies s[pos + i] == #[trigger] word[i] by {
        assert(s[pos + i] == s.subrange(pos, end)[i]);
    }
    assert(s[pos] == word[0]);
    if word.len() > 1 {
        assert(s[pos + 1] == word[1]);
    }
}

/// A part of a text that stands in a longer one stands there too.
pub proof fn lemma_part(s: Seq<char>, pos: int, text: Seq<char>, offset: int, part: Seq<char>)
    requires
        0 <= pos,
        pos + text.len() <= s.len(),
        s.subrange(pos, pos + text.len()) == text,
        0 <= offset,
        offset + part.len() <= text.len(),
        text.subrange(offset, offset + part.len()) == part,
    ensures
        s.subrange(pos + offset, pos + offset + part.len()) == part,
        forall|i: int| 0 <= i < text.len() ==> s[pos + i] == #[trigger] text[i],
{
    assert forall|i: int| 0 <= i < text.len() implies s[pos + i] == #[trigger] text[i] by {
        assert(s[pos + i] == s.subrange(pos, pos + text.len())[i]);
    }
    assert forall|i: int| 0 <= i < part.len() implies s[pos + offset + i] == part[i] by {
        assert(part[i] == text.subrange(offset, offset + part.len())[i]);
        assert(s[pos + offset + i] == text[offset + i]);
    }
    assert(s.subrange(pos + offset, pos + offset + part.len()) =~= part);
}

/// An opening parenthesis scans as its token.
pub proof fn lemma_scan_open<P: Fn(&str) -> u64>(
    tokens: Seq<SpecToken>,
    k: int,
    s: Seq<char>,
    pos: int,
    line: int,
    read: P,
)
    requires
        follows(tokens, k, s, pos, line, read),
        0 <= pos < s.len(),
        0 <= k,
        s[pos] == '(',
    ensures
        k < tokens.len(),
        tokens[k].token_type == TokenType::LeftParen,
        follows(tokens, k + 1, s, pos + 1, line, read),
        clean_from(s, pos + 1, line) ==> clean_from(s, pos, line),
{
    lemma_follow_step(tokens, k, s, pos, line, read);
}

/// A closing parenthesis scans as its token.
pub proof fn lemma_scan_close<P: Fn(&str) -> u64>(
    tokens: Seq<SpecToken>,
    k: int,
    s: Seq<char>,
    pos: int,
    line: int,
    read: P,
)
    requires
        follows(tokens, k, s, pos, line, read),
        0 <= pos < s.len(),
        0 <= k,
        s[pos] == ')',
    ensures
        k < tokens.len(),
        tokens[k].token_type == TokenType::RightParen,
        follows(tokens, k + 1, s, pos + 1, line, read),
        clean_from(s, pos + 1, line) ==> clean_from(s, pos, line),
{
    lemma_follow_step(tokens, k, s, pos, line, read);
}

/// A space scans as nothing.
pub proof fn lemma_scan_space<P: Fn(&str) -> u64>(
    tokens: Seq<SpecToken>,
    k: int,
    s: Seq<char>,
    pos: int,
    line: int,
    read: P,
)
    requires
        follows(tokens, k, s, pos, line, read),
        0 <= pos < s.len(),
        s[pos] == ' ',
    ensures
        follows(tokens, k, s, pos + 1, line, read),
        clean_from(s, pos + 1, line) ==> clean_from(s, pos, line),
{
    lemma_follow_step(tokens, k, s, pos, line, read);
}

/// An operator that stands in a text as it is spelled, before a space or
/// the start of an operand, scans as its token.
pub proof fn lemma_scan_operator<P: Fn(&str) -> u64>(
    tokens: Seq<SpecToken>,
    k: int,
    s: Seq<char>,
    pos: int,
    line: int,
    read: P,
    kind: TokenType,
)
    requires
        follows(tokens, k, s, pos, line, read),
        0 <= pos,
        0 <= k,
        spelling(kind).len() > 0,
        pos + spelling(kind).len() < s.len(),
        s.subrange(pos, pos + spelling(kind).len()) == spelling(kind),
        s[pos + spelling(kind).len()] == ' ' || starts_operand(s[pos + spelling(kind).len()]),
    ensures
        k < tokens.len(),
        tokens[k].token_type == kind,
        tokens[k].lexeme == spelling(kind),
        follows(tokens, k + 1, s, pos + spelling(kind).len(), line, read),
        clean_from(s, pos + spelling(kind).len(), line) ==> clean_from(s, pos, line),
{
    lemma_operator_step(s, pos, line, kind);
    lemma_follow_step(tokens, k, s, pos, line, read);
}

/// The printed form of a literal, where it stands in a text and a word
/// would end behind it, scans as one token that stands for its value.
/// Returns the line counter behind it.
#[verifier::rlimit(40)]
pub proof fn lemma_scan_literal<P: Fn(&str) -> u64, R: Fn(u64) -> String>(
    tokens: Seq<SpecToken>,
    k: int,
    s: Seq<char>,
    pos: int,
    line: int,
    read: P,
    render: R,
    value: SpecValue,
    text: Seq<char>,
) -> (after: int)
    requires
        printable(SpecExpr::Literal { value }, read, render),
        prints(SpecExpr::Literal { value }, render, text),
        0 <= pos,
        0 <= k,
        pos + text.len() <= s.len(),
        s.subrange(pos, pos + text.len()) == text,
        ends_word(s, pos + text.len()),
        follows(tokens, k, s, pos, line, read),
    ensures
        k < tokens.len(),
        literal_of(tokens[k]) == Some(value),
        follows(tokens, k + 1, s, pos + text.len(), after, read),
        clean_from(s, pos + text.len(), after) ==> clean_from(s, pos, line),
{
    match value {
        SpecValue::Number(bits) => {
            lemma_number_step(s, pos, line, text);
        },
        SpecValue::Str(inner) => {
            lemma_quoted_step(s, pos, line, inner);
            assert(text.subrange(1, text.len() - 1) =~= inner);
        },
        _ => {
            lemma_literal_words();
            lemma_word_step(s, pos, line, text);
        },
    }
    lemma_follow_step(tokens, k, s, pos, line, read);
    let here = step(s, pos, line);
    assert(s.subrange(pos, here.next) == text);
    here.line
}

/// What the scan of a printed tree gives: the tree that the tokens spell,
/// the place of the token behind them, and the line counter behind the
/// text.
pub struct Reading {
    pub expr: SpecExpr,
    pub next: int,
    pub line: int,
}

/// What holds of the reading of a printed tree: the tokens from `k` up to
/// `reading.next` spell `reading.expr`, a closed tree that is like `expr`
/// with a grouping around every operator node; the tokens behind them are
/// those of the scan from behind the text, and an error in the text would
/// be an error behind it.
pub open spec fn read_as<P: Fn(&str) -> u64>(
    tokens: Seq<SpecToken>,
    k: int,
    s: Seq<char>,
    pos: int,
    line: int,
    expr: SpecExpr,
    text: Seq<char>,
    read: P,
    reading: Reading,
) -> bool {
    &&& k < reading.next <= tokens.len()
    &&& spells(tokens, k, reading.next, reading.expr)
    &&& closed(reading.expr)
    &&& alike(reading.expr, regrouped(expr))
    &&& follows(tokens, reading.next, s, pos + text.len(), reading.line, read)
    &&& clean_from(s, pos + text.len(), reading.line) ==> clean_from(s, pos, line)
}

/// Where the parts of `(inner)` stand in a text.
pub proof fn lemma_grouped_parts(s: Seq<char>, pos: int, text: Seq<char>, inner: Seq<char>)
    requires
        0 <= pos,
        pos + text.len() <= s.len(),
        s.subrange(pos, pos + text.len()) == text,
        text == grouped_text(inner),
    ensures
        text.len() == inner.len() + 2,
        s[pos] == '(',
        s.subrange(pos + 1, pos + 1 + inner.len()) == inner,
        s[pos + 1 + inner.len()] == ')',
{
    assert(text.subrange(1, 1 + inner.len() as int) =~= inner);
    lemma_part(s, pos, text, 1, inner);
    assert(s[pos] == text[0]);
    assert(s[pos + 1 + inner.len()] == text[1 + inner.len() as int]);
}

/// Where the parts of `(operator operand)` stand in a text.
pub proof fn lemma_unary_parts(
    s: Seq<char>,
    pos: int,
    text: Seq<char>,
    word: Seq<char>,
    operand: Seq<char>,
)
    requires
        0 <= pos,
        pos + text.len() <= s.len(),
        s.subrange(pos, pos + text.len()) == text,
        text == unary_text(word, operand),
        operand.len() > 0,
    ensures
        text.len() == word.len() + operand.len() + 2,
        s[pos] == '(',
        s.subrange(pos + 1, pos + 1 + word.len()) == word,
        s.subrange(pos + 1 + word.len(), pos + 1 + word.len() + operand.len()) == operand,
        s[pos + 1 + word.len()] == operand[0],
        s[pos + 1 + word.len() + operand.len()] == ')',
{
    let width = word.len() as int;
    assert(text.subrange(1, 1 + width) =~= word);
    assert(text.subrange(1 + width, 1 + width + operand.len()) =~= operand);
    lemma_part(s, pos, text, 1, word);
    lemma_part(s, pos, text, 1 + width, operand);
    assert(s[pos] == text[0]);
    assert(s[pos + 1 + width] == text[1 + width]);
    assert(text[1 + width] == operand[0]);
    assert(s[pos + 1 + width + operand.len()] == text[1 + width + operand.len()]);
}

/// Where the parts of `(left operator right)` stand in a text.
pub proof fn lemma_binary_parts(
    s: Seq<char>,
    pos: int,
    text: Seq<char>,
    l: Seq<char>,
    word: Seq<char>,
    r: Seq<char>,
)
    requires
        0 <= pos,
        pos + text.len() <= s.len(),
        s.subrange(pos, pos + text.len()) == text,
        text == binary_text(l, word, r),
    ensures
        text.len() == l.len() + word.len() + r.len() + 4,
        s[pos] == '(',
        s.subrange(pos + 1, pos + 1 + l.len()) == l,
        s[pos + 1 + l.len()] == ' ',
        s.subrange(pos + 2 + l.len(), pos + 2 + l.len() + word.len()) == word,
        s[pos + 2 + l.len() + word.len()] == ' ',
        s.subrange(
            pos + 3 + l.len() + word.len(),
            pos + 3 + l.len() + word.len() + r.len(),
        ) == r,
        s[pos + 3 + l.len() + word.len() + r.len()] == ')',
{
    let a = l.len() as int;
    let m = word.len() as int;
    let b = r.len() as int;
    assert(text.subrange(1, 1 + a) =~= l);
    assert(text.subrange(2 + a, 2 + a + m) =~= word);
    assert(text.subrange(3 + a + m, 3 + a + m + b) =~= r);
    lemma_part(s, pos, text, 1, l);
    lemma_part(s, pos, text, 2 + a, word);
    lemma_part(s, pos, text, 3 + a + m, r);
    assert(s[pos] == text[0]);
    assert(s[pos + 1 + a] == text[1 + a]);
    assert(s[pos + 2 + a + m] == text[2 + a + m]);
    assert(s[pos + 3 + a + m + b] == text[3 + a + m + b]);
}

/// The printed form of a tree, where it stands in a text and a word would
/// end behind it, scans without error to tokens that spell a closed tree,
/// which is like the tree with a grouping around every operator node.
pub proof fn lemma_scan_printed<P: Fn(&str) -> u64, R: Fn(u64) -> String>(
    s: Seq<char>,
    pos: int,
    line: int,
    tokens: Seq<SpecToken>,
    k: int,
    expr: SpecExpr,
    text: Seq<char>,
    read: P,
    render: R,
) -> (reading: Reading)
    requires
        printable(expr, read, render),
        prints(expr, render, text),
        0 <= pos,
        0 <= k,
        pos + text.len() <= s.len(),
        s.subrange(pos, pos + text.len()) == text,
        ends_word(s, pos + text.len()),
        follows(tokens, k, s, pos, line, read),
    ensures
        read_as(tokens, k, s, pos, line, expr, text, read, reading),
    decreases expr, 1nat,
{
    match expr {
        SpecExpr::Literal { value } => {
            let after = lemma_scan_literal(tokens, k, s, pos, line, read, render, value, text);
            assert(alike(expr, regrouped(expr)));
            Reading { expr, next: k + 1, line: after }
        },
        SpecExpr::Grouping { expression } => lemma_scan_printed_grouping(
            s,
            pos,
            line,
            tokens,
            k,
            expr,
            text,
            read,
            render,
        ),
        SpecExpr::Unary { operator, right } => lemma_scan_printed_unary(
            s,
            pos,
            line,
            tokens,
            k,
            expr,
            text,
            read,
            render,
        ),
        SpecExpr::Binary { left, operator, right } => lemma_scan_printed_binary(
            s,
            pos,
            line,
            tokens,
            k,
            expr,
            text,
            read,
            render,
        ),
    }
}

/// `lemma_scan_printed` for a grouping.
#[verifier::rlimit(40)]
pub proof fn lemma_scan_printed_grouping<P: Fn(&str) -> u64, R: Fn(u64) -> String>(
    s: Seq<char>,
    pos: int,
    line: int,
    tokens: Seq<SpecToken>,
    k: int,
    expr: SpecExpr,
    text: Seq<char>,
    read: P,
    render: R,
) -> (reading: Reading)
    requires
        printable(expr, read, render),
        prints(expr, render, text),
        0 <= pos,
        0 <= k,
        pos + text.len() <= s.len(),
        s.subrange(pos, pos + text.len()) == text,
        ends_word(s, pos + text.len()),
        follows(tokens, k, s, pos, line, read),
        expr is Grouping,
    ensures
        read_as(tokens, k, s, pos, line, expr, text, read, reading),
    decreases expr, 0nat,
{
    let expression = expr->Grouping_expression;
    let inner = choose|inner: Seq<char>|
        prints(*expression, render, inner) && #[trigger] is_grouped(text, inner);
    lemma_grouped_parts(s, pos, text, inner);
    let end = pos + text.len();
    lemma_scan_open(tokens, k, s, pos, line, read);
    let within = lemma_scan_printed(s, pos + 1, line, tokens, k + 1, *expression, inner, read, render);
    lemma_scan_close(tokens, within.next, s, end - 1, within.line, read);
    let whole = SpecExpr::Grouping { expression: Box::new(within.expr) };
    assert(alike(whole, regrouped(expr)));
    assert(closed(whole));
    Reading { expr: whole, next: within.next + 1, line: within.line }
}

/// `lemma_scan_printed` for a unary node.
#[verifier::rlimit(40)]
pub proof fn lemma_scan_printed_unary<P: Fn(&str) -> u64, R: Fn(u64) -> String>(
    s: Seq<char>,
    pos: int,
    line: int,
    tokens: Seq<SpecToken>,
    k: int,
    expr: SpecExpr,
    text: Seq<char>,
    read: P,
    render: R,
) -> (reading: Reading)
    requires
        printable(expr, read, render),
        prints(expr, render, text),
        0 <= pos,
        0 <= k,
        pos + text.len() <= s.len(),
        s.subrange(pos, pos + text.len()) == text,
        ends_word(s, pos + text.len()),
        follows(tokens, k, s, pos, line, read),
        expr is Unary,
    ensures
        read_as(tokens, k, s, pos, line, expr, text, read, reading),
    decreases expr, 0nat,
{
    let operator = expr->Unary_operator;
    let right = expr->Unary_right;
    let operand = choose|operand: Seq<char>|
        prints(*right, render, operand) && #[trigger] is_unary(text, operator.lexeme, operand);
    lemma_printed_first(*right, read, render, operand);
    lemma_unary_parts(s, pos, text, operator.lexeme, operand);
    let end = pos + text.len();
    let start = pos + 1 + operator.lexeme.len();
    lemma_scan_open(tokens, k, s, pos, line, read);
    lemma_scan_operator(tokens, k + 1, s, pos + 1, line, read, operator.token_type);
    let within = lemma_scan_printed(s, start, line, tokens, k + 2, *right, operand, read, render);
    lemma_scan_close(tokens, within.next, s, end - 1, within.line, read);
    let node = SpecExpr::Unary { operator: tokens[k + 1], right: Box::new(within.expr) };
    assert(spells(tokens, k + 1, within.next, node));
    assert(same_operator(tokens[k + 1], operator));
    assert(alike(node, SpecExpr::Unary { operator, right: Box::new(regrouped(*right)) }));
    let whole = SpecExpr::Grouping { expression: Box::new(node) };
    assert(alike(whole, regrouped(expr)));
    assert(closed(whole));
    Reading { expr: whole, next: within.next + 1, line: within.line }
}

/// `lemma_scan_printed` for a binary node.
#[verifier::rlimit(40)]
pub proof fn lemma_scan_printed_binary<P: Fn(&str) -> u64, R: Fn(u64) -> String>(
    s: Seq<char>,
    pos: int,
    line: int,
    tokens: Seq<SpecToken>,
    k: int,
    expr: SpecExpr,
    text: Seq<char>,
    read: P,
    render: R,
) -> (reading: Reading)
    requires
        printable(expr, read, render),
        prints(expr, render, text),
        0 <= pos,
        0 <= k,
        pos + text.len() <= s.len(),
        s.subrange(pos, pos + text.len()) == text,
        ends_word(s, pos + text.len()),
        follows(tokens, k, s, pos, line, read),
        expr is Binary,
    ensures
        read_as(tokens, k, s, pos, line, expr, text, read, reading),
    decreases expr, 0nat,
{
    let left = expr->Binary_left;
    let operator = expr->Binary_operator;
    let right = expr->Binary_right;
    let (l, r) = choose|l: Seq<char>, r: Seq<char>|
        prints(*left, render, l) && prints(*right, render, r) && #[trigger] is_binary(
            text,
            l,
            operator.lexeme,
            r,
        );
    lemma_binary_parts(s, pos, text, l, operator.lexeme, r);
    let end = pos + text.len();
    let gap = pos + 1 + l.len();
    let second = gap + 2 + operator.lexeme.len();
    lemma_scan_open(tokens, k, s, pos, line, read);
    let first = lemma_scan_printed(s, pos + 1, line, tokens, k + 1, *left, l, read, render);
    lemma_scan_space(tokens, first.next, s, gap, first.line, read);
    lemma_scan_operator(tokens, first.next, s, gap + 1, first.line, read, operator.token_type);
    lemma_scan_space(tokens, first.next + 1, s, second - 1, first.line, read);
    let last = lemma_scan_printed(
        s,
        second,
        first.line,
        tokens,
        first.next + 1,
        *right,
        r,
        read,
        render,
    );
    lemma_scan_close(tokens, last.next, s, end - 1, last.line, read);
    let node = SpecExpr::Binary {
        left: Box::new(first.expr),
        operator: tokens[first.next],
        right: Box::new(last.expr),
    };
    assert(operator_at(tokens, first.next, tokens[first.next]));
    assert(spells(tokens, k + 1, last.next, node));
    assert(same_operator(tokens[first.next], operator));
    assert(alike(
        node,
        SpecExpr::Binary {
            left: Box::new(regrouped(*left)),
            operator,
            right: Box::new(regrouped(*right)),
        },
    ));
    let whole = SpecExpr::Grouping { expression: Box::new(node) };
    assert(alike(whole, regrouped(expr)));
    assert(closed(whole));
    Reading { expr: whole, next: last.next + 1, line: last.line }
}

/// A tree comes back from its printed form. Where the printed form can be
/// read again, it scans without error, and the tokens parse, to the end
/// marker, to a tree that is like the tree with a grouping around every
/// operator node. That tree has the values of the tree, and fails where the
/// tree fails, with the same message.
#[verifier::rlimit(40)]
pub proof fn lemma_print_round_trip<P, A, R>(
    expr: SpecExpr,
    read: P,
    arith: A,
    render: R,
    text: Seq<char>,
    tokens: Seq<SpecToken>,
) where P: Fn(&str) -> u64, A: Fn(Arithmetic, u64, u64) -> u64, R: Fn(u64) -> String
    requires
        printable(expr, read, render),
        prints(expr, render, text),
        tokens_of(tokens, scan(text).lexemes, read),
    ensures
        scan(text).faults.len() == 0,
        parse(tokens) is Tree,
        parse(tokens)->Tree_next == tokens.len() - 1,
        alike(parse(tokens)->Tree_expr, regrouped(expr)),
        forall|value: SpecValue|
            evaluates(parse(tokens)->Tree_expr, arith, render, Ok(value)) <==> evaluates(
                expr,
                arith,
                render,
                Ok(value),
            ),
        forall|out: Outcome| #[trigger]
            evaluates(parse(tokens)->Tree_expr, arith, render, out) ==> exists|other: Outcome| #[trigger]
                evaluates(expr, arith, render, other) && same_but_line(out, other),
        forall|out: Outcome| #[trigger]
            evaluates(expr, arith, render, out) ==> exists|other: Outcome| #[trigger]
                evaluates(parse(tokens)->Tree_expr, arith, render, other) && same_but_line(
                    out,
                    other,
                ),
{
    let end = text.len() as int;
    assert(follows(tokens, 0, text, 0, 1, read)) by {
        reveal(follows);
        assert(tokens.subrange(0, tokens.len() as int) =~= tokens);
    }
    assert(text.subrange(0, end) =~= text);
    let reading = lemma_scan_printed(text, 0, 1, tokens, 0, expr, text, read, render);
    let last = reading.next;
    assert(tokens.len() == last + 1 && tokens[last].token_type == TokenType::EOF) by {
        reveal(follows);
        let tail = tokens.subrange(last, tokens.len() as int);
        assert(scan_from(text, end, reading.line).lexemes.len() == 1);
        assert(tail[0] == tokens[last]);
    }
    assert(scan(text).faults.len() == 0) by {
        reveal(clean_from);
    }
    lemma_parse_spelled(tokens, 0, last, reading.expr);
    lemma_lone_operand(tokens, 0, 0);
    let parsed = reading.expr;
    assert(parse(tokens) == (Parsed::Tree { expr: parsed, next: last }));
    let grouped = regrouped(expr);
    lemma_alike_symmetric(parsed, grouped);
    lemma_regrouped_evaluates(expr, arith, render);
    assert forall|out: Outcome| #[trigger]
        evaluates(parsed, arith, render, out) implies exists|other: Outcome| #[trigger]
        evaluates(expr, arith, render, other) && same_but_line(out, other) by {
        let other = lemma_alike_evaluates(parsed, grouped, arith, render, out);
        assert(evaluates(expr, arith, render, other));
    }
    assert forall|out: Outcome| #[trigger]
        evaluates(expr, arith, render, out) implies exists|other: Outcome| #[trigger]
        evaluates(parsed, arith, render, other) && same_but_line(out, other) by {
        assert(evaluates(grouped, arith, render, out));
        let other = lemma_alike_evaluates(grouped, parsed, arith, render, out);
        assert(evaluates(parsed, arith, render, other));
    }
    assert forall|value: SpecValue|
        evaluates(parsed, arith, render, Ok(value)) <==> evaluates(
            expr,
            arith,
            render,
            Ok(value),
        ) by {
        let out: Outcome = Ok(value);
        if evaluates(parsed, arith, render, out) {
            let other = lemma_alike_evaluates(parsed, grouped, arith, render, out);
            assert(evaluates(expr, arith, render, other));
        }
        if evaluates(expr, arith, render, out) {
            assert(evaluates(grouped, arith, render, out));
            let other = lemma_alike_evaluates(grouped, parsed, arith, render, out);
        }
    }
}

} // verus!
