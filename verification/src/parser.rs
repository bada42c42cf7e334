//! The parser: the grammar as functions on token sequences, and the
//! recursive descent that computes them.

use vstd::prelude::*;
use crate::error::ParseError;
use crate::expr::{Expr, SpecExpr};
use crate::sapphire::Sapphire;
use crate::token::{token_views, SpecToken, Token};
use crate::token_type::TokenType;
use crate::value::{SpecValue, Value};

verus! {

/// The outcome of parsing from some place of a token sequence.
pub enum Parsed {
    /// An expression, and the place after its last token.
    Tree { expr: SpecExpr, next: int },
    /// A failure: its message, the token it is reported at, and the place
    /// where the parser stopped.
    Failure { message: Seq<char>, at: SpecToken, next: int },
}

/// The cursor is at the end marker, or beyond the tokens.
pub open spec fn at_end(tokens: Seq<SpecToken>, pos: int) -> bool {
    pos < 0 || pos >= tokens.len() || tokens[pos].token_type == TokenType::EOF
}

/// The number of binary levels. Level 0 binds loosest.
pub open spec fn levels() -> nat {
    4
}

/// How many grammar rules lie between a level and `primary`.
pub open spec fn height(level: nat) -> nat {
    if level < levels() {
        (levels() + 1 - level) as nat
    } else {
        1
    }
}

/// The operators of a binary level: equality, comparison, term, factor.
pub open spec fn level_operators(level: nat) -> Seq<TokenType> {
    if level == 0 {
        seq![TokenType::BangEqual, TokenType::EqualEqual]
    } else if level == 1 {
        seq![
            TokenType::Greater,
            TokenType::GreaterEqual,
            TokenType::Less,
            TokenType::LessEqual,
        ]
    } else if level == 2 {
        seq![TokenType::Minus, TokenType::Plus]
    } else {
        seq![TokenType::Slash, TokenType::Star]
    }
}

/// The token at `pos` is one of `kinds`, and not the end marker.
pub open spec fn matches_any(tokens: Seq<SpecToken>, pos: int, kinds: Seq<TokenType>) -> bool {
    !at_end(tokens, pos) && kinds.contains(tokens[pos].token_type)
}

/// The kind starts a statement.
pub open spec fn starts_statement(kind: TokenType) -> bool {
    kind == TokenType::Class || kind == TokenType::Fn || kind == TokenType::Var || kind
        == TokenType::For || kind == TokenType::If || kind == TokenType::While || kind
        == TokenType::PrintLn || kind == TokenType::Return
}

/// A likely statement boundary: the end marker, a token that follows a
/// semicolon, or a keyword that starts a statement.
pub open spec fn boundary(tokens: Seq<SpecToken>, pos: int) -> bool {
    at_end(tokens, pos) || tokens[pos - 1].token_type == TokenType::Semicolon || starts_statement(
        tokens[pos].token_type,
    )
}

pub open spec fn expected_expression() -> Seq<char> {
    "Expected expression"@
}

pub open spec fn expected_closing() -> Seq<char> {
    "Expect ')' to close grouping expression."@
}

/// `expression -> equality`.
pub open spec fn parse_expression(tokens: Seq<SpecToken>, pos: int) -> Parsed
    decreases tokens.len() - pos, levels() + 2, 0nat,
{
    parse_binary(tokens, 0, pos)
}

/// A binary level: one operand of the next level, then the rest of the
/// chain. Beyond the last binary level stands `unary`.
pub open spec fn parse_binary(tokens: Seq<SpecToken>, level: nat, pos: int) -> Parsed
    decreases tokens.len() - pos, height(level), 1nat,
{
    if level >= levels() {
        parse_unary(tokens, pos)
    } else {
        match parse_binary(tokens, level + 1, pos) {
            Parsed::Tree { expr, next } => if pos < next <= tokens.len() {
                parse_chain(tokens, level, expr, next)
            } else {
                Parsed::Tree { expr, next }
            },
            failure => failure,
        }
    }
}

/// The rest of a left-associative chain whose operands so far make `left`:
/// while an operator of the level follows, it and the operand behind it are
/// folded into a binary node with `left` on its left.
pub open spec fn parse_chain(tokens: Seq<SpecToken>, level: nat, left: SpecExpr, pos: int) -> Parsed
    decreases tokens.len() - pos, height(level), 0nat,
{
    if level < levels() && matches_any(tokens, pos, level_operators(level)) {
        match parse_binary(tokens, level + 1, pos + 1) {
            Parsed::Tree { expr, next } => if pos < next <= tokens.len() {
                parse_chain(
                    tokens,
                    level,
                    SpecExpr::Binary {
                        left: Box::new(left),
                        operator: tokens[pos],
                        right: Box::new(expr),
                    },
                    next,
                )
            } else {
                Parsed::Tree { expr, next }
            },
            failure => failure,
        }
    } else {
        Parsed::Tree { expr: left, next: pos }
    }
}

/// `unary -> ( "!" | "-" ) unary | primary`.
pub open spec fn parse_unary(tokens: Seq<SpecToken>, pos: int) -> Parsed
    decreases tokens.len() - pos, 0nat, 1nat,
{
    if matches_any(tokens, pos, seq![TokenType::Bang, TokenType::Minus]) {
        match parse_unary(tokens, pos + 1) {
            Parsed::Tree { expr, next } => Parsed::Tree {
                expr: SpecExpr::Unary { operator: tokens[pos], right: Box::new(expr) },
                next,
            },
            failure => failure,
        }
    } else {
        parse_primary(tokens, pos)
    }
}

/// `primary -> "true" | "false" | "nil" | NUMBER | STRING | "(" expression
/// ")"`. A token that starts no primary is a failure, reported at that
/// token: the end marker is not consumed, any other token is.
pub open spec fn parse_primary(tokens: Seq<SpecToken>, pos: int) -> Parsed
    decreases tokens.len() - pos, 0nat, 0nat,
{
    if at_end(tokens, pos) {
        Parsed::Failure { message: expected_expression(), at: tokens[pos], next: pos }
    } else {
        let token = tokens[pos];
        match token.token_type {
            TokenType::True => Parsed::Tree {
                expr: SpecExpr::Literal { value: SpecValue::Bool(true) },
                next: pos + 1,
            },
            TokenType::False => Parsed::Tree {
                expr: SpecExpr::Literal { value: SpecValue::Bool(false) },
                next: pos + 1,
            },
            TokenType::Nil => Parsed::Tree {
                expr: SpecExpr::Literal { value: SpecValue::Null },
                next: pos + 1,
            },
            TokenType::Number | TokenType::String => Parsed::Tree {
                expr: SpecExpr::Literal { value: token.literal },
                next: pos + 1,
            },
            TokenType::LeftParen => match parse_expression(tokens, pos + 1) {
                Parsed::Tree { expr, next } => if matches_any(
                    tokens,
                    next,
                    seq![TokenType::RightParen],
                ) {
                    Parsed::Tree {
                        expr: SpecExpr::Grouping { expression: Box::new(expr) },
                        next: next + 1,
                    }
                } else {
                    Parsed::Failure {
                        message: expected_closing(),
                        at: tokens[next],
                        next,
                    }
                },
                failure => failure,
            },
            _ => Parsed::Failure {
                message: expected_expression(),
                at: token,
                next: pos + 1,
            },
        }
    }
}

/// The outcome of parsing a whole token sequence.
pub open spec fn parse(tokens: Seq<SpecToken>) -> Parsed {
    parse_expression(tokens, 0)
}

/// The parser: a cursor over the tokens, which reports failures to `main`.
///
/// The reporter is borrowed for as long as the parser lives; the clause
/// `*final(final(self).main) == *final(old(self).main)` of each method says
/// that the parser still holds the same borrow.
pub struct Parser<'a> {
    pub main: &'a mut Sapphire,
    pub tokens: Vec<Token>,
    /// The next token to read.
    pub current: usize,
}

impl<'a> Parser<'a> {
    /// The tokens end with the end marker, and the cursor is at a token.
    pub open spec fn wf(&self) -> bool {
        &&& self.tokens@.len() > 0
        &&& self.tokens@.last().token_type == TokenType::EOF
        &&& self.current < self.tokens@.len()
    }

    /// The models of the tokens.
    pub open spec fn input(&self) -> Seq<SpecToken> {
        token_views(self.tokens@)
    }

    /// The parser is `before` with the cursor at `current`, and nothing was
    /// reported.
    pub open spec fn moved(&self, before: &Self, current: int) -> bool {
        &&& self.tokens == before.tokens
        &&& self.current == current
        &&& *self.main == *before.main
    }

    /// The parser is `before` after an attempt that ended as `outcome`, and
    /// `r` is what the attempt returned: the tree, or the message of the
    /// failure, which was reported.
    pub open spec fn parsed(&self, before: &Self, outcome: Parsed, r: Result<Expr, ParseError>) -> bool {
        &&& self.tokens == before.tokens
        &&& match outcome {
            Parsed::Tree { expr, next } => {
                &&& r matches Ok(tree)
                &&& tree@ == expr
                &&& expr.well_formed()
                &&& self.current == next
                &&& self.main@ == before.main@
            },
            Parsed::Failure { message, at, next } => {
                &&& r matches Err(error)
                &&& error@ == message
                &&& self.current == next
                &&& self.main@ == before.main@.token_error(at, message)
            },
        }
    }

    /// A parser at the first of `tokens`, which reports to `main`.
    pub fn new(main: &'a mut Sapphire, tokens: Vec<Token>) -> (parser: Self)
        requires
            tokens@.len() > 0,
            tokens@.last().token_type == TokenType::EOF,
        ensures
            parser.wf(),
            parser.tokens == tokens,
            parser.current == 0,
            *parser.main == *old(main),
            *final(parser.main) == *final(main),
    {
        Parser { main, tokens, current: 0 }
    }

    /// Reports a failure at `token` and returns the error to hand back.
    pub fn error(&mut self, token: Token, message: String) -> (error: ParseError)
        ensures
            error@ == message@,
            final(self).tokens == old(self).tokens,
            final(self).current == old(self).current,
            final(self).main@ == old(self).main@.token_error(token@, message@),
            *final(final(self).main) == *final(old(self).main),
    {
        self.main.token_error(token, message.clone());
        ParseError::new(message.as_str())
    }

    /// The token at the cursor.
    pub fn peek(&mut self) -> (token: &Token)
        requires
            old(self).wf(),
        ensures
            *token == old(self).tokens@[old(self).current as int],
            *final(self) == *old(self),
    {
        &self.tokens[self.current]
    }

    /// The token before the cursor.
    pub fn previous(&mut self) -> (token: &Token)
        requires
            old(self).wf(),
            old(self).current > 0,
        ensures
            *token == old(self).tokens@[old(self).current - 1],
            *final(self) == *old(self),
    {
        &self.tokens[self.current - 1]
    }

    /// Whether the cursor is at the end marker.
    pub fn is_at_end(&mut self) -> (r: bool)
        requires
            old(self).wf(),
        ensures
            r == at_end(old(self).input(), old(self).current as int),
            *final(self) == *old(self),
    {
        self.peek().token_type == TokenType::EOF
    }

    /// Moves past the token at the cursor and returns it. At the end marker
    /// nothing moves: the failure is reported at the end marker and
    /// returned.
    pub fn advance(&mut self) -> (r: Result<&Token, ParseError>)
        requires
            old(self).wf(),
        ensures
            final(self).wf(),
            final(self).tokens == old(self).tokens,
            !at_end(old(self).input(), old(self).current as int) ==> {
                &&& r matches Ok(token)
                &&& *token == old(self).tokens@[old(self).current as int]
                &&& final(self).moved(old(self), old(self).current + 1)
            },
            at_end(old(self).input(), old(self).current as int) ==> {
                &&& r matches Err(error)
                &&& error@ == expected_expression()
                &&& final(self).current == old(self).current
                &&& final(self).main@ == old(self).main@.token_error(
                    old(self).input()[old(self).current as int],
                    expected_expression(),
                )
            },
            *final(final(self).main) == *final(old(self).main),
    {
        if !self.is_at_end() {
            assert(self.current < self.tokens.len());
            self.current += 1;
            return Ok(self.previous());
        }
        let end_marker: Token = self.peek().clone();
        Err(self.error(end_marker, String::from_str("Expected expression")))
    }

    /// Whether the token at the cursor is of the given kind. At the end
    /// marker the answer is no, whatever the kind.
    pub fn check(&mut self, token_type: TokenType) -> (r: bool)
        requires
            old(self).wf(),
        ensures
            r == matches_any(old(self).input(), old(self).current as int, seq![token_type]),
            *final(self) == *old(self),
    {
        if self.is_at_end() {
            return false;
        }
        let r = self.peek().token_type == token_type;
        assert(seq![token_type][0] == token_type);
        r
    }

    /// Moves past the token at the cursor if it is of one of the given
    /// kinds, and says whether it did.
    pub fn match_types(&mut self, token_types: Vec<TokenType>) -> (r: bool)
        requires
            old(self).wf(),
        ensures
            r == matches_any(old(self).input(), old(self).current as int, token_types@),
            final(self).moved(
                old(self),
                old(self).current + if r {
                    1int
                } else {
                    0int
                },
            ),
            final(self).wf(),
            *final(final(self).main) == *final(old(self).main),
    {
        let mut i: usize = 0;
        while i < token_types.len()
            invariant
                *self == *old(self),
                self.wf(),
                i <= token_types.len(),
                forall|j: int|
                    0 <= j < i ==> !matches_any(
                        self.input(),
                        self.current as int,
                        seq![#[trigger] token_types@[j]],
                    ),
            decreases token_types.len() - i,
        {
            if self.check(token_types[i]) {
                let _ = self.advance();
                assert(seq![token_types@[i as int]][0] == token_types@[i as int]);
                return true;
            }
            i += 1;
        }
        proof {
            let kind = self.input()[self.current as int].token_type;
            if token_types@.contains(kind) {
                let j = choose|j: int| 0 <= j < token_types@.len() && token_types@[j] == kind;
                assert(seq![token_types@[j]][0] == kind);
            }
        }
        false
    }

    /// Moves past the token at the cursor if it is of the given kind and
    /// returns it; else reports `message` at that token and fails with it.
    pub fn consume(&mut self, token_type: TokenType, message: String) -> (r: Result<
        &Token,
        ParseError,
    >)
        requires
            old(self).wf(),
        ensures
            final(self).wf(),
            final(self).tokens == old(self).tokens,
            matches_any(old(self).input(), old(self).current as int, seq![token_type]) ==> {
                &&& r matches Ok(token)
                &&& *token == old(self).tokens@[old(self).current as int]
                &&& final(self).moved(old(self), old(self).current + 1)
            },
            !matches_any(old(self).input(), old(self).current as int, seq![token_type]) ==> {
                &&& r matches Err(error)
                &&& error@ == message@
                &&& final(self).current == old(self).current
                &&& final(self).main@ == old(self).main@.token_error(
                    old(self).input()[old(self).current as int],
                    message@,
                )
            },
            *final(final(self).main) == *final(old(self).main),
    {
        if self.check(token_type) {
            return self.advance();
        }
        let next_token: Token = self.peek().clone();
        Err(self.error(next_token, message))
    }

    /// Skips to a likely statement boundary: past the token at the cursor,
    /// then on until the end marker, a token that follows a semicolon, or a
    /// keyword that starts a statement. At the end marker nothing moves.
    /// Nothing is reported.
    pub fn synchronize(&mut self)
        requires
            old(self).wf(),
        ensures
            final(self).wf(),
            final(self).tokens == old(self).tokens,
            final(self).main@ == old(self).main@,
            at_end(old(self).input(), old(self).current as int) ==> final(self).current == old(
                self,
            ).current,
            !at_end(old(self).input(), old(self).current as int) ==> {
                &&& old(self).current < final(self).current
                &&& boundary(old(self).input(), final(self).current as int)
                &&& forall|p: int|
                    old(self).current < p < final(self).current ==> !boundary(old(self).input(), p)
            },
            *final(final(self).main) == *final(old(self).main),
    {
        if self.is_at_end() {
            return ;
        }
        let _ = self.advance();

        while !self.is_at_end()
            invariant
                self.wf(),
                self.tokens == old(self).tokens,
                *final(self.main) == *final(old(self).main),
                self.main@ == old(self).main@,
                !at_end(old(self).input(), old(self).current as int),
                old(self).current < self.current,
                forall|p: int|
                    old(self).current < p < self.current ==> !boundary(old(self).input(), p),
            decreases self.tokens@.len() - self.current,
        {
            if self.previous().token_type == TokenType::Semicolon {
                return ;
            }
            let peeked_token: &Token = self.peek();
            match peeked_token.token_type {
                TokenType::Class
                | TokenType::Fn
                | TokenType::Var
                | TokenType::For
                | TokenType::If
                | TokenType::While
                | TokenType::PrintLn
                | TokenType::Return => return ,
                _ => (),
            }

            let _ = self.advance();
        }
    }

    /// Parses one expression from the cursor on.
    pub fn parse(&mut self) -> (r: Result<Expr, ParseError>)
        requires
            old(self).wf(),
        ensures
            final(self).wf(),
            final(self).parsed(
                old(self),
                parse_expression(old(self).input(), old(self).current as int),
                r,
            ),
            *final(final(self).main) == *final(old(self).main),
    {
        self.expression()
    }

    /// `expression -> equality`.
    pub fn expression(&mut self) -> (r: Result<Expr, ParseError>)
        requires
            old(self).wf(),
        ensures
            final(self).wf(),
            final(self).parsed(
                old(self),
                parse_expression(old(self).input(), old(self).current as int),
                r,
            ),
            r is Ok ==> final(self).current > old(self).current,
            *final(final(self).main) == *final(old(self).main),
        decreases old(self).tokens@.len() - old(self).current, levels() + 2, 0nat,
    {
        self.equality()
    }

    /// `equality -> comparison ( ( "!=" | "==" ) comparison )*`, folded to the left.
    pub fn equality(&mut self) -> (r: Result<Expr, ParseError>)
        requires
            old(self).wf(),
        ensures
            final(self).wf(),
            final(self).parsed(
                old(self),
                parse_binary(old(self).input(), 0, old(self).current as int),
                r,
            ),
            r is Ok ==> final(self).current > old(self).current,
            *final(final(self).main) == *final(old(self).main),
        decreases old(self).tokens@.len() - old(self).current, height(0), 1nat,
    {
        let mut expr: Expr = match self.comparison() {
            Ok(expr) => expr,
            Err(error) => return Err(error),
        };

        while self.match_types(vec![TokenType::BangEqual, TokenType::EqualEqual])
            invariant
                self.wf(),
                self.tokens == old(self).tokens,
                self.current > old(self).current,
                self.main@ == old(self).main@,
                *final(self.main) == *final(old(self).main),
                expr@.well_formed(),
                parse_chain(self.input(), 0, expr@, self.current as int) == parse_binary(
                    old(self).input(),
                    0,
                    old(self).current as int,
                ),
            decreases self.tokens@.len() - self.current,
        {
            let operator: Token = self.previous().clone();
            let right: Expr = match self.comparison() {
                Ok(right) => right,
                Err(error) => return Err(error),
            };

            expr = Expr::Binary { left: Box::new(expr), operator, right: Box::new(right) };
        }

        Ok(expr)
    }

    /// `comparison -> term ( ( ">" | ">=" | "<" | "<=" ) term )*`, folded to the left.
    pub fn comparison(&mut self) -> (r: Result<Expr, ParseError>)
        requires
            old(self).wf(),
        ensures
            final(self).wf(),
            final(self).parsed(
                old(self),
                parse_binary(old(self).input(), 1, old(self).current as int),
                r,
            ),
            r is Ok ==> final(self).current > old(self).current,
            *final(final(self).main) == *final(old(self).main),
        decreases old(self).tokens@.len() - old(self).current, height(1), 1nat,
    {
        let mut expr: Expr = match self.term() {
            Ok(expr) => expr,
            Err(error) => return Err(error),
        };

        while self.match_types(
            vec![
                TokenType::Greater,
                TokenType::GreaterEqual,
                TokenType::Less,
                TokenType::LessEqual,
            ],
        )
            invariant
                self.wf(),
                self.tokens == old(self).tokens,
                self.current > old(self).current,
                self.main@ == old(self).main@,
                *final(self.main) == *final(old(self).main),
                expr@.well_formed(),
                parse_chain(self.input(), 1, expr@, self.current as int) == parse_binary(
                    old(self).input(),
                    1,
                    old(self).current as int,
                ),
            decreases self.tokens@.len() - self.current,
        {
            let operator: Token = self.previous().clone();
            let right: Expr = match self.term() {
                Ok(right) => right,
                Err(error) => return Err(error),
            };

            expr = Expr::Binary { left: Box::new(expr), operator, right: Box::new(right) };
        }

        Ok(expr)
    }

    /// `term -> factor ( ( "-" | "+" ) factor )*`, folded to the left.
    pub fn term(&mut self) -> (r: Result<Expr, ParseError>)
        requires
            old(self).wf(),
        ensures
            final(self).wf(),
            final(self).parsed(
                old(self),
                parse_binary(old(self).input(), 2, old(self).current as int),
                r,
            ),
            r is Ok ==> final(self).current > old(self).current,
            *final(final(self).main) == *final(old(self).main),
        decreases old(self).tokens@.len() - old(self).current, height(2), 1nat,
    {
        let mut expr: Expr = match self.factor() {
            Ok(expr) => expr,
            Err(error) => return Err(error),
        };

        while self.match_types(vec![TokenType::Minus, TokenType::Plus])
            invariant
                self.wf(),
                self.tokens == old(self).tokens,
                self.current > old(self).current,
                self.main@ == old(self).main@,
                *final(self.main) == *final(old(self).main),
                expr@.well_formed(),
                parse_chain(self.input(), 2, expr@, self.current as int) == parse_binary(
                    old(self).input(),
                    2,
                    old(self).current as int,
                ),
            decreases self.tokens@.len() - self.current,
        {
            let operator: Token = self.previous().clone();
            let right: Expr = match self.factor() {
                Ok(right) => right,
                Err(error) => return Err(error),
            };

            expr = Expr::Binary { left: Box::new(expr), operator, right: Box::new(right) };
        }

        Ok(expr)
    }

    /// `factor -> unary ( ( "/" | "*" ) unary )*`, folded to the left.
    pub fn factor(&mut self) -> (r: Result<Expr, ParseError>)
        requires
            old(self).wf(),
        ensures
            final(self).wf(),
            final(self).parsed(
                old(self),
                parse_binary(old(self).input(), 3, old(self).current as int),
                r,
            ),
            r is Ok ==> final(self).current > old(self).current,
            *final(final(self).main) == *final(old(self).main),
        decreases old(self).tokens@.len() - old(self).current, height(3), 1nat,
    {
        proof {
            // beyond the last binary level stands `unary`
            assert(parse_binary(self.input(), levels(), self.current as int) == parse_unary(
                self.input(),
                self.current as int,
            ));
        }
        let mut expr: Expr = match self.unary() {
            Ok(expr) => expr,
            Err(error) => return Err(error),
        };

        while self.match_types(vec![TokenType::Slash, TokenType::Star])
            invariant
                self.wf(),
                self.tokens == old(self).tokens,
                self.current > old(self).current,
                self.main@ == old(self).main@,
                *final(self.main) == *final(old(self).main),
                expr@.well_formed(),
                parse_chain(self.input(), 3, expr@, self.current as int) == parse_binary(
                    old(self).input(),
                    3,
                    old(self).current as int,
                ),
            decreases self.tokens@.len() - self.current,
        {
            let operator: Token = self.previous().clone();
            proof {
                // beyond the last binary level stands `unary`
                assert(parse_binary(self.input(), levels(), self.current as int) == parse_unary(
                    self.input(),
                    self.current as int,
                ));
            }
            let right: Expr = match self.unary() {
                Ok(right) => right,
                Err(error) => return Err(error),
            };

            expr = Expr::Binary { left: Box::new(expr), operator, right: Box::new(right) };
        }

        Ok(expr)
    }

    /// `unary -> ( "!" | "-" ) unary | primary`.
    pub fn unary(&mut self) -> (r: Result<Expr, ParseError>)
        requires
            old(self).wf(),
        ensures
            final(self).wf(),
            final(self).parsed(
                old(self),
                parse_unary(old(self).input(), old(self).current as int),
                r,
            ),
            r is Ok ==> final(self).current > old(self).current,
            *final(final(self).main) == *final(old(self).main),
        decreases old(self).tokens@.len() - old(self).current, 0nat, 1nat,
    {
        if self.match_types(vec![TokenType::Bang, TokenType::Minus]) {
            let operator: Token = self.previous().clone();
            let right: Expr = match self.unary() {
                Ok(right) => right,
                Err(error) => return Err(error),
            };

            return Ok(Expr::Unary { operator, right: Box::new(right) });
        }
        self.primary()
    }

    /// `primary -> "true" | "false" | "nil" | NUMBER | STRING | "("
    /// expression ")"`.
    pub fn primary(&mut self) -> (r: Result<Expr, ParseError>)
        requires
            old(self).wf(),
        ensures
            final(self).wf(),
            final(self).parsed(
                old(self),
                parse_primary(old(self).input(), old(self).current as int),
                r,
            ),
            r is Ok ==> final(self).current > old(self).current,
            *final(final(self).main) == *final(old(self).main),
        decreases old(self).tokens@.len() - old(self).current, 0nat, 0nat,
    {
        let next_token: Token = match self.advance() {
            Ok(token) => token.clone(),
            Err(error) => return Err(error),
        };

        match next_token.token_type {
            TokenType::True => return Ok(Expr::Literal { value: Value::Bool(true) }),
            TokenType::False => return Ok(Expr::Literal { value: Value::Bool(false) }),
            TokenType::Nil => return Ok(Expr::Literal { value: Value::Null }),
            TokenType::Number | TokenType::String => {
                return Ok(Expr::Literal { value: next_token.literal })
            },
            TokenType::LeftParen => {
                let expr: Expr = match self.expression() {
                    Ok(expr) => expr,
                    Err(error) => return Err(error),
                };
                match self.consume(
                    TokenType::RightParen,
                    String::from_str("Expect ')' to close grouping expression."),
                ) {
                    Ok(_) => {},
                    Err(error) => return Err(error),
                }
                return Ok(Expr::Grouping { expression: Box::new(expr) });
            },
            _ => {},
        }

        Err(self.error(next_token, String::from_str("Expected expression")))
    }
}

} // verus!
