//! The diagnostics reporter, and the run of the three phases on a source.

use vstd::prelude::*;
use crate::error::{RuntimeError, SpecRuntimeError};
use crate::expr::Expr;
use crate::interpreter::{evaluates, Interpreter, Outcome};
use crate::number::Arithmetic;
use crate::parser::{parse, Parsed, Parser};
use crate::scanner::{is_number_literal, lemma_scan_shape, scan, tokens_of, Scanner};
use crate::text::{decimal, decimal_string};
use crate::token::{token_views, SpecToken, Token};
use crate::token_type::TokenType;
use crate::value::{SpecValue, Value};

verus! {

/// The diagnostics reporter shared by the three phases. It records whether a
/// scan or parse error, or a runtime error, was reported, and keeps the
/// rendered lines in the order in which they were reported; showing them is
/// left to the caller.
pub struct Sapphire {
    pub had_error: bool,
    pub had_runtime_error: bool,
    pub messages: Vec<String>,
}

/// The mathematical model of a [`Sapphire`].
pub struct SpecSapphire {
    pub had_error: bool,
    pub had_runtime_error: bool,
    pub messages: Seq<Seq<char>>,
}

impl View for Sapphire {
    type V = SpecSapphire;

    open spec fn view(&self) -> SpecSapphire {
        SpecSapphire {
            had_error: self.had_error,
            had_runtime_error: self.had_runtime_error,
            messages: Seq::new(self.messages@.len(), |i: int| self.messages@[i]@),
        }
    }
}

/// The line rendered for a scan or parse error: `[line N] [Error<where>]:
/// <message>`.
pub open spec fn error_line(line: usize, where_at: Seq<char>, message: Seq<char>) -> Seq<char> {
    "[line "@ + decimal(line as nat) + "] [Error"@ + where_at + "]: "@ + message
}

/// The line rendered for a runtime error: `[line N] [RuntimeError]
/// <message>`.
pub open spec fn runtime_error_line(error: SpecRuntimeError) -> Seq<char> {
    "[line "@ + decimal(error.line as nat) + "] [RuntimeError] "@ + error.message
}

/// Where a parse error points: ` at end` for the end marker, else the lexeme
/// of the token between single quotes.
pub open spec fn token_place(token: SpecToken) -> Seq<char> {
    if token.token_type == TokenType::EOF {
        " at end"@
    } else {
        " at '"@ + token.lexeme + "'"@
    }
}

impl SpecSapphire {
    /// The reporter after one more scan or parse error.
    pub open spec fn report(self, line: usize, where_at: Seq<char>, message: Seq<char>) -> Self {
        SpecSapphire {
            had_error: true,
            had_runtime_error: self.had_runtime_error,
            messages: self.messages.push(error_line(line, where_at, message)),
        }
    }

    /// The reporter after an error that names a line only.
    pub open spec fn error(self, line: usize, message: Seq<char>) -> Self {
        self.report(line, Seq::empty(), message)
    }

    /// The reporter after an error that names a token.
    pub open spec fn token_error(self, token: SpecToken, message: Seq<char>) -> Self {
        self.report(token.line, token_place(token), message)
    }

    /// The reporter after one more runtime error.
    pub open spec fn runtime_error(self, error: SpecRuntimeError) -> Self {
        SpecSapphire {
            had_error: self.had_error,
            had_runtime_error: true,
            messages: self.messages.push(runtime_error_line(error)),
        }
    }
}

impl Sapphire {
    pub fn new() -> (r: Self)
        ensures
            !r.had_error,
            !r.had_runtime_error,
            r@.messages == Seq::<Seq<char>>::empty(),
    {
        let r = Sapphire { had_error: false, had_runtime_error: false, messages: Vec::new() };
        assert(r@.messages =~= Seq::<Seq<char>>::empty());
        r
    }

    /// Records a runtime error and raises the runtime-error flag.
    pub fn runtime_error(&mut self, error: RuntimeError)
        ensures
            final(self)@ == old(self)@.runtime_error(error@),
    {
        let mut text = String::from_str("[line ");
        let number = decimal_string(error.line);
        text.append(number.as_str());
        text.append("] [RuntimeError] ");
        text.append(error.message.as_str());
        self.messages.push(text);
        self.had_runtime_error = true;
        assert(self@.messages =~= old(self)@.messages.push(runtime_error_line(error@)));
    }

    /// Records a scan or parse error at `line`.
    pub fn error(&mut self, line: usize, message: String)
        ensures
            final(self)@ == old(self)@.error(line, message@),
    {
        self.report(line, String::new(), message);
    }

    /// Records a parse error at `token`.
    pub fn token_error(&mut self, token: Token, message: String)
        ensures
            final(self)@ == old(self)@.token_error(token@, message@),
    {
        match token.token_type {
            TokenType::EOF => self.report(token.line, String::from_str(" at end"), message),
            _ => {
                let mut where_at = String::from_str(" at '");
                where_at.append(token.lexeme.as_str());
                where_at.append("'");
                self.report(token.line, where_at, message)
            },
        }
    }

    /// Records the line `[line N] [Error<where_at>]: <message>` and raises
    /// the error flag.
    pub fn report(&mut self, line: usize, where_at: String, message: String)
        ensures
            final(self)@ == old(self)@.report(line, where_at@, message@),
    {
        let mut text = String::from_str("[line ");
        let number = decimal_string(line);
        text.append(number.as_str());
        text.append("] [Error");
        text.append(where_at.as_str());
        text.append("]: ");
        text.append(message.as_str());
        self.messages.push(text);
        self.had_error = true;
        assert(self@.messages =~= old(self)@.messages.push(error_line(line, where_at@, message@)));
    }

    /// Runs the three phases on a source: scans it, parses the tokens and
    /// evaluates the tree. Returns the value; returns nothing where a phase
    /// reported an error, and then the later phases are not run. Neither
    /// are they where the error flag was already raised.
    pub fn run<P, A, R>(
        &mut self,
        contents: String,
        parse: &P,
        arith: &A,
        render: &R,
    ) -> (r: Option<Value>) where
        P: Fn(&str) -> u64,
        A: Fn(Arithmetic, u64, u64) -> u64,
        R: Fn(u64) -> String,

        requires
            contents@.len() < usize::MAX,
            forall|text: &str| is_number_literal(text@) ==> parse.requires((text,)),
            forall|op: Arithmetic, a: u64, b: u64| arith.requires((op, a, b)),
            forall|bits: u64| render.requires((bits,)),
        ensures
            exists|tokens: Seq<SpecToken>|
                #[trigger] tokens_of(tokens, scan(contents@).lexemes, *parse) && ran(
                    old(self)@.faults(scan(contents@).faults),
                    tokens,
                    *arith,
                    *render,
                    final(self)@,
                    match r {
                        Some(value) => Some(value@),
                        None => None,
                    },
                ),
    {
        proof {
            lemma_scan_shape(contents@, 0, 1);
        }
        let mut scanner = Scanner::new(self, contents, parse);
        let tokens: Vec<Token> = scanner.scan_tokens();

        if self.had_error {
            return None;
        }
        assert(token_views(tokens@)[tokens@.len() - 1].token_type == TokenType::EOF);
        let mut parser: Parser = Parser::new(self, tokens);

        let expression: Expr = match parser.parse() {
            Ok(expr) => expr,
            _ => return None,
        };

        if self.had_error {
            return None;
        }
        let mut interpreter = Interpreter::new(self, arith, render);
        interpreter.interpret(&expression)
    }
}

/// The end of a run whose scan left the reporter as `scanned` and gave
/// `tokens`: the reporter is `after` and the value `r`. With the error flag
/// raised after the scan nothing more happens. Else the tokens are parsed:
/// a failure is reported, and a tree is evaluated: its value is returned,
/// or its failure reported as a runtime error.
pub open spec fn ran<A: Fn(Arithmetic, u64, u64) -> u64, R: Fn(u64) -> String>(
    scanned: SpecSapphire,
    tokens: Seq<SpecToken>,
    arith: A,
    render: R,
    after: SpecSapphire,
    r: Option<SpecValue>,
) -> bool {
    if scanned.had_error {
        after == scanned && r is None
    } else {
        match parse(tokens) {
            Parsed::Failure { message, at, next } => {
                &&& r is None
                &&& after == scanned.token_error(at, message)
            },
            Parsed::Tree { expr, next } => exists|out: Outcome|
                #[trigger] evaluates(expr, arith, render, out) && match out {
                    Ok(value) => r == Some(value) && after == scanned,
                    Err(error) => r is None && after == scanned.runtime_error(error),
                },
        }
    }
}

} // verus!
