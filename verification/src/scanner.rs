//! The scanner: what a source scans to, and the cursor that computes it.

use vstd::prelude::*;
use vstd::hash_map::StringHashMap;
use crate::sapphire::{Sapphire, SpecSapphire};
use crate::token::{token_views, SpecToken, Token};
use crate::token_type::TokenType;
use crate::value::{SpecValue, Value};

verus! {

pub open spec fn is_digit(c: char) -> bool {
    '0' <= c <= '9'
}

pub open spec fn is_alpha(c: char) -> bool {
    ('a' <= c <= 'z') || ('A' <= c <= 'Z') || c == '_'
}

pub open spec fn is_alpha_numeric(c: char) -> bool {
    is_alpha(c) || is_digit(c)
}

/// The end of the longest run of characters that starts at `from` and holds
/// only characters that satisfy `keep`.
pub open spec fn run_end(s: Seq<char>, from: int, keep: spec_fn(char) -> bool) -> int
    decreases s.len() - from,
{
    if 0 <= from < s.len() && keep(s[from]) {
        run_end(s, from + 1, keep)
    } else {
        from
    }
}

/// The number of newlines among the characters from `from` up to `to`.
pub open spec fn newlines(s: Seq<char>, from: int, to: int) -> int
    decreases to - from,
{
    if from >= to {
        0
    } else {
        newlines(s, from, to - 1) + if s[to - 1] == '\n' {
            1int
        } else {
            0int
        }
    }
}

/// The end of the number literal whose first digit is at `start`: the digits
/// that follow, then a dot and more digits if a digit follows the dot.
pub open spec fn number_end(s: Seq<char>, start: int) -> int {
    let whole = run_end(s, start + 1, |c: char| is_digit(c));
    if whole + 1 < s.len() && s[whole] == '.' && is_digit(s[whole + 1]) {
        run_end(s, whole + 1, |c: char| is_digit(c))
    } else {
        whole
    }
}

/// A number literal: one or more digits, then optionally a dot and one or
/// more digits.
pub open spec fn is_number_literal(s: Seq<char>) -> bool {
    s.len() > 0 && is_digit(s[0]) && number_end(s, 0) == s.len()
}

/// The reserved words and the token kind of each.
pub open spec fn keywords() -> Map<Seq<char>, TokenType> {
    Map::<Seq<char>, TokenType>::empty().insert("and"@, TokenType::And).insert(
        "class"@,
        TokenType::Class,
    ).insert("else"@, TokenType::Else).insert("false"@, TokenType::False).insert(
        "fn"@,
        TokenType::Fn,
    ).insert("for"@, TokenType::For).insert("if"@, TokenType::If).insert(
        "nil"@,
        TokenType::Nil,
    ).insert("or"@, TokenType::Or).insert("println"@, TokenType::PrintLn).insert(
        "return"@,
        TokenType::Return,
    ).insert("super"@, TokenType::Super).insert("this"@, TokenType::This).insert(
        "true"@,
        TokenType::True,
    ).insert("var"@, TokenType::Var).insert("while"@, TokenType::While)
}

/// The kind of a word: that of the keyword it spells, else an identifier.
pub open spec fn word_kind(word: Seq<char>) -> TokenType {
    if keywords().contains_key(word) {
        keywords()[word]
    } else {
        TokenType::Identifier
    }
}

/// What scanning does at one place of the source.
pub struct Step {
    /// Where scanning goes on.
    pub next: int,
    /// The line counter afterwards.
    pub line: int,
    /// The kind of the token found, if one was; its lexeme runs from the
    /// place of the step up to `next`, and its line is `line`.
    pub kind: Option<TokenType>,
    /// The message of the error found, if one was; it is reported at `line`.
    pub error: Option<Seq<char>>,
}

/// A token of `width` characters.
pub open spec fn token_step(start: int, line: int, width: int, kind: TokenType) -> Step {
    Step { next: start + width, line, kind: Some(kind), error: None }
}

/// One character that may pair with a following `=`.
pub open spec fn pair_step(
    s: Seq<char>,
    start: int,
    line: int,
    single: TokenType,
    pair: TokenType,
) -> Step {
    if start + 1 < s.len() && s[start + 1] == '=' {
        token_step(start, line, 2, pair)
    } else {
        token_step(start, line, 1, single)
    }
}

/// A string literal that opens at `start`: it runs to the next double quote,
/// counting the newlines on the way; without one, the rest of the source is
/// consumed and an error is found.
pub open spec fn string_step(s: Seq<char>, start: int, line: int) -> Step {
    let close = run_end(s, start + 1, |c: char| c != '"');
    let line = line + newlines(s, start + 1, close);
    if close < s.len() {
        Step { next: close + 1, line, kind: Some(TokenType::String), error: None }
    } else {
        Step { next: close, line, kind: None, error: Some("Unterminated string"@) }
    }
}

/// The message for a character that starts no token.
pub open spec fn unexpected_character(c: char) -> Seq<char> {
    "Unexpected character \""@ + seq![c] + "\"."@
}

/// What scanning does at `start`, a place inside the source, with the line
/// counter at `line`.
pub open spec fn step(s: Seq<char>, start: int, line: int) -> Step {
    let c = s[start];
    let followed = start + 1 < s.len() && s[start + 1] == c;
    if c == '(' {
        token_step(start, line, 1, TokenType::LeftParen)
    } else if c == ')' {
        token_step(start, line, 1, TokenType::RightParen)
    } else if c == '{' {
        token_step(start, line, 1, TokenType::LeftBrace)
    } else if c == '}' {
        token_step(start, line, 1, TokenType::RightBrace)
    } else if c == ',' {
        token_step(start, line, 1, TokenType::Comma)
    } else if c == '.' {
        if followed {
            token_step(start, line, 2, TokenType::DoubleDot)
        } else {
            token_step(start, line, 1, TokenType::Dot)
        }
    } else if c == '-' {
        token_step(start, line, 1, TokenType::Minus)
    } else if c == '+' {
        token_step(start, line, 1, TokenType::Plus)
    } else if c == ';' {
        token_step(start, line, 1, TokenType::Semicolon)
    } else if c == '*' {
        token_step(start, line, 1, TokenType::Star)
    } else if c == '!' {
        pair_step(s, start, line, TokenType::Bang, TokenType::BangEqual)
    } else if c == '=' {
        pair_step(s, start, line, TokenType::Equal, TokenType::EqualEqual)
    } else if c == '>' {
        pair_step(s, start, line, TokenType::Greater, TokenType::GreaterEqual)
    } else if c == '<' {
        pair_step(s, start, line, TokenType::Less, TokenType::LessEqual)
    } else if c == '/' {
        if followed {
            Step {
                next: run_end(s, start + 2, |c: char| c != '\n'),
                line,
                kind: None,
                error: None,
            }
        } else {
            token_step(start, line, 1, TokenType::Slash)
        }
    } else if c == '\n' {
        Step { next: start + 1, line: line + 1, kind: None, error: None }
    } else if c == ' ' || c == '\r' || c == '\t' {
        Step { next: start + 1, line, kind: None, error: None }
    } else if c == '"' {
        string_step(s, start, line)
    } else if is_digit(c) {
        Step { next: number_end(s, start), line, kind: Some(TokenType::Number), error: None }
    } else if is_alpha(c) {
        let end = run_end(s, start + 1, |c: char| is_alpha_numeric(c));
        Step { next: end, line, kind: Some(word_kind(s.subrange(start, end))), error: None }
    } else {
        Step { next: start + 1, line, kind: None, error: Some(unexpected_character(c)) }
    }
}

/// A token as the source alone determines it: kind, text and line.
pub struct Lexeme {
    pub token_type: TokenType,
    pub text: Seq<char>,
    pub line: int,
}

/// An error found while scanning, with the line it is reported at.
pub struct Fault {
    pub line: int,
    pub message: Seq<char>,
}

/// The outcome of scanning: the tokens in source order, the end marker last,
/// and the errors in the order in which they are found.
pub struct Scan {
    pub lexemes: Seq<Lexeme>,
    pub faults: Seq<Fault>,
}

/// The outcome of scanning the source from `start` on, with the line counter
/// at `line`.
pub open spec fn scan_from(s: Seq<char>, start: int, line: int) -> Scan
    decreases s.len() - start,
{
    if 0 <= start < s.len() {
        let here = step(s, start, line);
        proof {
            lemma_step_bounds(s, start, line);
        }
        let rest = scan_from(s, here.next, here.line);
        Scan {
            lexemes: match here.kind {
                Some(kind) => seq![
                    Lexeme { token_type: kind, text: s.subrange(start, here.next), line: here.line },
                ] + rest.lexemes,
                None => rest.lexemes,
            },
            faults: match here.error {
                Some(message) => seq![Fault { line: here.line, message }] + rest.faults,
                None => rest.faults,
            },
        }
    } else {
        Scan {
            lexemes: seq![Lexeme { token_type: TokenType::EOF, text: Seq::empty(), line }],
            faults: Seq::empty(),
        }
    }
}

/// The outcome of scanning a whole source.
pub open spec fn scan(s: Seq<char>) -> Scan {
    scan_from(s, 0, 1)
}

/// A run ends at or after its start, inside the source, at a character that
/// does not satisfy `keep`, and holds only characters that do.
pub proof fn lemma_run_end(s: Seq<char>, from: int, keep: spec_fn(char) -> bool)
    requires
        0 <= from <= s.len(),
    ensures
        from <= run_end(s, from, keep) <= s.len(),
        run_end(s, from, keep) < s.len() ==> !keep(s[run_end(s, from, keep)]),
        forall|i: int| from <= i < run_end(s, from, keep) ==> keep(#[trigger] s[i]),
    decreases s.len() - from,
{
    if from < s.len() && keep(s[from]) {
        lemma_run_end(s, from + 1, keep);
    }
}

/// Between two places there are at most as many newlines as characters.
pub proof fn lemma_newlines_bounds(s: Seq<char>, from: int, to: int)
    requires
        from <= to,
    ensures
        0 <= newlines(s, from, to) <= to - from,
    decreases to - from,
{
    if from < to {
        lemma_newlines_bounds(s, from, to - 1);
    }
}

/// Every step moves forward and stays inside the source, and the line
/// counter grows by no more than the step is long.
pub proof fn lemma_step_bounds(s: Seq<char>, start: int, line: int)
    requires
        0 <= start < s.len(),
    ensures
        start < step(s, start, line).next <= s.len(),
        line <= step(s, start, line).line <= line + (step(s, start, line).next - start),
{
    let c = s[start];
    if c == '"' {
        let close = run_end(s, start + 1, |c: char| c != '"');
        lemma_run_end(s, start + 1, |c: char| c != '"');
        lemma_newlines_bounds(s, start + 1, close);
    } else if c == '/' {
        if start + 1 < s.len() && s[start + 1] == c {
            lemma_run_end(s, start + 2, |c: char| c != '\n');
        }
    } else if is_digit(c) {
        let whole = run_end(s, start + 1, |c: char| is_digit(c));
        lemma_run_end(s, start + 1, |c: char| is_digit(c));
        if whole + 1 < s.len() {
            lemma_run_end(s, whole + 1, |c: char| is_digit(c));
        }
    } else if is_alpha(c) {
        lemma_run_end(s, start + 1, |c: char| is_alpha_numeric(c));
    }
}

/// A place is the end of the run from `from` when everything before it
/// satisfies `keep` and the character at it, if there is one, does not.
pub proof fn lemma_run_end_at(s: Seq<char>, from: int, end: int, keep: spec_fn(char) -> bool)
    requires
        0 <= from <= end <= s.len(),
        forall|i: int| from <= i < end ==> keep(#[trigger] s[i]),
        end < s.len() ==> !keep(s[end]),
    ensures
        run_end(s, from, keep) == end,
    decreases end - from,
{
    if from < end {
        lemma_run_end_at(s, from + 1, end, keep);
    }
}

/// The text that a number token covers is a number literal.
pub proof fn lemma_number_lexeme(s: Seq<char>, start: int)
    requires
        0 <= start < s.len(),
        is_digit(s[start]),
    ensures
        start < number_end(s, start) <= s.len(),
        is_number_literal(s.subrange(start, number_end(s, start))),
{
    let digits = |c: char| is_digit(c);
    let whole = run_end(s, start + 1, digits);
    lemma_run_end(s, start + 1, digits);
    let end = number_end(s, start);
    if whole + 1 < s.len() && s[whole] == '.' && is_digit(s[whole + 1]) {
        lemma_run_end(s, whole + 1, digits);
        let t = s.subrange(start, end);
        lemma_run_end_at(t, 1, whole - start, digits);
        lemma_run_end_at(t, whole - start + 1, end - start, digits);
    } else {
        let t = s.subrange(start, end);
        lemma_run_end_at(t, 1, end - start, digits);
    }
}

/// No word is of the end marker's kind.
pub proof fn lemma_word_kind(word: Seq<char>)
    ensures
        word_kind(word) != TokenType::EOF,
{
}

/// No step finds a token of the end marker's kind.
pub proof fn lemma_step_kind(s: Seq<char>, start: int, line: int)
    requires
        0 <= start < s.len(),
    ensures
        step(s, start, line).kind != Some(TokenType::EOF),
{
    let end = run_end(s, start + 1, |c: char| is_alpha_numeric(c));
    lemma_word_kind(s.subrange(start, end));
}

/// The tokens of a source end with the end marker, and hold no other one;
/// every token lies on the line where scanning began or on a later one.
pub proof fn lemma_scan_shape(s: Seq<char>, start: int, line: int)
    requires
        0 <= start <= s.len(),
    ensures
        scan_from(s, start, line).lexemes.len() > 0,
        scan_from(s, start, line).lexemes.last().token_type == TokenType::EOF,
        forall|i: int|
            0 <= i < scan_from(s, start, line).lexemes.len() - 1 ==> (#[trigger] scan_from(
                s,
                start,
                line,
            ).lexemes[i]).token_type != TokenType::EOF,
        forall|i: int|
            0 <= i < scan_from(s, start, line).lexemes.len() ==> (#[trigger] scan_from(
                s,
                start,
                line,
            ).lexemes[i]).line >= line,
        forall|i: int|
            0 <= i < scan_from(s, start, line).faults.len() ==> (#[trigger] scan_from(
                s,
                start,
                line,
            ).faults[i]).line >= line,
    decreases s.len() - start,
{
    if start < s.len() {
        let here = step(s, start, line);
        lemma_step_bounds(s, start, line);
        lemma_step_kind(s, start, line);
        lemma_scan_shape(s, here.next, here.line);
    }
}

/// A source that is one number literal, and nothing else, scans without
/// error to two tokens on line 1: the number, whose text is the whole
/// source, and the end marker.
pub proof fn lemma_number_literal_scans_alone(s: Seq<char>)
    requires
        is_number_literal(s),
    ensures
        scan(s).lexemes == seq![
            Lexeme { token_type: TokenType::Number, text: s, line: 1 },
            Lexeme { token_type: TokenType::EOF, text: Seq::empty(), line: 1 },
        ],
        scan(s).faults == Seq::<Fault>::empty(),
{
    let here = step(s, 0, 1);
    assert(here.kind == Some(TokenType::Number) && here.next == s.len() && here.line == 1);
    let rest = scan_from(s, here.next, here.line);
    assert(rest.lexemes == seq![
        Lexeme { token_type: TokenType::EOF, text: Seq::empty(), line: 1 },
    ]);
    assert(s.subrange(0, s.len() as int) =~= s);
    assert(scan(s).lexemes =~= seq![
        Lexeme { token_type: TokenType::Number, text: s, line: 1 },
        Lexeme { token_type: TokenType::EOF, text: Seq::empty(), line: 1 },
    ]);
}

/// The literal value that a token of the given kind and text carries: a
/// number carries what `parse` gives for its text, a string its text without
/// the bounding quotes, any other token `Null`.
pub open spec fn token_literal<P: Fn(&str) -> u64>(
    token_type: TokenType,
    text: Seq<char>,
    parse: P,
    literal: SpecValue,
) -> bool {
    if token_type == TokenType::Number {
        exists|lexeme: &str, bits: u64|
            lexeme@ == text && #[trigger] parse.ensures((lexeme,), bits) && literal
                == SpecValue::Number(bits)
    } else if token_type == TokenType::String {
        literal == SpecValue::Str(text.subrange(1, text.len() - 1))
    } else {
        literal == SpecValue::Null
    }
}

/// `token` is the token that `lexeme` stands for.
pub open spec fn token_of<P: Fn(&str) -> u64>(token: SpecToken, lexeme: Lexeme, parse: P) -> bool {
    &&& token.token_type == lexeme.token_type
    &&& token.lexeme == lexeme.text
    &&& token.line == lexeme.line
    &&& token_literal(lexeme.token_type, lexeme.text, parse, token.literal)
}

/// `tokens` are, one for one, the tokens that `lexemes` stand for.
pub open spec fn tokens_of<P: Fn(&str) -> u64>(
    tokens: Seq<SpecToken>,
    lexemes: Seq<Lexeme>,
    parse: P,
) -> bool {
    &&& tokens.len() == lexemes.len()
    &&& forall|i: int| 0 <= i < tokens.len() ==> token_of(#[trigger] tokens[i], lexemes[i], parse)
}

/// One more token, for one more lexeme, keeps the tokens those of the
/// lexemes.
pub proof fn lemma_tokens_of_push<P: Fn(&str) -> u64>(
    tokens: Seq<SpecToken>,
    lexemes: Seq<Lexeme>,
    longer: Seq<SpecToken>,
    lexeme: Lexeme,
    parse: P,
)
    requires
        tokens_of(tokens, lexemes, parse),
        longer.len() == tokens.len() + 1,
        longer.drop_last() == tokens,
        token_of(longer.last(), lexeme, parse),
    ensures
        tokens_of(longer, lexemes.push(lexeme), parse),
{
    assert forall|i: int| 0 <= i < longer.len() implies token_of(
        #[trigger] longer[i],
        lexemes.push(lexeme)[i],
        parse,
    ) by {
        if i < tokens.len() {
            assert(longer[i] == longer.drop_last()[i]);
        }
    }
}

impl SpecSapphire {
    /// The reporter after the given scan errors, reported in order.
    pub open spec fn faults(self, faults: Seq<Fault>) -> Self
        decreases faults.len(),
    {
        if faults.len() == 0 {
            self
        } else {
            self.error(faults[0].line as usize, faults[0].message).faults(faults.drop_first())
        }
    }
}

/// The table of reserved words.
pub fn get_keywords() -> (table: StringHashMap<TokenType>)
    ensures
        table@ == keywords(),
{
    let mut table = StringHashMap::new();
    table.insert(String::from_str("and"), TokenType::And);
    table.insert(String::from_str("class"), TokenType::Class);
    table.insert(String::from_str("else"), TokenType::Else);
    table.insert(String::from_str("false"), TokenType::False);
    table.insert(String::from_str("fn"), TokenType::Fn);
    table.insert(String::from_str("for"), TokenType::For);
    table.insert(String::from_str("if"), TokenType::If);
    table.insert(String::from_str("nil"), TokenType::Nil);
    table.insert(String::from_str("or"), TokenType::Or);
    table.insert(String::from_str("println"), TokenType::PrintLn);
    table.insert(String::from_str("return"), TokenType::Return);
    table.insert(String::from_str("super"), TokenType::Super);
    table.insert(String::from_str("this"), TokenType::This);
    table.insert(String::from_str("true"), TokenType::True);
    table.insert(String::from_str("var"), TokenType::Var);
    table.insert(String::from_str("while"), TokenType::While);
    table
}

/// The scanner: a cursor over the source that collects tokens and reports
/// errors to `main`.
///
/// The reporter is borrowed for as long as the scanner lives. What a method
/// does to it is stated of `main@`, the reporter as it stands when the
/// method returns; the clause `*final(final(self).main) ==
/// *final(old(self).main)` of each method says that the scanner still holds
/// the same borrow, so that the owner of the reporter finds in it what the
/// scanner left there.
pub struct Scanner<'a, P> {
    pub main: &'a mut Sapphire,
    pub source: String,
    pub tokens: Vec<Token>,
    /// Where the token being scanned starts.
    pub start: usize,
    /// The next character to read.
    pub current: usize,
    pub line: usize,
    /// The number of characters of the source.
    pub length: usize,
    /// Reads the text of a number literal.
    pub parse: &'a P,
}

impl<'a, P: Fn(&str) -> u64> Scanner<'a, P> {
    /// Nothing has been scanned yet.
    pub open spec fn fresh(&self) -> bool {
        &&& self.wf()
        &&& self.current == 0
        &&& self.line == 1
        &&& self.tokens@.len() == 0
    }

    /// The cursor lies inside the source, whose length is known and leaves
    /// room for the line counter, and `parse` accepts every number literal.
    pub open spec fn wf(&self) -> bool {
        &&& self.length == self.source@.len()
        &&& self.length < usize::MAX
        &&& self.start <= self.current <= self.length
        &&& 1 <= self.line <= self.current + 1
        &&& forall|text: &str| is_number_literal(text@) ==> self.parse.requires((text,))
    }

    /// The scanner differs from `before` in its cursor at most.
    pub open spec fn moved(&self, before: &Self) -> bool {
        &&& self.source == before.source
        &&& self.length == before.length
        &&& self.parse == before.parse
        &&& self.tokens == before.tokens
        &&& self.start == before.start
        &&& self.line == before.line
        &&& *self.main == *before.main
    }

    /// The scanner is `before` with one more token, the one that `lexeme`
    /// stands for.
    pub open spec fn emitted(&self, before: &Self, lexeme: Lexeme) -> bool {
        &&& self.source == before.source
        &&& self.length == before.length
        &&& self.parse == before.parse
        &&& self.start == before.start
        &&& self.current == before.current
        &&& self.line == before.line
        &&& *self.main == *before.main
        &&& self.tokens@.len() == before.tokens@.len() + 1
        &&& self.tokens@.drop_last() == before.tokens@
        &&& token_of(self.tokens@.last()@, lexeme, *self.parse)
    }

    /// The scanner is `before` after the step `here`, taken at `before.start`.
    pub open spec fn stepped(&self, before: &Self, here: Step) -> bool {
        &&& self.source == before.source
        &&& self.length == before.length
        &&& self.parse == before.parse
        &&& self.start == before.start
        &&& self.current == here.next
        &&& self.line == here.line
        &&& match here.kind {
            Some(kind) => {
                &&& self.tokens@.len() == before.tokens@.len() + 1
                &&& self.tokens@.drop_last() == before.tokens@
                &&& token_of(
                    self.tokens@.last()@,
                    Lexeme {
                        token_type: kind,
                        text: self.source@.subrange(before.start as int, here.next),
                        line: here.line,
                    },
                    *self.parse,
                )
            },
            None => self.tokens == before.tokens,
        }
        &&& self.main@ == match here.error {
            Some(message) => before.main@.error(here.line as usize, message),
            None => before.main@,
        }
    }

    /// A scanner at the start of `source`, which reports to `main` and reads
    /// number literals with `parse`.
    pub fn new(main: &'a mut Sapphire, source: String, parse: &'a P) -> (scanner: Self)
        requires
            source@.len() < usize::MAX,
            forall|text: &str| is_number_literal(text@) ==> parse.requires((text,)),
        ensures
            scanner.fresh(),
            scanner.source == source,
            scanner.parse == parse,
            *scanner.main == *old(main),
            *final(scanner.main) == *final(main),
    {
        let length = source.as_str().unicode_len();
        Scanner { main, source, tokens: Vec::new(), start: 0, current: 0, line: 1, length, parse }
    }

    fn is_at_end(&self) -> (r: bool)
        ensures
            r == (self.current >= self.length),
    {
        self.current >= self.length
    }

    fn next_at_end(&self) -> (r: bool)
        requires
            self.wf(),
        ensures
            r == (self.current + 1 >= self.length),
    {
        self.current + 1 >= self.length
    }

    fn advance(&mut self) -> (c: char)
        requires
            old(self).wf(),
            old(self).current < old(self).length,
        ensures
            c == old(self).source@[old(self).current as int],
            final(self).current == old(self).current + 1,
            final(self).moved(old(self)),
            final(self).wf(),
            *final(final(self).main) == *final(old(self).main),
    {
        let c = self.source.as_str().get_char(self.current);
        self.current += 1;
        c
    }

    fn peek(&self) -> (c: char)
        requires
            self.wf(),
        ensures
            self.current < self.length ==> c == self.source@[self.current as int],
            self.current >= self.length ==> c == '\0',
    {
        if self.is_at_end() {
            return '\0';
        }
        self.source.as_str().get_char(self.current)
    }

    fn peek_next(&self) -> (c: char)
        requires
            self.wf(),
        ensures
            self.current + 1 < self.length ==> c == self.source@[self.current + 1],
            self.current + 1 >= self.length ==> c == '\0',
    {
        if self.next_at_end() {
            return '\0';
        }
        self.source.as_str().get_char(self.current + 1)
    }

    fn is_alpha(&self, character: char) -> (r: bool)
        ensures
            r == is_alpha(character),
    {
        (character >= 'a' && character <= 'z') || (character >= 'A' && character <= 'Z')
            || character == '_'
    }

    fn is_digit(&self, character: char) -> (r: bool)
        ensures
            r == is_digit(character),
    {
        character >= '0' && character <= '9'
    }

    fn is_alpha_numeric(&self, character: char) -> (r: bool)
        ensures
            r == is_alpha_numeric(character),
    {
        self.is_alpha(character) || self.is_digit(character)
    }

    fn add_token_short(&mut self, token_type: TokenType)
        requires
            old(self).wf(),
            token_type != TokenType::Number,
            token_type != TokenType::String,
        ensures
            final(self).emitted(
                old(self),
                Lexeme {
                    token_type,
                    text: old(self).source@.subrange(
                        old(self).start as int,
                        old(self).current as int,
                    ),
                    line: old(self).line as int,
                },
            ),
            *final(final(self).main) == *final(old(self).main),
    {
        self.add_token(token_type, Value::Null)
    }

    fn add_token(&mut self, token_type: TokenType, literal: Value)
        requires
            old(self).wf(),
            token_literal(
                token_type,
                old(self).source@.subrange(old(self).start as int, old(self).current as int),
                *old(self).parse,
                literal@,
            ),
        ensures
            final(self).emitted(
                old(self),
                Lexeme {
                    token_type,
                    text: old(self).source@.subrange(
                        old(self).start as int,
                        old(self).current as int,
                    ),
                    line: old(self).line as int,
                },
            ),
            *final(final(self).main) == *final(old(self).main),
    {
        let lex = self.source.as_str().substring_char(self.start, self.current).to_owned();
        self.tokens.push(Token { token_type, lexeme: lex, literal, line: self.line });
        assert(self.tokens@.drop_last() =~= old(self).tokens@);
    }

    fn match_char(&mut self, expected_char: char) -> (matched: bool)
        requires
            old(self).wf(),
        ensures
            matched == (old(self).current < old(self).length && old(self).source@[old(
                self,
            ).current as int] == expected_char),
            final(self).current == old(self).current + if matched {
                1int
            } else {
                0int
            },
            final(self).moved(old(self)),
            final(self).wf(),
            *final(final(self).main) == *final(old(self).main),
    {
        if self.is_at_end() {
            return false;
        }
        let next_char = self.source.as_str().get_char(self.current);
        if next_char != expected_char {
            return false;
        }
        self.advance();
        true
    }

    fn match_to_type(
        &mut self,
        expected_char: char,
        type_unmatched: TokenType,
        type_matched: TokenType,
    )
        requires
            old(self).wf(),
            type_unmatched != TokenType::Number,
            type_unmatched != TokenType::String,
            type_matched != TokenType::Number,
            type_matched != TokenType::String,
        ensures
            ({
                let matched = old(self).current < old(self).length && old(self).source@[old(
                    self,
                ).current as int] == expected_char;
                let end = old(self).current + if matched {
                    1int
                } else {
                    0int
                };
                &&& final(self).current == end
                &&& final(self).emitted(
                    &Scanner { current: end as usize, ..*old(self) },
                    Lexeme {
                        token_type: if matched {
                            type_matched
                        } else {
                            type_unmatched
                        },
                        text: old(self).source@.subrange(old(self).start as int, end),
                        line: old(self).line as int,
                    },
                )
            }),
            *final(final(self).main) == *final(old(self).main),
    {
        let matched: bool = self.match_char(expected_char);
        self.add_token_short(
            if matched {
                type_matched
            } else {
                type_unmatched
            },
        );
    }

    fn identifier(&mut self)
        requires
            old(self).wf(),
            old(self).current == old(self).start + 1,
        ensures
            ({
                let end = run_end(
                    old(self).source@,
                    old(self).start + 1,
                    |c: char| is_alpha_numeric(c),
                );
                &&& final(self).current == end
                &&& final(self).emitted(
                    &Scanner { current: end as usize, ..*old(self) },
                    Lexeme {
                        token_type: word_kind(old(self).source@.subrange(old(self).start as int, end)),
                        text: old(self).source@.subrange(old(self).start as int, end),
                        line: old(self).line as int,
                    },
                )
            }),
            final(self).wf(),
            *final(final(self).main) == *final(old(self).main),
    {
        let mut peek_next: char = self.peek();
        while self.is_alpha_numeric(peek_next)
            invariant
                self.wf(),
                self.moved(old(self)),
                *final(self.main) == *final(old(self).main),
                self.start + 1 <= self.current,
                forall|i: int|
                    self.start + 1 <= i < self.current ==> is_alpha_numeric(
                        #[trigger] self.source@[i],
                    ),
                self.current < self.length ==> peek_next == self.source@[self.current as int],
                self.current >= self.length ==> peek_next == '\0',
            decreases self.length - self.current,
        {
            self.advance();
            peek_next = self.peek();
        }
        proof {
            lemma_run_end_at(
                self.source@,
                self.start + 1,
                self.current as int,
                |c: char| is_alpha_numeric(c),
            );
        }

        let mut token_type: TokenType = TokenType::Identifier;
        let lexeme: String = self.source.as_str().substring_char(self.start, self.current).to_owned();
        let keywords: StringHashMap<TokenType> = get_keywords();
        let keyword: Option<&TokenType> = keywords.get(lexeme.as_str());
        if keyword.is_some() {
            token_type = *keyword.unwrap();
        }
        self.add_token_short(token_type);
    }

    fn number(&mut self)
        requires
            old(self).wf(),
            old(self).current == old(self).start + 1,
            is_digit(old(self).source@[old(self).start as int]),
        ensures
            ({
                let end = number_end(old(self).source@, old(self).start as int);
                &&& final(self).current == end
                &&& final(self).emitted(
                    &Scanner { current: end as usize, ..*old(self) },
                    Lexeme {
                        token_type: TokenType::Number,
                        text: old(self).source@.subrange(old(self).start as int, end),
                        line: old(self).line as int,
                    },
                )
            }),
            final(self).wf(),
            *final(final(self).main) == *final(old(self).main),
    {
        let mut next_char: char = self.peek();
        while self.is_digit(next_char)
            invariant
                self.wf(),
                self.moved(old(self)),
                *final(self.main) == *final(old(self).main),
                self.start + 1 <= self.current,
                forall|i: int|
                    self.start + 1 <= i < self.current ==> is_digit(#[trigger] self.source@[i]),
                self.current < self.length ==> next_char == self.source@[self.current as int],
                self.current >= self.length ==> next_char == '\0',
            decreases self.length - self.current,
        {
            self.advance();
            next_char = self.peek();
        }
        let ghost whole = self.current as int;
        proof {
            lemma_run_end_at(self.source@, self.start + 1, whole, |c: char| is_digit(c));
        }

        let peek_next: char = self.peek_next();
        if next_char == '.' && self.is_digit(peek_next) {
            self.advance();  // consume the .

            next_char = self.peek();
            while self.is_digit(next_char)
                invariant
                    self.wf(),
                    self.moved(old(self)),
                    *final(self.main) == *final(old(self).main),
                    whole + 1 <= self.current,
                    forall|i: int|
                        whole + 1 <= i < self.current ==> is_digit(#[trigger] self.source@[i]),
                    self.current < self.length ==> next_char == self.source@[self.current as int],
                    self.current >= self.length ==> next_char == '\0',
                decreases self.length - self.current,
            {
                self.advance();
                next_char = self.peek();
            }
            proof {
                lemma_run_end_at(self.source@, whole + 1, self.current as int, |c: char| is_digit(c));
            }
        }
        proof {
            lemma_number_lexeme(self.source@, self.start as int);
        }

        let string_literal: &str = self.source.as_str().substring_char(self.start, self.current);
        let bits: u64 = (self.parse)(string_literal);
        self.add_token(TokenType::Number, Value::Number(bits));
    }

    fn string(&mut self)
        requires
            old(self).wf(),
            old(self).current == old(self).start + 1,
            old(self).line <= old(self).current,
        ensures
            final(self).stepped(
                old(self),
                string_step(old(self).source@, old(self).start as int, old(self).line as int),
            ),
            final(self).wf(),
            *final(final(self).main) == *final(old(self).main),
    {
        while self.peek() != '"' && !self.is_at_end()
            invariant
                self.wf(),
                self.source == old(self).source,
                self.length == old(self).length,
                self.parse == old(self).parse,
                self.tokens == old(self).tokens,
                self.start == old(self).start,
                *self.main == *old(self).main,
                *final(self.main) == *final(old(self).main),
                self.start + 1 <= self.current,
                forall|i: int| self.start + 1 <= i < self.current ==> #[trigger] self.source@[i] != '"',
                self.line == old(self).line + newlines(
                    self.source@,
                    self.start + 1,
                    self.current as int,
                ),
                self.line <= self.current,
            decreases self.length - self.current,
        {
            if self.peek() == '\n' {
                self.line += 1
            }
            self.advance();
        }
        proof {
            lemma_run_end_at(self.source@, self.start + 1, self.current as int, |c: char| c != '"');
        }

        if self.is_at_end() {
            self.main.error(self.line, String::from_str("Unterminated string"));
            return ;
        }
        self.advance();

        let string_literal: String = self.source.as_str().substring_char(
            self.start + 1,
            self.current - 1,
        ).to_owned();
        proof {
            let text = self.source@.subrange(self.start as int, self.current as int);
            assert(text.subrange(1, text.len() - 1) =~= string_literal@);
        }
        self.add_token(TokenType::String, Value::Str(string_literal));
    }

    fn scan_token(&mut self)
        requires
            old(self).wf(),
            old(self).start == old(self).current,
            old(self).current < old(self).length,
        ensures
            final(self).stepped(
                old(self),
                step(old(self).source@, old(self).start as int, old(self).line as int),
            ),
            final(self).wf(),
            *final(final(self).main) == *final(old(self).main),
    {
        let c: char = self.advance();

        match c {
            '(' => self.add_token_short(TokenType::LeftParen),
            ')' => self.add_token_short(TokenType::RightParen),
            '{' => self.add_token_short(TokenType::LeftBrace),
            '}' => self.add_token_short(TokenType::RightBrace),
            ',' => self.add_token_short(TokenType::Comma),
            '.' => {
                if self.match_char('.') {
                    self.add_token_short(TokenType::DoubleDot);
                } else {
                    self.add_token_short(TokenType::Dot);
                }
            },
            '-' => self.add_token_short(TokenType::Minus),
            '+' => self.add_token_short(TokenType::Plus),
            ';' => self.add_token_short(TokenType::Semicolon),
            '*' => self.add_token_short(TokenType::Star),
            '!' => self.match_to_type('=', TokenType::Bang, TokenType::BangEqual),
            '=' => self.match_to_type('=', TokenType::Equal, TokenType::EqualEqual),
            '>' => self.match_to_type('=', TokenType::Greater, TokenType::GreaterEqual),
            '<' => self.match_to_type('=', TokenType::Less, TokenType::LessEqual),
            '/' => {
                if self.match_char('/') {
                    while self.peek() != '\n' && !self.is_at_end()
                        invariant
                            self.wf(),
                            self.moved(old(self)),
                            *final(self.main) == *final(old(self).main),
                            self.start + 2 <= self.current,
                            forall|i: int|
                                self.start + 2 <= i < self.current ==> #[trigger] self.source@[i]
                                    != '\n',
                        decreases self.length - self.current,
                    {
                        self.advance();
                    }
                    proof {
                        lemma_run_end_at(
                            self.source@,
                            self.start + 2,
                            self.current as int,
                            |c: char| c != '\n',
                        );
                    }
                } else {
                    self.add_token_short(TokenType::Slash);
                }
            },
            '\n' => self.line += 1,
            ' ' | '\r' | '\t' => (),
            '"' => self.string(),
            _ => {
                if self.is_digit(c) {
                    self.number();
                    return ;
                } else if self.is_alpha(c) {
                    self.identifier();
                    return ;
                }
                let mut message = String::from_str("Unexpected character \"");
                message.append(self.source.as_str().substring_char(self.start, self.current));
                message.append("\".");
                assert(message@ =~= unexpected_character(c));
                self.main.error(self.line, message);
            },
        }
    }

    /// Scans the whole source: returns its tokens, the end marker last, and
    /// reports every error on the way.
    pub fn scan_tokens(&mut self) -> (tokens: Vec<Token>)
        requires
            old(self).fresh(),
        ensures
            tokens_of(token_views(tokens@), scan(old(self).source@).lexemes, *old(self).parse),
            token_views(final(self).tokens@) == token_views(tokens@),
            final(self).main@ == old(self).main@.faults(scan(old(self).source@).faults),
            *final(final(self).main) == *final(old(self).main),
            final(self).source == old(self).source,
            final(self).parse == old(self).parse,
    {
        let ghost total = scan(self.source@);
        let ghost mut done: Seq<Lexeme> = Seq::empty();
        while !self.is_at_end()
            invariant
                self.wf(),
                self.source == old(self).source,
                self.parse == old(self).parse,
                *final(self.main) == *final(old(self).main),
                total == scan(self.source@),
                tokens_of(token_views(self.tokens@), done, *self.parse),
                done + scan_from(self.source@, self.current as int, self.line as int).lexemes
                    == total.lexemes,
                self.main@.faults(
                    scan_from(self.source@, self.current as int, self.line as int).faults,
                ) == old(self).main@.faults(total.faults),
            decreases self.length - self.current,
        {
            self.start = self.current;
            let ghost before = *self;
            self.scan_token();
            proof {
                let here = step(before.source@, before.start as int, before.line as int);
                let rest = scan_from(self.source@, here.next, here.line);
                let whole = scan_from(before.source@, before.current as int, before.line as int);
                lemma_step_bounds(before.source@, before.start as int, before.line as int);
                match here.kind {
                    Some(kind) => {
                        let lexeme = Lexeme {
                            token_type: kind,
                            text: self.source@.subrange(before.start as int, here.next),
                            line: here.line,
                        };
                        assert(done.push(lexeme) + rest.lexemes =~= done + whole.lexemes);
                        assert(token_views(self.tokens@).drop_last() =~= token_views(
                            before.tokens@,
                        ));
                        lemma_tokens_of_push(
                            token_views(before.tokens@),
                            done,
                            token_views(self.tokens@),
                            lexeme,
                            *self.parse,
                        );
                        done = done.push(lexeme);
                    },
                    None => {},
                }
                match here.error {
                    Some(message) => {
                        assert(whole.faults.drop_first() =~= rest.faults);
                    },
                    None => {},
                }
            }
        }

        let ghost scanned = self.tokens@;
        self.tokens.push(
            Token {
                token_type: TokenType::EOF,
                lexeme: String::new(),
                literal: Value::Null,
                line: self.line,
            },
        );
        let tokens = self.tokens.clone();
        proof {
            let end = Lexeme { token_type: TokenType::EOF, text: Seq::empty(), line: self.line as int };
            assert(done.push(end) =~= total.lexemes);
            assert(token_views(tokens@) =~= token_views(self.tokens@));
            assert(token_views(self.tokens@).drop_last() =~= token_views(scanned));
            lemma_tokens_of_push(
                token_views(scanned),
                done,
                token_views(self.tokens@),
                end,
                *self.parse,
            );
        }
        tokens
    }
}

} // verus!
