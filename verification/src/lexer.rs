//! Lexer: a single left-to-right scan that turns source text into a token
//! sequence terminated by exactly one end-of-input token.
//!
//! The scan is permissive: characters that begin no token (whitespace, a lone
//! `<` not followed by `=`, anything unrecognized) are consumed silently. The
//! one fatal condition is a decimal literal beyond the 64-bit signed range.

use vstd::prelude::*;

verus! {

/// Mathematical model of one token: payloads are sequences of characters and
/// unbounded integers.
pub enum TokenV {
    Each,
    Match,
    True,
    False,
    And,
    Or,
    Xor,
    Stdout,
    Join,
    Plus,
    Minus,
    Star,
    Slash,
    Percent,
    Assign,
    Arrow,
    ReverseArrow,
    LeftBrace,
    RightBrace,
    LeftBracket,
    RightBracket,
    Comma,
    Semicolon,
    LeftParen,
    RightParen,
    Identifier(Seq<char>),
    Number(int),
    String(Seq<char>),
    EOF,
}

/// One lexical unit: a keyword, a symbol, a literal, or the end marker.
#[derive(Debug, PartialEq, Clone)]
pub enum Token {
    // Keywords
    Each,
    Match,
    True,
    False,
    And,
    Or,
    Xor,
    Stdout,
    Join,
    // Symbols and operators
    Plus,
    Minus,
    Star,
    Slash,
    Percent,
    Assign,
    Arrow,
    ReverseArrow,
    LeftBrace,
    RightBrace,
    LeftBracket,
    RightBracket,
    Comma,
    Semicolon,
    LeftParen,
    RightParen,
    // Literals
    Identifier(String),
    Number(i64),
    String(String),
    // End of input
    EOF,
}

impl View for Token {
    type V = TokenV;

    open spec fn view(&self) -> TokenV {
        match self {
            Token::Each => TokenV::Each,
            Token::Match => TokenV::Match,
            Token::True => TokenV::True,
            Token::False => TokenV::False,
            Token::And => TokenV::And,
            Token::Or => TokenV::Or,
            Token::Xor => TokenV::Xor,
            Token::Stdout => TokenV::Stdout,
            Token::Join => TokenV::Join,
            Token::Plus => TokenV::Plus,
            Token::Minus => TokenV::Minus,
            Token::Star => TokenV::Star,
            Token::Slash => TokenV::Slash,
            Token::Percent => TokenV::Percent,
            Token::Assign => TokenV::Assign,
            Token::Arrow => TokenV::Arrow,
            Token::ReverseArrow => TokenV::ReverseArrow,
            Token::LeftBrace => TokenV::LeftBrace,
            Token::RightBrace => TokenV::RightBrace,
            Token::LeftBracket => TokenV::LeftBracket,
            Token::RightBracket => TokenV::RightBracket,
            Token::Comma => TokenV::Comma,
            Token::Semicolon => TokenV::Semicolon,
            Token::LeftParen => TokenV::LeftParen,
            Token::RightParen => TokenV::RightParen,
            Token::Identifier(name) => TokenV::Identifier(name@),
            Token::Number(n) => TokenV::Number(*n as int),
            Token::String(text) => TokenV::String(text@),
            Token::EOF => TokenV::EOF,
        }
    }
}

/// The token views of a token sequence.
pub open spec fn token_views(ts: Seq<Token>) -> Seq<TokenV> {
    ts.map_values(|t: Token| t@)
}

/// The lexer's one fatal condition: a decimal literal beyond `i64`.
#[derive(Debug, PartialEq, Eq, Clone, Copy)]
pub enum LexError {
    NumberOverflow,
}

// ---------------------------------------------------------------------------
// Character classes
// ---------------------------------------------------------------------------

/// A decimal digit.
pub open spec fn is_digit_char(c: char) -> bool {
    '0' <= c && c <= '9'
}

/// A character that may begin an identifier.
pub open spec fn is_ident_start(c: char) -> bool {
    ('a' <= c && c <= 'z') || ('A' <= c && c <= 'Z') || c == '_'
}

/// An ASCII letter or digit.
pub open spec fn is_ascii_alnum(c: char) -> bool {
    ('a' <= c && c <= 'z') || ('A' <= c && c <= 'Z') || ('0' <= c && c <= '9')
}

/// Whether a character beyond ASCII counts as alphanumeric; decided by the
/// Unicode tables behind `char::is_alphanumeric`.
pub uninterp spec fn wide_alnum(c: char) -> bool;

/// An alphanumeric character: on ASCII exactly the letters and digits, beyond
/// ASCII whatever `char::is_alphanumeric` says.
pub open spec fn is_alnum(c: char) -> bool {
    if (c as u32) < 128 {
        is_ascii_alnum(c)
    } else {
        wide_alnum(c)
    }
}

/// A character that may continue an identifier.
pub open spec fn is_ident_cont(c: char) -> bool {
    is_alnum(c) || c == '_'
}

/// Relies on `char::is_alphanumeric`: its result depends on the character
/// alone, and on ASCII it holds exactly for the letters and digits.
#[verifier::external_body]
fn char_is_alphanumeric(c: char) -> (r: bool)
    ensures
        r == is_alnum(c),
        (c as u32) >= 128 ==> r == wide_alnum(c),
{
    c.is_alphanumeric()
}

fn is_ident_cont_char(c: char) -> (r: bool)
    ensures
        r == is_ident_cont(c),
{
    if c == '_' {
        true
    } else {
        char_is_alphanumeric(c)
    }
}

// ---------------------------------------------------------------------------
// Scanners: where a run of characters ends
// ---------------------------------------------------------------------------

/// First position at or after `i` holding a double quote, or the text's length.
pub open spec fn scan_string_end(s: Seq<char>, i: int) -> int
    decreases s.len() - i,
{
    if i < 0 || i >= s.len() {
        s.len() as int
    } else if s[i] == '"' {
        i
    } else {
        scan_string_end(s, i + 1)
    }
}

/// First position at or after `i` holding no decimal digit, or the text's length.
pub open spec fn scan_digits_end(s: Seq<char>, i: int) -> int
    decreases s.len() - i,
{
    if i < 0 || i >= s.len() {
        s.len() as int
    } else if !is_digit_char(s[i]) {
        i
    } else {
        scan_digits_end(s, i + 1)
    }
}

/// First position at or after `i` where an identifier ends, or the text's length.
pub open spec fn scan_ident_end(s: Seq<char>, i: int) -> int
    decreases s.len() - i,
{
    if i < 0 || i >= s.len() {
        s.len() as int
    } else if !is_ident_cont(s[i]) {
        i
    } else {
        scan_ident_end(s, i + 1)
    }
}

pub proof fn lemma_scan_string_end(s: Seq<char>, i: int)
    requires
        0 <= i <= s.len(),
    ensures
        i <= scan_string_end(s, i) <= s.len(),
        scan_string_end(s, i) < s.len() ==> s[scan_string_end(s, i)] == '"',
        forall|k: int| i <= k < scan_string_end(s, i) ==> s[k] != '"',
    decreases s.len() - i,
{
    if i < s.len() && s[i] != '"' {
        lemma_scan_string_end(s, i + 1);
    }
}

pub proof fn lemma_scan_digits_end(s: Seq<char>, i: int)
    requires
        0 <= i <= s.len(),
    ensures
        i <= scan_digits_end(s, i) <= s.len(),
        scan_digits_end(s, i) < s.len() ==> !is_digit_char(s[scan_digits_end(s, i)]),
        forall|k: int| i <= k < scan_digits_end(s, i) ==> is_digit_char(s[k]),
    decreases s.len() - i,
{
    if i < s.len() && is_digit_char(s[i]) {
        lemma_scan_digits_end(s, i + 1);
    }
}

pub proof fn lemma_scan_ident_end(s: Seq<char>, i: int)
    requires
        0 <= i <= s.len(),
    ensures
        i <= scan_ident_end(s, i) <= s.len(),
        scan_ident_end(s, i) < s.len() ==> !is_ident_cont(s[scan_ident_end(s, i)]),
        forall|k: int| i <= k < scan_ident_end(s, i) ==> is_ident_cont(s[k]),
    decreases s.len() - i,
{
    if i < s.len() && is_ident_cont(s[i]) {
        lemma_scan_ident_end(s, i + 1);
    }
}

// ---------------------------------------------------------------------------
// Decimal values
// ---------------------------------------------------------------------------

/// The value of one decimal digit.
pub open spec fn digit_val(c: char) -> int {
    c as u32 - '0' as u32
}

/// The value of a run of decimal digits, most significant first.
pub open spec fn digits_val(s: Seq<char>) -> int
    decreases s.len(),
{
    if s.len() == 0 {
        0
    } else {
        digits_val(s.drop_last()) * 10 + digit_val(s.last())
    }
}

pub proof fn lemma_digits_val_nonneg(s: Seq<char>)
    requires
        forall|k: int| 0 <= k < s.len() ==> is_digit_char(s[k]),
    ensures
        digits_val(s) >= 0,
    decreases s.len(),
{
    if s.len() > 0 {
        lemma_digits_val_nonneg(s.drop_last());
    }
}

/// A longer run of digits never has a smaller value.
pub proof fn lemma_digits_val_prefix(s: Seq<char>, k: int)
    requires
        forall|j: int| 0 <= j < s.len() ==> is_digit_char(s[j]),
        0 <= k <= s.len(),
    ensures
        digits_val(s.take(k)) <= digits_val(s),
    decreases s.len() - k,
{
    if k < s.len() {
        lemma_digits_val_prefix(s, k + 1);
        let t = s.take(k + 1);
        assert(t.drop_last() =~= s.take(k));
        assert(forall|j: int| 0 <= j < t.len() ==> is_digit_char(#[trigger] t[j]));
        lemma_digits_val_nonneg(s.take(k));
        assert(digits_val(t) == digits_val(s.take(k)) * 10 + digit_val(t.last()));
        assert(digits_val(s.take(k)) * 10 >= digits_val(s.take(k)));
    } else {
        assert(s.take(k) =~= s);
    }
}

// ---------------------------------------------------------------------------
// The lexing function
// ---------------------------------------------------------------------------

/// The keyword token for a spelling, or an identifier token for any other text.
pub open spec fn ident_token(text: Seq<char>) -> TokenV {
    if text == "each"@ {
        TokenV::Each
    } else if text == "match"@ {
        TokenV::Match
    } else if text == "true"@ {
        TokenV::True
    } else if text == "false"@ {
        TokenV::False
    } else if text == "and"@ {
        TokenV::And
    } else if text == "or"@ {
        TokenV::Or
    } else if text == "xor"@ {
        TokenV::Xor
    } else if text == "stdout"@ {
        TokenV::Stdout
    } else if text == "join"@ {
        TokenV::Join
    } else {
        TokenV::Identifier(text)
    }
}

/// Prepend a token to the outcome of lexing the rest of the text.
pub open spec fn lex_cons(t: TokenV, rest: Option<Seq<TokenV>>) -> Option<Seq<TokenV>> {
    match rest {
        Some(ts) => Some(seq![t] + ts),
        None => None,
    }
}

/// The tokens of the text from position `i` on, ending in the end-of-input
/// token; `None` when a decimal literal exceeds the 64-bit signed range.
pub open spec fn spec_lex_from(s: Seq<char>, i: int) -> Option<Seq<TokenV>>
    decreases s.len() - i,
    via spec_lex_from_dec
{
    if i < 0 || i >= s.len() {
        Some(seq![TokenV::EOF])
    } else {
        let c = s[i];
        if c == '+' {
            lex_cons(TokenV::Plus, spec_lex_from(s, i + 1))
        } else if c == '-' {
            lex_cons(TokenV::Minus, spec_lex_from(s, i + 1))
        } else if c == '*' {
            lex_cons(TokenV::Star, spec_lex_from(s, i + 1))
        } else if c == '/' {
            lex_cons(TokenV::Slash, spec_lex_from(s, i + 1))
        } else if c == '%' {
            lex_cons(TokenV::Percent, spec_lex_from(s, i + 1))
        } else if c == '=' {
            if i + 1 < s.len() && s[i + 1] == '>' {
                lex_cons(TokenV::Arrow, spec_lex_from(s, i + 2))
            } else {
                lex_cons(TokenV::Assign, spec_lex_from(s, i + 1))
            }
        } else if c == '<' {
            if i + 1 < s.len() && s[i + 1] == '=' {
                lex_cons(TokenV::ReverseArrow, spec_lex_from(s, i + 2))
            } else {
                spec_lex_from(s, i + 1)
            }
        } else if c == '{' {
            lex_cons(TokenV::LeftBrace, spec_lex_from(s, i + 1))
        } else if c == '}' {
            lex_cons(TokenV::RightBrace, spec_lex_from(s, i + 1))
        } else if c == '[' {
            lex_cons(TokenV::LeftBracket, spec_lex_from(s, i + 1))
        } else if c == ']' {
            lex_cons(TokenV::RightBracket, spec_lex_from(s, i + 1))
        } else if c == ',' {
            lex_cons(TokenV::Comma, spec_lex_from(s, i + 1))
        } else if c == ';' {
            lex_cons(TokenV::Semicolon, spec_lex_from(s, i + 1))
        } else if c == '(' {
            lex_cons(TokenV::LeftParen, spec_lex_from(s, i + 1))
        } else if c == ')' {
            lex_cons(TokenV::RightParen, spec_lex_from(s, i + 1))
        } else if c == '"' {
            let j = scan_string_end(s, i + 1);
            if j >= s.len() {
                // Unterminated string: the content is read but never becomes a token.
                Some(seq![TokenV::EOF])
            } else {
                lex_cons(TokenV::String(s.subrange(i + 1, j)), spec_lex_from(s, j + 1))
            }
        } else if is_digit_char(c) {
            let j = scan_digits_end(s, i + 1);
            let v = digits_val(s.subrange(i, j));
            if v > i64::MAX {
                None
            } else {
                lex_cons(TokenV::Number(v), spec_lex_from(s, j))
            }
        } else if is_ident_start(c) {
            let j = scan_ident_end(s, i + 1);
            lex_cons(ident_token(s.subrange(i, j)), spec_lex_from(s, j))
        } else {
            spec_lex_from(s, i + 1)
        }
    }
}

#[via_fn]
proof fn spec_lex_from_dec(s: Seq<char>, i: int) {
    if 0 <= i && i < s.len() {
        lemma_scan_string_end(s, i + 1);
        lemma_scan_digits_end(s, i + 1);
        lemma_scan_ident_end(s, i + 1);
    }
}

/// Lexing the whole text, then appending tokens already emitted in front.
pub open spec fn lex_concat(done: Seq<TokenV>, rest: Option<Seq<TokenV>>) -> Option<Seq<TokenV>> {
    match rest {
        Some(ts) => Some(done + ts),
        None => None,
    }
}

proof fn lemma_lex_step(done: Seq<TokenV>, t: TokenV, rest: Option<Seq<TokenV>>)
    ensures
        lex_concat(done, lex_cons(t, rest)) == lex_concat(done.push(t), rest),
{
    match rest {
        Some(ts) => {
            assert(done + (seq![t] + ts) =~= done.push(t) + ts);
        },
        None => {},
    }
}

proof fn lemma_token_views_push(ts: Seq<Token>, t: Token)
    ensures
        token_views(ts.push(t)) == token_views(ts).push(t@),
{
    assert(token_views(ts.push(t)) =~= token_views(ts).push(t@));
}

// ---------------------------------------------------------------------------
// The lexer
// ---------------------------------------------------------------------------

/// The lexer: constructed with its source text, driven once by `tokenize`,
/// then discarded.
pub struct Lexer {
    source: String,
    start: usize,
    current: usize,
    tokens: Vec<Token>,
}

impl Lexer {
    /// The characters of the source text.
    pub closed spec fn src(&self) -> Seq<char> {
        self.source@
    }

    /// A lexer that has not run yet.
    pub closed spec fn fresh(&self) -> bool {
        self.current == 0 && self.tokens@.len() == 0
    }

    pub fn new(source: String) -> (r: Lexer)
        ensures
            r.src() == source@,
            r.fresh(),
    {
        Lexer { source, start: 0, current: 0, tokens: Vec::new() }
    }

    fn is_at_end(&self) -> (r: bool)
        ensures
            r == (self.current >= self.src().len()),
    {
        self.current >= self.source.as_str().unicode_len()
    }

    fn peek(&self) -> (c: char)
        ensures
            c == (if self.current < self.src().len() {
                self.src()[self.current as int]
            } else {
                '\0'
            }),
    {
        let n = self.source.as_str().unicode_len();
        if self.current >= n {
            '\0'
        } else {
            self.source.as_str().get_char(self.current)
        }
    }

    fn advance(&mut self) -> (c: char)
        requires
            old(self).current < old(self).src().len(),
        ensures
            final(self).source == old(self).source,
            final(self).start == old(self).start,
            final(self).tokens == old(self).tokens,
            final(self).current == old(self).current + 1,
            c == old(self).src()[old(self).current as int],
    {
        let c = self.source.as_str().get_char(self.current);
        if self.current < self.source.as_str().unicode_len() {
            self.current = self.current + 1;
        }
        c
    }

    fn add_token(&mut self, token: Token)
        ensures
            final(self).source == old(self).source,
            final(self).start == old(self).start,
            final(self).current == old(self).current,
            final(self).tokens@ == old(self).tokens@.push(token),
    {
        self.tokens.push(token);
    }

    fn match_char(&mut self, expected: char) -> (r: bool)
        ensures
            final(self).source == old(self).source,
            final(self).start == old(self).start,
            final(self).tokens == old(self).tokens,
            r == (old(self).current < old(self).src().len() && old(self).src()[old(
                self,
            ).current as int] == expected),
            final(self).current == if r {
                old(self).current + 1
            } else {
                old(self).current as int
            },
    {
        if self.is_at_end() {
            return false;
        }
        if self.source.as_str().get_char(self.current) != expected {
            return false;
        }
        if self.current < self.source.as_str().unicode_len() {
            self.current = self.current + 1;
        }
        true
    }

    /// Scan the remainder of a string literal whose opening quote was just
    /// consumed; emit its content, without quotes, unless the text ends first.
    fn string(&mut self)
        requires
            old(self).start + 1 == old(self).current,
            old(self).current <= old(self).src().len(),
        ensures
            final(self).source == old(self).source,
            final(self).start == old(self).start,
            ({
                let s = old(self).src();
                let j = scan_string_end(s, old(self).current as int);
                if j < s.len() {
                    final(self).current == j + 1 && token_views(final(self).tokens@)
                        == token_views(old(self).tokens@).push(
                        TokenV::String(s.subrange(old(self).current as int, j)),
                    )
                } else {
                    final(self).current == s.len() && final(self).tokens == old(self).tokens
                }
            }),
    {
        proof {
            lemma_scan_string_end(old(self).src(), old(self).current as int);
        }
        loop
            invariant
                self.source == old(self).source,
                self.start == old(self).start,
                self.tokens == old(self).tokens,
                old(self).current <= self.current <= self.src().len(),
                scan_string_end(self.src(), old(self).current as int) == scan_string_end(
                    self.src(),
                    self.current as int,
                ),
            ensures
                self.source == old(self).source,
                self.start == old(self).start,
                self.tokens == old(self).tokens,
                old(self).current <= self.current <= self.src().len(),
                scan_string_end(self.src(), old(self).current as int) == scan_string_end(
                    self.src(),
                    self.current as int,
                ),
                self.current == self.src().len() || self.src()[self.current as int] == '"',
            decreases self.src().len() - self.current,
        {
            if self.is_at_end() {
                break ;
            }
            let c = self.peek();
            if c == '"' {
                break ;
            }
            self.advance();
        }
        if self.is_at_end() {
            return ;
        }
        let q = self.current;
        let text = self.source.as_str().substring_char(self.start + 1, q).to_owned();
        self.advance();
        proof {
            lemma_token_views_push(self.tokens@, Token::String(text));
        }
        self.add_token(Token::String(text));
    }

    /// Scan the remaining digits of a decimal literal whose first digit was
    /// just consumed, and emit its value, or fail beyond the `i64` range.
    fn number(&mut self) -> (r: Result<(), LexError>)
        requires
            old(self).start + 1 == old(self).current,
            old(self).current <= old(self).src().len(),
            is_digit_char(old(self).src()[old(self).start as int]),
        ensures
            final(self).source == old(self).source,
            final(self).start == old(self).start,
            ({
                let s = old(self).src();
                let j = scan_digits_end(s, old(self).current as int);
                let v = digits_val(s.subrange(old(self).start as int, j));
                final(self).current == j && if v <= i64::MAX {
                    r is Ok && token_views(final(self).tokens@) == token_views(
                        old(self).tokens@,
                    ).push(TokenV::Number(v))
                } else {
                    r == Err::<(), LexError>(LexError::NumberOverflow) && final(self).tokens == old(
                        self,
                    ).tokens
                }
            }),
    {
        proof {
            lemma_scan_digits_end(old(self).src(), old(self).current as int);
        }
        loop
            invariant
                self.source == old(self).source,
                self.start == old(self).start,
                self.tokens == old(self).tokens,
                old(self).current <= self.current <= self.src().len(),
                scan_digits_end(self.src(), old(self).current as int) == scan_digits_end(
                    self.src(),
                    self.current as int,
                ),
            ensures
                self.source == old(self).source,
                self.start == old(self).start,
                self.tokens == old(self).tokens,
                old(self).current <= self.current <= self.src().len(),
                scan_digits_end(self.src(), old(self).current as int) == scan_digits_end(
                    self.src(),
                    self.current as int,
                ),
                self.current == self.src().len() || !is_digit_char(
                    self.src()[self.current as int],
                ),
            decreases self.src().len() - self.current,
        {
            let c = self.peek();
            if !(c >= '0' && c <= '9') {
                break ;
            }
            self.advance();
        }
        let ghost s = self.src();
        let ghost jj = scan_digits_end(s, old(self).current as int);
        let j = self.current;
        let mut value: i64 = 0;
        let mut k = self.start;
        assert(forall|m: int| old(self).start <= m < jj ==> is_digit_char(s[m]));
        assert(s.subrange(old(self).start as int, jj).take(0) =~= Seq::<char>::empty());
        while k < j
            invariant
                self.source == old(self).source,
                self.start == old(self).start,
                self.current == j,
                self.tokens == old(self).tokens,
                old(self).start <= k <= j,
                j == jj <= s.len(),
                s == self.src(),
                jj == scan_digits_end(s, old(self).current as int),
                old(self).start + 1 == old(self).current,
                forall|m: int| old(self).start <= m < jj ==> is_digit_char(s[m]),
                0 <= value,
                value as int == digits_val(
                    s.subrange(old(self).start as int, jj).take(k - old(self).start),
                ),
            decreases j - k,
        {
            let c = self.source.as_str().get_char(k);
            assert(is_digit_char(c));
            let d: i64 = (c as u32) as i64 - ('0' as u32) as i64;
            let ghost run = s.subrange(old(self).start as int, jj);
            let ghost pre = run.take(k - old(self).start);
            let ghost ext = run.take(k + 1 - old(self).start);
            proof {
                assert(ext.drop_last() =~= pre);
                assert(ext.last() == s[k as int]);
                assert(d as int == digit_val(s[k as int]));
                assert(d >= 0);
                assert(digits_val(ext) == (value as int) * 10 + d as int);
                assert(forall|m: int| 0 <= m < run.len() ==> is_digit_char(run[m]));
            }
            match value.checked_mul(10) {
                Some(v10) => {
                    match v10.checked_add(d) {
                        Some(v) => {
                            value = v;
                            k = k + 1;
                        },
                        None => {
                            proof {
                                assert(v10 as int + d as int > i64::MAX);
                                assert(digits_val(ext) > i64::MAX);
                                lemma_digits_val_prefix(run, k + 1 - old(self).start);
                                assert(run.take(run.len() as int) =~= run);
                                assert(digits_val(run) > i64::MAX);
                            }
                            return Err(LexError::NumberOverflow);
                        },
                    }
                },
                None => {
                    proof {
                        assert((value as int) * 10 > i64::MAX);
                        assert(digits_val(ext) > i64::MAX);
                        lemma_digits_val_prefix(run, k + 1 - old(self).start);
                        assert(run.take(run.len() as int) =~= run);
                        assert(digits_val(run) > i64::MAX);
                    }
                    return Err(LexError::NumberOverflow);
                },
            }
        }
        proof {
            assert(s.subrange(old(self).start as int, jj).take(j - old(self).start) =~= s.subrange(
                old(self).start as int,
                jj,
            ));
            lemma_token_views_push(self.tokens@, Token::Number(value));
        }
        self.add_token(Token::Number(value));
        Ok(())
    }

    /// Scan the rest of an identifier whose first character was just consumed,
    /// and emit the matching keyword token or an identifier token.
    fn identifier(&mut self)
        requires
            old(self).start + 1 == old(self).current,
            old(self).current <= old(self).src().len(),
            old(self).start < old(self).src().len(),
        ensures
            final(self).source == old(self).source,
            final(self).start == old(self).start,
            ({
                let s = old(self).src();
                let j = scan_ident_end(s, old(self).current as int);
                final(self).current == j && token_views(final(self).tokens@) == token_views(
                    old(self).tokens@,
                ).push(ident_token(s.subrange(old(self).start as int, j)))
            }),
    {
        proof {
            lemma_scan_ident_end(old(self).src(), old(self).current as int);
        }
        loop
            invariant
                self.source == old(self).source,
                self.start == old(self).start,
                self.tokens == old(self).tokens,
                old(self).current <= self.current <= self.src().len(),
                scan_ident_end(self.src(), old(self).current as int) == scan_ident_end(
                    self.src(),
                    self.current as int,
                ),
            ensures
                self.source == old(self).source,
                self.start == old(self).start,
                self.tokens == old(self).tokens,
                old(self).current <= self.current <= self.src().len(),
                scan_ident_end(self.src(), old(self).current as int) == scan_ident_end(
                    self.src(),
                    self.current as int,
                ),
                self.current == self.src().len() || !is_ident_cont(
                    self.src()[self.current as int],
                ),
            decreases self.src().len() - self.current,
        {
            let c = self.peek();
            if !is_ident_cont_char(c) {
                break ;
            }
            self.advance();
        }
        let text = self.source.as_str().substring_char(self.start, self.current).to_owned();
        let token = if text == String::from_str("each") {
            Token::Each
        } else if text == String::from_str("match") {
            Token::Match
        } else if text == String::from_str("true") {
            Token::True
        } else if text == String::from_str("false") {
            Token::False
        } else if text == String::from_str("and") {
            Token::And
        } else if text == String::from_str("or") {
            Token::Or
        } else if text == String::from_str("xor") {
            Token::Xor
        } else if text == String::from_str("stdout") {
            Token::Stdout
        } else if text == String::from_str("join") {
            Token::Join
        } else {
            Token::Identifier(text)
        };
        proof {
            lemma_token_views_push(self.tokens@, token);
        }
        self.add_token(token);
    }

    /// One left-to-right scan over the whole source text. Unrecognized
    /// characters are dropped silently; the result always ends with exactly
    /// one end-of-input token. The one failure is a decimal literal beyond
    /// the 64-bit signed range.
    pub fn tokenize(&mut self) -> (r: Result<Vec<Token>, LexError>)
        requires
            old(self).fresh(),
        ensures
            final(self).src() == old(self).src(),
            ({
                let lexed = spec_lex_from(old(self).src(), 0);
                match r {
                    Ok(ts) => lexed == Some(token_views(ts@)),
                    Err(e) => lexed is None && e == LexError::NumberOverflow,
                }
            }),
    {
        proof {
            assert(token_views(self.tokens@) =~= Seq::<TokenV>::empty());
            assert(match spec_lex_from(self.src(), 0) {
                Some(ts) => Seq::<TokenV>::empty() + ts =~= ts,
                None => true,
            });
        }
        loop
            invariant
                self.source == old(self).source,
                self.current <= self.src().len(),
                spec_lex_from(self.src(), 0) == lex_concat(
                    token_views(self.tokens@),
                    spec_lex_from(self.src(), self.current as int),
                ),
            ensures
                self.source == old(self).source,
                self.current == self.src().len(),
                spec_lex_from(self.src(), 0) == lex_concat(
                    token_views(self.tokens@),
                    spec_lex_from(self.src(), self.current as int),
                ),
            decreases self.src().len() - self.current,
        {
            if self.is_at_end() {
                break ;
            }
            let ghost done = token_views(self.tokens@);
            let ghost cur0 = self.current as int;
            let ghost s = self.src();
            self.start = self.current;
            let c = self.advance();
            if c == '+' {
                proof {
                    lemma_token_views_push(self.tokens@, Token::Plus);
                    lemma_lex_step(done, TokenV::Plus, spec_lex_from(s, cur0 + 1));
                }
                self.add_token(Token::Plus);
            } else if c == '-' {
                proof {
                    lemma_token_views_push(self.tokens@, Token::Minus);
                    lemma_lex_step(done, TokenV::Minus, spec_lex_from(s, cur0 + 1));
                }
                self.add_token(Token::Minus);
            } else if c == '*' {
                proof {
                    lemma_token_views_push(self.tokens@, Token::Star);
                    lemma_lex_step(done, TokenV::Star, spec_lex_from(s, cur0 + 1));
                }
                self.add_token(Token::Star);
            } else if c == '/' {
                proof {
                    lemma_token_views_push(self.tokens@, Token::Slash);
                    lemma_lex_step(done, TokenV::Slash, spec_lex_from(s, cur0 + 1));
                }
                self.add_token(Token::Slash);
            } else if c == '%' {
                proof {
                    lemma_token_views_push(self.tokens@, Token::Percent);
                    lemma_lex_step(done, TokenV::Percent, spec_lex_from(s, cur0 + 1));
                }
                self.add_token(Token::Percent);
            } else if c == '=' {
                if self.match_char('>') {
                    proof {
                        lemma_token_views_push(self.tokens@, Token::Arrow);
                        lemma_lex_step(done, TokenV::Arrow, spec_lex_from(s, cur0 + 2));
                    }
                    self.add_token(Token::Arrow);
                } else {
                    proof {
                        lemma_token_views_push(self.tokens@, Token::Assign);
                        lemma_lex_step(done, TokenV::Assign, spec_lex_from(s, cur0 + 1));
                    }
                    self.add_token(Token::Assign);
                }
            } else if c == '<' {
                if self.match_char('=') {
                    proof {
                        lemma_token_views_push(self.tokens@, Token::ReverseArrow);
                        lemma_lex_step(done, TokenV::ReverseArrow, spec_lex_from(s, cur0 + 2));
                    }
                    self.add_token(Token::ReverseArrow);
                }
            } else if c == '{' {
                proof {
                    lemma_token_views_push(self.tokens@, Token::LeftBrace);
                    lemma_lex_step(done, TokenV::LeftBrace, spec_lex_from(s, cur0 + 1));
                }
                self.add_token(Token::LeftBrace);
            } else if c == '}' {
                proof {
                    lemma_token_views_push(self.tokens@, Token::RightBrace);
                    lemma_lex_step(done, TokenV::RightBrace, spec_lex_from(s, cur0 + 1));
                }
                self.add_token(Token::RightBrace);
            } else if c == '[' {
                proof {
                    lemma_token_views_push(self.tokens@, Token::LeftBracket);
                    lemma_lex_step(done, TokenV::LeftBracket, spec_lex_from(s, cur0 + 1));
                }
                self.add_token(Token::LeftBracket);
            } else if c == ']' {
                proof {
                    lemma_token_views_push(self.tokens@, Token::RightBracket);
                    lemma_lex_step(done, TokenV::RightBracket, spec_lex_from(s, cur0 + 1));
                }
                self.add_token(Token::RightBracket);
            } else if c == ',' {
                proof {
                    lemma_token_views_push(self.tokens@, Token::Comma);
                    lemma_lex_step(done, TokenV::Comma, spec_lex_from(s, cur0 + 1));
                }
                self.add_token(Token::Comma);
            } else if c == ';' {
                proof {
                    lemma_token_views_push(self.tokens@, Token::Semicolon);
                    lemma_lex_step(done, TokenV::Semicolon, spec_lex_from(s, cur0 + 1));
                }
                self.add_token(Token::Semicolon);
            } else if c == '(' {
                proof {
                    lemma_token_views_push(self.tokens@, Token::LeftParen);
                    lemma_lex_step(done, TokenV::LeftParen, spec_lex_from(s, cur0 + 1));
                }
                self.add_token(Token::LeftParen);
            } else if c == ')' {
                proof {
                    lemma_token_views_push(self.tokens@, Token::RightParen);
                    lemma_lex_step(done, TokenV::RightParen, spec_lex_from(s, cur0 + 1));
                }
                self.add_token(Token::RightParen);
            } else if c == '"' {
                proof {
                    lemma_scan_string_end(s, cur0 + 1);
                }
                self.string();
                proof {
                    let j = scan_string_end(s, cur0 + 1);
                    if j < s.len() {
                        lemma_lex_step(
                            done,
                            TokenV::String(s.subrange(cur0 + 1, j)),
                            spec_lex_from(s, j + 1),
                        );
                    }
                }
            } else if c >= '0' && c <= '9' {
                proof {
                    lemma_scan_digits_end(s, cur0 + 1);
                }
                let outcome = self.number();
                proof {
                    let j = scan_digits_end(s, cur0 + 1);
                    let v = digits_val(s.subrange(cur0, j));
                    if v <= i64::MAX {
                        lemma_lex_step(done, TokenV::Number(v), spec_lex_from(s, j));
                    }
                }
                match outcome {
                    Ok(u) => {},
                    Err(e) => {
                        return Err(e);
                    },
                }
            } else if (c >= 'a' && c <= 'z') || (c >= 'A' && c <= 'Z') || c == '_' {
                proof {
                    lemma_scan_ident_end(s, cur0 + 1);
                }
                self.identifier();
                proof {
                    let j = scan_ident_end(s, cur0 + 1);
                    lemma_lex_step(done, ident_token(s.subrange(cur0, j)), spec_lex_from(s, j));
                }
            } else {
            }
        }
        proof {
            lemma_token_views_push(self.tokens@, Token::EOF);
            assert(token_views(self.tokens@) + seq![TokenV::EOF] =~= token_views(
                self.tokens@,
            ).push(TokenV::EOF));
        }
        self.add_token(Token::EOF);
        let r = duplicate_tokens(&self.tokens);
        Ok(r)
    }
}

fn duplicate_token(t: &Token) -> (r: Token)
    ensures
        r == *t,
{
    match t {
        Token::Each => Token::Each,
        Token::Match => Token::Match,
        Token::True => Token::True,
        Token::False => Token::False,
        Token::And => Token::And,
        Token::Or => Token::Or,
        Token::Xor => Token::Xor,
        Token::Stdout => Token::Stdout,
        Token::Join => Token::Join,
        Token::Plus => Token::Plus,
        Token::Minus => Token::Minus,
        Token::Star => Token::Star,
        Token::Slash => Token::Slash,
        Token::Percent => Token::Percent,
        Token::Assign => Token::Assign,
        Token::Arrow => Token::Arrow,
        Token::ReverseArrow => Token::ReverseArrow,
        Token::LeftBrace => Token::LeftBrace,
        Token::RightBrace => Token::RightBrace,
        Token::LeftBracket => Token::LeftBracket,
        Token::RightBracket => Token::RightBracket,
        Token::Comma => Token::Comma,
        Token::Semicolon => Token::Semicolon,
        Token::LeftParen => Token::LeftParen,
        Token::RightParen => Token::RightParen,
        Token::Identifier(name) => Token::Identifier(name.clone()),
        Token::Number(n) => Token::Number(*n),
        Token::String(text) => Token::String(text.clone()),
        Token::EOF => Token::EOF,
    }
}

fn duplicate_tokens(ts: &Vec<Token>) -> (r: Vec<Token>)
    ensures
        r@ == ts@,
{
    let mut r: Vec<Token> = Vec::new();
    let mut k: usize = 0;
    while k < ts.len()
        invariant
            k <= ts@.len(),
            r@ == ts@.take(k as int),
        decreases ts@.len() - k,
    {
        let t = duplicate_token(&ts[k]);
        r.push(t);
        k = k + 1;
        proof {
            assert(r@ =~= ts@.take(k as int));
        }
    }
    proof {
        assert(ts@.take(ts@.len() as int) =~= ts@);
    }
    r
}

} // verus!

