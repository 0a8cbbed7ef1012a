//! Laws of the lexer, stated over the lexing function that `tokenize` is
//! proved to compute: the end-marker invariant, the decimal round trip, and
//! the keyword spellings.

use vstd::prelude::*;

use crate::lexer::{
    TokenV, spec_lex_from, scan_string_end, scan_digits_end, scan_ident_end,
    lemma_scan_string_end, lemma_scan_digits_end, lemma_scan_ident_end, digits_val,
    is_digit_char, is_ident_start, is_ident_cont, ident_token, lemma_digits_val_nonneg,
};

verus! {

/// Every token sequence the lexer returns ends with the end-of-input marker,
/// and holds no other token of that kind.
pub proof fn lemma_lex_ends_with_eof(s: Seq<char>, i: int)
    ensures
        (match spec_lex_from(s, i) {
            Some(ts) => ts.len() >= 1 && ts.last() is EOF && (forall|k: int|
                0 <= k < ts.len() - 1 ==> !((#[trigger] ts[k]) is EOF)),
            None => true,
        }),
    decreases s.len() - i,
{
    if i < 0 || i >= s.len() {
    } else {
        let c = s[i];
        if c == '=' || c == '<' {
            if i + 1 < s.len() && (s[i + 1] == '>' || s[i + 1] == '=') {
                lemma_lex_ends_with_eof(s, i + 2);
            }
            lemma_lex_ends_with_eof(s, i + 1);
        } else if c == '"' {
            lemma_scan_string_end(s, i + 1);
            let j = scan_string_end(s, i + 1);
            if j < s.len() {
                lemma_lex_ends_with_eof(s, j + 1);
            }
        } else if is_digit_char(c) {
            lemma_scan_digits_end(s, i + 1);
            lemma_lex_ends_with_eof(s, scan_digits_end(s, i + 1));
        } else if is_ident_start(c) {
            lemma_scan_ident_end(s, i + 1);
            lemma_lex_ends_with_eof(s, scan_ident_end(s, i + 1));
        } else {
            lemma_lex_ends_with_eof(s, i + 1);
        }
    }
}

/// Lexing a run of decimal digits alone gives exactly one number token whose
/// payload is the run's decimal value, when that value fits 64 signed bits;
/// beyond that range the lexer fails.
pub proof fn lemma_number_literal(s: Seq<char>)
    requires
        s.len() >= 1,
        forall|k: int| 0 <= k < s.len() ==> is_digit_char(#[trigger] s[k]),
    ensures
        spec_lex_from(s, 0) == (if digits_val(s) <= i64::MAX {
            Some(seq![TokenV::Number(digits_val(s)), TokenV::EOF])
        } else {
            None::<Seq<TokenV>>
        }),
{
    lemma_scan_digits_end(s, 1);
    let j = scan_digits_end(s, 1);
    assert(j == s.len());
    assert(s.subrange(0, j) =~= s);
    lemma_digits_val_nonneg(s);
    if digits_val(s) <= i64::MAX {
        assert(spec_lex_from(s, s.len() as int) == Some(seq![TokenV::EOF]));
        assert(seq![TokenV::Number(digits_val(s))] + seq![TokenV::EOF] =~= seq![
            TokenV::Number(digits_val(s)),
            TokenV::EOF,
        ]);
    }
}

/// Lexing one word — an identifier-start character followed by
/// identifier-continuation characters — gives exactly the word's token: the
/// dedicated keyword token for a keyword spelling, an identifier token
/// otherwise.
pub proof fn lemma_single_word(s: Seq<char>)
    requires
        s.len() >= 1,
        is_ident_start(s[0]),
        forall|k: int| 1 <= k < s.len() ==> is_ident_cont(#[trigger] s[k]),
    ensures
        spec_lex_from(s, 0) == Some(seq![ident_token(s), TokenV::EOF]),
{
    lemma_scan_ident_end(s, 1);
    let j = scan_ident_end(s, 1);
    assert(j == s.len());
    assert(s.subrange(0, j) =~= s);
    assert(spec_lex_from(s, s.len() as int) == Some(seq![TokenV::EOF]));
    assert(seq![ident_token(s)] + seq![TokenV::EOF] =~= seq![ident_token(s), TokenV::EOF]);
}

/// The nine keyword spellings produce their dedicated tokens, never an
/// identifier; the same letters in another case produce an identifier.
pub proof fn lemma_keyword_spellings()
    ensures
        spec_lex_from("each"@, 0) == Some(seq![TokenV::Each, TokenV::EOF]),
        spec_lex_from("match"@, 0) == Some(seq![TokenV::Match, TokenV::EOF]),
        spec_lex_from("true"@, 0) == Some(seq![TokenV::True, TokenV::EOF]),
        spec_lex_from("false"@, 0) == Some(seq![TokenV::False, TokenV::EOF]),
        spec_lex_from("and"@, 0) == Some(seq![TokenV::And, TokenV::EOF]),
        spec_lex_from("or"@, 0) == Some(seq![TokenV::Or, TokenV::EOF]),
        spec_lex_from("xor"@, 0) == Some(seq![TokenV::Xor, TokenV::EOF]),
        spec_lex_from("stdout"@, 0) == Some(seq![TokenV::Stdout, TokenV::EOF]),
        spec_lex_from("join"@, 0) == Some(seq![TokenV::Join, TokenV::EOF]),
        spec_lex_from("Each"@, 0) == Some(seq![TokenV::Identifier("Each"@), TokenV::EOF]),
{
    reveal_strlit("each");
    reveal_strlit("match");
    reveal_strlit("true");
    reveal_strlit("false");
    reveal_strlit("and");
    reveal_strlit("or");
    reveal_strlit("xor");
    reveal_strlit("stdout");
    reveal_strlit("join");
    reveal_strlit("Each");
    lemma_single_word("each"@);
    lemma_single_word("match"@);
    lemma_single_word("true"@);
    lemma_single_word("false"@);
    lemma_single_word("and"@);
    lemma_single_word("or"@);
    lemma_single_word("xor"@);
    lemma_single_word("stdout"@);
    lemma_single_word("join"@);
    lemma_single_word("Each"@);
    assert(ident_token("each"@) == TokenV::Each);
    assert(ident_token("match"@) == TokenV::Match);
    assert(ident_token("true"@) == TokenV::True);
    assert(ident_token("false"@) == TokenV::False);
    assert(ident_token("and"@) == TokenV::And);
    assert(ident_token("or"@) == TokenV::Or);
    assert(ident_token("xor"@) == TokenV::Xor);
    assert(ident_token("stdout"@) == TokenV::Stdout);
    assert(ident_token("join"@) == TokenV::Join);
    assert(ident_token("Each"@) == TokenV::Identifier("Each"@));
}

} // verus!
