use tinylang::lexer::{LexError, Lexer, Token};

fn lex(source: &str) -> Vec<Token> {
    let mut lexer = Lexer::new(source.to_string());
    lexer.tokenize().expect("lexing should succeed")
}

#[test]
fn empty_input_gives_only_eof() {
    assert_eq!(lex(""), vec![Token::EOF]);
}

#[test]
fn whitespace_only_gives_only_eof() {
    assert_eq!(lex("  \t\n  \r\n"), vec![Token::EOF]);
}

#[test]
fn every_token_sequence_ends_with_one_eof() {
    let inputs = [
        "",
        "x = 1;",
        "stdout = \"hi\", 1;",
        "@#$%^&",
        "\"unterminated",
        "a < b",
        "((((",
        "each match true false and or xor stdout join",
    ];
    for source in inputs {
        let tokens = lex(source);
        assert_eq!(tokens.last(), Some(&Token::EOF));
        let eof_count = tokens.iter().filter(|t| matches!(t, Token::EOF)).count();
        assert_eq!(eof_count, 1);
    }
}

#[test]
fn single_character_symbols() {
    assert_eq!(
        lex("+-*/%{}[],;()"),
        vec![
            Token::Plus,
            Token::Minus,
            Token::Star,
            Token::Slash,
            Token::Percent,
            Token::LeftBrace,
            Token::RightBrace,
            Token::LeftBracket,
            Token::RightBracket,
            Token::Comma,
            Token::Semicolon,
            Token::LeftParen,
            Token::RightParen,
            Token::EOF,
        ]
    );
}

#[test]
fn assign_and_arrow() {
    assert_eq!(lex("="), vec![Token::Assign, Token::EOF]);
    assert_eq!(lex("=>"), vec![Token::Arrow, Token::EOF]);
    assert_eq!(lex("= >"), vec![Token::Assign, Token::EOF]);
}

#[test]
fn reverse_arrow_and_dead_less_than() {
    assert_eq!(lex("<="), vec![Token::ReverseArrow, Token::EOF]);
    // A lone `<` is consumed and produces no token.
    assert_eq!(lex("<"), vec![Token::EOF]);
    assert_eq!(
        lex("a < b"),
        vec![
            Token::Identifier("a".to_string()),
            Token::Identifier("b".to_string()),
            Token::EOF,
        ]
    );
}

#[test]
fn unrecognized_characters_are_dropped_silently() {
    assert_eq!(
        lex("x @ . # y"),
        vec![
            Token::Identifier("x".to_string()),
            Token::Identifier("y".to_string()),
            Token::EOF,
        ]
    );
}

#[test]
fn integer_literal_round_trip() {
    assert_eq!(lex("0"), vec![Token::Number(0), Token::EOF]);
    assert_eq!(lex("12345"), vec![Token::Number(12345), Token::EOF]);
    assert_eq!(
        lex("9223372036854775807"),
        vec![Token::Number(i64::MAX), Token::EOF]
    );
}

#[test]
fn integer_overflow_is_fatal() {
    let mut lexer = Lexer::new("9223372036854775808".to_string());
    assert_eq!(lexer.tokenize(), Err(LexError::NumberOverflow));
    let mut lexer = Lexer::new("x = 99999999999999999999;".to_string());
    assert_eq!(lexer.tokenize(), Err(LexError::NumberOverflow));
}

#[test]
fn string_literal_payload_has_no_quotes() {
    assert_eq!(
        lex("\"abc\""),
        vec![Token::String("abc".to_string()), Token::EOF]
    );
}

#[test]
fn empty_string_literal() {
    assert_eq!(lex("\"\""), vec![Token::String(String::new()), Token::EOF]);
}

#[test]
fn unterminated_string_produces_no_token() {
    assert_eq!(lex("\"abc"), vec![Token::EOF]);
    assert_eq!(lex("x \"abc"), vec![Token::Identifier("x".to_string()), Token::EOF]);
}

#[test]
fn keywords_produce_dedicated_tokens() {
    assert_eq!(lex("each"), vec![Token::Each, Token::EOF]);
    assert_eq!(lex("match"), vec![Token::Match, Token::EOF]);
    assert_eq!(lex("true"), vec![Token::True, Token::EOF]);
    assert_eq!(lex("false"), vec![Token::False, Token::EOF]);
    assert_eq!(lex("and"), vec![Token::And, Token::EOF]);
    assert_eq!(lex("or"), vec![Token::Or, Token::EOF]);
    assert_eq!(lex("xor"), vec![Token::Xor, Token::EOF]);
    assert_eq!(lex("stdout"), vec![Token::Stdout, Token::EOF]);
    assert_eq!(lex("join"), vec![Token::Join, Token::EOF]);
}

#[test]
fn keyword_match_is_case_sensitive() {
    assert_eq!(
        lex("Each"),
        vec![Token::Identifier("Each".to_string()), Token::EOF]
    );
    assert_eq!(
        lex("TRUE"),
        vec![Token::Identifier("TRUE".to_string()), Token::EOF]
    );
}

#[test]
fn keyword_prefix_is_an_identifier() {
    assert_eq!(
        lex("eachone"),
        vec![Token::Identifier("eachone".to_string()), Token::EOF]
    );
}

#[test]
fn identifiers_allow_underscores_and_digits() {
    assert_eq!(
        lex("_x1 y_2"),
        vec![
            Token::Identifier("_x1".to_string()),
            Token::Identifier("y_2".to_string()),
            Token::EOF,
        ]
    );
}

#[test]
fn identifier_continuation_beyond_ascii() {
    // `char::is_alphanumeric` continues an identifier through letters beyond
    // ASCII; a dropped character such as `.` ends it instead.
    assert_eq!(
        lex("h\u{e9}llo"),
        vec![Token::Identifier("h\u{e9}llo".to_string()), Token::EOF]
    );
    assert_eq!(
        lex("h.llo"),
        vec![
            Token::Identifier("h".to_string()),
            Token::Identifier("llo".to_string()),
            Token::EOF,
        ]
    );
}

#[test]
fn number_then_identifier() {
    assert_eq!(
        lex("12abc"),
        vec![
            Token::Number(12),
            Token::Identifier("abc".to_string()),
            Token::EOF,
        ]
    );
}

#[test]
fn full_statement_token_sequence() {
    assert_eq!(
        lex("x = 1 + 2 * 3;"),
        vec![
            Token::Identifier("x".to_string()),
            Token::Assign,
            Token::Number(1),
            Token::Plus,
            Token::Number(2),
            Token::Star,
            Token::Number(3),
            Token::Semicolon,
            Token::EOF,
        ]
    );
}
