use lexer::token::{symbol_token_kind, LiteralKind, Token, TokenKind};
use lexer::{tokenize, Lexer};

fn tok(kind: TokenKind, literal: &str) -> Token {
    Token::new(kind, literal.to_owned())
}

fn int_lit(literal: &str) -> Token {
    tok(TokenKind::Literal { kind: LiteralKind::Int }, literal)
}

#[test]
fn each_symbol_alone_is_one_token() {
    let table = [
        (";", TokenKind::Semi),
        (",", TokenKind::Comma),
        (".", TokenKind::Dot),
        ("(", TokenKind::OpenParen),
        (")", TokenKind::CloseParen),
        ("{", TokenKind::OpenBrace),
        ("}", TokenKind::CloseBrace),
        ("[", TokenKind::OpenBracket),
        ("]", TokenKind::CloseBracket),
        ("@", TokenKind::At),
        ("#", TokenKind::Pound),
        ("~", TokenKind::Tilde),
        ("!", TokenKind::Bang),
        ("=", TokenKind::Eq),
        ("+", TokenKind::Plus),
        ("-", TokenKind::Minus),
        ("*", TokenKind::Star),
        ("/", TokenKind::Slash),
        ("<", TokenKind::Lt),
        (">", TokenKind::Gt),
        ("&", TokenKind::And),
        ("|", TokenKind::Or),
        ("^", TokenKind::Caret),
        (":", TokenKind::Colon),
        ("?", TokenKind::Question),
        ("$", TokenKind::Dollar),
        ("%", TokenKind::Percent),
    ];
    for (symbol, kind) in table {
        assert_eq!(tokenize(symbol), vec![tok(kind, symbol)]);
        let mut lexer = Lexer::new(symbol);
        assert_eq!(lexer.next(), Some(tok(kind, symbol)));
        assert_eq!(lexer.next(), None);
    }
}

#[test]
fn symbol_table_misses_other_characters() {
    assert_eq!(symbol_token_kind('a'), None);
    assert_eq!(symbol_token_kind('5'), None);
    assert_eq!(symbol_token_kind('`'), None);
    assert_eq!(symbol_token_kind(';'), Some(TokenKind::Semi));
}

#[test]
fn identifiers_are_maximal() {
    assert_eq!(tokenize("let"), vec![tok(TokenKind::Ident, "let")]);
    assert_eq!(tokenize("five"), vec![tok(TokenKind::Ident, "five")]);
    assert_eq!(tokenize("snake_case"), vec![tok(TokenKind::Ident, "snake_case")]);
}

#[test]
fn digits_end_an_identifier() {
    assert_eq!(
        tokenize("x1y"),
        vec![tok(TokenKind::Ident, "x"), int_lit("1"), tok(TokenKind::Ident, "y")]
    );
}

#[test]
fn digit_dot_digit_is_three_tokens() {
    assert_eq!(tokenize("5.0"), vec![int_lit("5"), tok(TokenKind::Dot, "."), int_lit("0")]);
}

#[test]
fn unknown_symbol_is_kept_and_scanning_goes_on() {
    assert_eq!(
        tokenize("a € b"),
        vec![
            tok(TokenKind::Ident, "a"),
            tok(TokenKind::Unknown, "€"),
            tok(TokenKind::Ident, "b"),
        ]
    );
    assert_eq!(tokenize("`"), vec![tok(TokenKind::Unknown, "`")]);
}

#[test]
fn while_loop_scenario() {
    let expected = vec![
        tok(TokenKind::Ident, "let"),
        tok(TokenKind::Ident, "i"),
        tok(TokenKind::Eq, "="),
        int_lit("0"),
        tok(TokenKind::Semi, ";"),
        tok(TokenKind::Ident, "while"),
        tok(TokenKind::OpenParen, "("),
        tok(TokenKind::Ident, "i"),
        tok(TokenKind::Lt, "<"),
        int_lit("10"),
        tok(TokenKind::CloseParen, ")"),
        tok(TokenKind::OpenBrace, "{"),
        tok(TokenKind::Ident, "i"),
        tok(TokenKind::Eq, "="),
        tok(TokenKind::Ident, "i"),
        tok(TokenKind::Plus, "+"),
        int_lit("1"),
        tok(TokenKind::Semi, ";"),
        tok(TokenKind::CloseBrace, "}"),
    ];
    assert_eq!(tokenize("let i = 0;\nwhile (i < 10) {\n  i = i + 1;\n}"), expected);
}

#[test]
fn empty_and_blank_inputs_give_no_tokens() {
    assert_eq!(tokenize(""), Vec::new());
    assert_eq!(tokenize(" \t\r\n "), Vec::new());
    let mut lexer = Lexer::new("   ");
    assert_eq!(lexer.next(), None);
    assert_eq!(lexer.next(), None);
}

#[test]
fn exhaustion_repeats() {
    let mut lexer = Lexer::new("a");
    assert_eq!(lexer.next(), Some(tok(TokenKind::Ident, "a")));
    assert_eq!(lexer.next(), None);
    assert_eq!(lexer.next(), None);
}

#[test]
fn input_ending_mid_run() {
    assert_eq!(tokenize("abc"), vec![tok(TokenKind::Ident, "abc")]);
    assert_eq!(tokenize("x = 123"), vec![
        tok(TokenKind::Ident, "x"),
        tok(TokenKind::Eq, "="),
        int_lit("123"),
    ]);
}

#[test]
fn unicode_letters_and_whitespace() {
    // U+3000 and U+00A0 are Unicode whitespace; é and 京 are alphabetic.
    assert_eq!(
        tokenize("\u{3000}héllo\u{a0}京;"),
        vec![
            tok(TokenKind::Ident, "héllo"),
            tok(TokenKind::Ident, "京"),
            tok(TokenKind::Semi, ";"),
        ]
    );
}

#[test]
fn null_character_in_input_is_unknown() {
    assert_eq!(
        tokenize("a\0b"),
        vec![
            tok(TokenKind::Ident, "a"),
            tok(TokenKind::Unknown, "\0"),
            tok(TokenKind::Ident, "b"),
        ]
    );
}

#[test]
fn literals_and_whitespace_rebuild_the_input() {
    let input = " let x=  4.2 ;\n€ ";
    let joined: String = tokenize(input).into_iter().map(|t| t.literal).collect();
    let stripped: String = input.chars().filter(|c| !c.is_whitespace()).collect();
    assert_eq!(joined, stripped);
}

#[test]
fn cursor_methods() {
    let mut lexer = Lexer::new("ab_c12 x");
    assert!(lexer.is_letter());
    assert!(!lexer.is_digit());
    assert_eq!(lexer.read_ident(), "ab_c");
    assert!(lexer.is_digit());
    assert_eq!(lexer.read_number(), "12");
    assert!(!lexer.is_letter());
    lexer.skip_whitespace();
    assert_eq!(lexer.consume_char(), "x");
    assert_eq!(lexer.consume_char(), "\0");
    lexer.read_char();
    assert_eq!(lexer.next(), None);
}

#[test]
fn read_char_moves_one_character() {
    let mut lexer = Lexer::new("é1");
    lexer.read_char();
    assert!(lexer.is_digit());
    assert_eq!(lexer.consume_char(), "1");
}

#[test]
fn cursor_moves_past_the_end() {
    let mut lexer = Lexer::new("a");
    lexer.read_char();
    lexer.read_char();
    lexer.read_char();
    assert!(!lexer.is_letter());
    assert_eq!(lexer.read_ident(), "");
    assert_eq!(lexer.read_number(), "");
    assert_eq!(lexer.consume_char(), "\0");
    assert_eq!(lexer.next(), None);
}

#[test]
fn every_unicode_white_space_code_point_is_skipped() {
    let input = "\t\n\u{b}\u{c}\r \u{85}\u{a0}\u{1680}\u{2000}\u{200a}\u{2028}\u{2029}\u{202f}\u{205f}\u{3000}x";
    assert_eq!(tokenize(input), vec![tok(TokenKind::Ident, "x")]);
    // U+200B is not White_Space.
    assert_eq!(tokenize("\u{200b}"), vec![tok(TokenKind::Unknown, "\u{200b}")]);
}
