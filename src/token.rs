use vstd::prelude::*;

verus! {

/// A lexeme of the input together with its classification.
#[derive(Debug, PartialEq)]
pub struct Token {
    pub kind: TokenKind,
    /// The exact text of the input that produced this token.
    pub literal: String,
}

impl View for Token {
    type V = (TokenKind, Seq<char>);

    open spec fn view(&self) -> (TokenKind, Seq<char>) {
        (self.kind, self.literal@)
    }
}

impl Token {
    pub fn new(kind: TokenKind, literal: String) -> (r: Token)
        ensures
            r.kind == kind,
            r.literal@ == literal@,
    {
        Token { kind, literal }
    }
}

/// The classification of a lexeme.
#[derive(Clone, Copy, Debug, PartialEq, Eq, Structural)]
pub enum TokenKind {
    /// Declared for completeness; whitespace is skipped, never tokenized.
    WhiteSpace,
    /// "ident" or "continue"
    ///
    /// Keywords are identifiers at this layer.
    Ident,
    /// See [LiteralKind] for more details.
    Literal { kind: LiteralKind },
    // One-char tokens:
    /// ";"
    Semi,
    /// ","
    Comma,
    /// "."
    Dot,
    /// "("
    OpenParen,
    /// ")"
    CloseParen,
    /// "{"
    OpenBrace,
    /// "}"
    CloseBrace,
    /// "["
    OpenBracket,
    /// "]"
    CloseBracket,
    /// "@"
    At,
    /// "#"
    Pound,
    /// "~"
    Tilde,
    /// "?"
    Question,
    /// ":"
    Colon,
    /// "$"
    Dollar,
    /// "="
    Eq,
    /// "!"
    Bang,
    /// "<"
    Lt,
    /// ">"
    Gt,
    /// "-"
    Minus,
    /// "&"
    And,
    /// "|"
    Or,
    /// "+"
    Plus,
    /// "*"
    Star,
    /// "/"
    Slash,
    /// "^"
    Caret,
    /// "%"
    Percent,
    /// A character that no other kind covers, e.g. "№".
    Unknown,
    /// End of input; declared for completeness, the end is signalled by no token.
    Eof,
}

/// The literal types; the scanner produces only `Int`, the others are reserved.
#[derive(Clone, Copy, Debug, PartialEq, Eq, PartialOrd, Ord, Structural)]
pub enum LiteralKind {
    Bool,
    Int,
    Float,
    Char,
    Str,
}

/// The kind of the one-character token that `c` forms, if `c` is one of the
/// punctuation or operator symbols.
pub open spec fn symbol_kind(c: char) -> Option<TokenKind> {
    match c {
        ';' => Some(TokenKind::Semi),
        ',' => Some(TokenKind::Comma),
        '.' => Some(TokenKind::Dot),
        '(' => Some(TokenKind::OpenParen),
        ')' => Some(TokenKind::CloseParen),
        '{' => Some(TokenKind::OpenBrace),
        '}' => Some(TokenKind::CloseBrace),
        '[' => Some(TokenKind::OpenBracket),
        ']' => Some(TokenKind::CloseBracket),
        '@' => Some(TokenKind::At),
        '#' => Some(TokenKind::Pound),
        '~' => Some(TokenKind::Tilde),
        '!' => Some(TokenKind::Bang),
        '=' => Some(TokenKind::Eq),
        '+' => Some(TokenKind::Plus),
        '-' => Some(TokenKind::Minus),
        '*' => Some(TokenKind::Star),
        '/' => Some(TokenKind::Slash),
        '<' => Some(TokenKind::Lt),
        '>' => Some(TokenKind::Gt),
        '&' => Some(TokenKind::And),
        '|' => Some(TokenKind::Or),
        '^' => Some(TokenKind::Caret),
        ':' => Some(TokenKind::Colon),
        '?' => Some(TokenKind::Question),
        '$' => Some(TokenKind::Dollar),
        '%' => Some(TokenKind::Percent),
        _ => None,
    }
}

/// Looks `c` up in the table of one-character tokens.
pub fn symbol_token_kind(c: char) -> (r: Option<TokenKind>)
    ensures
        r == symbol_kind(c),
{
    match c {
        ';' => Some(TokenKind::Semi),
        ',' => Some(TokenKind::Comma),
        '.' => Some(TokenKind::Dot),
        '(' => Some(TokenKind::OpenParen),
        ')' => Some(TokenKind::CloseParen),
        '{' => Some(TokenKind::OpenBrace),
        '}' => Some(TokenKind::CloseBrace),
        '[' => Some(TokenKind::OpenBracket),
        ']' => Some(TokenKind::CloseBracket),
        '@' => Some(TokenKind::At),
        '#' => Some(TokenKind::Pound),
        '~' => Some(TokenKind::Tilde),
        '!' => Some(TokenKind::Bang),
        '=' => Some(TokenKind::Eq),
        '+' => Some(TokenKind::Plus),
        '-' => Some(TokenKind::Minus),
        '*' => Some(TokenKind::Star),
        '/' => Some(TokenKind::Slash),
        '<' => Some(TokenKind::Lt),
        '>' => Some(TokenKind::Gt),
        '&' => Some(TokenKind::And),
        '|' => Some(TokenKind::Or),
        '^' => Some(TokenKind::Caret),
        ':' => Some(TokenKind::Colon),
        '?' => Some(TokenKind::Question),
        '$' => Some(TokenKind::Dollar),
        '%' => Some(TokenKind::Percent),
        _ => None,
    }
}

} // verus!
