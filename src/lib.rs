//! A lexical scanner for a small C-like scripting language.
pub mod model;
pub mod token;

use vstd::prelude::*;
use vstd::string::StrSliceExecFns;
use crate::model::{char_at, ident_end, is_digit_char, is_letter_char, lemma_run_end_bounds, lemma_step_advances, lemma_token_literal, next_step, number_end, skip_end, tokens, tokens_from, unicode_alphabetic, is_white_space_char};
use crate::token::{symbol_token_kind, LiteralKind, Token, TokenKind};

verus! {

/// Relies on char::is_whitespace: whether `c` has the Unicode White_Space
/// property.
#[verifier::external_body]
fn white_space(c: char) -> (r: bool)
    ensures
        r == is_white_space_char(c),
{
    c.is_whitespace()
}

/// Relies on char::is_alphabetic: whether `c` has the Unicode Alphabetic
/// property, which among ASCII characters holds of the letters alone.
#[verifier::external_body]
fn alphabetic(c: char) -> (r: bool)
    ensures
        r == unicode_alphabetic(c),
        c <= '\x7f' ==> (r == (('a' <= c && c <= 'z') || ('A' <= c && c <= 'Z'))),
{
    c.is_alphabetic()
}

/// A cursor over a source text that hands out its tokens one at a time.
///
/// Positions count characters, not bytes. Past the end of the input the
/// current character is the null sentinel.
pub struct Lexer<'a> {
    input: &'a str,
    /// number of characters in `input`
    len: usize,
    /// current position in input (points to current char)
    position: usize,
    /// current reading position in input (after current char)
    read_position: usize,
    /// current char under examination
    ch: char,
}

impl<'a> Lexer<'a> {
    /// The characters being scanned.
    pub closed spec fn text(&self) -> Seq<char> {
        self.input@
    }

    /// The index of the character under examination.
    pub closed spec fn pos(&self) -> int {
        self.position as int
    }

    /// The index of the next character to read.
    pub closed spec fn read_pos(&self) -> int {
        self.read_position as int
    }

    /// The read position is one past the cursor, and `ch` is the character
    /// under the cursor.
    pub closed spec fn wf(&self) -> bool {
        &&& self.len == self.input@.len()
        &&& self.len < usize::MAX
        &&& self.read_position == self.position + 1
        &&& self.ch == char_at(self.input@, self.position as int)
    }

    /// The character under examination, or the sentinel past the end.
    pub open spec fn current(&self) -> char {
        char_at(self.text(), self.pos())
    }

    /// A cursor on the first character of `input`.
    pub fn new(input: &'a str) -> (r: Lexer<'a>)
        requires
            input@.len() < usize::MAX,
        ensures
            r.wf(),
            r.text() == input@,
            r.pos() == 0,
            r.read_pos() == 1,
    {
        let len = input.unicode_len();
        let ch = if len > 0 {
            input.get_char(0)
        } else {
            '\0'
        };
        Lexer { input, len, position: 0, read_position: 1, ch }
    }

    /// Moves to the next character: the position takes the read position,
    /// which moves on by one, past the end of the input too.
    pub fn read_char(&mut self)
        requires
            old(self).wf(),
            old(self).pos() + 1 < usize::MAX,
        ensures
            final(self).wf(),
            final(self).text() == old(self).text(),
            final(self).pos() == old(self).pos() + 1,
            final(self).read_pos() == old(self).read_pos() + 1,
    {
        if self.read_position >= self.len {
            self.ch = '\0';
        } else {
            self.ch = self.input.get_char(self.read_position);
        }
        self.position = self.read_position;
        self.read_position = self.read_position + 1;
    }

    /// Returns the current character as a string and moves past it.
    pub fn consume_char(&mut self) -> (r: String)
        requires
            old(self).wf(),
            old(self).pos() + 1 < usize::MAX,
        ensures
            final(self).wf(),
            final(self).text() == old(self).text(),
            final(self).pos() == old(self).pos() + 1,
            r@ == seq![old(self).current()],
    {
        let r = if self.position < self.len {
            self.input.substring_char(self.position, self.position + 1).to_owned()
        } else {
            proof {
                reveal_strlit("\0");
            }
            "\0".to_owned()
        };
        self.read_char();
        r
    }

    /// Reads the maximal run of letters that starts at the cursor.
    pub fn read_ident(&mut self) -> (r: String)
        requires
            old(self).wf(),
        ensures
            final(self).wf(),
            final(self).text() == old(self).text(),
            final(self).pos() == ident_end(old(self).text(), old(self).pos()),
            r@ == if old(self).pos() < old(self).text().len() {
                old(self).text().subrange(old(self).pos(), final(self).pos())
            } else {
                Seq::empty()
            },
    {
        if self.position >= self.len {
            return String::new();
        }
        let position = self.position;
        proof {
            lemma_run_end_bounds(self.text(), self.pos(), |x: char| is_letter_char(x));
        }
        while self.position < self.len && self.is_letter()
            invariant
                self.wf(),
                self.text() == old(self).text(),
                position <= self.position <= self.len,
                ident_end(self.text(), position as int) == ident_end(self.text(), self.pos()),
            decreases self.len - self.position,
        {
            self.read_char();
        }
        self.input.substring_char(position, self.position).to_owned()
    }

    /// Reads the maximal run of ASCII digits that starts at the cursor.
    pub fn read_number(&mut self) -> (r: String)
        requires
            old(self).wf(),
        ensures
            final(self).wf(),
            final(self).text() == old(self).text(),
            final(self).pos() == number_end(old(self).text(), old(self).pos()),
            r@ == if old(self).pos() < old(self).text().len() {
                old(self).text().subrange(old(self).pos(), final(self).pos())
            } else {
                Seq::empty()
            },
    {
        if self.position >= self.len {
            return String::new();
        }
        let position = self.position;
        while self.position < self.len && self.is_digit()
            invariant
                self.wf(),
                self.text() == old(self).text(),
                position <= self.position <= self.len,
                number_end(self.text(), position as int) == number_end(self.text(), self.pos()),
            decreases self.len - self.position,
        {
            self.read_char();
        }
        self.input.substring_char(position, self.position).to_owned()
    }

    /// Moves past the whitespace that starts at the cursor.
    pub fn skip_whitespace(&mut self)
        requires
            old(self).wf(),
        ensures
            final(self).wf(),
            final(self).text() == old(self).text(),
            final(self).pos() == skip_end(old(self).text(), old(self).pos()),
    {
        while self.position < self.len && white_space(self.ch)
            invariant
                self.wf(),
                self.text() == old(self).text(),
                skip_end(self.text(), old(self).pos()) == skip_end(self.text(), self.pos()),
            decreases self.len - self.position,
        {
            self.read_char();
        }
    }

    /// Whether the current character may stand in an identifier.
    pub fn is_letter(&self) -> (r: bool)
        requires
            self.wf(),
        ensures
            r == is_letter_char(self.current()),
    {
        alphabetic(self.ch) || self.ch == '_'
    }

    /// Whether the current character is an ASCII digit.
    pub fn is_digit(&self) -> (r: bool)
        requires
            self.wf(),
        ensures
            r == is_digit_char(self.current()),
    {
        '0' <= self.ch && self.ch <= '9'
    }

    /// Produces the next token, or `None` once only whitespace is left.
    pub fn next(&mut self) -> (r: Option<Token>)
        requires
            old(self).wf(),
        ensures
            final(self).wf(),
            final(self).text() == old(self).text(),
            final(self).pos() == next_step(old(self).text(), old(self).pos()).1,
            match r {
                Some(t) => next_step(old(self).text(), old(self).pos()).0 == Some(t@),
                None => next_step(old(self).text(), old(self).pos()).0 is None,
            },
            r matches Some(t) ==> t.literal@.len() > 0,
    {
        self.skip_whitespace();
        if self.position >= self.len {
            return None;
        }
        proof {
            lemma_token_literal(self.text(), self.pos());
        }
        let token = match symbol_token_kind(self.ch) {
            Some(kind) => Token::new(kind, self.consume_char()),
            None => if self.is_letter() {
                Token::new(TokenKind::Ident, self.read_ident())
            } else if self.is_digit() {
                Token::new(TokenKind::Literal { kind: LiteralKind::Int }, self.read_number())
            } else {
                Token::new(TokenKind::Unknown, self.consume_char())
            },
        };
        Some(token)
    }
}

/// Scans a whole input: requests tokens until none is left.
pub fn tokenize(input: &str) -> (r: Vec<Token>)
    requires
        input@.len() < usize::MAX,
    ensures
        r@.map_values(|t: Token| t@) == tokens(input@),
{
    let mut lexer = Lexer::new(input);
    let mut out: Vec<Token> = Vec::new();
    let mut done = false;
    while !done
        invariant
            lexer.wf(),
            lexer.text() == input@,
            0 <= lexer.pos() <= input@.len(),
            out@.map_values(|t: Token| t@) + tokens_from(input@, lexer.pos()) == tokens(input@),
            done ==> tokens_from(input@, lexer.pos()) == Seq::<(TokenKind, Seq<char>)>::empty(),
        decreases input@.len() - lexer.pos(), if done { 0int } else { 1int },
    {
        let ghost s = input@;
        let ghost p = lexer.pos();
        proof {
            lemma_step_advances(s, p);
        }
        match lexer.next() {
            Some(t) => {
                let ghost before = out@.map_values(|t: Token| t@);
                out.push(t);
                assert(out@.map_values(|t: Token| t@) =~= before.push(t@));
                assert(tokens_from(s, p) == seq![t@] + tokens_from(s, lexer.pos()));
                assert(before + tokens_from(s, p) =~= out@.map_values(|t: Token| t@) + tokens_from(s, lexer.pos()));
            },
            None => {
                proof {
                    lemma_step_advances(s, lexer.pos());
                }
                assert(out@.map_values(|t: Token| t@) + tokens_from(s, p) =~= out@.map_values(|t: Token| t@));
                done = true;
            },
        }
    }
    out
}

} // verus!
