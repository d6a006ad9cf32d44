//! The lexer: turns source text into the token stream the parser consumes.

use vstd::prelude::*;

use crate::token::{TokV, Token};

verus! {

pub open spec fn is_ws(c: char) -> bool {
    c == ' ' || c == '\t' || c == '\n' || c == '\r'
}

pub open spec fn is_letter(c: char) -> bool {
    ('a' <= c && c <= 'z') || ('A' <= c && c <= 'Z') || c == '_'
}

pub open spec fn is_digit(c: char) -> bool {
    '0' <= c && c <= '9'
}

/// The position of the first non-whitespace character at or after `pos`.
pub open spec fn skip_ws_spec(s: Seq<char>, pos: int) -> int
    decreases s.len() - pos,
{
    if 0 <= pos < s.len() && is_ws(s[pos]) {
        skip_ws_spec(s, pos + 1)
    } else {
        pos
    }
}

/// The position just past the identifier letters starting at `pos`.
pub open spec fn ident_end(s: Seq<char>, pos: int) -> int
    decreases s.len() - pos,
{
    if 0 <= pos < s.len() && is_letter(s[pos]) {
        ident_end(s, pos + 1)
    } else {
        pos
    }
}

/// The position just past the digits starting at `pos`.
pub open spec fn int_end(s: Seq<char>, pos: int) -> int
    decreases s.len() - pos,
{
    if 0 <= pos < s.len() && is_digit(s[pos]) {
        int_end(s, pos + 1)
    } else {
        pos
    }
}

/// A word is either one of the keywords or an identifier.
pub open spec fn keyword_or_ident(text: Seq<char>) -> TokV {
    if text == "let"@ {
        TokV::Let
    } else if text == "return"@ {
        TokV::Return
    } else if text == "true"@ {
        TokV::True
    } else if text == "false"@ {
        TokV::False
    } else if text == "if"@ {
        TokV::If
    } else if text == "else"@ {
        TokV::Else
    } else {
        TokV::Ident(text)
    }
}

/// The next token at or after `pos`, and the position just past it.
/// `None` means the end of the input was reached.
pub open spec fn next_token_spec(s: Seq<char>, pos: int) -> (Option<TokV>, int) {
    let p = skip_ws_spec(s, pos);
    if !(0 <= p < s.len()) {
        (None, p)
    } else {
        let c = s[p];
        if c == '=' {
            if p + 1 < s.len() && s[p + 1] == '=' {
                (Some(TokV::Eq), p + 2)
            } else {
                (Some(TokV::Assign), p + 1)
            }
        } else if c == '!' {
            if p + 1 < s.len() && s[p + 1] == '=' {
                (Some(TokV::Ne), p + 2)
            } else {
                (Some(TokV::Bang), p + 1)
            }
        } else if c == '+' {
            (Some(TokV::Plus), p + 1)
        } else if c == '-' {
            (Some(TokV::Minus), p + 1)
        } else if c == '*' {
            (Some(TokV::Asterisk), p + 1)
        } else if c == '/' {
            (Some(TokV::Slash), p + 1)
        } else if c == '<' {
            (Some(TokV::Lt), p + 1)
        } else if c == '>' {
            (Some(TokV::Gt), p + 1)
        } else if c == ';' {
            (Some(TokV::Semicolon), p + 1)
        } else if c == '(' {
            (Some(TokV::LParen), p + 1)
        } else if c == ')' {
            (Some(TokV::RParen), p + 1)
        } else if c == '{' {
            (Some(TokV::LBrace), p + 1)
        } else if c == '}' {
            (Some(TokV::RBrace), p + 1)
        } else if is_letter(c) {
            let e = ident_end(s, p);
            (Some(keyword_or_ident(s.subrange(p, e))), e)
        } else if is_digit(c) {
            let e = int_end(s, p);
            (Some(TokV::Int(s.subrange(p, e))), e)
        } else {
            (Some(TokV::Illegal), p + 1)
        }
    }
}

pub proof fn lemma_skip_ws_bounds(s: Seq<char>, pos: int)
    requires
        0 <= pos <= s.len(),
    ensures
        pos <= skip_ws_spec(s, pos) <= s.len(),
    decreases s.len() - pos,
{
    if pos < s.len() && is_ws(s[pos]) {
        lemma_skip_ws_bounds(s, pos + 1);
    }
}

pub proof fn lemma_ident_end_bounds(s: Seq<char>, pos: int)
    requires
        0 <= pos <= s.len(),
    ensures
        pos <= ident_end(s, pos) <= s.len(),
    decreases s.len() - pos,
{
    if pos < s.len() && is_letter(s[pos]) {
        lemma_ident_end_bounds(s, pos + 1);
    }
}

pub proof fn lemma_int_end_bounds(s: Seq<char>, pos: int)
    requires
        0 <= pos <= s.len(),
    ensures
        pos <= int_end(s, pos) <= s.len(),
    decreases s.len() - pos,
{
    if pos < s.len() && is_digit(s[pos]) {
        lemma_int_end_bounds(s, pos + 1);
    }
}

/// Lexing advances: a token occupies at least one character, and the new
/// position never leaves the input.
pub proof fn lemma_next_token_advances(s: Seq<char>, pos: int)
    requires
        0 <= pos <= s.len(),
    ensures
        ({
            let (t, p) = next_token_spec(s, pos);
            pos <= p <= s.len() && (t is Some ==> p > pos)
        }),
{
    lemma_skip_ws_bounds(s, pos);
    let q = skip_ws_spec(s, pos);
    if 0 <= q < s.len() {
        let c = s[q];
        if is_letter(c) {
            lemma_ident_end_bounds(s, q + 1);
            assert(ident_end(s, q) == ident_end(s, q + 1));
        } else if is_digit(c) {
            lemma_int_end_bounds(s, q + 1);
            assert(int_end(s, q) == int_end(s, q + 1));
        }
    }
}

/// All tokens from `pos` to the end of the input.
pub open spec fn tokens_from(s: Seq<char>, pos: int) -> Seq<TokV>
    decreases s.len() - pos,
{
    let (t, p) = next_token_spec(s, pos);
    match t {
        None => Seq::empty(),
        Some(tv) => if pos < p <= s.len() {
            seq![tv] + tokens_from(s, p)
        } else {
            seq![tv]
        },
    }
}

/// The lexer: the input text and the current scan position.
#[derive(Debug)]
pub struct Lexer {
    input: String,
    pos: usize,
}

/// The mathematical image of a lexer.
pub struct LexerV {
    pub input: Seq<char>,
    pub pos: nat,
}

impl View for Lexer {
    type V = LexerV;

    closed spec fn view(&self) -> LexerV {
        LexerV { input: self.input@, pos: self.pos as nat }
    }
}

impl Lexer {
    /// A lexer at the start of `input`.
    pub fn new(input: String) -> (r: Lexer)
        ensures
            r@.input == input@,
            r@.pos == 0,
    {
        Lexer { input, pos: 0 }
    }

    /// The next token, or `None` at the end of the input.
    pub fn next_token(&mut self) -> (t: Option<Token>)
        requires
            old(self)@.pos <= old(self)@.input.len(),
        ensures
            final(self)@.input == old(self)@.input,
            final(self)@.pos == next_token_spec(old(self)@.input, old(self)@.pos as int).1,
            final(self)@.pos <= final(self)@.input.len(),
            match (t, next_token_spec(old(self)@.input, old(self)@.pos as int).0) {
                (Some(tok), Some(tv)) => tok@ == tv,
                (None, None) => true,
                _ => false,
            },
    {
        proof {
            lemma_next_token_advances(self@.input, self@.pos as int);
        }
        let ghost s = self.input@;
        let n: usize = self.input.as_str().unicode_len();
        while self.pos < n && is_ws_char(self.input.as_str().get_char(self.pos))
            invariant
                self.input@ == s,
                n == s.len(),
                0 <= self.pos <= n,
                skip_ws_spec(s, self.pos as int) == skip_ws_spec(s, old(self)@.pos as int),
            decreases n - self.pos,
        {
            self.pos = self.pos + 1;
        }
        proof {
            assert(skip_ws_spec(s, self.pos as int) == self.pos as int);
        }
        if self.pos >= n {
            return None;
        }
        let p: usize = self.pos;
        let c = self.input.as_str().get_char(p);
        if c == '=' {
            if p + 1 < n && self.input.as_str().get_char(p + 1) == '=' {
                self.pos = p + 2;
                Some(Token::Eq)
            } else {
                self.pos = p + 1;
                Some(Token::Assign)
            }
        } else if c == '!' {
            if p + 1 < n && self.input.as_str().get_char(p + 1) == '=' {
                self.pos = p + 2;
                Some(Token::Ne)
            } else {
                self.pos = p + 1;
                Some(Token::Bang)
            }
        } else if c == '+' {
            self.pos = p + 1;
            Some(Token::Plus)
        } else if c == '-' {
            self.pos = p + 1;
            Some(Token::Minus)
        } else if c == '*' {
            self.pos = p + 1;
            Some(Token::Asterisk)
        } else if c == '/' {
            self.pos = p + 1;
            Some(Token::Slash)
        } else if c == '<' {
            self.pos = p + 1;
            Some(Token::Lt)
        } else if c == '>' {
            self.pos = p + 1;
            Some(Token::Gt)
        } else if c == ';' {
            self.pos = p + 1;
            Some(Token::Semicolon)
        } else if c == '(' {
            self.pos = p + 1;
            Some(Token::LParen)
        } else if c == ')' {
            self.pos = p + 1;
            Some(Token::RParen)
        } else if c == '{' {
            self.pos = p + 1;
            Some(Token::LBrace)
        } else if c == '}' {
            self.pos = p + 1;
            Some(Token::RBrace)
        } else if ('a' <= c && c <= 'z') || ('A' <= c && c <= 'Z') || c == '_' {
            while self.pos < n && is_letter_char(self.input.as_str().get_char(self.pos))
                invariant
                    self.input@ == s,
                    n == s.len(),
                    p <= self.pos <= n,
                    ident_end(s, self.pos as int) == ident_end(s, p as int),
                decreases n - self.pos,
            {
                self.pos = self.pos + 1;
            }
            proof {
                assert(ident_end(s, self.pos as int) == self.pos as int);
            }
            let text: String = self.input.as_str().substring_char(p, self.pos).to_owned();
            let word = keyword_token(text);
            proof {
                assert(word@ == keyword_or_ident(s.subrange(p as int, self.pos as int)));
            }
            Some(word)
        } else if '0' <= c && c <= '9' {
            while self.pos < n && is_digit_char(self.input.as_str().get_char(self.pos))
                invariant
                    self.input@ == s,
                    n == s.len(),
                    p <= self.pos <= n,
                    int_end(s, self.pos as int) == int_end(s, p as int),
                decreases n - self.pos,
            {
                self.pos = self.pos + 1;
            }
            proof {
                assert(int_end(s, self.pos as int) == self.pos as int);
            }
            let text: String = self.input.as_str().substring_char(p, self.pos).to_owned();
            Some(Token::Int(text))
        } else {
            self.pos = p + 1;
            Some(Token::Illegal)
        }
    }
}

fn is_ws_char(c: char) -> (r: bool)
    ensures
        r == is_ws(c),
{
    c == ' ' || c == '\t' || c == '\n' || c == '\r'
}

fn is_letter_char(c: char) -> (r: bool)
    ensures
        r == is_letter(c),
{
    ('a' <= c && c <= 'z') || ('A' <= c && c <= 'Z') || c == '_'
}

fn is_digit_char(c: char) -> (r: bool)
    ensures
        r == is_digit(c),
{
    '0' <= c && c <= '9'
}

/// Sorts a scanned word into its keyword token, or an identifier.
fn keyword_token(text: String) -> (t: Token)
    ensures
        t@ == keyword_or_ident(text@),
{
    if text == String::from_str("let") {
        Token::Let
    } else if text == String::from_str("return") {
        Token::Return
    } else if text == String::from_str("true") {
        Token::True
    } else if text == String::from_str("false") {
        Token::False
    } else if text == String::from_str("if") {
        Token::If
    } else if text == String::from_str("else") {
        Token::Else
    } else {
        Token::Ident(text)
    }
}

} // verus!
