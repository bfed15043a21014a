//! Tokenization of source text.
//!
//! [`tokens_of`] is the mathematical description of the token stream: it
//! skips whitespace, turns each of the eight punctuation characters into its
//! fixed token, reads identifiers `[A-Za-z][A-Za-z0-9_-]*`, and gathers every
//! other maximal run of non-whitespace, non-punctuation characters into a
//! free-form text token. The executable [`Lexer`] produces exactly that
//! stream, one token per call of [`Lexer::next_token`]. Tokenization never
//! fails; malformed input surfaces only as unexpected tokens to the parser.

use vstd::prelude::*;
use vstd::string::StrSliceExecFns;
use crate::chars::{
    alpha_char, ident_char, is_alpha_char, is_ident_char, is_punct_char, is_space_char,
    is_text_char, space_char,
};

verus! {

/// A lexical token of the source language.
#[derive(Debug, PartialEq, Clone)]
pub enum Token {
    Identifier(String),
    LeftBrace,
    RightBrace,
    LeftParen,
    RightParen,
    Colon,
    Semicolon,
    Dot,
    Hash,
    Text(String),
}

/// The mathematical value of a token: identifier and text payloads are
/// character sequences.
pub enum TokenModel {
    Identifier(Seq<char>),
    LeftBrace,
    RightBrace,
    LeftParen,
    RightParen,
    Colon,
    Semicolon,
    Dot,
    Hash,
    Text(Seq<char>),
}

impl View for Token {
    type V = TokenModel;

    open spec fn view(&self) -> TokenModel {
        match self {
            Token::Identifier(s) => TokenModel::Identifier(s@),
            Token::LeftBrace => TokenModel::LeftBrace,
            Token::RightBrace => TokenModel::RightBrace,
            Token::LeftParen => TokenModel::LeftParen,
            Token::RightParen => TokenModel::RightParen,
            Token::Colon => TokenModel::Colon,
            Token::Semicolon => TokenModel::Semicolon,
            Token::Dot => TokenModel::Dot,
            Token::Hash => TokenModel::Hash,
            Token::Text(s) => TokenModel::Text(s@),
        }
    }
}

/// The token a punctuation character stands for.
pub open spec fn punct_token(c: char) -> TokenModel {
    if c == '{' {
        TokenModel::LeftBrace
    } else if c == '}' {
        TokenModel::RightBrace
    } else if c == '(' {
        TokenModel::LeftParen
    } else if c == ')' {
        TokenModel::RightParen
    } else if c == ':' {
        TokenModel::Colon
    } else if c == ';' {
        TokenModel::Semicolon
    } else if c == '.' {
        TokenModel::Dot
    } else {
        TokenModel::Hash
    }
}

/// The first position at or after `i` that does not hold whitespace.
pub open spec fn skip_ws_end(s: Seq<char>, i: int) -> int
    recommends
        0 <= i <= s.len(),
    decreases s.len() - i,
{
    if i < 0 || i >= s.len() {
        i
    } else if !is_space_char(s[i]) {
        i
    } else {
        skip_ws_end(s, i + 1)
    }
}

/// The first position at or after `i` that cannot continue an identifier.
pub open spec fn ident_end(s: Seq<char>, i: int) -> int
    recommends
        0 <= i <= s.len(),
    decreases s.len() - i,
{
    if i < 0 || i >= s.len() {
        i
    } else if !is_ident_char(s[i]) {
        i
    } else {
        ident_end(s, i + 1)
    }
}

/// The first position at or after `i` that cannot continue a text token.
pub open spec fn text_end(s: Seq<char>, i: int) -> int
    recommends
        0 <= i <= s.len(),
    decreases s.len() - i,
{
    if i < 0 || i >= s.len() {
        i
    } else if !is_text_char(s[i]) {
        i
    } else {
        text_end(s, i + 1)
    }
}

/// The token starting at position `i` of `s` (after leading whitespace) and
/// the position just past it, or `None` when only whitespace remains.
pub open spec fn spec_token_at(s: Seq<char>, i: int) -> Option<(TokenModel, int)> {
    let j = skip_ws_end(s, i);
    if j >= s.len() {
        None
    } else if is_punct_char(s[j]) {
        Some((punct_token(s[j]), j + 1))
    } else if is_alpha_char(s[j]) {
        let e = ident_end(s, j + 1);
        Some((TokenModel::Identifier(s.subrange(j, e)), e))
    } else {
        let e = text_end(s, j + 1);
        Some((TokenModel::Text(s.subrange(j, e)), e))
    }
}

/// All tokens of `s` from position `i` on.
pub open spec fn tokens_from(s: Seq<char>, i: int) -> Seq<TokenModel>
    decreases s.len() - i,
{
    match spec_token_at(s, i) {
        Some((t, j)) => {
            if i < j <= s.len() {
                seq![t] + tokens_from(s, j)
            } else {
                Seq::empty()
            }
        },
        None => Seq::empty(),
    }
}

/// The whole token stream of a source text.
pub open spec fn tokens_of(s: Seq<char>) -> Seq<TokenModel> {
    tokens_from(s, 0)
}

pub proof fn lemma_skip_ws_end(s: Seq<char>, i: int)
    requires
        0 <= i <= s.len(),
    ensures
        i <= skip_ws_end(s, i) <= s.len(),
        skip_ws_end(s, i) < s.len() ==> !is_space_char(s[skip_ws_end(s, i)]),
        forall|k: int| i <= k < skip_ws_end(s, i) ==> is_space_char(s[k]),
    decreases s.len() - i,
{
    if i < s.len() && is_space_char(s[i]) {
        lemma_skip_ws_end(s, i + 1);
    }
}

pub proof fn lemma_ident_end(s: Seq<char>, i: int)
    requires
        0 <= i <= s.len(),
    ensures
        i <= ident_end(s, i) <= s.len(),
        ident_end(s, i) < s.len() ==> !is_ident_char(s[ident_end(s, i)]),
        forall|k: int| i <= k < ident_end(s, i) ==> is_ident_char(s[k]),
    decreases s.len() - i,
{
    if i < s.len() && is_ident_char(s[i]) {
        lemma_ident_end(s, i + 1);
    }
}

pub proof fn lemma_text_end(s: Seq<char>, i: int)
    requires
        0 <= i <= s.len(),
    ensures
        i <= text_end(s, i) <= s.len(),
        text_end(s, i) < s.len() ==> !is_text_char(s[text_end(s, i)]),
        forall|k: int| i <= k < text_end(s, i) ==> is_text_char(s[k]),
    decreases s.len() - i,
{
    if i < s.len() && is_text_char(s[i]) {
        lemma_text_end(s, i + 1);
    }
}

/// A token always stands strictly after the position it was read from, and
/// never past the end of the input.
pub proof fn lemma_token_at_advances(s: Seq<char>, i: int)
    requires
        0 <= i <= s.len(),
    ensures
        match spec_token_at(s, i) {
            Some((t, j)) => i < j <= s.len(),
            None => skip_ws_end(s, i) == s.len(),
        },
{
    lemma_skip_ws_end(s, i);
    let j = skip_ws_end(s, i);
    if j < s.len() {
        if is_punct_char(s[j]) {
        } else if is_alpha_char(s[j]) {
            lemma_ident_end(s, j + 1);
        } else {
            lemma_text_end(s, j + 1);
        }
    }
}

impl Token {
    /// The fixed token a punctuation character denotes, if it denotes one.
    fn from_char(c: char) -> (r: Option<Self>)
        ensures
            match r {
                Some(t) => is_punct_char(c) && t@ == punct_token(c),
                None => !is_punct_char(c),
            },
    {
        match c {
            '{' => Some(Self::LeftBrace),
            '}' => Some(Self::RightBrace),
            '(' => Some(Self::LeftParen),
            ')' => Some(Self::RightParen),
            ':' => Some(Self::Colon),
            ';' => Some(Self::Semicolon),
            '.' => Some(Self::Dot),
            '#' => Some(Self::Hash),
            _ => None,
        }
    }

    /// Whether a character is a token all by itself.
    fn uniquely_determined_by(c: char) -> (r: bool)
        ensures
            r == is_punct_char(c),
    {
        Self::from_char(c).is_some()
    }
}

/// A pull-based tokenizer over a borrowed source string.
///
/// Cheap to copy, so a consumer can snapshot the current position, peek ahead
/// on the copy, and discard it without advancing the original.
#[derive(Clone, Copy)]
pub struct Lexer<'a> {
    input: &'a str,
    pos: usize,
}

impl<'a> Lexer<'a> {
    /// The source text being tokenized.
    pub closed spec fn src(&self) -> Seq<char> {
        self.input@
    }

    /// The current position, as a character index into the source.
    pub closed spec fn position(&self) -> int {
        self.pos as int
    }

    pub closed spec fn wf(&self) -> bool {
        self.pos <= self.input@.len()
    }

    pub fn new(input: &'a str) -> (r: Self)
        ensures
            r.wf(),
            r.src() == input@,
            r.position() == 0,
    {
        Lexer { input, pos: 0 }
    }

    /// Produces the next token, or `None` once only whitespace remains.
    /// After exhaustion the lexer stays at the end of the input, so further
    /// calls keep returning `None`.
    pub fn next_token(&mut self) -> (r: Option<Token>)
        requires
            old(self).wf(),
        ensures
            final(self).wf(),
            final(self).src() == old(self).src(),
            match spec_token_at(old(self).src(), old(self).position()) {
                Some((t, j)) => r matches Some(tok) && tok@ == t && final(self).position() == j,
                None => r is None && final(self).position() == final(self).src().len(),
            },
    {
        proof {
            lemma_skip_ws_end(self.src(), self.position());
        }
        self.skip_whitespace();

        let n = self.input.unicode_len();
        if self.pos >= n {
            return None;
        }
        let c = self.input.get_char(self.pos);
        let punct = Token::from_char(c);
        match punct {
            Some(token) => {
                self.pos = self.pos + 1;
                Some(token)
            },
            None => {
                if alpha_char(c) {
                    Some(self.read_identifier())
                } else {
                    Some(self.read_text())
                }
            },
        }
    }

    /// Reads one identifier token starting at the current position.
    fn read_identifier(&mut self) -> (t: Token)
        requires
            old(self).wf(),
            old(self).position() < old(self).src().len(),
            is_alpha_char(old(self).src()[old(self).position()]),
        ensures
            final(self).wf(),
            final(self).src() == old(self).src(),
            final(self).position() == ident_end(final(self).src(), old(self).position() + 1),
            t@ == TokenModel::Identifier(
                final(self).src().subrange(old(self).position(), final(self).position()),
            ),
    {
        let ghost s = self.src();
        let n = self.input.unicode_len();
        let start = self.pos;
        self.pos = self.pos + 1;
        proof {
            lemma_ident_end(s, start + 1);
        }
        while self.pos < n && ident_char(self.input.get_char(self.pos))
            invariant
                self.wf(),
                self.src() == s,
                n == s.len(),
                start + 1 <= self.pos <= n,
                ident_end(s, start + 1) == ident_end(s, self.pos as int),
            decreases n - self.pos,
        {
            self.pos = self.pos + 1;
        }
        proof {
            assert(ident_end(s, self.pos as int) == self.pos as int);
        }
        let sub = self.input.substring_char(start, self.pos);
        Token::Identifier(sub.to_owned())
    }

    /// Reads one free-form text token starting at the current position.
    fn read_text(&mut self) -> (t: Token)
        requires
            old(self).wf(),
            old(self).position() < old(self).src().len(),
            is_text_char(old(self).src()[old(self).position()]),
        ensures
            final(self).wf(),
            final(self).src() == old(self).src(),
            final(self).position() == text_end(final(self).src(), old(self).position() + 1),
            t@ == TokenModel::Text(
                final(self).src().subrange(old(self).position(), final(self).position()),
            ),
    {
        let ghost s = self.src();
        let n = self.input.unicode_len();
        let start = self.pos;
        self.pos = self.pos + 1;
        proof {
            lemma_text_end(s, start + 1);
        }
        while self.pos < n && !space_char(self.input.get_char(self.pos))
            && !Token::uniquely_determined_by(self.input.get_char(self.pos))
            invariant
                self.wf(),
                self.src() == s,
                n == s.len(),
                start + 1 <= self.pos <= n,
                text_end(s, start + 1) == text_end(s, self.pos as int),
            decreases n - self.pos,
        {
            self.pos = self.pos + 1;
        }
        proof {
            assert(text_end(s, self.pos as int) == self.pos as int);
        }
        let sub = self.input.substring_char(start, self.pos);
        Token::Text(sub.to_owned())
    }

    /// Advances past whitespace.
    fn skip_whitespace(&mut self)
        requires
            old(self).wf(),
        ensures
            final(self).wf(),
            final(self).src() == old(self).src(),
            final(self).position() == skip_ws_end(old(self).src(), old(self).position()),
    {
        let ghost s = self.src();
        let ghost start = self.position();
        let n = self.input.unicode_len();
        proof {
            lemma_skip_ws_end(s, start);
        }
        while self.pos < n && space_char(self.input.get_char(self.pos))
            invariant
                self.wf(),
                self.src() == s,
                n == s.len(),
                start <= self.pos <= n,
                skip_ws_end(s, start) == skip_ws_end(s, self.pos as int),
            decreases n - self.pos,
        {
            self.pos = self.pos + 1;
        }
        proof {
            assert(skip_ws_end(s, self.pos as int) == self.pos as int);
        }
    }
}

} // verus!
