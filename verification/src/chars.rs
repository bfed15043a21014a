//! Character classes of the source language.
//!
//! The grammar is ASCII-oriented: identifiers match `[A-Za-z][A-Za-z0-9_-]*`,
//! whitespace is the ASCII kind, and eight punctuation characters introduce
//! fixed tokens. Each class has a spec-level definition; the executable
//! tests that the lexer needs are proved equal to them.

use vstd::prelude::*;

verus! {

/// Whitespace separating tokens.
pub open spec fn is_space_char(c: char) -> bool {
    c == ' ' || c == '\t' || c == '\n' || c == '\r'
}

/// The eight punctuation characters, each of which is a token by itself.
pub open spec fn is_punct_char(c: char) -> bool {
    c == '{' || c == '}' || c == '(' || c == ')' || c == ':' || c == ';' || c == '.' || c == '#'
}

/// A letter, which may start an identifier.
pub open spec fn is_alpha_char(c: char) -> bool {
    ('a' <= c && c <= 'z') || ('A' <= c && c <= 'Z')
}

/// A character that may continue an identifier.
pub open spec fn is_ident_char(c: char) -> bool {
    is_alpha_char(c) || ('0' <= c && c <= '9') || c == '-' || c == '_'
}

/// A character that may continue a free-form text token: anything that is
/// neither whitespace nor punctuation.
pub open spec fn is_text_char(c: char) -> bool {
    !is_space_char(c) && !is_punct_char(c)
}

pub fn space_char(c: char) -> (r: bool)
    ensures
        r == is_space_char(c),
{
    c == ' ' || c == '\t' || c == '\n' || c == '\r'
}

pub fn alpha_char(c: char) -> (r: bool)
    ensures
        r == is_alpha_char(c),
{
    ('a' <= c && c <= 'z') || ('A' <= c && c <= 'Z')
}

pub fn ident_char(c: char) -> (r: bool)
    ensures
        r == is_ident_char(c),
{
    alpha_char(c) || ('0' <= c && c <= '9') || c == '-' || c == '_'
}

} // verus!
