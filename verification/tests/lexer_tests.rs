use nestmark::lexer::{Lexer, Token};

fn ident(s: &str) -> Token {
    Token::Identifier(s.to_string())
}

fn text(s: &str) -> Token {
    Token::Text(s.to_string())
}

#[test]
fn tokenizes_punctuation() {
    let mut lexer = Lexer::new("{}():;.#");
    assert_eq!(lexer.next_token(), Some(Token::LeftBrace));
    assert_eq!(lexer.next_token(), Some(Token::RightBrace));
    assert_eq!(lexer.next_token(), Some(Token::LeftParen));
    assert_eq!(lexer.next_token(), Some(Token::RightParen));
    assert_eq!(lexer.next_token(), Some(Token::Colon));
    assert_eq!(lexer.next_token(), Some(Token::Semicolon));
    assert_eq!(lexer.next_token(), Some(Token::Dot));
    assert_eq!(lexer.next_token(), Some(Token::Hash));
    assert_eq!(lexer.next_token(), None);
}

#[test]
fn tokenizes_selector_parts() {
    let mut lexer = Lexer::new("div#a.b (hello) { color: red; }");
    assert_eq!(lexer.next_token(), Some(ident("div")));
    assert_eq!(lexer.next_token(), Some(Token::Hash));
    assert_eq!(lexer.next_token(), Some(ident("a")));
    assert_eq!(lexer.next_token(), Some(Token::Dot));
    assert_eq!(lexer.next_token(), Some(ident("b")));
    assert_eq!(lexer.next_token(), Some(Token::LeftParen));
    assert_eq!(lexer.next_token(), Some(ident("hello")));
    assert_eq!(lexer.next_token(), Some(Token::RightParen));
    assert_eq!(lexer.next_token(), Some(Token::LeftBrace));
    assert_eq!(lexer.next_token(), Some(ident("color")));
    assert_eq!(lexer.next_token(), Some(Token::Colon));
    assert_eq!(lexer.next_token(), Some(ident("red")));
    assert_eq!(lexer.next_token(), Some(Token::Semicolon));
    assert_eq!(lexer.next_token(), Some(Token::RightBrace));
    assert_eq!(lexer.next_token(), None);
}

#[test]
fn identifiers_allow_digits_dash_underscore_after_a_letter() {
    let mut lexer = Lexer::new("font-size x_1y");
    assert_eq!(lexer.next_token(), Some(ident("font-size")));
    assert_eq!(lexer.next_token(), Some(ident("x_1y")));
    assert_eq!(lexer.next_token(), None);
}

#[test]
fn a_leading_digit_makes_a_text_token() {
    let mut lexer = Lexer::new("16px");
    assert_eq!(lexer.next_token(), Some(text("16px")));
    assert_eq!(lexer.next_token(), None);
}

#[test]
fn text_runs_stop_at_whitespace_and_punctuation() {
    let mut lexer = Lexer::new("a&b! c)");
    // "a&b!" starts alphabetic, so it splits at the first non-identifier char.
    assert_eq!(lexer.next_token(), Some(ident("a")));
    assert_eq!(lexer.next_token(), Some(text("&b!")));
    assert_eq!(lexer.next_token(), Some(ident("c")));
    assert_eq!(lexer.next_token(), Some(Token::RightParen));
    assert_eq!(lexer.next_token(), None);
}

#[test]
fn a_leading_dash_makes_a_text_token() {
    let mut lexer = Lexer::new("-abc");
    assert_eq!(lexer.next_token(), Some(text("-abc")));
    assert_eq!(lexer.next_token(), None);
}

#[test]
fn whitespace_is_skipped() {
    let mut lexer = Lexer::new("  \t\n  div \r\n {  }\n");
    assert_eq!(lexer.next_token(), Some(ident("div")));
    assert_eq!(lexer.next_token(), Some(Token::LeftBrace));
    assert_eq!(lexer.next_token(), Some(Token::RightBrace));
    assert_eq!(lexer.next_token(), None);
}

#[test]
fn exhausted_lexer_keeps_yielding_none() {
    let mut lexer = Lexer::new("p");
    assert_eq!(lexer.next_token(), Some(ident("p")));
    assert_eq!(lexer.next_token(), None);
    assert_eq!(lexer.next_token(), None);
    assert_eq!(lexer.next_token(), None);
}

#[test]
fn empty_and_blank_input_yield_nothing() {
    let mut lexer = Lexer::new("");
    assert_eq!(lexer.next_token(), None);
    let mut blank = Lexer::new("   \n\t  ");
    assert_eq!(blank.next_token(), None);
}

#[test]
fn a_lexer_copy_peeks_without_advancing_the_original() {
    let mut lexer = Lexer::new("div {");
    let mut peek = lexer;
    assert_eq!(peek.next_token(), Some(ident("div")));
    assert_eq!(peek.next_token(), Some(Token::LeftBrace));
    // The original still starts at the beginning.
    assert_eq!(lexer.next_token(), Some(ident("div")));
}
