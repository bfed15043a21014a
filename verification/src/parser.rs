//! A recursive-descent parser for the nesting markup-and-style language.
//!
//! The grammar is stated by the `sp_parse_*` spec functions over a token
//! sequence; [`Parser::parse`] returns exactly what they describe. At the
//! start of each node, one token of lookahead (two after an identifier)
//! decides between a selector and a declaration list: a leading dot or hash
//! starts a selector, an identifier followed by a colon starts a declaration,
//! any other identifier starts a selector, and every other leading token is a
//! grammar error. Lookahead never consumes tokens. Every parse error aborts
//! the whole parse; no partial tree is returned.

use vstd::prelude::*;
use crate::ast::{decls_model, lemma_node_models, lemma_node_models_push, node_model, node_models, opt_model,
    strings_model, ASTNode, NodeModel};
use crate::lexer::{lemma_token_at_advances, tokens_from, tokens_of, Lexer, Token, TokenModel};

verus! {

/// A declaration: one CSS property with its value.
pub type RulesetDeclaration = (String, String);

/// Failure of parsing.
#[derive(Debug)]
pub enum ParsingError {
    UnexpectedToken(String),
    UnexpectedEndOfInput,
    MissingIdentifier(String),
}

/// The mathematical value of a parse error: its kind, without the
/// human-readable message.
pub enum ParseErr {
    UnexpectedToken,
    UnexpectedEndOfInput,
    MissingIdentifier,
}

impl View for ParsingError {
    type V = ParseErr;

    open spec fn view(&self) -> ParseErr {
        match self {
            ParsingError::UnexpectedToken(_) => ParseErr::UnexpectedToken,
            ParsingError::UnexpectedEndOfInput => ParseErr::UnexpectedEndOfInput,
            ParsingError::MissingIdentifier(_) => ParseErr::MissingIdentifier,
        }
    }
}

/// The mathematical value of a token list.
pub open spec fn tokens_model(v: Seq<Token>) -> Seq<TokenModel> {
    v.map_values(|t: Token| t@)
}

/// Whether the construct starting at position `i` is a selector: a leading
/// dot or hash always is, and a leading identifier is unless a colon follows
/// it (which starts a declaration instead). Anything else is no selector.
pub open spec fn sp_is_selector(toks: Seq<TokenModel>, i: int) -> bool {
    if i < 0 || i >= toks.len() {
        false
    } else {
        match toks[i] {
            TokenModel::Identifier(_) => {
                if i + 1 < toks.len() {
                    match toks[i + 1] {
                        TokenModel::Dot => true,
                        TokenModel::Hash => true,
                        TokenModel::Colon => false,
                        _ => true,
                    }
                } else {
                    true
                }
            },
            TokenModel::Dot => true,
            TokenModel::Hash => true,
            _ => false,
        }
    }
}

/// Element content joined so far, extended by one more word: words are
/// separated by single spaces, and the first needs no separator.
pub open spec fn joined_content(acc: Seq<char>, s: Seq<char>) -> Seq<char> {
    if acc.len() == 0 {
        s
    } else {
        acc + " "@ + s
    }
}

/// One node starting at position `i`: a selector or a style ruleset,
/// chosen by lookahead. Input ending here is `UnexpectedEndOfInput`; a
/// leading token that can start neither construct is `UnexpectedToken`.
pub open spec fn sp_parse_node(toks: Seq<TokenModel>, i: int) -> Result<
    (NodeModel, int),
    ParseErr,
>
    decreases toks.len() - i, 2int,
{
    if i < 0 {
        Err(ParseErr::UnexpectedToken)
    } else if i >= toks.len() {
        Err(ParseErr::UnexpectedEndOfInput)
    } else if sp_is_selector(toks, i) {
        sp_parse_selector(toks, i, None, None, Seq::empty(), None)
    } else if toks[i] is Identifier {
        sp_parse_ruleset(toks, i, Seq::empty())
    } else {
        Err(ParseErr::UnexpectedToken)
    }
}

/// A selector whose parts up to position `i` have already been gathered in
/// the accumulator arguments. A bare identifier sets the tag (a second one is
/// an error); `.name` appends a class; `#name` re-sets the id, keeping only
/// the last value; `(…)` sets the element content; `{` opens the body, which
/// ends the selector.
pub open spec fn sp_parse_selector(
    toks: Seq<TokenModel>,
    i: int,
    tag: Option<Seq<char>>,
    id: Option<Seq<char>>,
    classes: Seq<Seq<char>>,
    element: Option<Seq<char>>,
) -> Result<(NodeModel, int), ParseErr>
    decreases toks.len() - i, 1int,
{
    if i < 0 {
        Err(ParseErr::UnexpectedToken)
    } else if i >= toks.len() {
        Err(ParseErr::UnexpectedEndOfInput)
    } else {
        match toks[i] {
            TokenModel::Identifier(name) => {
                if tag is Some {
                    Err(ParseErr::UnexpectedToken)
                } else {
                    sp_parse_selector(toks, i + 1, Some(name), id, classes, element)
                }
            },
            TokenModel::Dot => {
                if i + 1 < toks.len() && toks[i + 1] is Identifier {
                    sp_parse_selector(
                        toks,
                        i + 2,
                        tag,
                        id,
                        classes.push(toks[i + 1]->Identifier_0),
                        element,
                    )
                } else {
                    Err(ParseErr::MissingIdentifier)
                }
            },
            TokenModel::Hash => {
                if i + 1 < toks.len() && toks[i + 1] is Identifier {
                    sp_parse_selector(
                        toks,
                        i + 2,
                        tag,
                        Some(toks[i + 1]->Identifier_0),
                        classes,
                        element,
                    )
                } else {
                    Err(ParseErr::MissingIdentifier)
                }
            },
            TokenModel::LeftParen => {
                match sp_parse_element(toks, i + 1, Seq::empty()) {
                    Ok((content, j)) => {
                        if i < j <= toks.len() {
                            sp_parse_selector(toks, j, tag, id, classes, Some(content))
                        } else {
                            Err(ParseErr::UnexpectedToken)
                        }
                    },
                    Err(e) => Err(e),
                }
            },
            TokenModel::LeftBrace => {
                match sp_parse_body(toks, i + 1, Seq::empty()) {
                    Ok((children, j)) => Ok(
                        (NodeModel::Selector { tag, id, classes, element, children }, j),
                    ),
                    Err(e) => Err(e),
                }
            },
            _ => Err(ParseErr::UnexpectedToken),
        }
    }
}

/// Element content: identifier and text words joined by single spaces, up to
/// the closing parenthesis.
pub open spec fn sp_parse_element(toks: Seq<TokenModel>, i: int, acc: Seq<char>) -> Result<
    (Seq<char>, int),
    ParseErr,
>
    decreases toks.len() - i, 0int,
{
    if i < 0 {
        Err(ParseErr::UnexpectedToken)
    } else if i >= toks.len() {
        Err(ParseErr::UnexpectedEndOfInput)
    } else {
        match toks[i] {
            TokenModel::Identifier(s) => sp_parse_element(toks, i + 1, joined_content(acc, s)),
            TokenModel::Text(s) => sp_parse_element(toks, i + 1, joined_content(acc, s)),
            TokenModel::RightParen => Ok((acc, i + 1)),
            _ => Err(ParseErr::UnexpectedToken),
        }
    }
}

/// A selector body: nodes up to the closing brace, which is consumed. Input
/// ending before the brace is `UnexpectedEndOfInput`.
pub open spec fn sp_parse_body(toks: Seq<TokenModel>, i: int, acc: Seq<NodeModel>) -> Result<
    (Seq<NodeModel>, int),
    ParseErr,
>
    decreases toks.len() - i, 3int,
{
    if i < 0 {
        Err(ParseErr::UnexpectedToken)
    } else if i >= toks.len() {
        Err(ParseErr::UnexpectedEndOfInput)
    } else if toks[i] is RightBrace {
        Ok((acc, i + 1))
    } else {
        match sp_parse_node(toks, i) {
            Ok((n, j)) => {
                if i < j <= toks.len() {
                    sp_parse_body(toks, j, acc.push(n))
                } else {
                    Err(ParseErr::UnexpectedToken)
                }
            },
            Err(e) => Err(e),
        }
    }
}

/// A style ruleset: declarations until the enclosing right brace (left for
/// the enclosing body to consume) or until the lookahead announces a new
/// selector.
pub open spec fn sp_parse_ruleset(
    toks: Seq<TokenModel>,
    i: int,
    acc: Seq<(Seq<char>, Seq<char>)>,
) -> Result<(NodeModel, int), ParseErr>
    decreases toks.len() - i, 1int,
{
    if i < 0 {
        Err(ParseErr::UnexpectedToken)
    } else if i >= toks.len() {
        Err(ParseErr::UnexpectedEndOfInput)
    } else if toks[i] is RightBrace {
        Ok((NodeModel::StyleRuleset { declarations: acc }, i))
    } else if sp_is_selector(toks, i) {
        Ok((NodeModel::StyleRuleset { declarations: acc }, i))
    } else {
        match sp_parse_declaration(toks, i) {
            Ok((d, j)) => {
                if i < j <= toks.len() {
                    sp_parse_ruleset(toks, j, acc.push(d))
                } else {
                    Err(ParseErr::UnexpectedToken)
                }
            },
            Err(e) => Err(e),
        }
    }
}

/// One declaration: `property: value;`, where the property is an identifier
/// and the value one identifier or text token.
pub open spec fn sp_parse_declaration(toks: Seq<TokenModel>, i: int) -> Result<
    ((Seq<char>, Seq<char>), int),
    ParseErr,
> {
    if i < 0 {
        Err(ParseErr::UnexpectedToken)
    } else if i >= toks.len() {
        Err(ParseErr::UnexpectedEndOfInput)
    } else if !(toks[i] is Identifier) {
        Err(ParseErr::UnexpectedToken)
    } else if i + 1 >= toks.len() {
        Err(ParseErr::UnexpectedEndOfInput)
    } else if !(toks[i + 1] is Colon) {
        Err(ParseErr::UnexpectedToken)
    } else if i + 2 >= toks.len() {
        Err(ParseErr::UnexpectedEndOfInput)
    } else if !(toks[i + 2] is Identifier || toks[i + 2] is Text) {
        Err(ParseErr::UnexpectedToken)
    } else if i + 3 >= toks.len() {
        Err(ParseErr::UnexpectedEndOfInput)
    } else if !(toks[i + 3] is Semicolon) {
        Err(ParseErr::UnexpectedToken)
    } else {
        let value = if toks[i + 2] is Identifier {
            toks[i + 2]->Identifier_0
        } else {
            toks[i + 2]->Text_0
        };
        Ok(((toks[i]->Identifier_0, value), i + 4))
    }
}

/// The nodes of a whole document: top-level nodes until the tokens run out.
pub open spec fn sp_parse_document(toks: Seq<TokenModel>, i: int, acc: Seq<NodeModel>) -> Result<
    (Seq<NodeModel>, int),
    ParseErr,
>
    decreases toks.len() - i, 3int,
{
    if i < 0 {
        Err(ParseErr::UnexpectedToken)
    } else if i >= toks.len() {
        Ok((acc, i))
    } else {
        match sp_parse_node(toks, i) {
            Ok((n, j)) => {
                if i < j <= toks.len() {
                    sp_parse_document(toks, j, acc.push(n))
                } else {
                    Err(ParseErr::UnexpectedToken)
                }
            },
            Err(e) => Err(e),
        }
    }
}

/// What parsing a token stream yields: a document node, or the first error.
pub open spec fn sp_parse(toks: Seq<TokenModel>) -> Result<NodeModel, ParseErr> {
    match sp_parse_document(toks, 0, Seq::empty()) {
        Ok((ns, _)) => Ok(NodeModel::Document(ns)),
        Err(e) => Err(e),
    }
}

/// What parsing a source text yields.
pub open spec fn parse_result(s: Seq<char>) -> Result<NodeModel, ParseErr> {
    sp_parse(tokens_of(s))
}

/// A successfully parsed node ends strictly after its first token and within
/// the input.
pub proof fn lemma_node_progress(toks: Seq<TokenModel>, i: int)
    requires
        0 <= i <= toks.len(),
    ensures
        sp_parse_node(toks, i) matches Ok((n, j)) ==> i < j <= toks.len(),
    decreases toks.len() - i, 2int,
{
    if i < toks.len() {
        if sp_is_selector(toks, i) {
            lemma_selector_progress(toks, i, None, None, Seq::empty(), None);
        } else if toks[i] is Identifier {
            if let Ok((d, j)) = sp_parse_declaration(toks, i) {
                lemma_ruleset_progress(toks, j, Seq::empty().push(d));
            }
        }
    }
}

pub proof fn lemma_selector_progress(
    toks: Seq<TokenModel>,
    i: int,
    tag: Option<Seq<char>>,
    id: Option<Seq<char>>,
    classes: Seq<Seq<char>>,
    element: Option<Seq<char>>,
)
    requires
        0 <= i <= toks.len(),
    ensures
        sp_parse_selector(toks, i, tag, id, classes, element) matches Ok((n, j)) ==> i < j
            <= toks.len(),
    decreases toks.len() - i, 1int,
{
    if i < toks.len() {
        match toks[i] {
            TokenModel::Identifier(name) => {
                if tag is None {
                    lemma_selector_progress(toks, i + 1, Some(name), id, classes, element);
                }
            },
            TokenModel::Dot => {
                if i + 1 < toks.len() && toks[i + 1] is Identifier {
                    lemma_selector_progress(
                        toks,
                        i + 2,
                        tag,
                        id,
                        classes.push(toks[i + 1]->Identifier_0),
                        element,
                    );
                }
            },
            TokenModel::Hash => {
                if i + 1 < toks.len() && toks[i + 1] is Identifier {
                    lemma_selector_progress(
                        toks,
                        i + 2,
                        tag,
                        Some(toks[i + 1]->Identifier_0),
                        classes,
                        element,
                    );
                }
            },
            TokenModel::LeftParen => {
                lemma_element_progress(toks, i + 1, Seq::empty());
                if let Ok((content, j)) = sp_parse_element(toks, i + 1, Seq::empty()) {
                    lemma_selector_progress(toks, j, tag, id, classes, Some(content));
                }
            },
            TokenModel::LeftBrace => {
                lemma_body_progress(toks, i + 1, Seq::empty());
            },
            _ => {},
        }
    }
}

pub proof fn lemma_element_progress(toks: Seq<TokenModel>, i: int, acc: Seq<char>)
    requires
        0 <= i <= toks.len(),
    ensures
        sp_parse_element(toks, i, acc) matches Ok((c, j)) ==> i < j <= toks.len(),
    decreases toks.len() - i, 0int,
{
    if i < toks.len() {
        match toks[i] {
            TokenModel::Identifier(s) => {
                lemma_element_progress(toks, i + 1, joined_content(acc, s));
            },
            TokenModel::Text(s) => {
                lemma_element_progress(toks, i + 1, joined_content(acc, s));
            },
            _ => {},
        }
    }
}

pub proof fn lemma_body_progress(toks: Seq<TokenModel>, i: int, acc: Seq<NodeModel>)
    requires
        0 <= i <= toks.len(),
    ensures
        sp_parse_body(toks, i, acc) matches Ok((ns, j)) ==> i < j <= toks.len(),
    decreases toks.len() - i, 3int,
{
    if i < toks.len() && !(toks[i] is RightBrace) {
        lemma_node_progress(toks, i);
        if let Ok((n, j)) = sp_parse_node(toks, i) {
            lemma_body_progress(toks, j, acc.push(n));
        }
    }
}

/// A ruleset may end where it began (at a right brace or before a new
/// selector), but never before its starting position.
pub proof fn lemma_ruleset_progress(toks: Seq<TokenModel>, i: int, acc: Seq<(Seq<char>, Seq<char>)>)
    requires
        0 <= i <= toks.len(),
    ensures
        sp_parse_ruleset(toks, i, acc) matches Ok((n, j)) ==> i <= j <= toks.len(),
    decreases toks.len() - i, 1int,
{
    if i < toks.len() && !(toks[i] is RightBrace) && !sp_is_selector(toks, i) {
        if let Ok((d, j)) = sp_parse_declaration(toks, i) {
            if i < j <= toks.len() {
                lemma_ruleset_progress(toks, j, acc.push(d));
            }
        }
    }
}


/// Whether two tokens are the same token, payloads included.
fn token_eq(a: &Token, b: &Token) -> (r: bool)
    ensures
        r == (a@ == b@),
{
    match a {
        Token::Identifier(x) => match b {
            Token::Identifier(y) => *x == *y,
            _ => false,
        },
        Token::LeftBrace => match b {
            Token::LeftBrace => true,
            _ => false,
        },
        Token::RightBrace => match b {
            Token::RightBrace => true,
            _ => false,
        },
        Token::LeftParen => match b {
            Token::LeftParen => true,
            _ => false,
        },
        Token::RightParen => match b {
            Token::RightParen => true,
            _ => false,
        },
        Token::Colon => match b {
            Token::Colon => true,
            _ => false,
        },
        Token::Semicolon => match b {
            Token::Semicolon => true,
            _ => false,
        },
        Token::Dot => match b {
            Token::Dot => true,
            _ => false,
        },
        Token::Hash => match b {
            Token::Hash => true,
            _ => false,
        },
        Token::Text(x) => match b {
            Token::Text(y) => *x == *y,
            _ => false,
        },
    }
}

/// The parser: a fully tokenized source text and a cursor into it.
pub struct Parser {
    tokens: Vec<Token>,
    pos: usize,
}

impl Parser {
    /// The token stream being parsed.
    pub closed spec fn toks(&self) -> Seq<TokenModel> {
        tokens_model(self.tokens@)
    }

    /// The cursor: how many tokens have been consumed.
    pub closed spec fn position(&self) -> int {
        self.pos as int
    }

    pub closed spec fn wf(&self) -> bool {
        self.pos <= self.tokens@.len()
    }

    /// Builds a parser holding the whole token stream of the source text.
    pub fn new(input: &str) -> (p: Parser)
        ensures
            p.wf(),
            p.toks() == tokens_of(input@),
            p.position() == 0,
    {
        let mut lexer = Lexer::new(input);
        let mut tokens: Vec<Token> = Vec::new();
        proof {
            assert(tokens_model(tokens@) =~= Seq::<TokenModel>::empty());
            assert(tokens_of(input@) =~= tokens_model(tokens@) + tokens_from(input@, 0));
        }
        loop
            invariant
                lexer.wf(),
                lexer.src() == input@,
                0 <= lexer.position() <= input@.len(),
                tokens_of(input@) == tokens_model(tokens@) + tokens_from(input@, lexer.position()),
            ensures
                tokens_model(tokens@) == tokens_of(input@),
            decreases input@.len() - lexer.position(),
        {
            let ghost p = lexer.position();
            proof {
                lemma_token_at_advances(input@, p);
            }
            match lexer.next_token() {
                Some(tok) => {
                    let ghost tm = tok@;
                    let ghost before = tokens_model(tokens@);
                    tokens.push(tok);
                    proof {
                        assert(tokens_model(tokens@) =~= before.push(tm));
                        assert(tokens_from(input@, p) == seq![tm] + tokens_from(
                            input@,
                            lexer.position(),
                        ));
                        assert(before.push(tm) + tokens_from(input@, lexer.position()) =~= before
                            + tokens_from(input@, p));
                    }
                },
                None => {
                    proof {
                        assert(tokens_from(input@, lexer.position()) =~= Seq::<
                            TokenModel,
                        >::empty());
                        assert(tokens_model(tokens@) =~= tokens_of(input@));
                    }
                    break ;
                },
            }
        }
        Parser { tokens, pos: 0 }
    }

    /// Parses the remaining tokens as a document, one node per top-level
    /// construct. For a freshly built parser over `input` the result is
    /// exactly what `sp_parse(tokens_of(input@))` describes: the document on
    /// success, the first grammar error otherwise.
    #[verifier::loop_isolation(false)]
    pub fn parse(&mut self) -> (r: Result<ASTNode, ParsingError>)
        requires
            old(self).wf(),
        ensures
            final(self).wf(),
            final(self).toks() == old(self).toks(),
            match sp_parse_document(old(self).toks(), old(self).position(), Seq::empty()) {
                Ok((ns, j)) => r matches Ok(node) && node_model(node) == NodeModel::Document(ns)
                    && final(self).position() == j,
                Err(e) => r matches Err(pe) && pe@ == e,
            },
    {
        let ghost toks = self.toks();
        let ghost i0 = self.position();
        let mut nodes: Vec<ASTNode> = Vec::new();
        proof {
            lemma_node_models(nodes@);
            assert(node_models(nodes@) =~= Seq::<NodeModel>::empty());
        }
        while self.pos < self.tokens.len()
            invariant
                self.wf(),
                self.toks() == toks,
                i0 <= self.position() <= toks.len(),
                sp_parse_document(toks, i0, Seq::empty()) == sp_parse_document(
                    toks,
                    self.position(),
                    node_models(nodes@),
                ),
            decreases toks.len() - self.position(),
        {
            proof {
                lemma_node_progress(toks, self.position());
            }
            let node = match self.parse_node() {
                Ok(n) => n,
                Err(e) => {
                    return Err(e);
                },
            };
            proof {
                lemma_node_models_push(nodes@, node);
            }
            nodes.push(node);
        }
        Ok(ASTNode::Document(nodes))
    }

    /// Parses one node, deciding between selector and ruleset by lookahead.
    fn parse_node(&mut self) -> (r: Result<ASTNode, ParsingError>)
        requires
            old(self).wf(),
        ensures
            final(self).wf(),
            final(self).toks() == old(self).toks(),
            old(self).position() <= final(self).position() <= old(self).toks().len(),
            match sp_parse_node(old(self).toks(), old(self).position()) {
                Ok((n, j)) => r matches Ok(node) && node_model(node) == n && final(self).position() == j,
                Err(e) => r matches Err(pe) && pe@ == e,
            },
        decreases old(self).toks().len() - old(self).position(), 2int,
    {
        if self.pos >= self.tokens.len() {
            return Err(ParsingError::UnexpectedEndOfInput);
        }
        if self.is_selector() {
            self.parse_selector()
        } else {
            let leading_identifier = match &self.tokens[self.pos] {
                Token::Identifier(_) => true,
                _ => false,
            };
            if leading_identifier {
                self.parse_ruleset()
            } else {
                Err(
                    ParsingError::UnexpectedToken(
                        "a token that can start neither a selector nor a declaration".to_owned(),
                    ),
                )
            }
        }
    }

    /// Decides by lookahead, without consuming tokens, whether a selector
    /// starts at the cursor.
    fn is_selector(&self) -> (r: bool)
        requires
            self.wf(),
        ensures
            r == sp_is_selector(self.toks(), self.position()),
    {
        if self.pos >= self.tokens.len() {
            return false;
        }
        match &self.tokens[self.pos] {
            Token::Identifier(_) => {
                if self.pos + 1 < self.tokens.len() {
                    match &self.tokens[self.pos + 1] {
                        Token::Dot => true,
                        Token::Hash => true,
                        Token::Colon => false,
                        _ => true,
                    }
                } else {
                    true
                }
            },
            Token::Dot => true,
            Token::Hash => true,
            _ => false,
        }
    }

    /// Parses one selector: its parts, then its body.
    #[verifier::loop_isolation(false)]
    fn parse_selector(&mut self) -> (r: Result<ASTNode, ParsingError>)
        requires
            old(self).wf(),
        ensures
            final(self).wf(),
            final(self).toks() == old(self).toks(),
            old(self).position() <= final(self).position() <= old(self).toks().len(),
            match sp_parse_selector(
                old(self).toks(),
                old(self).position(),
                None,
                None,
                Seq::empty(),
                None,
            ) {
                Ok((n, j)) => r matches Ok(node) && node_model(node) == n && final(self).position() == j,
                Err(e) => r matches Err(pe) && pe@ == e,
            },
        decreases old(self).toks().len() - old(self).position(), 1int,
    {
        let ghost toks = self.toks();
        let ghost i0 = self.position();
        let mut tag: Option<String> = None;
        let mut id: Option<String> = None;
        let mut classes: Vec<String> = Vec::new();
        let mut element: Option<String> = None;
        proof {
            assert(strings_model(classes@) =~= Seq::<Seq<char>>::empty());
        }
        loop
            invariant
                self.wf(),
                self.toks() == toks,
                i0 <= self.position() <= toks.len(),
                sp_parse_selector(toks, i0, None, None, Seq::empty(), None) == sp_parse_selector(
                    toks,
                    self.position(),
                    opt_model(tag),
                    opt_model(id),
                    strings_model(classes@),
                    opt_model(element),
                ),
            decreases toks.len() - self.position(),
        {
            if self.pos >= self.tokens.len() {
                return Err(ParsingError::UnexpectedEndOfInput);
            }
            let ghost p = self.position();
            match &self.tokens[self.pos] {
                Token::Identifier(name) => {
                    if tag.is_some() {
                        return Err(
                            ParsingError::UnexpectedToken(
                                "Expected only one tag in selector".to_owned(),
                            ),
                        );
                    }
                    tag = Some(name.clone());
                    self.pos = self.pos + 1;
                },
                Token::Dot => {
                    if self.pos + 1 >= self.tokens.len() {
                        return Err(
                            ParsingError::MissingIdentifier("Expected class name".to_owned()),
                        );
                    }
                    match &self.tokens[self.pos + 1] {
                        Token::Identifier(class) => {
                            let ghost before = strings_model(classes@);
                            let ghost cm = class@;
                            classes.push(class.clone());
                            proof {
                                assert(strings_model(classes@) =~= before.push(cm));
                            }
                            self.pos = self.pos + 2;
                        },
                        _ => {
                            return Err(
                                ParsingError::MissingIdentifier("Expected class name".to_owned()),
                            );
                        },
                    }
                },
                Token::Hash => {
                    if self.pos + 1 >= self.tokens.len() {
                        return Err(ParsingError::MissingIdentifier("Expected id".to_owned()));
                    }
                    match &self.tokens[self.pos + 1] {
                        Token::Identifier(i) => {
                            id = Some(i.clone());
                            self.pos = self.pos + 2;
                        },
                        _ => {
                            return Err(ParsingError::MissingIdentifier("Expected id".to_owned()));
                        },
                    }
                },
                Token::LeftParen => {
                    self.pos = self.pos + 1;
                    proof {
                        lemma_element_progress(toks, p + 1, Seq::<char>::empty());
                    }
                    match self.parse_element_constructor() {
                        Ok(content) => {
                            element = Some(content);
                        },
                        Err(e) => {
                            return Err(e);
                        },
                    }
                },
                Token::LeftBrace => {
                    self.pos = self.pos + 1;
                    proof {
                        lemma_body_progress(toks, p + 1, Seq::<NodeModel>::empty());
                    }
                    match self.parse_selector_body() {
                        Ok(children) => {
                            return Ok(
                                ASTNode::Selector { tag, id, classes, element, children },
                            );
                        },
                        Err(e) => {
                            return Err(e);
                        },
                    }
                },
                _ => {
                    return Err(
                        ParsingError::UnexpectedToken(
                            "a token the selector grammar does not allow".to_owned(),
                        ),
                    );
                },
            }
        }
    }

    /// Parses element content: words up to the closing parenthesis, joined
    /// by single spaces.
    #[verifier::loop_isolation(false)]
    fn parse_element_constructor(&mut self) -> (r: Result<String, ParsingError>)
        requires
            old(self).wf(),
        ensures
            final(self).wf(),
            final(self).toks() == old(self).toks(),
            old(self).position() <= final(self).position() <= old(self).toks().len(),
            match sp_parse_element(old(self).toks(), old(self).position(), Seq::empty()) {
                Ok((c, j)) => r matches Ok(s) && s@ == c && final(self).position() == j,
                Err(e) => r matches Err(pe) && pe@ == e,
            },
    {
        let ghost toks = self.toks();
        let ghost i0 = self.position();
        let mut element = String::new();
        loop
            invariant
                self.wf(),
                self.toks() == toks,
                i0 <= self.position() <= toks.len(),
                sp_parse_element(toks, i0, Seq::empty()) == sp_parse_element(
                    toks,
                    self.position(),
                    element@,
                ),
            decreases toks.len() - self.position(),
        {
            if self.pos >= self.tokens.len() {
                return Err(ParsingError::UnexpectedEndOfInput);
            }
            let ghost acc = element@;
            match &self.tokens[self.pos] {
                Token::Identifier(word) => {
                    if !element.as_str().is_empty() {
                        element.append(" ");
                    }
                    element.append(word.as_str());
                    proof {
                        assert(element@ =~= joined_content(acc, word@));
                    }
                    self.pos = self.pos + 1;
                },
                Token::Text(word) => {
                    if !element.as_str().is_empty() {
                        element.append(" ");
                    }
                    element.append(word.as_str());
                    proof {
                        assert(element@ =~= joined_content(acc, word@));
                    }
                    self.pos = self.pos + 1;
                },
                Token::RightParen => {
                    self.pos = self.pos + 1;
                    return Ok(element);
                },
                _ => {
                    return Err(
                        ParsingError::UnexpectedToken(
                            "a token element content does not allow".to_owned(),
                        ),
                    );
                },
            }
        }
    }

    /// Parses a selector body: nodes up to and including the closing brace.
    #[verifier::loop_isolation(false)]
    fn parse_selector_body(&mut self) -> (r: Result<Vec<ASTNode>, ParsingError>)
        requires
            old(self).wf(),
        ensures
            final(self).wf(),
            final(self).toks() == old(self).toks(),
            old(self).position() <= final(self).position() <= old(self).toks().len(),
            match sp_parse_body(old(self).toks(), old(self).position(), Seq::empty()) {
                Ok((ns, j)) => r matches Ok(nodes) && node_models(nodes@) == ns && final(self).position() == j,
                Err(e) => r matches Err(pe) && pe@ == e,
            },
        decreases old(self).toks().len() - old(self).position(), 3int,
    {
        let ghost toks = self.toks();
        let ghost i0 = self.position();
        let mut nodes: Vec<ASTNode> = Vec::new();
        proof {
            lemma_node_models(nodes@);
            assert(node_models(nodes@) =~= Seq::<NodeModel>::empty());
        }
        loop
            invariant
                self.wf(),
                self.toks() == toks,
                i0 <= self.position() <= toks.len(),
                sp_parse_body(toks, i0, Seq::empty()) == sp_parse_body(
                    toks,
                    self.position(),
                    node_models(nodes@),
                ),
            decreases toks.len() - self.position(),
        {
            if self.pos >= self.tokens.len() {
                return Err(ParsingError::UnexpectedEndOfInput);
            }
            let closing = match &self.tokens[self.pos] {
                Token::RightBrace => true,
                _ => false,
            };
            if closing {
                self.pos = self.pos + 1;
                return Ok(nodes);
            }
            proof {
                lemma_node_progress(toks, self.position());
            }
            let node = match self.parse_node() {
                Ok(n) => n,
                Err(e) => {
                    return Err(e);
                },
            };
            proof {
                lemma_node_models_push(nodes@, node);
            }
            nodes.push(node);
        }
    }

    /// Parses a ruleset: declarations until the enclosing right brace or a
    /// new selector, neither of which is consumed.
    #[verifier::loop_isolation(false)]
    fn parse_ruleset(&mut self) -> (r: Result<ASTNode, ParsingError>)
        requires
            old(self).wf(),
        ensures
            final(self).wf(),
            final(self).toks() == old(self).toks(),
            old(self).position() <= final(self).position() <= old(self).toks().len(),
            match sp_parse_ruleset(old(self).toks(), old(self).position(), Seq::empty()) {
                Ok((n, j)) => r matches Ok(node) && node_model(node) == n && final(self).position() == j,
                Err(e) => r matches Err(pe) && pe@ == e,
            },
        decreases old(self).toks().len() - old(self).position(), 1int,
    {
        let ghost toks = self.toks();
        let ghost i0 = self.position();
        let mut declarations: Vec<RulesetDeclaration> = Vec::new();
        proof {
            assert(decls_model(declarations@) =~= Seq::<(Seq<char>, Seq<char>)>::empty());
        }
        loop
            invariant
                self.wf(),
                self.toks() == toks,
                i0 <= self.position() <= toks.len(),
                sp_parse_ruleset(toks, i0, Seq::empty()) == sp_parse_ruleset(
                    toks,
                    self.position(),
                    decls_model(declarations@),
                ),
            decreases toks.len() - self.position(),
        {
            if self.pos >= self.tokens.len() {
                return Err(ParsingError::UnexpectedEndOfInput);
            }
            let closing = match &self.tokens[self.pos] {
                Token::RightBrace => true,
                _ => false,
            };
            if closing || self.is_selector() {
                return Ok(ASTNode::StyleRuleset { declarations });
            }
            let (property, value) = match self.parse_ruleset_declaration() {
                Ok(d) => d,
                Err(e) => {
                    return Err(e);
                },
            };
            let ghost before = decls_model(declarations@);
            let ghost dm = (property@, value@);
            declarations.push((property, value));
            proof {
                assert(decls_model(declarations@) =~= before.push(dm));
            }
        }
    }

    /// Parses one declaration: `property: value;`.
    fn parse_ruleset_declaration(&mut self) -> (r: Result<RulesetDeclaration, ParsingError>)
        requires
            old(self).wf(),
        ensures
            final(self).wf(),
            final(self).toks() == old(self).toks(),
            old(self).position() <= final(self).position() <= old(self).toks().len(),
            match sp_parse_declaration(old(self).toks(), old(self).position()) {
                Ok((d, j)) => r matches Ok(dv) && dv.0@ == d.0 && dv.1@ == d.1 && final(self).position() == j,
                Err(e) => r matches Err(pe) && pe@ == e,
            },
    {
        let property = match self.parse_ruleset_declaration_property() {
            Ok(p) => p,
            Err(e) => {
                return Err(e);
            },
        };
        match self.expect_token(&Token::Colon) {
            Ok(()) => {},
            Err(e) => {
                return Err(e);
            },
        }
        let value = match self.parse_ruleset_declaration_value() {
            Ok(v) => v,
            Err(e) => {
                return Err(e);
            },
        };
        match self.expect_token(&Token::Semicolon) {
            Ok(()) => {},
            Err(e) => {
                return Err(e);
            },
        }
        Ok((property, value))
    }

    /// Parses a declaration's property: one identifier.
    fn parse_ruleset_declaration_property(&mut self) -> (r: Result<String, ParsingError>)
        requires
            old(self).wf(),
        ensures
            final(self).wf(),
            final(self).toks() == old(self).toks(),
            old(self).position() <= final(self).position() <= old(self).toks().len(),
            if old(self).position() >= old(self).toks().len() {
                r matches Err(pe) && pe@ == ParseErr::UnexpectedEndOfInput
            } else if old(self).toks()[old(self).position()] is Identifier {
                r matches Ok(s) && s@ == old(self).toks()[old(self).position()]->Identifier_0
                    && final(self).position() == old(self).position() + 1
            } else {
                r matches Err(pe) && pe@ == ParseErr::UnexpectedToken
            },
    {
        if self.pos >= self.tokens.len() {
            return Err(ParsingError::UnexpectedEndOfInput);
        }
        match &self.tokens[self.pos] {
            Token::Identifier(property) => {
                let owned = property.clone();
                self.pos = self.pos + 1;
                Ok(owned)
            },
            _ => Err(ParsingError::UnexpectedToken("Expected property".to_owned())),
        }
    }

    /// Parses a declaration's value: one identifier or text token.
    fn parse_ruleset_declaration_value(&mut self) -> (r: Result<String, ParsingError>)
        requires
            old(self).wf(),
        ensures
            final(self).wf(),
            final(self).toks() == old(self).toks(),
            old(self).position() <= final(self).position() <= old(self).toks().len(),
            if old(self).position() >= old(self).toks().len() {
                r matches Err(pe) && pe@ == ParseErr::UnexpectedEndOfInput
            } else if old(self).toks()[old(self).position()] is Identifier {
                r matches Ok(s) && s@ == old(self).toks()[old(self).position()]->Identifier_0
                    && final(self).position() == old(self).position() + 1
            } else if old(self).toks()[old(self).position()] is Text {
                r matches Ok(s) && s@ == old(self).toks()[old(self).position()]->Text_0 && final(self).position() == old(self).position() + 1
            } else {
                r matches Err(pe) && pe@ == ParseErr::UnexpectedToken
            },
    {
        if self.pos >= self.tokens.len() {
            return Err(ParsingError::UnexpectedEndOfInput);
        }
        match &self.tokens[self.pos] {
            Token::Identifier(value) => {
                let owned = value.clone();
                self.pos = self.pos + 1;
                Ok(owned)
            },
            Token::Text(value) => {
                let owned = value.clone();
                self.pos = self.pos + 1;
                Ok(owned)
            },
            _ => Err(ParsingError::UnexpectedToken("Expected value".to_owned())),
        }
    }

    /// Consumes one token that must equal the expected one.
    fn expect_token(&mut self, expected: &Token) -> (r: Result<(), ParsingError>)
        requires
            old(self).wf(),
        ensures
            final(self).wf(),
            final(self).toks() == old(self).toks(),
            old(self).position() <= final(self).position() <= old(self).toks().len(),
            if old(self).position() >= old(self).toks().len() {
                r matches Err(pe) && pe@ == ParseErr::UnexpectedEndOfInput
            } else if old(self).toks()[old(self).position()] == expected@ {
                r is Ok && final(self).position() == old(self).position() + 1
            } else {
                r matches Err(pe) && pe@ == ParseErr::UnexpectedToken
            },
    {
        if self.pos >= self.tokens.len() {
            return Err(ParsingError::UnexpectedEndOfInput);
        }
        let tok = &self.tokens[self.pos];
        let same = token_eq(tok, expected);
        if same {
            self.pos = self.pos + 1;
            Ok(())
        } else {
            Err(ParsingError::UnexpectedToken("Expected a different token".to_owned()))
        }
    }
}

} // verus!
