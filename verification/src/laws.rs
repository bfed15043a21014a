//! Laws of the compiler, stated and proved once and for all inputs.
//!
//! The executable functions already carry exact contracts; these proof
//! functions record the properties that follow from them, so that a reader
//! sees them stated rather than having to derive them.

use vstd::prelude::*;
use crate::ast::{
    attributes_text, css_segment, css_selector_prefix, css_selector_text, declarations_text,
    html_of, html_seq_prefix, NodeModel,
};
use crate::lexer::TokenModel;
use crate::parser::{parse_result, sp_parse_selector, ParseErr};

verus! {

/// The outcome of the whole pipeline on a source text: the HTML of the
/// parsed document, or the first parse error.
pub open spec fn compile_result(s: Seq<char>) -> Result<Seq<char>, ParseErr> {
    match parse_result(s) {
        Ok(n) => Ok(html_of(n, Seq::empty())),
        Err(e) => Err(e),
    }
}

/// Compilation is deterministic: the outcome is a function of the source
/// text alone, so equal texts always compile to byte-identical results.
/// `Parser::parse` returns exactly what `parse_result` describes and
/// `ASTNode::to_html` exactly `html_of` of its tree, so no run can differ
/// from `compile_result`.
pub proof fn lemma_compile_deterministic(s1: Seq<char>, s2: Seq<char>)
    requires
        s1 == s2,
    ensures
        compile_result(s1) == compile_result(s2),
{
}

/// Every selector, whether or not it emits tag text, renders its children
/// under the ancestor chain extended by exactly one entry: its own CSS
/// segment. Tag text is emitted around the children exactly when the
/// selector has both a tag name and element content.
pub proof fn lemma_selector_extends_chain_by_one(
    tag: Option<Seq<char>>,
    id: Option<Seq<char>>,
    classes: Seq<Seq<char>>,
    element: Option<Seq<char>>,
    children: Seq<NodeModel>,
    chain: Seq<Seq<char>>,
)
    ensures
        ({
            let seg = css_segment(tag, id, classes);
            let inner = html_seq_prefix(children, chain.push(seg), children.len() as int);
            html_of(NodeModel::Selector { tag, id, classes, element, children }, chain) == if tag
                is Some && element is Some {
                "<"@ + tag->0 + attributes_text(id, classes) + ">"@ + element->0 + inner + "</"@
                    + tag->0 + ">"@
            } else {
                inner
            }
        }),
{
}

/// A selector that lacks a tag name or lacks element content emits no tag
/// text of its own: its HTML is exactly its children's, and the children see
/// the ancestor chain extended by this selector's segment. In particular a
/// selector with neither tag, id nor class and no content still contributes
/// its (empty) segment to the chain.
pub proof fn lemma_selector_without_tag_text(
    tag: Option<Seq<char>>,
    id: Option<Seq<char>>,
    classes: Seq<Seq<char>>,
    element: Option<Seq<char>>,
    children: Seq<NodeModel>,
    chain: Seq<Seq<char>>,
)
    requires
        tag is None || element is None,
    ensures
        html_of(NodeModel::Selector { tag, id, classes, element, children }, chain)
            == html_seq_prefix(
            children,
            chain.push(css_segment(tag, id, classes)),
            children.len() as int,
        ),
{
}

/// A CSS selector prefix reads only the chain entries before its bound, so
/// chains that agree there have equal prefixes.
pub proof fn lemma_css_selector_prefix_agrees(c1: Seq<Seq<char>>, c2: Seq<Seq<char>>, i: int)
    requires
        i <= c1.len(),
        i <= c2.len(),
        forall|k: int| 0 <= k < i ==> c1[k] == c2[k],
    ensures
        css_selector_prefix(c1, i) == css_selector_prefix(c2, i),
    decreases i,
{
    if 0 < i {
        lemma_css_selector_prefix_agrees(c1, c2, i - 1);
    }
}

/// The CSS selector of a ruleset mirrors its nesting depth exactly: one
/// segment per enclosing selector, outermost first, each followed by a
/// single space; an empty chain yields an empty selector, and one more
/// enclosing selector appends exactly one more segment.
pub proof fn lemma_ruleset_css_depth(declarations: Seq<(Seq<char>, Seq<char>)>, chain: Seq<
    Seq<char>,
>)
    ensures
        html_of(NodeModel::StyleRuleset { declarations }, chain) == "<style>"@
            + css_selector_text(chain) + "{"@ + declarations_text(declarations) + "}"@
            + "</style>"@,
        css_selector_text(Seq::<Seq<char>>::empty()) == Seq::<char>::empty(),
        chain.len() > 0 ==> css_selector_text(chain) == css_selector_text(chain.drop_last())
            + chain.last() + " "@,
{
    if chain.len() > 0 {
        lemma_css_selector_prefix_agrees(chain, chain.drop_last(), chain.len() - 1);
    }
}

/// Re-setting the id inside one selector keeps only the last value: at a
/// `#name` part the parse goes on with the new id, and whatever id was
/// gathered before has no bearing on the result.
pub proof fn lemma_id_overwrite(
    toks: Seq<TokenModel>,
    i: int,
    tag: Option<Seq<char>>,
    id1: Option<Seq<char>>,
    id2: Option<Seq<char>>,
    classes: Seq<Seq<char>>,
    element: Option<Seq<char>>,
)
    requires
        0 <= i,
        i + 1 < toks.len(),
        toks[i] is Hash,
        toks[i + 1] is Identifier,
    ensures
        sp_parse_selector(toks, i, tag, id1, classes, element) == sp_parse_selector(
            toks,
            i,
            tag,
            id2,
            classes,
            element,
        ),
{
}

/// An empty style ruleset still emits a full `<style>` block: the selector
/// text of its chain followed by an empty declaration block `{}`.
pub proof fn lemma_empty_ruleset_emits(chain: Seq<Seq<char>>)
    ensures
        html_of(NodeModel::StyleRuleset { declarations: Seq::empty() }, chain) == "<style>"@
            + css_selector_text(chain) + "{"@ + "}"@ + "</style>"@,
{
    assert("<style>"@ + css_selector_text(chain) + "{"@ + declarations_text(Seq::empty()) + "}"@
        + "</style>"@ =~= "<style>"@ + css_selector_text(chain) + "{"@ + "}"@ + "</style>"@);
}

} // verus!
