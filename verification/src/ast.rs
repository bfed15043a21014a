use vstd::prelude::*;
use vstd::string::StringExecFns;

verus! {

broadcast use vstd::std_specs::vec::group_vec_axioms, vstd::seq::group_seq_axioms;

/// Failure of HTML generation.
///
/// `InvalidSelectorChain` stands for an ancestor chain holding an entry that
/// is no selector segment. The generator pushes exactly one segment per
/// selector and is proved total, so it never returns this error; the variant
/// remains so that callers matching on the result keep compiling.
#[derive(Debug)]
pub enum GenerationError {
    InvalidSelectorChain,
}

/// A node of the document tree.
#[derive(Debug)]
pub enum ASTNode {
    Document(Vec<ASTNode>),
    Selector {
        tag: Option<String>,
        id: Option<String>,
        classes: Vec<String>,
        element: Option<String>,
        children: Vec<ASTNode>,
    },
    StyleRuleset { declarations: Vec<(String, String)> },
}

/// The mathematical value of a node.
pub enum NodeModel {
    Document(Seq<NodeModel>),
    Selector {
        tag: Option<Seq<char>>,
        id: Option<Seq<char>>,
        classes: Seq<Seq<char>>,
        element: Option<Seq<char>>,
        children: Seq<NodeModel>,
    },
    StyleRuleset { declarations: Seq<(Seq<char>, Seq<char>)> },
}

impl View for ASTNode {
    type V = NodeModel;

    open spec fn view(&self) -> NodeModel {
        node_model(*self)
    }
}

/// The mathematical value of an optional string.
pub open spec fn opt_model(o: Option<String>) -> Option<Seq<char>> {
    match o {
        Some(s) => Some(s@),
        None => None,
    }
}

/// The mathematical value of a list of strings.
pub open spec fn strings_model(v: Seq<String>) -> Seq<Seq<char>> {
    v.map_values(|s: String| s@)
}

/// The mathematical value of a list of declarations.
pub open spec fn decls_model(v: Seq<(String, String)>) -> Seq<(Seq<char>, Seq<char>)> {
    v.map_values(|d: (String, String)| (d.0@, d.1@))
}

/// The mathematical value of a node.
pub open spec fn node_model(n: ASTNode) -> NodeModel
    decreases n, 0int via node_model_dec
{
    match n {
        ASTNode::Document(children) => NodeModel::Document(node_models_from(children@, 0)),
        ASTNode::Selector { tag, id, classes, element, children } => NodeModel::Selector {
            tag: opt_model(tag),
            id: opt_model(id),
            classes: strings_model(classes@),
            element: opt_model(element),
            children: node_models_from(children@, 0),
        },
        ASTNode::StyleRuleset { declarations } => NodeModel::StyleRuleset {
            declarations: decls_model(declarations@),
        },
    }
}

/// The mathematical values of the nodes of `v` from index `i` on.
pub open spec fn node_models_from(v: Seq<ASTNode>, i: int) -> Seq<NodeModel>
    decreases v, v.len() - i via node_models_from_dec
{
    if i < 0 || i >= v.len() {
        Seq::empty()
    } else {
        seq![node_model(v[i])] + node_models_from(v, i + 1)
    }
}

#[via_fn]
proof fn node_model_dec(n: ASTNode) {
    match n {
        ASTNode::Document(children) => {
            assert(decreases_to!(n => children));
            assert(decreases_to!(children => children@));
        },
        ASTNode::Selector { tag, id, classes, element, children } => {
            assert(decreases_to!(n => children));
            assert(decreases_to!(children => children@));
        },
        ASTNode::StyleRuleset { .. } => {},
    }
}

#[via_fn]
proof fn node_models_from_dec(v: Seq<ASTNode>, i: int) {
    if 0 <= i < v.len() {
        assert(decreases_to!(v => v[i]));
    }
}

/// The models of a node list, one model per node in order.
pub open spec fn node_models(v: Seq<ASTNode>) -> Seq<NodeModel> {
    node_models_from(v, 0)
}

pub proof fn lemma_node_models_from(v: Seq<ASTNode>, i: int)
    requires
        0 <= i <= v.len(),
    ensures
        node_models_from(v, i).len() == v.len() - i,
        forall|k: int|
            i <= k < v.len() ==> node_models_from(v, i)[k - i] == node_model(v[k]),
    decreases v.len() - i,
{
    if i < v.len() {
        lemma_node_models_from(v, i + 1);
    }
}

/// Each node of a list appears in the list's model at its own index.
pub proof fn lemma_node_models(v: Seq<ASTNode>)
    ensures
        node_models(v).len() == v.len(),
        forall|k: int| 0 <= k < v.len() ==> node_models(v)[k] == node_model(v[k]),
{
    lemma_node_models_from(v, 0);
}


/// Extending a node list by one node extends its model by the node's model.
pub proof fn lemma_node_models_push(v: Seq<ASTNode>, n: ASTNode)
    ensures
        node_models(v.push(n)) == node_models(v).push(node_model(n)),
{
    lemma_node_models(v);
    lemma_node_models(v.push(n));
    assert(node_models(v.push(n)) =~= node_models(v).push(node_model(n)));
}

/// The text of a class list inside a CSS selector: the first `i` classes,
/// each preceded by a dot.
pub open spec fn class_marks_prefix(classes: Seq<Seq<char>>, i: int) -> Seq<char>
    decreases i,
{
    if i <= 0 || i > classes.len() {
        Seq::empty()
    } else {
        class_marks_prefix(classes, i - 1) + "."@ + classes[i - 1]
    }
}

/// The text of a whole class list inside a CSS selector.
pub open spec fn class_marks(classes: Seq<Seq<char>>) -> Seq<char> {
    class_marks_prefix(classes, classes.len() as int)
}

/// One ancestor's segment of a CSS selector: `tag#id.class1.class2`, with
/// absent parts left out.
pub open spec fn css_segment(
    tag: Option<Seq<char>>,
    id: Option<Seq<char>>,
    classes: Seq<Seq<char>>,
) -> Seq<char> {
    (match tag {
        Some(t) => t,
        None => Seq::empty(),
    }) + (match id {
        Some(x) => "#"@ + x,
        None => Seq::empty(),
    }) + class_marks(classes)
}

/// The first `i` items joined by single spaces.
pub open spec fn space_joined_prefix(items: Seq<Seq<char>>, i: int) -> Seq<char>
    decreases i,
{
    if i <= 0 || i > items.len() {
        Seq::empty()
    } else if i == 1 {
        items[0]
    } else {
        space_joined_prefix(items, i - 1) + " "@ + items[i - 1]
    }
}

/// All items joined by single spaces.
pub open spec fn space_joined(items: Seq<Seq<char>>) -> Seq<char> {
    space_joined_prefix(items, items.len() as int)
}

/// The attribute text of an emitted element: ` id="…"` when an id is set,
/// then ` class="c1 c2 …"` when any class is set.
pub open spec fn attributes_text(id: Option<Seq<char>>, classes: Seq<Seq<char>>) -> Seq<char> {
    (match id {
        Some(x) => " id=\""@ + x + "\""@,
        None => Seq::empty(),
    }) + (if classes.len() > 0 {
        " class=\""@ + space_joined(classes) + "\""@
    } else {
        Seq::empty()
    })
}

/// The CSS selector text of the first `i` ancestor segments, outermost
/// first, each segment followed by a single space.
pub open spec fn css_selector_prefix(chain: Seq<Seq<char>>, i: int) -> Seq<char>
    decreases i,
{
    if i <= 0 || i > chain.len() {
        Seq::empty()
    } else {
        css_selector_prefix(chain, i - 1) + chain[i - 1] + " "@
    }
}

/// The CSS selector text of a whole ancestor chain.
pub open spec fn css_selector_text(chain: Seq<Seq<char>>) -> Seq<char> {
    css_selector_prefix(chain, chain.len() as int)
}

/// The text of the first `i` declarations, each as `property: value;`.
pub open spec fn declarations_prefix(ds: Seq<(Seq<char>, Seq<char>)>, i: int) -> Seq<char>
    decreases i,
{
    if i <= 0 || i > ds.len() {
        Seq::empty()
    } else {
        declarations_prefix(ds, i - 1) + ds[i - 1].0 + ": "@ + ds[i - 1].1 + ";"@
    }
}

/// The text of a whole declaration list.
pub open spec fn declarations_text(ds: Seq<(Seq<char>, Seq<char>)>) -> Seq<char> {
    declarations_prefix(ds, ds.len() as int)
}

/// The HTML generated for one node, under a chain of enclosing selector
/// segments (outermost first).
///
/// A selector pushes its own CSS segment onto the chain for its children. It
/// emits opening and closing tag text only when it has both a tag name and
/// declared element content; any other selector is a purely structural
/// grouping and contributes only its segment. A style ruleset becomes an
/// inline `<style>` block scoped to the full ancestor chain, emitted even
/// when its declaration list is empty.
pub open spec fn html_of(n: NodeModel, chain: Seq<Seq<char>>) -> Seq<char>
    decreases n, 0int via html_of_dec
{
    match n {
        NodeModel::Document(children) => html_seq_prefix(children, chain, children.len() as int),
        NodeModel::Selector { tag, id, classes, element, children } => {
            let seg = css_segment(tag, id, classes);
            let inner = html_seq_prefix(children, chain.push(seg), children.len() as int);
            if tag is Some && element is Some {
                "<"@ + tag->0 + attributes_text(id, classes) + ">"@ + element->0 + inner + "</"@
                    + tag->0 + ">"@
            } else {
                inner
            }
        },
        NodeModel::StyleRuleset { declarations } => "<style>"@ + css_selector_text(chain) + "{"@
            + declarations_text(declarations) + "}"@ + "</style>"@,
    }
}

/// The concatenated HTML of the first `i` nodes of a list, in order, all
/// under the same chain.
pub open spec fn html_seq_prefix(children: Seq<NodeModel>, chain: Seq<Seq<char>>, i: int) -> Seq<
    char,
>
    decreases children, i via html_seq_prefix_dec
{
    if i <= 0 || i > children.len() {
        Seq::empty()
    } else {
        html_seq_prefix(children, chain, i - 1) + html_of(children[i - 1], chain)
    }
}

#[via_fn]
proof fn html_of_dec(n: NodeModel, chain: Seq<Seq<char>>) {
    match n {
        NodeModel::Document(children) => {
            assert(decreases_to!(n => children));
        },
        NodeModel::Selector { tag, id, classes, element, children } => {
            assert(decreases_to!(n => children));
        },
        NodeModel::StyleRuleset { .. } => {},
    }
}

#[via_fn]
proof fn html_seq_prefix_dec(children: Seq<NodeModel>, chain: Seq<Seq<char>>, i: int) {
    if 0 < i <= children.len() {
        assert(decreases_to!(children => children[i - 1]));
    }
}

/// The full HTML text of a tree: its HTML under an empty ancestor chain.
pub open spec fn html_text(n: ASTNode) -> Seq<char> {
    html_of(node_model(n), Seq::empty())
}


/// Builds one ancestor's CSS segment, `tag#id.class1.class2`.
#[verifier::loop_isolation(false)]
fn generate_css_segment(tag: &Option<String>, id: &Option<String>, classes: &Vec<String>) -> (r:
    String)
    ensures
        r@ == css_segment(opt_model(*tag), opt_model(*id), strings_model(classes@)),
{
    let ghost cm = strings_model(classes@);
    let mut seg = String::new();
    if let Some(t) = tag {
        seg.append(t.as_str());
    }
    if let Some(x) = id {
        seg.append("#");
        seg.append(x.as_str());
    }
    let ghost front = seg@;
    let mut j: usize = 0;
    while j < classes.len()
        invariant
            j <= classes.len(),
            cm == strings_model(classes@),
            cm.len() == classes@.len(),
            seg@ == front + class_marks_prefix(cm, j as int),
        decreases classes.len() - j,
    {
        seg.append(".");
        seg.append(classes[j].as_str());
        proof {
            assert(cm[j as int] == classes@[j as int]@);
            assert(seg@ =~= front + class_marks_prefix(cm, j as int + 1));
        }
        j = j + 1;
    }
    proof {
        assert(seg@ =~= css_segment(opt_model(*tag), opt_model(*id), cm));
    }
    seg
}

impl ASTNode {
    /// Renders the tree as HTML with inlined CSS.
    ///
    /// Generation is total: every tree the parser can produce renders, so the
    /// result is always `Ok`. The error type remains for callers that match
    /// on the full result.
    pub fn to_html(&self) -> (r: Result<String, GenerationError>)
        ensures
            r matches Ok(h) && h@ == html_text(*self),
    {
        let mut selector_chain: Vec<String> = Vec::new();
        proof {
            assert(strings_model(selector_chain@) =~= Seq::<Seq<char>>::empty());
        }
        let html = self.generate_html(&mut selector_chain);
        Ok(html)
    }

    /// Generates the HTML of one node under the given chain of enclosing
    /// selector segments, pushing and popping this node's own segment around
    /// the visit of its children. The chain comes back exactly as it went in.
    #[verifier::loop_isolation(false)]
    fn generate_html(&self, selector_chain: &mut Vec<String>) -> (r: String)
        ensures
            final(selector_chain)@ == old(selector_chain)@,
            r@ == html_of(node_model(*self), strings_model(old(selector_chain)@)),
        decreases *self,
    {
        let ghost chain0 = strings_model(selector_chain@);
        match self {
            ASTNode::Document(children) => {
                let ghost models = node_models(children@);
                proof {
                    lemma_node_models(children@);
                }
                let mut html = String::new();
                let mut j: usize = 0;
                while j < children.len()
                    invariant
                        j <= children.len(),
                        selector_chain@ == old(selector_chain)@,
                        chain0 == strings_model(selector_chain@),
                        models == node_models(children@),
                        models.len() == children@.len(),
                        forall|k: int|
                            0 <= k < children@.len() ==> models[k] == node_model(children@[k]),
                        html@ == html_seq_prefix(models, chain0, j as int),
                    decreases children.len() - j,
                {
                    proof {
                        assert(decreases_to!(*self => self->Document_0));
                        assert(*children == self->Document_0);
                        assert(decreases_to!(*children => children@));
                        assert(decreases_to!(children@ => children@[j as int]));
                    }
                    let child_html = children[j].generate_html(selector_chain);
                    html.append(child_html.as_str());
                    proof {
                        assert(html@ =~= html_seq_prefix(models, chain0, j as int + 1));
                    }
                    j = j + 1;
                }
                html
            },
            ASTNode::Selector { tag, id, classes, element, children } => {
                let ghost models = node_models(children@);
                proof {
                    lemma_node_models(children@);
                }
                let mut html = String::new();
                if let Some(t) = tag {
                    if let Some(e) = element {
                        html.append("<");
                        html.append(t.as_str());
                        let attrs = self.generate_element_attributes(id, classes);
                        html.append(attrs.as_str());
                        html.append(">");
                        html.append(e.as_str());
                    }
                }
                let ghost opening = html@;
                let seg = generate_css_segment(tag, id, classes);
                let ghost seg_snap = seg;
                let ghost segv = seg@;
                selector_chain.push(seg);
                let ghost chain1 = strings_model(selector_chain@);
                proof {
                    assert(chain1 =~= chain0.push(segv));
                }
                let mut j: usize = 0;
                while j < children.len()
                    invariant
                        j <= children.len(),
                        selector_chain@ == old(selector_chain)@.push(seg_snap),
                        chain1 == strings_model(selector_chain@),
                        models == node_models(children@),
                        models.len() == children@.len(),
                        forall|k: int|
                            0 <= k < children@.len() ==> models[k] == node_model(children@[k]),
                        html@ == opening + html_seq_prefix(models, chain1, j as int),
                    decreases children.len() - j,
                {
                    proof {
                        assert(decreases_to!(*self => self->Selector_children));
                        assert(*children == self->Selector_children);
                        assert(decreases_to!(*children => children@));
                        assert(decreases_to!(children@ => children@[j as int]));
                    }
                    let child_html = children[j].generate_html(selector_chain);
                    html.append(child_html.as_str());
                    proof {
                        assert(html@ =~= opening + html_seq_prefix(models, chain1, j as int + 1));
                    }
                    j = j + 1;
                }
                selector_chain.pop();
                proof {
                    assert(selector_chain@ =~= old(selector_chain)@);
                }
                if let Some(t) = tag {
                    if element.is_some() {
                        html.append("</");
                        html.append(t.as_str());
                        html.append(">");
                    }
                }
                proof {
                    assert(html@ =~= html_of(node_model(*self), chain0));
                }
                html
            },
            ASTNode::StyleRuleset { declarations } => {
                let ghost ds = decls_model(declarations@);
                let mut rules = String::new();
                let mut j: usize = 0;
                while j < declarations.len()
                    invariant
                        j <= declarations.len(),
                        selector_chain@ == old(selector_chain)@,
                        ds == decls_model(declarations@),
                        ds.len() == declarations@.len(),
                        rules@ == declarations_prefix(ds, j as int),
                    decreases declarations.len() - j,
                {
                    let d = &declarations[j];
                    rules.append(d.0.as_str());
                    rules.append(": ");
                    rules.append(d.1.as_str());
                    rules.append(";");
                    proof {
                        assert(ds[j as int] == (declarations@[j as int].0@, declarations@[
                            j as int
                        ].1@));
                        assert(rules@ =~= declarations_prefix(ds, j as int + 1));
                    }
                    j = j + 1;
                }
                let css_selector = self.generate_css_selector(selector_chain);
                let mut html = String::new();
                html.append("<style>");
                html.append(css_selector.as_str());
                html.append("{");
                html.append(rules.as_str());
                html.append("}");
                html.append("</style>");
                proof {
                    assert(html@ =~= html_of(node_model(*self), chain0));
                }
                html
            },
        }
    }

    /// Builds the attribute text of an emitted element.
    #[verifier::loop_isolation(false)]
    fn generate_element_attributes(&self, id: &Option<String>, classes: &Vec<String>) -> (r:
        String)
        ensures
            r@ == attributes_text(opt_model(*id), strings_model(classes@)),
    {
        let ghost cm = strings_model(classes@);
        let mut attributes = String::new();
        if let Some(x) = id {
            attributes.append(" id=\"");
            attributes.append(x.as_str());
            attributes.append("\"");
        }
        let ghost front = attributes@;
        if classes.len() > 0 {
            attributes.append(" class=\"");
            let ghost front2 = attributes@;
            let mut j: usize = 0;
            while j < classes.len()
                invariant
                    j <= classes.len(),
                    cm == strings_model(classes@),
                    cm.len() == classes@.len(),
                    attributes@ == front2 + space_joined_prefix(cm, j as int),
                decreases classes.len() - j,
            {
                if j > 0 {
                    attributes.append(" ");
                }
                attributes.append(classes[j].as_str());
                proof {
                    assert(cm[j as int] == classes@[j as int]@);
                    assert(attributes@ =~= front2 + space_joined_prefix(cm, j as int + 1));
                }
                j = j + 1;
            }
            attributes.append("\"");
            proof {
                assert(attributes@ =~= attributes_text(opt_model(*id), cm));
            }
        } else {
            proof {
                assert(attributes@ =~= attributes_text(opt_model(*id), cm));
            }
        }
        attributes
    }

    /// Builds the CSS selector text of an ancestor chain: every segment,
    /// outermost first, each followed by a single space.
    #[verifier::loop_isolation(false)]
    fn generate_css_selector(&self, selector_chain: &Vec<String>) -> (r: String)
        ensures
            r@ == css_selector_text(strings_model(selector_chain@)),
    {
        let ghost cm = strings_model(selector_chain@);
        let mut selector = String::new();
        let mut j: usize = 0;
        while j < selector_chain.len()
            invariant
                j <= selector_chain.len(),
                cm == strings_model(selector_chain@),
                cm.len() == selector_chain@.len(),
                selector@ == css_selector_prefix(cm, j as int),
            decreases selector_chain.len() - j,
        {
            selector.append(selector_chain[j].as_str());
            selector.append(" ");
            proof {
                assert(cm[j as int] == selector_chain@[j as int]@);
                assert(selector@ =~= css_selector_prefix(cm, j as int + 1));
            }
            j = j + 1;
        }
        selector
    }
}

} // verus!
