//! Markup to plain text: a depth-first walk over a parsed document that keeps
//! block-level line breaks and renders preformatted text verbatim.

use crate::text::{lemma_trimmed_idempotent, same_text, trim, trimmed};
use html5ever::tendril::TendrilSink;
use html5ever::{parse_document, ParseOpts};
use markup5ever_rcdom::{Handle, NodeData, RcDom};
use vstd::prelude::*;
use vstd::string::{StrSliceExecFns, StringExecFns};

verus! {

/// One node of a parsed document, holding what the walk reads.
#[derive(Debug, PartialEq, Eq)]
pub enum MarkupNode {
    /// A run of text.
    Text { contents: String },
    /// An element with its local tag name and its children in document order.
    Element { name: String, children: Vec<MarkupNode> },
    /// A comment, a processing instruction, a doctype or a document node.
    Other,
}

/// The mathematical value of a `MarkupNode`.
pub enum MarkupModel {
    Text { contents: Seq<char> },
    Element { name: Seq<char>, children: Seq<MarkupModel> },
    Other,
}

impl View for MarkupNode {
    type V = MarkupModel;

    open spec fn view(&self) -> MarkupModel
        decreases self,
    {
        match self {
            MarkupNode::Text { contents } => MarkupModel::Text { contents: contents@ },
            MarkupNode::Element { name, children } => MarkupModel::Element {
                name: name@,
                children: Seq::new(
                    children@.len(),
                    |i: int|
                        if 0 <= i < children@.len() {
                            children@[i].view()
                        } else {
                            MarkupModel::Other
                        },
                ),
            },
            MarkupNode::Other => MarkupModel::Other,
        }
    }
}

/// The values of a sequence of nodes.
pub open spec fn forest_view(nodes: Seq<MarkupNode>) -> Seq<MarkupModel> {
    Seq::new(nodes.len(), |i: int| nodes[i]@)
}

/// The prefix that every preformatted run of text carries.
pub open spec fn verbatim_prefix() -> Seq<char> {
    "    "@
}

/// Tags that open a preformatted context.
pub open spec fn is_preformatted(name: Seq<char>) -> bool {
    name == "pre"@ || name == "code"@
}

/// Tags whose rendering is set off by a line break before and after.
pub open spec fn is_block(name: Seq<char>) -> bool {
    name == "p"@ || name == "div"@ || is_preformatted(name)
}

/// The text of one node. `verbatim` says whether the node lies inside a
/// preformatted element.
pub open spec fn render_node(node: MarkupModel, verbatim: bool) -> Seq<char>
    decreases node, 0nat,
{
    match node {
        MarkupModel::Text { contents } => if verbatim {
            verbatim_prefix() + contents
        } else {
            trimmed(contents)
        },
        MarkupModel::Element { name, children } => {
            let inner = render_first(children, children.len(), verbatim || is_preformatted(name));
            if is_block(name) {
                seq!['\n'] + inner + seq!['\n']
            } else {
                inner
            }
        },
        MarkupModel::Other => Seq::empty(),
    }
}

/// The texts of the first `n` of `nodes`, one after the other.
pub open spec fn render_first(nodes: Seq<MarkupModel>, n: nat, verbatim: bool) -> Seq<char>
    decreases nodes, n,
{
    if n == 0 || n > nodes.len() {
        Seq::empty()
    } else {
        render_first(nodes, (n - 1) as nat, verbatim) + render_node(nodes[n - 1], verbatim)
    }
}

/// The texts of all of `nodes`, one after the other.
pub open spec fn render_all(nodes: Seq<MarkupModel>, verbatim: bool) -> Seq<char> {
    render_first(nodes, nodes.len(), verbatim)
}

/// The longest markup, in characters, that is handed to the parser. The
/// parser keeps the input, and every run of text it makes of it, in buffers
/// whose capacity is rounded up to a power of two that must fit in 32 bits,
/// so no buffer may grow beyond 2^31 bytes. A character takes at most four
/// bytes, also where the parser puts another in its place, which keeps
/// markup of this length within that limit.
pub const MAX_MARKUP_LEN: usize = 0x1fff_ffff;

/// The children of the document node that `html5ever` builds for `html`, as
/// far as the walk reads them: text with its contents, elements with their
/// local names and children, anything else as `Other`.
pub uninterp spec fn parsed_document(html: Seq<char>) -> Seq<MarkupModel>;

/// A node of the tree that `markup5ever_rcdom` builds. Nothing of it is
/// visible here; `markup_of` reads it.
#[verifier::external_type_specification]
#[verifier::external_body]
pub struct ExNode(markup5ever_rcdom::Node);

/// Reads one node of `markup5ever_rcdom`'s tree, field by field: a text node
/// gives its contents, an element its local name and its children, each read
/// the same way; every other kind of node gives `Other`. Nothing is claimed
/// of the result here: `parse_markup` names what comes of a whole document.
#[verifier::external_body]
fn markup_of(node: &Handle) -> MarkupNode {
    match node.data {
        NodeData::Text { ref contents } => MarkupNode::Text {
            contents: contents.borrow().to_string(),
        },
        NodeData::Element { ref name, .. } => MarkupNode::Element {
            name: name.local.to_string(),
            children: node.children.borrow().iter().map(markup_of).collect(),
        },
        _ => MarkupNode::Other,
    }
}

/// `html5ever::parse_document` with an `RcDom` sink and default options, fed
/// `html` in one piece, and the children of the document node read by
/// `markup_of` while the tree is alive: a node of `RcDom` empties the nodes
/// below it when it is dropped. The input becomes one tendril, and a run of
/// text is pushed onto the tendril of its text node; a tendril panics where
/// it is made of more than `u32::MAX` bytes, and where its capacity, rounded
/// up to a power of two, overflows 32 bits, that is beyond 2^31 bytes.
/// Markup of more than `MAX_MARKUP_LEN` characters, which alone could reach
/// that size, is left out. The parser accepts any other input, and the tree
/// it builds depends on the input alone, so what is read is named
/// `parsed_document(html@)`.
#[verifier::external_body]
pub(crate) fn parse_markup(html: &str) -> (nodes: Vec<MarkupNode>)
    requires
        html@.len() <= MAX_MARKUP_LEN,
    ensures
        forest_view(nodes@) == parsed_document(html@),
{
    let dom = parse_document(RcDom::default(), ParseOpts::default()).one(html);
    let children = dom.document.children.borrow();
    children.iter().map(markup_of).collect()
}

/// The state of a walk: whether the node at hand lies inside a preformatted
/// element.
pub struct HtmlToText {
    pub in_code_block: bool,
}

/// Whether an element with this tag opens a preformatted context.
fn tag_is_preformatted(name: &str) -> (b: bool)
    ensures
        b == is_preformatted(name@),
{
    same_text(name, "pre") || same_text(name, "code")
}

/// Whether an element with this tag is set off by line breaks.
fn tag_is_block(name: &str) -> (b: bool)
    ensures
        b == is_block(name@),
{
    same_text(name, "p") || same_text(name, "div") || tag_is_preformatted(name)
}

impl HtmlToText {
    /// A walk that starts outside any preformatted element.
    pub fn new() -> (walk: HtmlToText)
        ensures
            !walk.in_code_block,
    {
        HtmlToText { in_code_block: false }
    }

    /// Renders `node` and everything below it. The flag is raised while the
    /// children of a `pre` or `code` element are rendered and is back at its
    /// former value afterwards.
    pub fn process_node(&mut self, node: &MarkupNode) -> (text: String)
        ensures
            text@ == render_node(node@, old(self).in_code_block),
            final(self).in_code_block == old(self).in_code_block,
        decreases node,
    {
        match node {
            MarkupNode::Text { contents } => {
                if self.in_code_block {
                    let mut text = String::from_str("    ");
                    text.append(contents.as_str());
                    text
                } else {
                    trim(contents.as_str())
                }
            },
            MarkupNode::Element { name, children } => {
                let outer = self.in_code_block;
                if tag_is_preformatted(name.as_str()) {
                    self.in_code_block = true;
                }
                let block = tag_is_block(name.as_str());
                let mut text = String::new();
                if block {
                    text.push('\n');
                }
                let ghost lead = text@;
                let ghost below = node@->children;
                let ghost inside = self.in_code_block;
                let mut i: usize = 0;
                while i < children.len()
                    invariant
                        i <= children.len(),
                        below.len() == children.len(),
                        forall|k: int| 0 <= k < children.len() ==> below[k] == children@[k]@,
                        forall|k: int|
                            0 <= k < children.len() ==> decreases_to!(node => children@[k]),
                        self.in_code_block == inside,
                        text@ == lead + render_first(below, i as nat, inside),
                    decreases children.len() - i,
                {
                    let piece = self.process_node(&children[i]);
                    text.append(piece.as_str());
                    i += 1;
                }
                self.in_code_block = outer;
                if block {
                    text.push('\n');
                }
                text
            },
            MarkupNode::Other => String::new(),
        }
    }

    /// Renders `nodes` one after the other.
    pub fn process_all(&mut self, nodes: &Vec<MarkupNode>) -> (text: String)
        ensures
            text@ == render_all(forest_view(nodes@), old(self).in_code_block),
            final(self).in_code_block == old(self).in_code_block,
    {
        let ghost below = forest_view(nodes@);
        let ghost flag = self.in_code_block;
        let mut text = String::new();
        let mut i: usize = 0;
        while i < nodes.len()
            invariant
                i <= nodes.len(),
                below == forest_view(nodes@),
                self.in_code_block == flag,
                text@ == render_first(below, i as nat, flag),
            decreases nodes.len() - i,
        {
            let piece = self.process_node(&nodes[i]);
            text.append(piece.as_str());
            i += 1;
        }
        text
    }
}

/// The plain text of already parsed markup, walked from outside any
/// preformatted element.
pub fn render_nodes(nodes: &Vec<MarkupNode>) -> (text: String)
    ensures
        text@ == render_all(forest_view(nodes@), false),
{
    let mut walk = HtmlToText::new();
    walk.process_all(nodes)
}

/// The plain text of `html`: what the walk makes of the parsed document,
/// and nothing for markup that is too long to be parsed.
pub open spec fn plain_text(html: Seq<char>) -> Seq<char> {
    if html.len() <= MAX_MARKUP_LEN {
        render_all(parsed_document(html), false)
    } else {
        Seq::empty()
    }
}

/// Parses `html`, a document or a fragment of one, and renders it as plain
/// text. Markup of more than `MAX_MARKUP_LEN` characters renders as nothing:
/// the parser's buffers could not hold it.
pub fn html_to_text(html: &str) -> (text: String)
    ensures
        text@ == plain_text(html@),
{
    if html.unicode_len() > MAX_MARKUP_LEN {
        return String::new();
    }
    let nodes = parse_markup(html);
    render_nodes(&nodes)
}

/// Text inside a preformatted element is rendered as it is, behind the
/// prefix; text elsewhere is rendered trimmed.
pub proof fn lemma_text_rendering(contents: Seq<char>, verbatim: bool)
    ensures
        verbatim ==> render_node(MarkupModel::Text { contents }, verbatim) == verbatim_prefix()
            + contents,
        !verbatim ==> render_node(MarkupModel::Text { contents }, verbatim) == trimmed(contents),
{
}

/// The children of a `pre` or `code` element are rendered as preformatted,
/// and so are the children of any element that itself lies inside one: the
/// preformatted context reaches every node below the element that opens it.
pub proof fn lemma_preformatted_interior(
    name: Seq<char>,
    children: Seq<MarkupModel>,
    verbatim: bool,
)
    requires
        verbatim || is_preformatted(name),
    ensures
        render_node(MarkupModel::Element { name, children }, verbatim) == if is_block(name) {
            seq!['\n'] + render_all(children, true) + seq!['\n']
        } else {
            render_all(children, true)
        },
{
}

/// Outside any preformatted element, the children of an element that is
/// neither `pre` nor `code` are rendered as ordinary text.
pub proof fn lemma_ordinary_interior(name: Seq<char>, children: Seq<MarkupModel>)
    requires
        !is_preformatted(name),
    ensures
        render_node(MarkupModel::Element { name, children }, false) == if is_block(name) {
            seq!['\n'] + render_all(children, false) + seq!['\n']
        } else {
            render_all(children, false)
        },
{
}

/// One run of text on its own renders as that text, trimmed.
pub proof fn lemma_plain_text(contents: Seq<char>)
    ensures
        render_all(seq![MarkupModel::Text { contents }], false) == trimmed(contents),
{
    lemma_render_one(MarkupModel::Text { contents }, false);
}

/// A single node renders alone as it renders in a list of one.
proof fn lemma_render_one(node: MarkupModel, verbatim: bool)
    ensures
        render_all(seq![node], verbatim) == render_node(node, verbatim),
{
    let nodes = seq![node];
    assert(render_first(nodes, 0, verbatim) =~= Seq::empty());
    assert(render_first(nodes, 1, verbatim) == render_first(nodes, 0, verbatim) + render_node(
        nodes[0],
        verbatim,
    ));
    assert(render_first(nodes, 1, verbatim) =~= render_node(node, verbatim));
}

/// The document that the parser builds for text without tags: an `html`
/// element holding an empty `head` and a `body` with one run of text.
pub open spec fn plain_document(contents: Seq<char>) -> Seq<MarkupModel> {
    seq![
        MarkupModel::Element {
            name: "html"@,
            children: seq![
                MarkupModel::Element { name: "head"@, children: Seq::empty() },
                MarkupModel::Element {
                    name: "body"@,
                    children: seq![MarkupModel::Text { contents }],
                },
            ],
        },
    ]
}

/// A document of text without tags renders as that text, trimmed, and
/// rendering the result once more as such a document changes nothing.
pub proof fn lemma_plain_document(contents: Seq<char>)
    ensures
        render_all(plain_document(contents), false) == trimmed(contents),
        render_all(plain_document(trimmed(contents)), false) == trimmed(contents),
{
    reveal_strlit("html");
    reveal_strlit("head");
    reveal_strlit("body");
    reveal_strlit("p");
    reveal_strlit("div");
    reveal_strlit("pre");
    reveal_strlit("code");
    assert("html"@[0] != "code"@[0]);
    assert("head"@[0] != "code"@[0]);
    assert("body"@[0] != "code"@[0]);
    assert(!is_block("html"@) && !is_block("head"@) && !is_block("body"@));
    lemma_plain_document_of(contents);
    lemma_plain_document_of(trimmed(contents));
    lemma_trimmed_idempotent(contents);
}

/// The first half of `lemma_plain_document`, given that `html`, `head` and
/// `body` are no block elements.
proof fn lemma_plain_document_of(contents: Seq<char>)
    requires
        !is_block("html"@),
        !is_block("head"@),
        !is_block("body"@),
    ensures
        render_all(plain_document(contents), false) == trimmed(contents),
{
    let text = MarkupModel::Text { contents };
    let head = MarkupModel::Element { name: "head"@, children: Seq::empty() };
    let body = MarkupModel::Element { name: "body"@, children: seq![text] };
    let parts = seq![head, body];
    let html = MarkupModel::Element { name: "html"@, children: parts };
    lemma_render_one(text, false);
    assert(render_node(body, false) == trimmed(contents));
    assert(render_first(Seq::<MarkupModel>::empty(), 0, false) =~= Seq::empty());
    assert(render_node(head, false) =~= Seq::empty());
    assert(render_first(parts, 0, false) =~= Seq::empty());
    assert(render_first(parts, 1, false) == render_first(parts, 0, false) + render_node(
        parts[0],
        false,
    ));
    assert(render_first(parts, 2, false) == render_first(parts, 1, false) + render_node(
        parts[1],
        false,
    ));
    assert(render_first(parts, 2, false) =~= trimmed(contents));
    assert(render_node(html, false) == trimmed(contents));
    lemma_render_one(html, false);
    assert(plain_document(contents) =~= seq![html]);
}

} // verus!
