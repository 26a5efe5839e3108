//! Parsing HTML text into a [`Dom`].
//!
//! The parsing itself is done by `html5ever`, which builds a reference-counted
//! tree (`markup5ever_rcdom`). What that parser returns for a given text is
//! not restated here: it has a name, [`parsed_document`], and the few
//! functions at the top of this file that touch the parser's tree are trusted
//! to agree with it. Everything below them is verified: the tree is copied
//! node by node into an arena, and the arena is proved to stand for the very
//! tree that the parser built.

use crate::dom::{
    arena_wf, lemma_subtree_children, subtree, Attribute, Dom, NodeKind, NodeSpec, Tree,
};
use html5ever::tendril::TendrilSink;
use markup5ever_rcdom::{Node, NodeData, RcDom};
use std::rc::Rc;
use vstd::prelude::*;
use vstd::string::StrSliceExecFns;

verus! {

/// The parser takes fewer characters than this. Each of its buffers grows
/// to the next power of two and panics where that passes 2^31 bytes. No
/// buffer holds more than the text itself, and a character takes at most
/// four bytes, also where the parser replaces it; the bound leaves as much
/// room again.
pub const MAX_HTML_CHARS: usize = 0x1000_0000;

/// Whether a text is short enough for the parser.
pub open spec fn parseable(html: Seq<char>) -> bool {
    html.len() < MAX_HTML_CHARS
}

/// Whether `html` is short enough for the parser.
pub fn is_parseable(html: &str) -> (ok: bool)
    ensures
        ok == parseable(html@),
{
    html.unicode_len() < MAX_HTML_CHARS
}

/// A node of the parser's tree. Its inside is not visible to the verifier.
#[verifier::external_type_specification]
#[verifier::external_body]
pub struct ExNode(Node);

/// The document tree that `html5ever` builds for the text `html`, with the
/// error recovery that HTML5 prescribes.
pub uninterp spec fn parsed_document(html: Seq<char>) -> Tree;

/// The tree that hangs below a node of the parser's tree: what the node is,
/// and the trees below its children in order.
pub uninterp spec fn node_tree(node: Node) -> Tree;

/// The trees below a sequence of parser nodes.
pub open spec fn node_trees(nodes: Seq<Rc<Node>>) -> Seq<Tree> {
    nodes.map_values(|n: Rc<Node>| node_tree(*n))
}

/// Calls `html5ever::parse_document` with an `RcDom` sink and default options
/// on the UTF-8 bytes of `html`, and returns the document node. The tree below
/// that node is, by definition, `parsed_document(html@)`. The read cannot
/// fail, as it reads from memory. Longer text than the bound lets through
/// can overflow one of the parser's buffers, which panics.
#[verifier::external_body]
fn parse_root(html: &str) -> (root: Rc<Node>)
    requires
        parseable(html@),
    ensures
        node_tree(*root) == parsed_document(html@),
{
    html5ever::parse_document(RcDom::default(), Default::default())
        .from_utf8()
        .read_from(&mut html.as_bytes())
        .unwrap()
        .document
}

/// Reads the field `data` of a parser node: the kind at the root of the
/// node's tree. Of an element it keeps the local tag name and, for each
/// attribute in order, the local name and the value; a doctype, a comment
/// and a processing instruction all count as `Other`.
#[verifier::external_body]
fn node_kind(node: &Rc<Node>) -> (kind: NodeKind)
    ensures
        kind@ == node_tree(**node).kind,
{
    match &node.data {
        NodeData::Document => NodeKind::Document,
        NodeData::Text { contents } => NodeKind::Text(contents.borrow().to_string()),
        NodeData::Element { name, attrs, .. } => NodeKind::Element {
            name: name.local.to_string(),
            attrs: attrs.borrow().iter().map(|a| Attribute {
                name: a.name.local.to_string(),
                value: a.value.to_string(),
            }).collect(),
        },
        NodeData::Doctype { .. } | NodeData::Comment { .. } => NodeKind::Other,
        NodeData::ProcessingInstruction { .. } => NodeKind::Other,
    }
}

/// Reads the field `children` of a parser node: the node's children in
/// order. The trees below them are the children of the node's tree.
#[verifier::external_body]
fn node_children(node: &Rc<Node>) -> (children: Vec<Rc<Node>>)
    ensures
        node_trees(children@) == node_tree(**node).children,
{
    node.children.borrow().clone()
}

/// Entry `i` of the arena has the kind of tree `i`.
pub open spec fn kinds_agree(arena: Seq<NodeSpec>, trees: Seq<Tree>) -> bool {
    forall|i: int| 0 <= i < arena.len() ==> (#[trigger] arena[i]).kind == trees[i].kind
}

/// Entry `i` of the arena lists, in order, where the children of tree `i`
/// stand.
pub open spec fn children_agree(arena: Seq<NodeSpec>, trees: Seq<Tree>, i: int) -> bool {
    &&& arena[i].children.len() == trees[i].children.len()
    &&& forall|j: int|
        0 <= j < arena[i].children.len() ==> trees[(#[trigger] arena[i].children[j]) as int]
            == trees[i].children[j]
}

/// The arena is a copy of the trees as far as the copying has come: every
/// entry has the right kind, the entries before `done` have their children,
/// and the entries from `done` on have none yet.
pub open spec fn copied(arena: Seq<NodeSpec>, trees: Seq<Tree>, done: int) -> bool {
    &&& arena_wf(arena)
    &&& arena.len() <= trees.len()
    &&& kinds_agree(arena, trees)
    &&& forall|i: int| 0 <= i < done ==> #[trigger] children_agree(arena, trees, i)
    &&& forall|i: int| done < i < arena.len() ==> (#[trigger] arena[i]).children.len() == 0
}

/// In an arena that copies `trees` entry by entry, the tree below entry `i`
/// is tree `i`.
pub proof fn lemma_copied_subtree(arena: Seq<NodeSpec>, trees: Seq<Tree>, i: int)
    requires
        copied(arena, trees, arena.len() as int),
        0 <= i < arena.len(),
    ensures
        subtree(arena, i) == trees[i],
    decreases arena.len() - i,
{
    let below = subtree(arena, i);
    lemma_subtree_children(arena, i);
    assert(children_agree(arena, trees, i));
    assert forall|j: int| 0 <= j < below.children.len() implies below.children[j]
        == trees[i].children[j] by {
        lemma_copied_subtree(arena, trees, arena[i].children[j] as int);
    }
    assert(below.children =~= trees[i].children);
}

/// Copies the parser's tree below `root` into an arena.
fn copy_tree(root: Rc<Node>) -> (dom: Dom)
    ensures
        dom.wf(),
        dom.tree() == node_tree(*root),
{
    let mut dom = Dom::with_root(node_kind(&root));
    let mut nodes: Vec<Rc<Node>> = Vec::new();
    nodes.push(root);
    let mut next: usize = 0;
    while next < nodes.len()
        invariant
            next <= nodes@.len(),
            nodes@.len() == dom@.len(),
            nodes@[0] == root,
            copied(dom@, node_trees(nodes@), next as int),
            next < nodes@.len() ==> dom@[next as int].children.len() == 0,
        decreases usize::MAX - next,
    {
        let mut children = node_children(&nodes[next]);
        let first = nodes.len();
        let count = children.len();
        let ghost before = nodes@;
        nodes.append(&mut children);
        let ghost trees = node_trees(nodes@);
        proof {
            assert(nodes@.len() == nodes.len());
            assert forall|i: int| 0 <= i < next implies #[trigger] children_agree(
                dom@,
                trees,
                i,
            ) by {
                assert(children_agree(dom@, node_trees(before), i));
            }
        }
        let mut j: usize = 0;
        while j < count
            invariant
                j <= count,
                next < first,
                first + count == nodes@.len(),
                first + count <= usize::MAX,
                dom@.len() == first + j,
                nodes@[0] == root,
                trees == node_trees(nodes@),
                trees[next as int].children.len() == count,
                forall|k: int| 0 <= k < count ==> trees[first + k] == trees[next as int].children[k],
                copied(dom@, trees, next as int),
                dom@[next as int].children.len() == j,
                forall|k: int| 0 <= k < j ==> dom@[next as int].children[k] == first + k,
            decreases count - j,
        {
            let ghost arena = dom@;
            let kind = node_kind(&nodes[first + j]);
            dom.append_child(next, kind);
            proof {
                let after = dom@;
                assert forall|i: int| 0 <= i < after.len() implies (#[trigger] after[i]).kind
                    == trees[i].kind by {}
                assert forall|i: int| 0 <= i < next implies #[trigger] children_agree(
                    after,
                    trees,
                    i,
                ) by {
                    assert(children_agree(arena, trees, i));
                }
                assert forall|i: int| next < i < after.len() implies (#[trigger] after[i]).children.len()
                    == 0 by {}
            }
            j = j + 1;
        }
        next = next + 1;
    }
    proof {
        lemma_copied_subtree(dom@, node_trees(nodes@), 0);
    }
    dom
}

/// Parses `html` into a document tree. Text that is not well-formed HTML is
/// parsed all the same, with the error recovery that HTML5 prescribes.
pub fn parse_document(html: &str) -> (dom: Dom)
    requires
        parseable(html@),
    ensures
        dom.wf(),
        dom.tree() == parsed_document(html@),
{
    copy_tree(parse_root(html))
}

} // verus!
