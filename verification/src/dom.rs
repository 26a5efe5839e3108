//! The document tree that the walker reads.
//!
//! A document is held as an arena: a vector of nodes in which every node lists
//! the indices of its children and node 0 is the root. Children always stand
//! behind their parent, so the arena can only hold finite trees. The tree that
//! an arena stands for is the value the contracts speak of ([`Tree`]).

use vstd::prelude::*;

verus! {

/// One attribute of an element.
#[derive(Debug)]
pub struct Attribute {
    pub name: String,
    pub value: String,
}

impl View for Attribute {
    type V = (Seq<char>, Seq<char>);

    open spec fn view(&self) -> (Seq<char>, Seq<char>) {
        (self.name@, self.value@)
    }
}

/// The names and values of a sequence of attributes.
pub open spec fn attribute_views(attrs: Seq<Attribute>) -> Seq<(Seq<char>, Seq<char>)> {
    attrs.map_values(|a: Attribute| a@)
}

/// What a node of a document is.
#[derive(Debug)]
pub enum NodeKind {
    /// The root of a parsed document.
    Document,
    /// An element with its tag name and its attributes in source order.
    Element { name: String, attrs: Vec<Attribute> },
    /// A run of text.
    Text(String),
    /// Anything else (comment, doctype, processing instruction): it is walked
    /// through but never read.
    Other,
}

/// What a node is, as a mathematical value.
pub enum Kind {
    Document,
    Element { name: Seq<char>, attrs: Seq<(Seq<char>, Seq<char>)> },
    Text(Seq<char>),
    Other,
}

impl View for NodeKind {
    type V = Kind;

    open spec fn view(&self) -> Kind {
        match self {
            NodeKind::Document => Kind::Document,
            NodeKind::Element { name, attrs } => Kind::Element {
                name: name@,
                attrs: attribute_views(attrs@),
            },
            NodeKind::Text(text) => Kind::Text(text@),
            NodeKind::Other => Kind::Other,
        }
    }
}

/// A finite ordered tree of nodes.
pub struct Tree {
    pub kind: Kind,
    pub children: Seq<Tree>,
}

/// The number of edges on the longest way down from the root of `tree`.
pub open spec fn height(tree: Tree) -> nat
    decreases tree,
{
    forest_height(tree.children)
}

/// The number of nodes on the longest way down from the root of one of `trees`.
pub open spec fn forest_height(trees: Seq<Tree>) -> nat
    decreases trees,
{
    if trees.len() == 0 {
        0
    } else {
        let last = 1 + height(trees.last());
        let rest = forest_height(trees.drop_last());
        if last >= rest {
            last
        } else {
            rest
        }
    }
}

/// One entry of an arena: what the node is and where its children stand.
pub struct NodeSpec {
    pub kind: Kind,
    pub children: Seq<usize>,
}

/// An arena is well formed when it has a root and every child stands behind
/// its parent and inside the arena.
pub open spec fn arena_wf(arena: Seq<NodeSpec>) -> bool {
    &&& arena.len() > 0
    &&& forall|i: int, j: int|
        0 <= i < arena.len() && 0 <= j < arena[i].children.len() ==> i < (
        #[trigger] arena[i].children[j]) < arena.len()
}

/// The tree below entry `i` of a well-formed arena.
pub open spec fn subtree(arena: Seq<NodeSpec>, i: int) -> Tree
    decreases arena.len() - i,
    when arena_wf(arena) && 0 <= i < arena.len()
{
    Tree {
        kind: arena[i].kind,
        children: Seq::new(
            arena[i].children.len(),
            |j: int|
                if 0 <= j < arena[i].children.len() {
                    subtree(arena, arena[i].children[j] as int)
                } else {
                    Tree { kind: Kind::Other, children: Seq::empty() }
                },
        ),
    }
}

/// The arena that results from giving entry `parent` one more child, a leaf
/// of the given kind that is stored at the end.
pub open spec fn with_child(arena: Seq<NodeSpec>, parent: int, kind: Kind) -> Seq<NodeSpec> {
    arena.update(
        parent,
        NodeSpec {
            kind: arena[parent].kind,
            children: arena[parent].children.push(arena.len() as usize),
        },
    ).push(NodeSpec { kind, children: Seq::empty() })
}

struct DomNode {
    kind: NodeKind,
    children: Vec<usize>,
}

impl View for DomNode {
    type V = NodeSpec;

    closed spec fn view(&self) -> NodeSpec {
        NodeSpec { kind: self.kind@, children: self.children@ }
    }
}

/// A document tree, stored as an arena whose entry 0 is the root.
pub struct Dom {
    nodes: Vec<DomNode>,
}

impl View for Dom {
    type V = Seq<NodeSpec>;

    closed spec fn view(&self) -> Seq<NodeSpec> {
        self.nodes@.map_values(|n: DomNode| n@)
    }
}

impl Dom {
    /// Whether the arena is well formed. Every `Dom` that this module hands
    /// out is.
    pub open spec fn wf(&self) -> bool {
        arena_wf(self@)
    }

    /// The tree that the document stands for.
    pub open spec fn tree(&self) -> Tree {
        subtree(self@, 0)
    }

    /// A document that holds only its root, a `Document` node.
    pub fn new() -> (dom: Dom)
        ensures
            dom.wf(),
            dom@ == seq![NodeSpec { kind: Kind::Document, children: Seq::empty() }],
    {
        Dom::with_root(NodeKind::Document)
    }

    /// A document that holds only a root of the given kind.
    pub fn with_root(kind: NodeKind) -> (dom: Dom)
        ensures
            dom.wf(),
            dom@ == seq![NodeSpec { kind: kind@, children: Seq::empty() }],
    {
        let mut nodes: Vec<DomNode> = Vec::new();
        nodes.push(DomNode { kind, children: Vec::new() });
        let dom = Dom { nodes };
        dom
    }

    /// The number of nodes.
    pub fn len(&self) -> (n: usize)
        ensures
            n == self@.len(),
    {
        self.nodes.len()
    }

    /// What node `index` is.
    pub fn kind(&self, index: usize) -> (kind: &NodeKind)
        requires
            index < self@.len(),
        ensures
            kind@ == self@[index as int].kind,
    {
        &self.nodes[index].kind
    }

    /// The indices of the children of node `index`, in order.
    pub fn children(&self, index: usize) -> (children: &Vec<usize>)
        requires
            index < self@.len(),
        ensures
            children@ == self@[index as int].children,
    {
        &self.nodes[index].children
    }

    /// Adds a leaf of the given kind as the last child of node `parent` and
    /// returns its index. A `parent` outside the document changes nothing.
    pub fn append_child(&mut self, parent: usize, kind: NodeKind) -> (index: Option<usize>)
        requires
            old(self).wf(),
        ensures
            final(self).wf(),
            parent < old(self)@.len() ==> index == Some(old(self)@.len() as usize) && final(self)@
                == with_child(old(self)@, parent as int, kind@),
            parent >= old(self)@.len() ==> index.is_none() && final(self)@ == old(self)@,
    {
        let index = self.nodes.len();
        if parent >= index {
            return None;
        }
        self.nodes[parent].children.push(index);
        self.nodes.push(DomNode { kind, children: Vec::new() });
        proof {
            assert(self.nodes@.len() == self.nodes.len());
            assert(self@ =~= with_child(old(self)@, parent as int, kind@));
            lemma_with_child_wf(old(self)@, parent as int, kind@);
        }
        Some(index)
    }
}

/// Giving a node of a well-formed arena one more child keeps the arena well
/// formed.
pub proof fn lemma_with_child_wf(arena: Seq<NodeSpec>, parent: int, kind: Kind)
    requires
        arena_wf(arena),
        0 <= parent < arena.len(),
        arena.len() < usize::MAX,
    ensures
        arena_wf(with_child(arena, parent, kind)),
{
    let after = with_child(arena, parent, kind);
    assert forall|i: int, j: int|
        0 <= i < after.len() && 0 <= j < after[i].children.len() implies i < (
    #[trigger] after[i].children[j]) < after.len() by {}
}

/// The tree below an entry is the entry's kind over the trees below its
/// children.
pub proof fn lemma_subtree_children(arena: Seq<NodeSpec>, i: int)
    requires
        arena_wf(arena),
        0 <= i < arena.len(),
    ensures
        subtree(arena, i).kind == arena[i].kind,
        subtree(arena, i).children.len() == arena[i].children.len(),
        forall|j: int|
            0 <= j < arena[i].children.len() ==> #[trigger] subtree(arena, i).children[j]
                == subtree(arena, arena[i].children[j] as int),
{
}

} // verus!
