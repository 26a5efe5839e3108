//! The breadth-first walk over a document tree.
//!
//! The walk visits the nodes level by level: the root, then its children from
//! left to right, then their children, and so on. Every visit carries the
//! path of the elements above the node. A text node whose trimmed text has at
//! least three characters gives one record; nothing else does, and nothing is
//! merged or dropped afterwards.
//!
//! The first half of this file defines that order and the records
//! mathematically; the second half is the queue-driven walk, proved to produce
//! exactly those records.

use crate::dom::{
    attribute_views, forest_height, height, lemma_subtree_children, subtree, Attribute,
    Dom, Kind, NodeKind, NodeSpec, Tree,
};
use crate::html_parser::{fragment_views, Fragment, TextWithParent};
use crate::text::{
    first_token, join, joined, spec_first_token, string_views, trim, trimmed,
};
use std::collections::VecDeque;
use vstd::prelude::*;
use vstd::string::StrSliceExecFns;
use vstd::string::StringExecFns;

verus! {

/// One stop of the walk: a node together with the path segments of the
/// elements above it, outermost first.
pub struct Visit {
    pub node: Tree,
    pub path: Seq<Seq<char>>,
}

/// The fewest characters that trimmed text must have to be recorded.
pub const MIN_TEXT_LEN: usize = 3;

/// The value of the first attribute called `name`, if there is one.
pub open spec fn attribute_value(attrs: Seq<(Seq<char>, Seq<char>)>, name: Seq<char>) -> Option<
    Seq<char>,
>
    decreases attrs.len(),
{
    if attrs.len() == 0 {
        None
    } else if attrs[0].0 == name {
        Some(attrs[0].1)
    } else {
        attribute_value(attrs.drop_first(), name)
    }
}

/// `#` and the element's id, for an element that has an `id` attribute.
pub open spec fn id_suffix(attrs: Seq<(Seq<char>, Seq<char>)>) -> Seq<char> {
    match attribute_value(attrs, "id"@) {
        Some(id) => "#"@ + id,
        None => Seq::empty(),
    }
}

/// `.` and the element's first class, for an element whose `class` attribute
/// names at least one class.
pub open spec fn class_suffix(attrs: Seq<(Seq<char>, Seq<char>)>) -> Seq<char> {
    match attribute_value(attrs, "class"@) {
        Some(classes) => if spec_first_token(classes).len() > 0 {
            "."@ + spec_first_token(classes)
        } else {
            Seq::empty()
        },
        None => Seq::empty(),
    }
}

/// The path segment of an element: its tag name, then its id, then its first
/// class.
pub open spec fn segment(name: Seq<char>, attrs: Seq<(Seq<char>, Seq<char>)>) -> Seq<char> {
    name + id_suffix(attrs) + class_suffix(attrs)
}

/// The path that the children of a visited node are visited with: an element
/// adds its own segment, any other node hands its path on unchanged.
pub open spec fn child_path(visit: Visit) -> Seq<Seq<char>> {
    match visit.node.kind {
        Kind::Element { name, attrs } => visit.path.push(segment(name, attrs)),
        _ => visit.path,
    }
}

/// The children of `node` in order, each to be visited with `path`.
pub open spec fn child_visits(node: Tree, path: Seq<Seq<char>>) -> Seq<Visit> {
    Seq::new(node.children.len(), |j: int| Visit { node: node.children[j], path })
}

/// The visits that a visit leads to on the next level. The walk does not
/// look below a text node.
pub open spec fn expand(visit: Visit) -> Seq<Visit> {
    match visit.node.kind {
        Kind::Text(_) => Seq::empty(),
        _ => child_visits(visit.node, child_path(visit)),
    }
}

/// The visits that the visits of one level lead to, in order.
pub open spec fn next_level(level: Seq<Visit>) -> Seq<Visit>
    decreases level.len(),
{
    if level.len() == 0 {
        Seq::empty()
    } else {
        next_level(level.drop_last()) + expand(level.last())
    }
}

/// The visits at `depth` steps below the root, from left to right.
pub open spec fn level(root: Tree, depth: nat) -> Seq<Visit>
    decreases depth,
{
    if depth == 0 {
        seq![Visit { node: root, path: Seq::empty() }]
    } else {
        next_level(level(root, (depth - 1) as nat))
    }
}

/// The visits of the levels above `depth`, level after level.
pub open spec fn levels_before(root: Tree, depth: nat) -> Seq<Visit>
    decreases depth,
{
    if depth == 0 {
        Seq::empty()
    } else {
        levels_before(root, (depth - 1) as nat) + level(root, (depth - 1) as nat)
    }
}

/// All visits of the walk over `root` in breadth-first order.
pub open spec fn visit_order(root: Tree) -> Seq<Visit> {
    levels_before(root, height(root) + 1)
}

/// Whether a visit gives a record: it stands on a text node whose trimmed
/// text has at least `MIN_TEXT_LEN` characters.
pub open spec fn is_recorded(visit: Visit) -> bool {
    match visit.node.kind {
        Kind::Text(text) => trimmed(text).len() >= MIN_TEXT_LEN,
        _ => false,
    }
}

/// The record that a recorded visit gives.
pub open spec fn record_of(visit: Visit) -> Fragment {
    Fragment {
        text: match visit.node.kind {
            Kind::Text(text) => trimmed(text),
            _ => Seq::empty(),
        },
        parent_path: joined(visit.path, " > "@),
        parent_classes: Seq::empty(),
        parent_id: None,
    }
}

/// The records of a sequence of visits: one for each recorded visit, in the
/// order of the visits.
pub open spec fn records(visits: Seq<Visit>) -> Seq<Fragment>
    decreases visits.len(),
{
    if visits.len() == 0 {
        Seq::empty()
    } else if is_recorded(visits.last()) {
        records(visits.drop_last()).push(record_of(visits.last()))
    } else {
        records(visits.drop_last())
    }
}

/// The records of the walk over `root`.
pub open spec fn fragments(root: Tree) -> Seq<Fragment> {
    records(visit_order(root))
}

/// One more visit at the end of a level adds what it expands to at the end
/// of the next level.
pub proof fn lemma_next_level_push(level: Seq<Visit>, visit: Visit)
    ensures
        next_level(level.push(visit)) == next_level(level) + expand(visit),
{
    assert(level.push(visit).drop_last() =~= level);
}

/// A child is less high than its parent.
pub proof fn lemma_child_height(trees: Seq<Tree>, j: int)
    requires
        0 <= j < trees.len(),
    ensures
        height(trees[j]) < forest_height(trees),
    decreases trees.len(),
{
    if j < trees.len() - 1 {
        lemma_child_height(trees.drop_last(), j);
    }
}

/// Every visit of the next level stands on a node that is less high than
/// some node of this level.
pub proof fn lemma_next_level_heights(level: Seq<Visit>, bound: int)
    requires
        forall|i: int| 0 <= i < level.len() ==> height(#[trigger] level[i].node) <= bound,
    ensures
        forall|i: int|
            0 <= i < next_level(level).len() ==> height(#[trigger] next_level(level)[i].node)
                < bound,
    decreases level.len(),
{
    if level.len() > 0 {
        let front = level.drop_last();
        let last = level.last();
        assert forall|i: int| 0 <= i < front.len() implies height(#[trigger] front[i].node)
            <= bound by {}
        lemma_next_level_heights(front, bound);
        assert forall|i: int| 0 <= i < next_level(level).len() implies height(
            #[trigger] next_level(level)[i].node,
        ) < bound by {
            if i >= next_level(front).len() {
                lemma_child_height(last.node.children, i - next_level(front).len());
            }
        }
    }
}

/// A node that is visited at `depth` has at most `height(root) - depth`
/// levels below it.
pub proof fn lemma_level_heights(root: Tree, depth: nat)
    ensures
        forall|i: int|
            0 <= i < level(root, depth).len() ==> height(#[trigger] level(root, depth)[i].node)
                + depth <= height(root),
    decreases depth,
{
    if depth > 0 {
        lemma_level_heights(root, (depth - 1) as nat);
        lemma_next_level_heights(level(root, (depth - 1) as nat), height(root) - (depth - 1));
    }
}

/// No level below the height of the tree holds a visit.
pub proof fn lemma_level_depth(root: Tree, depth: nat)
    requires
        level(root, depth).len() > 0,
    ensures
        depth <= height(root),
{
    lemma_level_heights(root, depth);
    let first = level(root, depth)[0];
    assert(height(first.node) + depth <= height(root));
}

/// Below an empty level every level is empty, and the visits above stay as
/// they are.
pub proof fn lemma_levels_end(root: Tree, depth: nat, below: nat)
    requires
        level(root, depth).len() == 0,
        depth <= below,
    ensures
        level(root, below).len() == 0,
        levels_before(root, below) == levels_before(root, depth),
    decreases below,
{
    if depth < below {
        lemma_levels_end(root, depth, (below - 1) as nat);
    }
}

/// The visits that stand in the queue: entry `i` stands for the node at its
/// index, reached by its path.
pub open spec fn queue_visits(arena: Seq<NodeSpec>, queue: Seq<(usize, Vec<String>)>) -> Seq<
    Visit,
> {
    Seq::new(
        queue.len(),
        |i: int| Visit { node: subtree(arena, queue[i].0 as int), path: string_views(queue[i].1@) },
    )
}

/// Whether every entry of the queue points into the arena.
pub open spec fn queue_in_range(arena: Seq<NodeSpec>, queue: Seq<(usize, Vec<String>)>) -> bool {
    forall|i: int| 0 <= i < queue.len() ==> (#[trigger] queue[i]).0 < arena.len()
}

/// The value of the first attribute called `name`, if there is one.
pub fn find_attribute<'a>(attrs: &'a Vec<Attribute>, name: &str) -> (value: Option<&'a String>)
    ensures
        match value {
            Some(v) => attribute_value(attribute_views(attrs@), name@) == Some(v@),
            None => attribute_value(attribute_views(attrs@), name@).is_none(),
        },
{
    let ghost views = attribute_views(attrs@);
    let mut i: usize = 0;
    assert(views.skip(0) =~= views);
    while i < attrs.len()
        invariant
            i <= attrs@.len(),
            views == attribute_views(attrs@),
            attribute_value(views, name@) == attribute_value(views.skip(i as int), name@),
        decreases attrs@.len() - i,
    {
        if *attrs[i].name.as_str() == *name {
            return Some(&attrs[i].value);
        }
        assert(views.skip(i as int).drop_first() =~= views.skip(i + 1));
        i = i + 1;
    }
    None
}

/// The path segment of an element with the given tag name and attributes.
pub fn path_segment(name: &str, attrs: &Vec<Attribute>) -> (out: String)
    ensures
        out@ == segment(name@, attribute_views(attrs@)),
{
    let mut out = String::from_str(name);
    match find_attribute(attrs, "id") {
        Some(id) => {
            out.append("#");
            out.append(id.as_str());
        },
        None => {},
    }
    match find_attribute(attrs, "class") {
        Some(classes) => {
            match first_token(classes.as_str()) {
                Some(class) => {
                    out.append(".");
                    out.append(class.as_str());
                },
                None => {},
            }
        },
        None => {},
    }
    out
}

/// A copy of a path.
fn copy_path(path: &Vec<String>) -> (copy: Vec<String>)
    ensures
        string_views(copy@) == string_views(path@),
{
    let mut copy: Vec<String> = Vec::new();
    for i in 0..path.len()
        invariant
            string_views(copy@) == string_views(path@).take(i as int),
    {
        let ghost before = copy@;
        let part = path[i].clone();
        copy.push(part);
        assert(string_views(copy@) =~= string_views(before).push(part@));
    }
    copy
}

/// Puts the children of node `index` at the back of the queue, each with a
/// copy of `path`.
fn enqueue_children(
    dom: &Dom,
    index: usize,
    path: &Vec<String>,
    queue: &mut VecDeque<(usize, Vec<String>)>,
)
    requires
        dom.wf(),
        index < dom@.len(),
        queue_in_range(dom@, old(queue)@),
    ensures
        queue_in_range(dom@, final(queue)@),
        queue_visits(dom@, final(queue)@) == queue_visits(dom@, old(queue)@) + child_visits(
            subtree(dom@, index as int),
            string_views(path@),
        ),
{
    let children = dom.children(index);
    let ghost node = subtree(dom@, index as int);
    let ghost added = child_visits(node, string_views(path@));
    proof {
        lemma_subtree_children(dom@, index as int);
    }
    for j in 0..children.len()
        invariant
            dom.wf(),
            index < dom@.len(),
            children@ == dom@[index as int].children,
            node == subtree(dom@, index as int),
            added == child_visits(node, string_views(path@)),
            added.len() == children@.len(),
            queue_in_range(dom@, queue@),
            queue_visits(dom@, queue@) == queue_visits(dom@, old(queue)@) + added.take(j as int),
    {
        queue.push_back((children[j], copy_path(path)));
        proof {
            lemma_subtree_children(dom@, index as int);
            assert(queue_visits(dom@, old(queue)@) + added.take(j + 1) =~= (queue_visits(
                dom@,
                old(queue)@,
            ) + added.take(j as int)).push(added[j as int]));
        }
    }
}

/// Walks the document breadth-first and returns one record for each text
/// node whose trimmed text has at least `MIN_TEXT_LEN` characters, in the
/// order in which the walk meets them.
pub fn walk(dom: &Dom) -> (found: Vec<TextWithParent>)
    requires
        dom.wf(),
    ensures
        fragment_views(found@) == fragments(dom.tree()),
{
    let ghost root = dom.tree();
    let ghost mut depth: nat = 0;
    let ghost mut done: int = 0;
    let mut found: Vec<TextWithParent> = Vec::new();
    let mut queue: VecDeque<(usize, Vec<String>)> = VecDeque::new();
    queue.push_back((0, Vec::new()));
    assert(string_views(Seq::<String>::empty()) =~= Seq::<Seq<char>>::empty());
    while queue.len() > 0
        invariant
            dom.wf(),
            root == dom.tree(),
            queue_in_range(dom@, queue@),
            depth <= height(root),
            0 <= done <= level(root, depth).len(),
            level(root, depth).len() > 0,
            queue_visits(dom@, queue@) == level(root, depth).skip(done) + next_level(
                level(root, depth).take(done),
            ),
            fragment_views(found@) == records(
                levels_before(root, depth) + level(root, depth).take(done),
            ),
        decreases height(root) - depth, level(root, depth).len() - done,
    {
        proof {
            // The level is used up: what waits in the queue is the next level.
            if done == level(root, depth).len() {
                assert(level(root, depth).take(done) =~= level(root, depth));
                lemma_level_depth(root, depth + 1);
                depth = depth + 1;
                done = 0;
            }
        }
        let ghost current = level(root, depth);
        let ghost visit = current[done];
        let ghost waiting = queue_visits(dom@, queue@);
        assert(waiting[0] == visit);
        match queue.pop_front() {
            Some((index, path)) => {
                proof {
                    lemma_subtree_children(dom@, index as int);
                    assert(queue_visits(dom@, queue@) =~= waiting.drop_first());
                    assert(current.take(done + 1) =~= current.take(done).push(visit));
                    lemma_next_level_push(current.take(done), visit);
                    assert((levels_before(root, depth) + current.take(done)).push(
                        visit,
                    ).drop_last() =~= levels_before(root, depth) + current.take(done));
                }
                match dom.kind(index) {
                    NodeKind::Text(text) => {
                        let text = trim(text.as_str());
                        if text.as_str().unicode_len() >= MIN_TEXT_LEN {
                            let parent_path = join(&path, " > ");
                            found.push(
                                TextWithParent {
                                    text,
                                    parent_path,
                                    parent_classes: Vec::new(),
                                    parent_id: None,
                                },
                            );
                            assert(string_views(Seq::<String>::empty()) =~= Seq::<
                                Seq<char>,
                            >::empty());
                        }
                    },
                    NodeKind::Element { name, attrs } => {
                        let mut path = path;
                        path.push(path_segment(name.as_str(), attrs));
                        assert(string_views(path@) =~= child_path(visit));
                        enqueue_children(dom, index, &path, &mut queue);
                    },
                    _ => {
                        enqueue_children(dom, index, &path, &mut queue);
                    },
                }
                proof {
                    done = done + 1;
                }
            },
            None => {},
        }
    }
    proof {
        assert(level(root, depth).take(done) =~= level(root, depth));
        lemma_levels_end(root, depth + 1, height(root) + 1);
    }
    found
}

} // verus!
