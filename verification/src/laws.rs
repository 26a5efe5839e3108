//! What holds of every walk, proved from the definitions in [`crate::walk`].

use crate::dom::{height, Kind, Tree};
use crate::html_parser::{flattened, fragment_texts, Fragment};
use crate::text::{lemma_trimmed_is_trim, spec_is_white_space, trimmed};
use crate::walk::{
    fragments, is_recorded, lemma_level_depth, level, levels_before, record_of, records,
    visit_order, Visit, MIN_TEXT_LEN,
};
use vstd::prelude::*;

verus! {

/// The positions of the recorded visits among `visits`, in rising order.
pub open spec fn recorded_indices(visits: Seq<Visit>) -> Seq<int>
    decreases visits.len(),
{
    if visits.len() == 0 {
        Seq::empty()
    } else if is_recorded(visits.last()) {
        recorded_indices(visits.drop_last()).push(visits.len() - 1)
    } else {
        recorded_indices(visits.drop_last())
    }
}

/// The records are the recorded visits, one record for each, in the order of
/// the visits: record `i` comes from the `i`-th recorded visit, the sources
/// rise strictly, and no recorded visit is left out.
pub proof fn law_records_follow_visits(visits: Seq<Visit>)
    ensures
        recorded_indices(visits).len() == records(visits).len(),
        forall|i: int|
            0 <= i < records(visits).len() ==> {
                let source = #[trigger] recorded_indices(visits)[i];
                &&& 0 <= source < visits.len()
                &&& is_recorded(visits[source])
                &&& records(visits)[i] == record_of(visits[source])
            },
        forall|i: int, k: int|
            0 <= i < k < records(visits).len() ==> recorded_indices(visits)[i]
                < recorded_indices(visits)[k],
        forall|j: int|
            0 <= j < visits.len() && is_recorded(#[trigger] visits[j]) ==> recorded_indices(
                visits,
            ).contains(j),
    decreases visits.len(),
{
    if visits.len() > 0 {
        let front = visits.drop_last();
        let before = recorded_indices(front);
        let all = recorded_indices(visits);
        law_records_follow_visits(front);
        assert forall|i: int| 0 <= i < records(visits).len() implies {
            let source = #[trigger] all[i];
            &&& 0 <= source < visits.len()
            &&& is_recorded(visits[source])
            &&& records(visits)[i] == record_of(visits[source])
        } by {}
        assert forall|i: int, k: int| 0 <= i < k < records(visits).len() implies all[i]
            < all[k] by {}
        assert forall|j: int| 0 <= j < visits.len() && is_recorded(
            #[trigger] visits[j],
        ) implies all.contains(j) by {
            if j < front.len() {
                assert(front[j] == visits[j]);
                let at = choose|at: int| 0 <= at < before.len() && before[at] == j;
                assert(all[at] == j);
            } else {
                assert(all[all.len() - 1] == j);
            }
        }
    }
}

/// Every record of a walk holds trimmed text of at least three characters:
/// the text has no white space at either end, and trimming it again changes
/// nothing.
pub proof fn law_recorded_text_is_trimmed(root: Tree, i: int)
    requires
        0 <= i < fragments(root).len(),
    ensures
        fragments(root)[i].text.len() >= MIN_TEXT_LEN,
        trimmed(fragments(root)[i].text) == fragments(root)[i].text,
        !spec_is_white_space(fragments(root)[i].text.first()),
        !spec_is_white_space(fragments(root)[i].text.last()),
        fragments(root)[i].parent_classes.len() == 0,
        fragments(root)[i].parent_id.is_none(),
{
    let visits = visit_order(root);
    law_records_follow_visits(visits);
    let visit = visits[recorded_indices(visits)[i]];
    match visit.node.kind {
        Kind::Text(text) => {
            lemma_trimmed_is_trim(text);
        },
        _ => {},
    }
}

/// A visit that does not stand on a text node, or whose trimmed text is
/// shorter than three characters, gives no record: no record has it as its
/// source, and there are exactly as many records as recorded visits.
pub proof fn law_short_text_gives_no_record(root: Tree, j: int)
    requires
        0 <= j < visit_order(root).len(),
        !is_recorded(visit_order(root)[j]),
    ensures
        !recorded_indices(visit_order(root)).contains(j),
        fragments(root).len() == recorded_indices(visit_order(root)).len(),
{
    law_records_follow_visits(visit_order(root));
}

/// Nothing is merged: two different recorded visits give two different
/// places in the output, in the order of the visits, also where their text
/// or their path is the same.
pub proof fn law_no_deduplication(root: Tree, first: int, second: int) -> (places: (int, int))
    requires
        0 <= first < second < visit_order(root).len(),
        is_recorded(visit_order(root)[first]),
        is_recorded(visit_order(root)[second]),
    ensures
        0 <= places.0 < places.1 < fragments(root).len(),
        fragments(root)[places.0] == record_of(visit_order(root)[first]),
        fragments(root)[places.1] == record_of(visit_order(root)[second]),
{
    let visits = visit_order(root);
    let sources = recorded_indices(visits);
    law_records_follow_visits(visits);
    let a = choose|a: int| 0 <= a < sources.len() && sources[a] == first;
    let b = choose|b: int| 0 <= b < sources.len() && sources[b] == second;
    (a, b)
}

/// The walk is a function of the document: two outputs that both are the
/// records of one tree are the same sequence, record for record, and flatten
/// to the same text.
pub proof fn law_walk_is_deterministic(root: Tree, once: Seq<Fragment>, again: Seq<Fragment>)
    requires
        once == fragments(root),
        again == fragments(root),
    ensures
        once == again,
        flattened(once) == flattened(again),
{
}

/// The walk goes level by level: the visits of level `depth` stand together
/// in the order, behind all visits of the levels above.
pub proof fn law_level_order(root: Tree, depth: nat, i: int)
    requires
        0 <= i < level(root, depth).len(),
    ensures
        levels_before(root, depth).len() + i < visit_order(root).len(),
        visit_order(root)[levels_before(root, depth).len() + i] == level(root, depth)[i],
{
    lemma_level_depth(root, depth);
    lemma_levels_prefix(root, depth + 1, height(root) + 1);
    let through = levels_before(root, depth + 1);
    let at = levels_before(root, depth).len() + i;
    assert(through[at] == level(root, depth)[i]);
    assert(visit_order(root).take(through.len() as int)[at] == visit_order(root)[at]);
}

/// The visits above a level are the beginning of the visits above any
/// deeper level.
pub proof fn lemma_levels_prefix(root: Tree, depth: nat, below: nat)
    requires
        depth <= below,
    ensures
        levels_before(root, depth).len() <= levels_before(root, below).len(),
        levels_before(root, below).take(levels_before(root, depth).len() as int)
            == levels_before(root, depth),
    decreases below,
{
    if depth < below {
        lemma_levels_prefix(root, depth, (below - 1) as nat);
    }
}

/// A document in which no visit is recorded gives no record and flattens to
/// the empty text.
pub proof fn law_nothing_recorded(root: Tree)
    requires
        forall|j: int|
            0 <= j < visit_order(root).len() ==> !is_recorded(#[trigger] visit_order(root)[j]),
    ensures
        fragments(root).len() == 0,
        flattened(fragments(root)).len() == 0,
{
    let visits = visit_order(root);
    law_records_follow_visits(visits);
    if records(visits).len() > 0 {
        assert(is_recorded(visits[recorded_indices(visits)[0]]));
    }
}

} // verus!
