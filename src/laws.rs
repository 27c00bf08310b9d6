use vstd::prelude::*;
use vstd::utf8::{encode_utf8, encode_utf8_valid_utf8, is_char_boundary};

use crate::measure::TextMeasure;
use crate::properties::{VerticalAlignment, Visibility};
use crate::text_selection::{arrange_step, caret_position, measure_step, prefix_width, TextSelectionLayout};
use crate::tree::{any_dirty, is_dirty, LayoutTree, NodeProperties};

verus! {

/// Once a node has been arranged, arranging it again returns the same size
/// and writes neither margins nor bounds nor its layout, provided its
/// alignment does not stretch it (a stretched node returns its aligned
/// height the first time and its cached height after).
pub proof fn lemma_second_arrange_is_clean<M: TextMeasure>(
    m: &M,
    p: NodeProperties,
    before: TextSelectionLayout,
    mid: TextSelectionLayout,
    after: TextSelectionLayout,
    first_parent: (i64, i64),
    second_parent: (i64, i64),
    t0: &LayoutTree,
    t1: &LayoutTree,
    t2: &LayoutTree,
    id: int,
    r1: (i64, i64),
    r2: (i64, i64),
)
    requires
        arrange_step(m, p, before, mid, first_parent, t0, t1, id, r1),
        arrange_step(m, p, mid, after, second_parent, t1, t2, id, r2),
        p.vertical_alignment != VerticalAlignment::Stretch,
    ensures
        r2 == r1,
        after == mid,
        t2.margins@ == t1.margins@,
        t2.bounds@ == t1.bounds@,
{
}

/// A measure of a visible node whose registered child is dirty leaves the
/// node dirty, whatever its own inputs.
pub proof fn lemma_dirty_child_marks_parent(
    p: NodeProperties,
    before: TextSelectionLayout,
    after: TextSelectionLayout,
    post: &LayoutTree,
    id: int,
    i: int,
)
    requires
        measure_step(p, before, after, post, id),
        p.visibility != Visibility::Collapsed,
        0 <= i < post.children_of(id).len(),
        is_dirty(post.layouts@, post.children_of(id)[i] as int),
    ensures
        after.desired_size.dirty,
{
    assert(any_dirty(post.layouts@, post.children_of(id)));
}

/// Up a chain of measures, from a leaf to the root, where each node is
/// visible and lists the next one as a registered child whose state is the
/// one that child's measure reported: a dirty report at the leaf makes
/// every node of the chain report dirty, the root included.
pub proof fn lemma_dirty_leaf_marks_ancestors(
    path: Seq<usize>,
    props: Seq<NodeProperties>,
    befores: Seq<TextSelectionLayout>,
    afters: Seq<TextSelectionLayout>,
    posts: Seq<LayoutTree>,
    k: int,
)
    requires
        path.len() >= 1,
        props.len() == path.len(),
        befores.len() == path.len(),
        afters.len() == path.len(),
        posts.len() == path.len(),
        forall|j: int|
            0 <= j < path.len() ==> measure_step(
                #[trigger] props[j],
                befores[j],
                afters[j],
                &posts[j],
                path[j] as int,
            ),
        forall|j: int| 0 <= j < path.len() - 1 ==> (#[trigger] props[j]).visibility != Visibility::Collapsed,
        forall|j: int|
            0 <= j < path.len() - 1 ==> (#[trigger] posts[j]).children_of(path[j] as int).contains(
                path[j + 1],
            ) && posts[j].layouts@[path[j + 1] as int] == Some(afters[j + 1]),
        afters[path.len() - 1].desired_size.dirty,
        0 <= k < path.len(),
    ensures
        afters[k].desired_size.dirty,
    decreases path.len() - k,
{
    if k < path.len() - 1 {
        lemma_dirty_leaf_marks_ancestors(path, props, befores, afters, posts, k + 1);
        let cs = posts[k].children_of(path[k] as int);
        assert(cs.contains(path[k + 1]) && posts[k].layouts@[path[k + 1] as int] == Some(afters[k + 1]));
        let i = choose|i: int| 0 <= i < cs.len() && cs[i] == path[k + 1];
        assert(props[k].visibility != Visibility::Collapsed);
        assert(measure_step(props[k], befores[k], afters[k], &posts[k], path[k] as int));
        assert(is_dirty(posts[k].layouts@, cs[i] as int));
        assert(any_dirty(posts[k].layouts@, cs));
    }
}

/// A measure that sees a selection other than the last one marks the node
/// dirty and remembers the new selection.
pub proof fn lemma_moved_selection_marks_dirty(
    p: NodeProperties,
    before: TextSelectionLayout,
    after: TextSelectionLayout,
    post: &LayoutTree,
    id: int,
)
    requires
        measure_step(p, before, after, post, id),
        p.visibility != Visibility::Collapsed,
        p.selection is Some,
        p.selection->0 != before.old_text_selection,
    ensures
        after.desired_size.dirty,
        after.old_text_selection == p.selection->0,
{
}

/// A measure of a clean node that sees the selection it saw last, and
/// whose registered children are all clean, leaves the node clean.
pub proof fn lemma_same_selection_stays_clean(
    p: NodeProperties,
    before: TextSelectionLayout,
    after: TextSelectionLayout,
    post: &LayoutTree,
    id: int,
)
    requires
        measure_step(p, before, after, post, id),
        !before.desired_size.dirty,
        p.selection == Some(before.old_text_selection),
        forall|i: int|
            0 <= i < post.children_of(id).len() ==> !is_dirty(
                post.layouts@,
                #[trigger] post.children_of(id)[i] as int,
            ),
    ensures
        !after.desired_size.dirty,
        after.old_text_selection == before.old_text_selection,
{
}

/// Measuring a node a second time with the same properties, while its
/// children report as they did the first time, leaves its layout as the
/// first measure left it: the dirty flag saturates and does not accumulate.
pub proof fn lemma_measure_twice_is_once(
    p: NodeProperties,
    before: TextSelectionLayout,
    first: TextSelectionLayout,
    second: TextSelectionLayout,
    post1: &LayoutTree,
    post2: &LayoutTree,
    id: int,
)
    requires
        measure_step(p, before, first, post1, id),
        measure_step(p, first, second, post2, id),
        any_dirty(post2.layouts@, post2.children_of(id)) == any_dirty(
            post1.layouts@,
            post1.children_of(id),
        ),
    ensures
        second == first,
{
}

/// A positive constraint on an axis fixes the measured size on that axis,
/// whatever size the node had before.
pub proof fn lemma_constraint_wins(
    p: NodeProperties,
    before: TextSelectionLayout,
    after: TextSelectionLayout,
    post: &LayoutTree,
    id: int,
)
    requires
        measure_step(p, before, after, post, id),
        p.visibility != Visibility::Collapsed,
    ensures
        p.constraint.width > 0 ==> after.desired_size.width == p.constraint.width,
        p.constraint.height > 0 ==> after.desired_size.height == p.constraint.height,
{
}

/// A collapsed node measures to `(0, 0)`, whatever its constraint, text or
/// earlier size.
pub proof fn lemma_collapsed_measures_zero(
    p: NodeProperties,
    before: TextSelectionLayout,
    after: TextSelectionLayout,
    post: &LayoutTree,
    id: int,
)
    requires
        measure_step(p, before, after, post, id),
        p.visibility == Visibility::Collapsed,
    ensures
        after.desired_size.width == 0,
        after.desired_size.height == 0,
{
}

/// A selection that starts past the end of the text adds nothing to the
/// caret offset: only the node's offset, if any, remains.
pub proof fn lemma_selection_past_end<M: TextMeasure>(m: &M, p: NodeProperties)
    requires
        p.text is Some,
        p.selection is Some,
        p.selection->0.start_index > encode_utf8(p.text->0.text@).len(),
    ensures
        prefix_width(m, p.text->0, p.selection->0.start_index) == 0,
        caret_position(m, p) == match p.offset {
            Some(o) => o as int,
            None => 0,
        },
{
    encode_utf8_valid_utf8(p.text->0.text@);
    assert(!is_char_boundary(encode_utf8(p.text->0.text@), p.selection->0.start_index as int));
}

} // verus!
