use vstd::prelude::*;

use vstd::string::StringSliceAdditionalSpecFns;
use vstd::utf8::{encode_utf8, encode_utf8_valid_utf8, is_char_boundary};

use crate::measure::TextMeasure;
use crate::properties::{clamp_i64, sat_add, Bounds, Constraint, Margin, TextSelection, Visibility};
use crate::size::DirtySize;
use crate::tree::{any_dirty, is_dirty, LayoutTree, NodeProperties, TextStyle};

verus! {

/// Measures and arranges a text selection caret.
///
/// It keeps the node's cached size and the selection seen at the last
/// measure, to notice when the selection moves.
#[derive(Clone, Copy, Debug, PartialEq, Eq, Structural)]
pub struct TextSelectionLayout {
    pub desired_size: DirtySize,
    pub old_text_selection: TextSelection,
}

/// The state of a node's layout after its own part of a measure, given its
/// state `before`, its properties `p`, and the tree `post` as its children left it.
pub open spec fn measure_step(
    p: NodeProperties,
    before: TextSelectionLayout,
    after: TextSelectionLayout,
    post: &LayoutTree,
    id: int,
) -> bool {
    if p.visibility == Visibility::Collapsed {
        after == (TextSelectionLayout {
            desired_size: DirtySize { width: 0, height: 0, dirty: before.desired_size.dirty },
            ..before
        })
    } else {
        &&& after.old_text_selection == match p.selection {
            Some(s) => s,
            None => before.old_text_selection,
        }
        &&& after.desired_size.width == if p.constraint.width > 0 {
            p.constraint.width
        } else {
            before.desired_size.width
        }
        &&& after.desired_size.height == if p.constraint.height > 0 {
            p.constraint.height
        } else {
            before.desired_size.height
        }
        &&& after.desired_size.dirty == (before.desired_size.dirty || selection_moved(p, before)
            || any_dirty(post.layouts@, post.children_of(id)))
    }
}

/// Whether the node carries a selection other than the one seen last.
pub open spec fn selection_moved(p: NodeProperties, before: TextSelectionLayout) -> bool {
    match p.selection {
        Some(s) => s != before.old_text_selection,
        None => false,
    }
}

impl Default for TextSelectionLayout {
    fn default() -> (r: Self)
        ensures
            r.desired_size == DirtySize::new_spec(),
            r.old_text_selection == (TextSelection { start_index: 0, end_index: 0 }),
    {
        TextSelectionLayout::new()
    }
}

/// Half the width of a lowercase `a`: what a caret after a trailing space is
/// moved on by, since a space tends to be measured narrower than where the
/// caret stops after it.
pub open spec fn space_compensation<M: TextMeasure>(m: &M, font: Seq<char>, font_size: u32) -> int {
    m.text_width(encode_utf8(seq!['a']), font, font_size) as int / 2
}

/// The width of the text before byte `start`, with the space compensation
/// if that part ends in a space; zero where `start` is past the end of the
/// text or inside a character.
pub open spec fn prefix_width<M: TextMeasure>(m: &M, t: TextStyle, start: usize) -> int {
    let bytes = encode_utf8(t.text@);
    if is_char_boundary(bytes, start as int) {
        let prefix = bytes.subrange(0, start as int);
        m.text_width(prefix, t.font@, t.font_size) + if prefix.len() > 0 && prefix.last() == 32u8 {
            space_compensation(m, t.font@, t.font_size)
        } else {
            0
        }
    } else {
        0
    }
}

/// The horizontal caret offset of a node: the width of its text before the
/// selection start, if it has text and a selection, plus its offset, if any.
pub open spec fn caret_position<M: TextMeasure>(m: &M, p: NodeProperties) -> int {
    let measured = match (p.text, p.selection) {
        (Some(t), Some(s)) => prefix_width(m, t, s.start_index),
        _ => 0,
    };
    match p.offset {
        Some(o) => clamp_i64(measured + o),
        None => measured,
    }
}

/// The state of a node's layout, margin and bounds after its own part of an
/// arrange inside `parent_size` that returned `r`; `pre` and `post` are the
/// tree before and after, and every registered child is left clean.
pub open spec fn arrange_step<M: TextMeasure>(
    m: &M,
    p: NodeProperties,
    before: TextSelectionLayout,
    after: TextSelectionLayout,
    parent_size: (i64, i64),
    pre: &LayoutTree,
    post: &LayoutTree,
    id: int,
    r: (i64, i64),
) -> bool {
    if !before.desired_size.dirty {
        &&& r == (before.desired_size.width, before.desired_size.height)
        &&& after == before
        &&& post.margins@ == pre.margins@
        &&& post.bounds@ == pre.bounds@
        &&& forall|k: int| 0 <= k < pre.len() && k != id ==> post.layouts@[k] == pre.layouts@[k]
    } else {
        let margin = pre.margins@[id];
        &&& r.0 == before.desired_size.width
        &&& r.1 == p.vertical_alignment.aligned_height(
            parent_size.1,
            before.desired_size.height,
            margin_or_zero(margin),
        )
        &&& after == (TextSelectionLayout {
            desired_size: DirtySize { dirty: false, ..before.desired_size },
            ..before
        })
        &&& post.margins@[id] == match margin {
            Some(mg) => Some(Margin { left: caret_position(m, p) as i64, ..mg }),
            None => None,
        }
        &&& post.bounds@[id] == match pre.bounds@[id] {
            Some(_) => Some(Bounds { width: r.0, height: r.1 }),
            None => None,
        }
        &&& forall|i: int|
            0 <= i < post.children_of(id).len() ==> !is_dirty(
                post.layouts@,
                #[trigger] post.children_of(id)[i] as int,
            )
    }
}

/// The margin that alignment reads: the node's own, or zero on every side.
pub open spec fn margin_or_zero(m: Option<Margin>) -> Margin {
    match m {
        Some(m) => m,
        None => Margin { left: 0, top: 0, right: 0, bottom: 0 },
    }
}

/// The horizontal caret offset of a node with properties `p`.
pub fn caret_offset<M: TextMeasure>(m: &M, p: &NodeProperties) -> (r: i64)
    ensures
        r == caret_position(m, *p),
{
    broadcast use encode_utf8_valid_utf8;

    let mut pos: i64 = 0;
    match &p.text {
        Some(t) => match p.selection {
            Some(selection) => {
                let text: &str = t.text.as_str();
                let font: &str = t.font.as_str();
                if text.is_char_boundary(selection.start_index) {
                    let (prefix, _rest) = text.split_at(selection.start_index);
                    let width = m.measure(prefix, font, t.font_size);
                    pos = width as i64;
                    let bytes = prefix.as_bytes();
                    if bytes.len() > 0 && bytes[bytes.len() - 1] == 32u8 {
                        let glyph = m.measure("a", font, t.font_size);
                        proof {
                            reveal_strlit("a");
                            assert("a"@ =~= seq!['a']);
                        }
                        pos = pos + (glyph / 2) as i64;
                    }
                }
            },
            None => {},
        },
        None => {},
    }
    match p.offset {
        Some(offset) => {
            pos = sat_add(pos, offset);
        },
        None => {},
    }
    pos
}

impl TextSelectionLayout {
    /// A layout with a fresh, dirty cache and the empty selection at zero.
    pub fn new() -> (r: Self)
        ensures
            r.desired_size == DirtySize::new_spec(),
            r.old_text_selection == (TextSelection { start_index: 0, end_index: 0 }),
    {
        TextSelectionLayout {
            desired_size: DirtySize::new(),
            old_text_selection: TextSelection { start_index: 0, end_index: 0 },
        }
    }

    /// The node's cached size.
    pub fn desired_size(&self) -> (r: DirtySize)
        ensures
            r == self.desired_size,
    {
        self.desired_size
    }

    /// Measures every registered child of `id` and folds its dirty flag into this one.
    fn measure_children(&mut self, id: usize, tree: &mut LayoutTree)
        requires
            old(tree).wf(),
            id < old(tree).len(),
        ensures
            old(tree).measure_frame(final(tree), id as int + 1),
            final(self).old_text_selection == old(self).old_text_selection,
            final(self).desired_size.width == old(self).desired_size.width,
            final(self).desired_size.height == old(self).desired_size.height,
            final(self).desired_size.dirty == (old(self).desired_size.dirty || any_dirty(
                final(tree).layouts@,
                final(tree).children_of(id as int),
            )),
        decreases old(tree).len() - id, 0int,
    {
        let ghost pre = *tree;
        let n = tree.children[id].len();
        let mut j: usize = 0;
        while j < n
            invariant
                pre.wf(),
                pre == *old(tree),
                id < pre.len(),
                n == pre.children_of(id as int).len(),
                j <= n,
                pre.measure_frame(tree, id as int + 1),
                self.old_text_selection == old(self).old_text_selection,
                self.desired_size.width == old(self).desired_size.width,
                self.desired_size.height == old(self).desired_size.height,
                self.desired_size.dirty == (old(self).desired_size.dirty || any_dirty(
                    tree.layouts@,
                    pre.children_of(id as int).subrange(0, j as int),
                )),
            decreases n - j,
        {
            let c = tree.children[id][j];
            let ghost mid = *tree;
            proof {
                pre.lemma_wf_kept(tree);
                assert(pre.children_of(id as int)[j as int] == c);
                assert(id < c);
                assert(tree.len() == old(tree).len());
            }
            let r = tree.measure(c);
            proof {
                let cs = pre.children_of(id as int);
                assert(c == cs[j as int]);
                assert forall|i: int| 0 <= i < j implies cs[i] < c by {}
                assert(any_dirty(tree.layouts@, cs.subrange(0, j as int)) == any_dirty(mid.layouts@, cs.subrange(0, j as int))) by {
                    if any_dirty(tree.layouts@, cs.subrange(0, j as int)) {
                        let i = choose|i: int| 0 <= i < j && #[trigger] is_dirty(tree.layouts@, cs.subrange(0, j as int)[i] as int);
                        assert(is_dirty(mid.layouts@, cs.subrange(0, j as int)[i] as int));
                    }
                    if any_dirty(mid.layouts@, cs.subrange(0, j as int)) {
                        let i = choose|i: int| 0 <= i < j && #[trigger] is_dirty(mid.layouts@, cs.subrange(0, j as int)[i] as int);
                        assert(is_dirty(tree.layouts@, cs.subrange(0, j as int)[i] as int));
                    }
                }
                let now = cs.subrange(0, j as int + 1);
                assert(now.subrange(0, j as int) =~= cs.subrange(0, j as int));
                if any_dirty(tree.layouts@, now) {
                    let i = choose|i: int| 0 <= i < j + 1 && #[trigger] is_dirty(tree.layouts@, now[i] as int);
                    if i < j {
                        assert(is_dirty(tree.layouts@, cs.subrange(0, j as int)[i] as int));
                    }
                }
                if any_dirty(tree.layouts@, cs.subrange(0, j as int)) {
                    let i = choose|i: int| 0 <= i < j && #[trigger] is_dirty(tree.layouts@, cs.subrange(0, j as int)[i] as int);
                    assert(is_dirty(tree.layouts@, now[i] as int));
                }
                if is_dirty(tree.layouts@, c as int) {
                    assert(is_dirty(tree.layouts@, now[j as int] as int));
                }
            }
            match r {
                Some(size) => {
                    let dirty = size.dirty || self.desired_size.dirty;
                    self.desired_size.set_dirty(dirty);
                },
                None => {},
            }
            j = j + 1;
        }
        proof {
            assert(pre.children_of(id as int).subrange(0, n as int) =~= pre.children_of(id as int));
        }
    }

    /// Arranges every registered child of `id` inside `size`.
    fn arrange_children<M: TextMeasure>(&self, size: (i64, i64), id: usize, tree: &mut LayoutTree, m: &M)
        requires
            old(tree).wf(),
            id < old(tree).len(),
        ensures
            old(tree).arrange_frame(final(tree), id as int + 1),
            forall|i: int|
                0 <= i < final(tree).children_of(id as int).len() ==> !is_dirty(
                    final(tree).layouts@,
                    #[trigger] final(tree).children_of(id as int)[i] as int,
                ),
        decreases old(tree).len() - id, 0int,
    {
        let ghost pre = *tree;
        let n = tree.children[id].len();
        let mut j: usize = 0;
        while j < n
            invariant
                pre.wf(),
                pre == *old(tree),
                id < pre.len(),
                n == pre.children_of(id as int).len(),
                j <= n,
                pre.arrange_frame(tree, id as int + 1),
                forall|i: int|
                    0 <= i < j ==> !is_dirty(tree.layouts@, #[trigger] pre.children_of(id as int)[i] as int),
            decreases n - j,
        {
            let c = tree.children[id][j];
            let ghost mid = *tree;
            proof {
                pre.lemma_wf_arranged(tree);
                assert(pre.children_of(id as int)[j as int] == c);
                assert(id < c);
                assert(tree.len() == old(tree).len());
            }
            let _ = tree.arrange(size, c, m);
            proof {
                let cs = pre.children_of(id as int);
                assert forall|i: int| 0 <= i < j + 1 implies !is_dirty(tree.layouts@, #[trigger] cs[i] as int) by {
                    if i < j {
                        assert(cs[i] < c);
                        assert(!is_dirty(mid.layouts@, cs[i] as int));
                    }
                }
            }
            j = j + 1;
        }
    }

    /// Arranges node `id` inside `parent_size`. A clean cache returns its size
    /// and changes nothing. Otherwise the height is aligned in the parent's,
    /// the caret offset is written to the left margin, the children are
    /// arranged inside the result, the result is written to the bounds, and
    /// the cache is left clean.
    pub fn arrange<M: TextMeasure>(
        &mut self,
        parent_size: (i64, i64),
        id: usize,
        tree: &mut LayoutTree,
        m: &M,
    ) -> (r: (i64, i64))
        requires
            old(tree).wf(),
            id < old(tree).len(),
        ensures
            old(tree).arrange_frame(final(tree), id as int),
            final(tree).layouts@[id as int] == old(tree).layouts@[id as int],
            !final(self).desired_size.dirty,
            arrange_step(m, old(tree).properties@[id as int], *old(self), *final(self), parent_size, old(tree), final(tree), id as int, r),
        decreases old(tree).len() - id, 1int,
    {
        if !self.desired_size.dirty() {
            return self.desired_size.size();
        }
        let mut size = self.desired_size.size();
        let margin = match tree.margins[id] {
            Some(mg) => mg,
            None => Margin { left: 0, top: 0, right: 0, bottom: 0 },
        };
        size.1 = tree.properties[id].vertical_alignment.align_height(parent_size.1, size.1, margin);
        let pos = caret_offset(m, &tree.properties[id]);
        match tree.margins[id] {
            Some(mg) => {
                tree.margins.set(id, Some(Margin { left: pos, ..mg }));
            },
            None => {},
        }
        let ghost first = *tree;
        proof {
            old(tree).lemma_wf_arranged(&first);
        }
        self.arrange_children(size, id, tree, m);
        let ghost second = *tree;
        match tree.bounds[id] {
            Some(_) => {
                tree.bounds.set(id, Some(Bounds { width: size.0, height: size.1 }));
            },
            None => {},
        }
        proof {
            let cs = tree.children_of(id as int);
            assert(cs == second.children_of(id as int));
            assert forall|i: int| 0 <= i < cs.len() implies !is_dirty(tree.layouts@, #[trigger] cs[i] as int) by {
                assert(!is_dirty(second.layouts@, second.children_of(id as int)[i] as int));
            }
        }
        self.desired_size.set_dirty(false);
        size
    }

    /// Measures node `id`: a collapsed node takes size `(0, 0)`; otherwise a
    /// moved selection or a dirty child marks the cache dirty, and a positive
    /// constraint fixes the size on its axis. Children are measured before and
    /// after the constraint is applied.
    pub fn measure(&mut self, id: usize, tree: &mut LayoutTree) -> (r: DirtySize)
        requires
            old(tree).wf(),
            id < old(tree).len(),
        ensures
            old(tree).measure_frame(final(tree), id as int + 1),
            measure_step(old(tree).properties@[id as int], *old(self), *final(self), final(tree), id as int),
            old(tree).properties@[id as int].visibility == Visibility::Collapsed ==> final(tree).layouts@ == old(tree).layouts@,
            r == final(self).desired_size,
        decreases old(tree).len() - id, 1int,
    {
        if tree.properties[id].visibility == Visibility::Collapsed {
            self.desired_size.set_size(0, 0);
            return self.desired_size;
        }
        let constraint: Constraint = tree.properties[id].constraint;
        match tree.properties[id].selection {
            Some(selection) => {
                if selection != self.old_text_selection {
                    self.desired_size.set_dirty(true);
                }
                self.old_text_selection = selection;
            },
            None => {},
        }
        let ghost first = *tree;
        self.measure_children(id, tree);
        if constraint.width > 0 {
            self.desired_size.set_width(constraint.width);
        }
        if constraint.height > 0 {
            self.desired_size.set_height(constraint.height);
        }
        let ghost second = *tree;
        proof {
            first.lemma_wf_kept(tree);
        }
        self.measure_children(id, tree);
        proof {
            let cs = tree.children_of(id as int);
            if any_dirty(second.layouts@, cs) {
                let i = choose|i: int| 0 <= i < cs.len() && #[trigger] is_dirty(second.layouts@, cs[i] as int);
                assert(tree.wf()) by { first.lemma_wf_kept(tree); }
                assert(0 <= cs[i] < tree.len());
                assert(is_dirty(tree.layouts@, cs[i] as int));
            }
        }
        self.desired_size
    }
}

} // verus!
