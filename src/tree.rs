use vstd::prelude::*;

use crate::properties::{Bounds, Constraint, Margin, TextSelection, VerticalAlignment, Visibility};
use crate::size::DirtySize;
use crate::measure::TextMeasure;
use crate::text_selection::{arrange_step, measure_step, TextSelectionLayout};

verus! {

/// The text of a node together with the font it is drawn in.
#[derive(Debug, PartialEq, Eq)]
pub struct TextStyle {
    pub text: String,
    pub font: String,
    pub font_size: u32,
}

/// The properties of a node that its layout reads.
#[derive(Debug, PartialEq, Eq)]
pub struct NodeProperties {
    pub visibility: Visibility,
    pub constraint: Constraint,
    pub vertical_alignment: VerticalAlignment,
    pub selection: Option<TextSelection>,
    pub text: Option<TextStyle>,
    pub offset: Option<i64>,
}

/// A tree of nodes with, for each, its properties, its children, its layout
/// (if one is registered) and the margin and bounds that arrange writes.
///
/// Nodes are numbered from the root in order of insertion, so each child is
/// numbered after its parent and the children of a node are listed in
/// increasing order.
pub struct LayoutTree {
    pub properties: Vec<NodeProperties>,
    pub children: Vec<Vec<usize>>,
    pub layouts: Vec<Option<TextSelectionLayout>>,
    pub margins: Vec<Option<Margin>>,
    pub bounds: Vec<Option<Bounds>>,
}

/// Whether node `k` has a layout whose cached size is dirty.
pub open spec fn is_dirty(layouts: Seq<Option<TextSelectionLayout>>, k: int) -> bool {
    match layouts[k] {
        Some(l) => l.desired_size.dirty,
        None => false,
    }
}

/// Whether one of the nodes `cs` has a layout whose cached size is dirty.
pub open spec fn any_dirty(layouts: Seq<Option<TextSelectionLayout>>, cs: Seq<usize>) -> bool {
    exists|i: int| 0 <= i < cs.len() && #[trigger] is_dirty(layouts, cs[i] as int)
}

impl LayoutTree {
    pub open spec fn len(&self) -> nat {
        self.properties@.len()
    }

    pub open spec fn children_of(&self, p: int) -> Seq<usize> {
        self.children@[p]@
    }

    pub open spec fn wf(&self) -> bool {
        &&& self.children@.len() == self.len()
        &&& self.layouts@.len() == self.len()
        &&& self.margins@.len() == self.len()
        &&& self.bounds@.len() == self.len()
        &&& forall|p: int, j: int|
            0 <= p < self.len() && 0 <= j < self.children_of(p).len() ==> p < #[trigger] self.children_of(
                p,
            )[j] < self.len()
        &&& forall|p: int, i: int, j: int|
            0 <= p < self.len() && 0 <= i < j < self.children_of(p).len() ==> #[trigger] self.children_of(
                p,
            )[i] < #[trigger] self.children_of(p)[j]
    }

    /// Everything but the layouts is the same in both trees.
    pub open spec fn same_but_layouts(&self, other: &LayoutTree) -> bool {
        &&& self.properties@ == other.properties@
        &&& self.children@ == other.children@
        &&& self.margins@ == other.margins@
        &&& self.bounds@ == other.bounds@
        &&& self.layouts@.len() == other.layouts@.len()
    }

    /// An empty tree.
    pub fn new() -> (r: Self)
        ensures
            r.wf(),
            r.len() == 0,
    {
        LayoutTree {
            properties: Vec::new(),
            children: Vec::new(),
            layouts: Vec::new(),
            margins: Vec::new(),
            bounds: Vec::new(),
        }
    }

    /// Adds a node after all others, as the last child of `parent` if one is
    /// given, and returns its number.
    pub fn add_node(
        &mut self,
        parent: Option<usize>,
        properties: NodeProperties,
        layout: Option<TextSelectionLayout>,
        margin: Option<Margin>,
        bounds: Option<Bounds>,
    ) -> (id: usize)
        requires
            old(self).wf(),
            old(self).len() < usize::MAX,
            parent matches Some(p) ==> p < old(self).len(),
        ensures
            final(self).wf(),
            id == old(self).len(),
            final(self).properties@ == old(self).properties@.push(properties),
            final(self).layouts@ == old(self).layouts@.push(layout),
            final(self).margins@ == old(self).margins@.push(margin),
            final(self).bounds@ == old(self).bounds@.push(bounds),
            final(self).children_of(id as int) == Seq::<usize>::empty(),
            forall|k: int|
                0 <= k < old(self).len() ==> #[trigger] final(self).children_of(k) == if parent == Some(k as usize) {
                    old(self).children_of(k).push(id)
                } else {
                    old(self).children_of(k)
                },
    {
        let id = self.properties.len();
        self.properties.push(properties);
        self.children.push(Vec::new());
        self.layouts.push(layout);
        self.margins.push(margin);
        self.bounds.push(bounds);
        match parent {
            Some(p) => {
                self.children[p].push(id);
            },
            None => {},
        }
        proof {
            assert forall|q: int, j: int|
                0 <= q < self.len() && 0 <= j < self.children_of(q).len() implies q < #[trigger] self.children_of(q)[j] < self.len() by {
                if q < old(self).len() && !(parent == Some(q as usize) && j == old(self).children_of(q).len()) {
                    assert(self.children_of(q)[j] == old(self).children_of(q)[j]);
                }
            }
            assert forall|q: int, i: int, j: int|
                0 <= q < self.len() && 0 <= i < j < self.children_of(q).len() implies #[trigger] self.children_of(q)[i] < #[trigger] self.children_of(q)[j] by {
                if q < old(self).len() {
                    assert(self.children_of(q)[i] == old(self).children_of(q)[i]);
                    assert(old(self).children_of(q)[i] < old(self).len());
                    if !(parent == Some(q as usize) && j == old(self).children_of(q).len()) {
                        assert(self.children_of(q)[j] == old(self).children_of(q)[j]);
                    }
                }
            }
        }
        id
    }

    /// Replaces the properties of node `id`.
    pub fn set_properties(&mut self, id: usize, properties: NodeProperties)
        requires
            old(self).wf(),
            id < old(self).len(),
        ensures
            final(self).wf(),
            final(self).properties@ == old(self).properties@.update(id as int, properties),
            final(self).children@ == old(self).children@,
            final(self).layouts@ == old(self).layouts@,
            final(self).margins@ == old(self).margins@,
            final(self).bounds@ == old(self).bounds@,
    {
        self.properties.set(id, properties);
        proof {
            assert forall|q: int| 0 <= q < self.len() implies self.children_of(q) == old(self).children_of(q) by {}
        }
    }

    /// The number of nodes.
    pub fn node_count(&self) -> (r: usize)
        requires
            self.wf(),
        ensures
            r == self.len(),
    {
        self.properties.len()
    }

    /// The layout registered for node `id`, if any.
    pub fn layout(&self, id: usize) -> (r: Option<TextSelectionLayout>)
        requires
            self.wf(),
            id < self.len(),
        ensures
            r == self.layouts@[id as int],
    {
        self.layouts[id]
    }

    /// The margin of node `id`, if it has one.
    pub fn margin(&self, id: usize) -> (r: Option<Margin>)
        requires
            self.wf(),
            id < self.len(),
        ensures
            r == self.margins@[id as int],
    {
        self.margins[id]
    }

    /// The bounds of node `id`, if it has them.
    pub fn bounds(&self, id: usize) -> (r: Option<Bounds>)
        requires
            self.wf(),
            id < self.len(),
        ensures
            r == self.bounds@[id as int],
    {
        self.bounds[id]
    }

    /// A tree that differs from a well-formed one only in its layouts is well formed.
    pub proof fn lemma_wf_kept(&self, post: &LayoutTree)
        requires
            self.wf(),
            post.same_but_layouts(self),
        ensures
            post.wf(),
    {
        assert forall|p: int| 0 <= p < post.len() implies post.children_of(p) == self.children_of(p) by {}
    }

    /// What a measure from node `id` leaves alone or only makes dirtier:
    /// nodes before `id` are untouched, and registrations and dirty flags are kept.
    pub open spec fn measure_frame(&self, post: &LayoutTree, id: int) -> bool {
        &&& post.same_but_layouts(self)
        &&& forall|k: int| 0 <= k < id ==> post.layouts@[k] == self.layouts@[k]
        &&& forall|k: int|
            0 <= k < self.len() ==> (#[trigger] post.layouts@[k] is Some <==> self.layouts@[k] is Some)
        &&& forall|k: int| 0 <= k < self.len() && #[trigger] is_dirty(self.layouts@, k) ==> is_dirty(post.layouts@, k)
    }

    /// What an arrange from node `id` leaves alone: nodes before `id` are
    /// untouched, properties, children and registrations are kept.
    pub open spec fn arrange_frame(&self, post: &LayoutTree, id: int) -> bool {
        &&& self.properties@ == post.properties@
        &&& self.children@ == post.children@
        &&& post.layouts@.len() == self.layouts@.len()
        &&& post.margins@.len() == self.margins@.len()
        &&& post.bounds@.len() == self.bounds@.len()
        &&& forall|k: int| 0 <= k < id ==> post.layouts@[k] == self.layouts@[k]
        &&& forall|k: int| 0 <= k < id ==> post.margins@[k] == self.margins@[k]
        &&& forall|k: int| 0 <= k < id ==> post.bounds@[k] == self.bounds@[k]
        &&& forall|k: int|
            0 <= k < self.len() ==> (#[trigger] post.layouts@[k] is Some <==> self.layouts@[k] is Some)
    }

    /// A tree with the same properties, children and sizes of vectors as a
    /// well-formed one is well formed.
    pub proof fn lemma_wf_arranged(&self, post: &LayoutTree)
        requires
            self.wf(),
            self.arrange_frame(post, 0),
        ensures
            post.wf(),
    {
        assert forall|p: int| 0 <= p < post.len() implies post.children_of(p) == self.children_of(p) by {}
    }

    /// Arranges node `id` through its registered layout, if it has one, inside
    /// `parent_size`, and stores the layout's new state.
    pub fn arrange<M: TextMeasure>(&mut self, parent_size: (i64, i64), id: usize, m: &M) -> (r: Option<(i64, i64)>)
        requires
            old(self).wf(),
            id < old(self).len(),
        ensures
            old(self).arrange_frame(final(self), id as int),
            !is_dirty(final(self).layouts@, id as int),
            match old(self).layouts@[id as int] {
                None => r is None && *final(self) == *old(self),
                Some(before) => {
                    let after = final(self).layouts@[id as int]->0;
                    &&& r is Some
                    &&& arrange_step(m, old(self).properties@[id as int], before, after, parent_size, old(self), final(self), id as int, r->0)
                },
            },
        decreases old(self).len() - id, 2int,
    {
        match self.layouts[id] {
            None => None,
            Some(layout) => {
                let mut layout = layout;
                let ghost pre = *self;
                let r = layout.arrange(parent_size, id, self, m);
                let ghost mid = *self;
                self.layouts.set(id, Some(layout));
                proof {
                    pre.lemma_wf_arranged(&mid);
                    let cs = mid.children_of(id as int);
                    if pre.layouts@[id as int]->0.desired_size.dirty {
                        assert forall|i: int| 0 <= i < cs.len() implies !is_dirty(self.layouts@, #[trigger] cs[i] as int) by {
                            assert(!is_dirty(mid.layouts@, cs[i] as int));
                        }
                    }
                }
                Some(r)
            },
        }
    }

    /// Measures node `id` through its registered layout, if it has one, and
    /// stores the layout's new state.
    pub fn measure(&mut self, id: usize) -> (r: Option<DirtySize>)
        requires
            old(self).wf(),
            id < old(self).len(),
        ensures
            old(self).measure_frame(final(self), id as int),
            match old(self).layouts@[id as int] {
                None => r is None && final(self).layouts@ == old(self).layouts@,
                Some(before) => {
                    let after = final(self).layouts@[id as int]->0;
                    &&& r == Some(after.desired_size)
                    &&& measure_step(old(self).properties@[id as int], before, after, final(self), id as int)
                },
            },
        decreases old(self).len() - id, 2int,
    {
        match self.layouts[id] {
            None => None,
            Some(layout) => {
                let mut layout = layout;
                let ghost pre = *self;
                let r = layout.measure(id, self);
                let ghost mid = *self;
                self.layouts.set(id, Some(layout));
                proof {
                    pre.lemma_wf_kept(&mid);
                    let cs = mid.children_of(id as int);
                    assert(self.children_of(id as int) == cs);
                    if any_dirty(mid.layouts@, cs) {
                        let i = choose|i: int| 0 <= i < cs.len() && #[trigger] is_dirty(mid.layouts@, cs[i] as int);
                        assert(is_dirty(self.layouts@, cs[i] as int));
                    }
                    if any_dirty(self.layouts@, cs) {
                        let i = choose|i: int| 0 <= i < cs.len() && #[trigger] is_dirty(self.layouts@, cs[i] as int);
                        assert(is_dirty(mid.layouts@, cs[i] as int));
                    }
                    assert forall|k: int| 0 <= k < self.len() && #[trigger] is_dirty(old(self).layouts@, k) implies is_dirty(self.layouts@, k) by {
                        if k == id {
                        }
                    }
                }
                Some(r)
            },
        }
    }
}

} // verus!
