//! Dirty-tracked two-pass layout for a text-selection caret.
//!
//! A measure pass computes each node's desired size bottom-up and marks it
//! dirty when its selection moved or a child is dirty; an arrange pass then
//! lays out only dirty nodes, writing the caret offset into the left margin
//! and the resolved size into the bounds.
//!
//! Sizes, offsets and margins are whole pixels held in `i64`; text widths
//! reported by a font oracle are `u32`.

mod laws;
mod measure;
mod properties;
mod size;
mod text_selection;
mod tree;

pub use laws::{
    lemma_collapsed_measures_zero, lemma_constraint_wins, lemma_dirty_child_marks_parent,
    lemma_dirty_leaf_marks_ancestors, lemma_measure_twice_is_once,
    lemma_moved_selection_marks_dirty, lemma_same_selection_stays_clean,
    lemma_second_arrange_is_clean, lemma_selection_past_end,
};
pub use measure::{capped_u32, char_count, starts_char, MonospaceMeasure, TextMeasure};
pub use properties::{
    clamp_i64, sat_add, sat_sub, Bounds, Constraint, Margin, TextSelection, VerticalAlignment,
    Visibility,
};
pub use size::DirtySize;
pub use text_selection::{
    arrange_step, caret_offset, caret_position, margin_or_zero, measure_step, prefix_width,
    selection_moved, space_compensation, TextSelectionLayout,
};
pub use tree::{any_dirty, is_dirty, LayoutTree, NodeProperties, TextStyle};
