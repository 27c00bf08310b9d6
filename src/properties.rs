use vstd::prelude::*;

verus! {

/// A selected range of a text, as byte offsets into it.
#[derive(Clone, Copy, Debug, PartialEq, Eq, Structural)]
pub struct TextSelection {
    pub start_index: usize,
    pub end_index: usize,
}

impl TextSelection {
    pub fn new(start_index: usize, end_index: usize) -> (r: Self)
        ensures
            r.start_index == start_index,
            r.end_index == end_index,
    {
        TextSelection { start_index, end_index }
    }
}

/// Fixed size overrides; a value of zero or less leaves that axis to the content.
#[derive(Clone, Copy, Debug, PartialEq, Eq, Structural)]
pub struct Constraint {
    pub width: i64,
    pub height: i64,
}

/// Box spacing around a node.
#[derive(Clone, Copy, Debug, PartialEq, Eq, Structural)]
pub struct Margin {
    pub left: i64,
    pub top: i64,
    pub right: i64,
    pub bottom: i64,
}

/// The resolved size of a node.
#[derive(Clone, Copy, Debug, PartialEq, Eq, Structural)]
pub struct Bounds {
    pub width: i64,
    pub height: i64,
}

#[derive(Clone, Copy, Debug, PartialEq, Eq, Structural)]
pub enum Visibility {
    Visible,
    Hidden,
    Collapsed,
}

#[derive(Clone, Copy, Debug, PartialEq, Eq, Structural)]
pub enum VerticalAlignment {
    Top,
    Center,
    Bottom,
    Stretch,
}

/// `x` clamped to the range of `i64`.
pub open spec fn clamp_i64(x: int) -> int {
    if x < i64::MIN {
        i64::MIN as int
    } else if x > i64::MAX {
        i64::MAX as int
    } else {
        x
    }
}

/// `a + b`, saturating at the bounds of `i64`.
pub fn sat_add(a: i64, b: i64) -> (r: i64)
    ensures
        r == clamp_i64(a + b),
{
    if b > 0 && a > i64::MAX - b {
        i64::MAX
    } else if b < 0 && a < i64::MIN - b {
        i64::MIN
    } else {
        a + b
    }
}

/// `a - b`, saturating at the bounds of `i64`.
pub fn sat_sub(a: i64, b: i64) -> (r: i64)
    ensures
        r == clamp_i64(a - b),
{
    if b < 0 && a > i64::MAX + b {
        i64::MAX
    } else if b > 0 && a < i64::MIN + b {
        i64::MIN
    } else {
        a - b
    }
}

impl VerticalAlignment {
    /// The height that a node of this alignment takes inside `available_height`.
    pub open spec fn aligned_height(self, available_height: i64, height: i64, margin: Margin) -> int {
        match self {
            VerticalAlignment::Stretch => clamp_i64(
                clamp_i64(available_height - margin.top) - margin.bottom,
            ),
            _ => height as int,
        }
    }

    /// A stretched node fills the available height less its vertical margins;
    /// any other keeps its own height.
    pub fn align_height(&self, available_height: i64, height: i64, margin: Margin) -> (r: i64)
        ensures
            r == self.aligned_height(available_height, height, margin),
    {
        match self {
            VerticalAlignment::Stretch => sat_sub(sat_sub(available_height, margin.top), margin.bottom),
            _ => height,
        }
    }
}

} // verus!
