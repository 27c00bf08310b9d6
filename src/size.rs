use vstd::prelude::*;

verus! {

/// A two-dimensional size with a flag that marks it as possibly stale.
#[derive(Clone, Copy, Debug, PartialEq, Eq, Structural)]
pub struct DirtySize {
    pub width: i64,
    pub height: i64,
    pub dirty: bool,
}

impl DirtySize {
    /// A fresh cache: size `(0, 0)`, dirty so that the first arrange lays the node out.
    pub fn new() -> (r: Self)
        ensures
            r.width == 0,
            r.height == 0,
            r.dirty,
    {
        DirtySize { width: 0, height: 0, dirty: true }
    }

    /// Overwrites both dimensions; the flag is kept.
    pub fn set_size(&mut self, width: i64, height: i64)
        ensures
            *final(self) == (DirtySize { width, height, dirty: old(self).dirty }),
    {
        self.width = width;
        self.height = height;
    }

    /// Overwrites the width; the height and the flag are kept.
    pub fn set_width(&mut self, width: i64)
        ensures
            *final(self) == (DirtySize { width, ..*old(self) }),
    {
        self.width = width;
    }

    /// Overwrites the height; the width and the flag are kept.
    pub fn set_height(&mut self, height: i64)
        ensures
            *final(self) == (DirtySize { height, ..*old(self) }),
    {
        self.height = height;
    }

    /// Sets the flag; the dimensions are kept.
    pub fn set_dirty(&mut self, dirty: bool)
        ensures
            *final(self) == (DirtySize { dirty, ..*old(self) }),
    {
        self.dirty = dirty;
    }

    /// The stored `(width, height)`.
    pub fn size(&self) -> (r: (i64, i64))
        ensures
            r == (self.width, self.height),
    {
        (self.width, self.height)
    }

    /// Whether the size may be stale.
    pub fn dirty(&self) -> (r: bool)
        ensures
            r == self.dirty,
    {
        self.dirty
    }
}

impl Default for DirtySize {
    fn default() -> (r: Self)
        ensures
            r == DirtySize::new_spec(),
    {
        DirtySize::new()
    }
}

impl DirtySize {
    /// The value of a fresh cache.
    pub open spec fn new_spec() -> DirtySize {
        DirtySize { width: 0, height: 0, dirty: true }
    }
}

} // verus!
