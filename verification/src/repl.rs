//! Session-level display settings shared with the printer.

use vstd::prelude::*;

verus! {

/// Cap on how many elements of a numeric vector are displayed.
#[derive(Clone, Copy, PartialEq, Eq, Debug)]
pub enum VectorLimit {
    /// Show every element.
    Unlimited,
    /// Show at most this many elements, then an ellipsis.
    Fixed(usize),
}

impl VectorLimit {
    /// How many of `len` elements are displayed under this limit.
    pub open spec fn spec_shown(self, len: nat) -> nat {
        match self {
            VectorLimit::Unlimited => len,
            VectorLimit::Fixed(k) => if len <= k { len } else { k as nat },
        }
    }

    /// Executable counterpart of [`VectorLimit::spec_shown`].
    pub fn shown(self, len: usize) -> (r: usize)
        ensures
            r as nat == self.spec_shown(len as nat),
    {
        match self {
            VectorLimit::Unlimited => len,
            VectorLimit::Fixed(k) => if len <= k {
                len
            } else {
                k
            },
        }
    }
}

} // verus!
