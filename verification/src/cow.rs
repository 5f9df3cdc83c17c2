//! An owned-or-borrowed buffer of units, modelled as an explicit tagged
//! variant so that every mutating operation can branch on whether the
//! underlying storage may be rewritten in place.

use vstd::prelude::*;

use crate::unit::TrimUnit;

verus! {

/// A buffer of units that is either a borrowed view or an owned, growable
/// buffer.
///
/// A borrowed value is never rewritten: operations on it narrow the view
/// or, where a rewrite is unavoidable, replace the handle with an owned
/// buffer. An owned value is mutated in place.
pub enum TrimCow<'a, T: TrimUnit> {
    /// A view into storage the holder does not own.
    Borrowed(&'a [T]),
    /// Storage the holder owns outright.
    Owned(Vec<T>),
}

impl<'a, T: TrimUnit> View for TrimCow<'a, T> {
    type V = Seq<T>;

    open spec fn view(&self) -> Seq<T> {
        match self {
            TrimCow::Borrowed(s) => s@,
            TrimCow::Owned(v) => v@,
        }
    }
}

impl<'a, T: TrimUnit> TrimCow<'a, T> {
    /// Whether the handle currently borrows its storage.
    pub open spec fn is_borrowed_spec(&self) -> bool {
        self is Borrowed
    }

    /// The units as a slice, whichever variant holds them.
    pub fn as_slice(&self) -> (r: &[T])
        ensures
            r@ == self@,
    {
        match self {
            TrimCow::Borrowed(s) => s,
            TrimCow::Owned(v) => v.as_slice(),
        }
    }

    /// Whether the handle currently borrows its storage.
    pub fn is_borrowed(&self) -> (r: bool)
        ensures
            r == self.is_borrowed_spec(),
    {
        matches!(self, TrimCow::Borrowed(_))
    }

    /// The number of units held.
    pub fn len(&self) -> (n: usize)
        ensures
            n == self@.len(),
    {
        match self {
            TrimCow::Borrowed(s) => s.len(),
            TrimCow::Owned(v) => v.len(),
        }
    }

    /// The units as an owned buffer, copying only if still borrowed.
    pub fn into_vec(self) -> (v: Vec<T>)
        ensures
            v@ == self@,
    {
        match self {
            TrimCow::Borrowed(s) => {
                let mut v: Vec<T> = Vec::new();
                let mut i: usize = 0;
                while i < s.len()
                    invariant
                        0 <= i <= s@.len(),
                        v@ == s@.subrange(0, i as int),
                    decreases s@.len() - i,
                {
                    v.push(s[i]);
                    i = i + 1;
                    proof {
                        assert(v@ =~= s@.subrange(0, i as int));
                    }
                }
                proof {
                    assert(v@ =~= s@);
                }
                v
            },
            TrimCow::Owned(v) => v,
        }
    }
}

} // verus!
