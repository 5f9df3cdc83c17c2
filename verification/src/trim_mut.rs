//! In-place trimming of owned and owned-or-borrowed buffers.
//!
//! Trimming the tail is a pure truncation. Trimming the head moves the
//! retained units down to offset zero before shrinking the length; the
//! copy's source and destination ranges overlap, and the forward copy
//! order is chosen so that every unit is read before its slot is
//! overwritten. When both edges are trimmed, the tail is trimmed first,
//! so the head shift moves only units that survive.

use vstd::prelude::*;
use vstd::pervasive::VecAdditionalExecFns;

use crate::cow::TrimCow;
use crate::pattern::IsWhitespace;
use crate::pattern::MatchPattern;
use crate::pattern::pat_fn;
use crate::scan::find_first_keep;
use crate::scan::find_keep_end;
use crate::scan::lemma_first_keep;
use crate::scan::lemma_keep_bounds;
use crate::scan::lemma_keep_end;
use crate::scan::lemma_trim_composes;
use crate::scan::lemma_trim_extensional;
use crate::scan::trim_end_spec;
use crate::scan::trim_matches_units;
use crate::scan::trim_spec;
use crate::scan::trim_end_matches_units;
use crate::scan::trim_start_matches_units;
use crate::scan::trim_start_spec;
use crate::unit::TrimUnit;
use crate::unit::ws_fn;

verus! {

/// Relies on `Vec::into_boxed_slice` of std: the boxed slice holds
/// exactly the vector's elements, in order.
#[verifier::external_body]
fn vec_into_boxed_slice<T>(v: Vec<T>) -> (b: Box<[T]>)
    ensures
        b@ == v@,
{
    v.into_boxed_slice()
}

/// Replaces a boxed slice by the given sub-range of itself: a brand-new
/// block sized exactly to the range, except that the whole range leaves
/// the buffer untouched, with no allocation.
pub(crate) fn box_replace_with_range<T: TrimUnit>(b: &mut Box<[T]>, start: usize, stop: usize)
    requires
        start <= stop <= old(b)@.len(),
    ensures
        final(b)@ == old(b)@.subrange(start as int, stop as int),
{
    let n = {
        let s: &[T] = &**b;
        s.len()
    };
    if start == 0 && stop == n {
        proof {
            assert(b@.subrange(0, n as int) =~= b@);
        }
        return ;
    }
    let mut v: Vec<T> = Vec::with_capacity(stop - start);
    let mut i: usize = start;
    {
        let s: &[T] = &**b;
        while i < stop
            invariant
                start <= i <= stop <= s@.len(),
                v@ == s@.subrange(start as int, i as int),
            decreases stop - i,
        {
            v.push(s[i]);
            i = i + 1;
            proof {
                assert(v@ =~= s@.subrange(start as int, i as int));
            }
        }
    }
    *b = vec_into_boxed_slice(v);
}

/// Truncates away the trailing run of `pat`-units.
pub(crate) fn vec_trim_end_matches<T: TrimUnit, P: MatchPattern<T>>(v: &mut Vec<T>, pat: P)
    ensures
        final(v)@ == trim_end_spec(old(v)@, pat_fn(pat)),
{
    let e = find_keep_end(v.as_slice(), pat);
    proof {
        lemma_keep_end(v@, pat_fn(pat));
    }
    v.truncate(e);
}

/// Shifts the retained units down to offset zero, then truncates, to
/// remove the leading run of `pat`-units. A no-op when nothing leads.
pub(crate) fn vec_trim_start_matches<T: TrimUnit, P: MatchPattern<T>>(v: &mut Vec<T>, pat: P)
    ensures
        final(v)@ == trim_start_spec(old(v)@, pat_fn(pat)),
{
    let start = find_first_keep(v.as_slice(), pat);
    proof {
        lemma_first_keep(v@, pat_fn(pat));
    }
    if start == v.len() {
        v.clear();
        proof {
            assert(v@ =~= trim_start_spec(old(v)@, pat_fn(pat)));
        }
    } else if start > 0 {
        let ghost orig = v@;
        let n = v.len() - start;
        let mut i: usize = 0;
        while i < n
            invariant
                0 < start,
                start + n <= usize::MAX,
                start + n == orig.len(),
                v@.len() == orig.len(),
                0 <= i <= n,
                forall|j: int| 0 <= j < i ==> v@[j] == orig[start + j],
                forall|j: int| i <= j < orig.len() ==> v@[j] == orig[j],
            decreases n - i,
        {
            let u = v[start + i];
            v.set(i, u);
            i = i + 1;
        }
        v.truncate(n);
        proof {
            assert(v@ =~= trim_start_spec(orig, pat_fn(pat)));
        }
    }
}

/// Trims both edge runs of `pat`-units: the tail first (a pure
/// truncation), then the head (shift and truncate).
pub(crate) fn vec_trim_matches<T: TrimUnit, P: MatchPattern<T>>(v: &mut Vec<T>, pat: P)
    ensures
        final(v)@ == trim_spec(old(v)@, pat_fn(pat)),
{
    vec_trim_end_matches(v, pat);
    vec_trim_start_matches(v, pat);
    proof {
        lemma_trim_composes(old(v)@, pat_fn(pat));
    }
}

/// In-place whitespace trimming for owned and owned-or-borrowed buffers.
///
/// Whitespace is the whitespace class of the unit model: the ASCII
/// whitespace bytes for byte buffers, the Unicode `White_Space` scalars
/// for character buffers.
pub trait TrimMut {
    /// The unit type of the buffer.
    type Unit: TrimUnit;

    /// The units the buffer holds.
    spec fn units(&self) -> Seq<Self::Unit>;

    /// The buffer's storage discriminant; every trim preserves it.
    spec fn storage_tag(&self) -> bool;

    /// Removes leading and trailing whitespace in place.
    fn trim_mut(&mut self)
        ensures
            final(self).units() == trim_spec(old(self).units(), ws_fn::<Self::Unit>()),
            final(self).storage_tag() == old(self).storage_tag(),
    ;

    /// Removes leading whitespace in place.
    fn trim_start_mut(&mut self)
        ensures
            final(self).units() == trim_start_spec(old(self).units(), ws_fn::<Self::Unit>()),
            final(self).storage_tag() == old(self).storage_tag(),
    ;

    /// Removes trailing whitespace in place.
    fn trim_end_mut(&mut self)
        ensures
            final(self).units() == trim_end_spec(old(self).units(), ws_fn::<Self::Unit>()),
            final(self).storage_tag() == old(self).storage_tag(),
    ;
}

/// In-place match-based trimming for owned and owned-or-borrowed
/// buffers.
///
/// The pattern can be a single unit, an array or slice of units, a
/// `&BTreeSet<u8>`, or a named predicate such as [`IsWhitespace`].
pub trait TrimMatchesMut {
    /// The unit type of the buffer.
    type MatchUnit: TrimUnit;

    /// The units the buffer holds.
    spec fn units(&self) -> Seq<Self::MatchUnit>;

    /// The buffer's storage discriminant; every trim preserves it.
    spec fn storage_tag(&self) -> bool;

    /// Removes leading and trailing `pat`-units in place.
    fn trim_matches_mut<P: MatchPattern<Self::MatchUnit>>(&mut self, pat: P)
        ensures
            final(self).units() == trim_spec(old(self).units(), pat_fn(pat)),
            final(self).storage_tag() == old(self).storage_tag(),
    ;

    /// Removes leading `pat`-units in place.
    fn trim_start_matches_mut<P: MatchPattern<Self::MatchUnit>>(&mut self, pat: P)
        ensures
            final(self).units() == trim_start_spec(old(self).units(), pat_fn(pat)),
            final(self).storage_tag() == old(self).storage_tag(),
    ;

    /// Removes trailing `pat`-units in place.
    fn trim_end_matches_mut<P: MatchPattern<Self::MatchUnit>>(&mut self, pat: P)
        ensures
            final(self).units() == trim_end_spec(old(self).units(), pat_fn(pat)),
            final(self).storage_tag() == old(self).storage_tag(),
    ;
}

impl<T: TrimUnit> TrimMut for Vec<T> {
    type Unit = T;

    open spec fn units(&self) -> Seq<T> {
        self@
    }

    open spec fn storage_tag(&self) -> bool {
        true
    }

    fn trim_mut(&mut self) {
        vec_trim_matches(self, IsWhitespace);
        proof {
            lemma_trim_extensional(old(self)@, pat_fn::<T, IsWhitespace>(IsWhitespace), ws_fn::<T>());
        }
    }

    fn trim_start_mut(&mut self) {
        vec_trim_start_matches(self, IsWhitespace);
        proof {
            lemma_trim_extensional(old(self)@, pat_fn::<T, IsWhitespace>(IsWhitespace), ws_fn::<T>());
        }
    }

    fn trim_end_mut(&mut self) {
        vec_trim_end_matches(self, IsWhitespace);
        proof {
            lemma_trim_extensional(old(self)@, pat_fn::<T, IsWhitespace>(IsWhitespace), ws_fn::<T>());
        }
    }
}

impl<T: TrimUnit> TrimMatchesMut for Vec<T> {
    type MatchUnit = T;

    open spec fn units(&self) -> Seq<T> {
        self@
    }

    open spec fn storage_tag(&self) -> bool {
        true
    }

    fn trim_matches_mut<P: MatchPattern<T>>(&mut self, pat: P) {
        vec_trim_matches(self, pat);
    }

    fn trim_start_matches_mut<P: MatchPattern<T>>(&mut self, pat: P) {
        vec_trim_start_matches(self, pat);
    }

    fn trim_end_matches_mut<P: MatchPattern<T>>(&mut self, pat: P) {
        vec_trim_end_matches(self, pat);
    }
}

impl<T: TrimUnit> TrimMut for Box<[T]> {
    type Unit = T;

    open spec fn units(&self) -> Seq<T> {
        self@
    }

    open spec fn storage_tag(&self) -> bool {
        true
    }

    fn trim_mut(&mut self) {
        self.trim_matches_mut(IsWhitespace);
        proof {
            lemma_trim_extensional(old(self)@, pat_fn::<T, IsWhitespace>(IsWhitespace), ws_fn::<T>());
        }
    }

    fn trim_start_mut(&mut self) {
        self.trim_start_matches_mut(IsWhitespace);
        proof {
            lemma_trim_extensional(old(self)@, pat_fn::<T, IsWhitespace>(IsWhitespace), ws_fn::<T>());
        }
    }

    fn trim_end_mut(&mut self) {
        self.trim_end_matches_mut(IsWhitespace);
        proof {
            lemma_trim_extensional(old(self)@, pat_fn::<T, IsWhitespace>(IsWhitespace), ws_fn::<T>());
        }
    }
}

impl<T: TrimUnit> TrimMatchesMut for Box<[T]> {
    type MatchUnit = T;

    open spec fn units(&self) -> Seq<T> {
        self@
    }

    open spec fn storage_tag(&self) -> bool {
        true
    }

    /// A boxed slice cannot shrink in place: a strict sub-range replaces
    /// it with a new block of exactly that size; the whole range leaves
    /// it untouched.
    fn trim_matches_mut<P: MatchPattern<T>>(&mut self, pat: P) {
        let start = {
            let s: &[T] = &**self;
            find_first_keep(s, pat)
        };
        let n = {
            let s: &[T] = &**self;
            s.len()
        };
        proof {
            lemma_first_keep(self@, pat_fn(pat));
        }
        if start == n {
            box_replace_with_range(self, 0, 0);
            proof {
                assert(self@ =~= trim_spec(old(self)@, pat_fn(pat)));
            }
        } else {
            let stop = {
                let s: &[T] = &**self;
                find_keep_end(s, pat)
            };
            proof {
                lemma_keep_end(self@, pat_fn(pat));
                lemma_keep_bounds(self@, pat_fn(pat));
            }
            box_replace_with_range(self, start, stop);
        }
    }

    fn trim_start_matches_mut<P: MatchPattern<T>>(&mut self, pat: P) {
        let start = {
            let s: &[T] = &**self;
            find_first_keep(s, pat)
        };
        let n = {
            let s: &[T] = &**self;
            s.len()
        };
        proof {
            lemma_first_keep(self@, pat_fn(pat));
        }
        box_replace_with_range(self, start, n);
    }

    fn trim_end_matches_mut<P: MatchPattern<T>>(&mut self, pat: P) {
        let stop = {
            let s: &[T] = &**self;
            find_keep_end(s, pat)
        };
        proof {
            lemma_keep_end(self@, pat_fn(pat));
        }
        box_replace_with_range(self, 0, stop);
    }
}

impl<'a, T: TrimUnit> TrimMut for TrimCow<'a, T> {
    type Unit = T;

    open spec fn units(&self) -> Seq<T> {
        self@
    }

    open spec fn storage_tag(&self) -> bool {
        self.is_borrowed_spec()
    }

    fn trim_mut(&mut self) {
        self.trim_matches_mut(IsWhitespace);
        proof {
            lemma_trim_extensional(old(self)@, pat_fn::<T, IsWhitespace>(IsWhitespace), ws_fn::<T>());
        }
    }

    fn trim_start_mut(&mut self) {
        self.trim_start_matches_mut(IsWhitespace);
        proof {
            lemma_trim_extensional(old(self)@, pat_fn::<T, IsWhitespace>(IsWhitespace), ws_fn::<T>());
        }
    }

    fn trim_end_mut(&mut self) {
        self.trim_end_matches_mut(IsWhitespace);
        proof {
            lemma_trim_extensional(old(self)@, pat_fn::<T, IsWhitespace>(IsWhitespace), ws_fn::<T>());
        }
    }
}

impl<'a, T: TrimUnit> TrimMatchesMut for TrimCow<'a, T> {
    type MatchUnit = T;

    open spec fn units(&self) -> Seq<T> {
        self@
    }

    open spec fn storage_tag(&self) -> bool {
        self.is_borrowed_spec()
    }

    /// A borrowed handle narrows its view; an owned one is rewritten in
    /// place.
    fn trim_matches_mut<P: MatchPattern<T>>(&mut self, pat: P) {
        let mut tmp: TrimCow<'a, T> = TrimCow::Owned(Vec::new());
        core::mem::swap(self, &mut tmp);
        match tmp {
            TrimCow::Borrowed(s) => {
                *self = TrimCow::Borrowed(trim_matches_units(s, pat));
            },
            TrimCow::Owned(mut v) => {
                vec_trim_matches(&mut v, pat);
                *self = TrimCow::Owned(v);
            },
        }
    }

    fn trim_start_matches_mut<P: MatchPattern<T>>(&mut self, pat: P) {
        let mut tmp: TrimCow<'a, T> = TrimCow::Owned(Vec::new());
        core::mem::swap(self, &mut tmp);
        match tmp {
            TrimCow::Borrowed(s) => {
                *self = TrimCow::Borrowed(trim_start_matches_units(s, pat));
            },
            TrimCow::Owned(mut v) => {
                vec_trim_start_matches(&mut v, pat);
                *self = TrimCow::Owned(v);
            },
        }
    }

    fn trim_end_matches_mut<P: MatchPattern<T>>(&mut self, pat: P) {
        let mut tmp: TrimCow<'a, T> = TrimCow::Owned(Vec::new());
        core::mem::swap(self, &mut tmp);
        match tmp {
            TrimCow::Borrowed(s) => {
                *self = TrimCow::Borrowed(trim_end_matches_units(s, pat));
            },
            TrimCow::Owned(mut v) => {
                vec_trim_end_matches(&mut v, pat);
                *self = TrimCow::Owned(v);
            },
        }
    }
}

} // verus!
