//! Match-based trimming of borrowed slices: pure view narrowing, no
//! mutation, no allocation.

use vstd::prelude::*;

use crate::pattern::MatchPattern;
use crate::pattern::pat_fn;
use crate::scan::trim_end_matches_units;
use crate::scan::trim_matches_units;
use crate::scan::trim_spec;
use crate::scan::trim_end_spec;
use crate::scan::trim_start_matches_units;
use crate::scan::trim_start_spec;
use crate::unit::TrimUnit;

verus! {

/// Match-based trimming for slices of units (`[u8]` and `[char]`).
///
/// Each method returns a narrowed view of the receiver; the receiver
/// itself is never changed. The pattern can be a single unit, an array or
/// slice of units, a `&BTreeSet<u8>`, or a named predicate such as
/// [`crate::IsWhitespace`].
pub trait TrimSliceMatches<T: TrimUnit> {
    /// The units the receiver holds.
    spec fn units(&self) -> Seq<T>;

    /// The receiver without its leading and trailing runs of units
    /// matched by `pat`.
    fn trim_matches<P: MatchPattern<T>>(&self, pat: P) -> (r: &[T])
        ensures
            r@ == trim_spec(self.units(), pat_fn(pat)),
    ;

    /// The receiver without its leading run of units matched by `pat`.
    fn trim_start_matches<P: MatchPattern<T>>(&self, pat: P) -> (r: &[T])
        ensures
            r@ == trim_start_spec(self.units(), pat_fn(pat)),
    ;

    /// The receiver without its trailing run of units matched by `pat`.
    fn trim_end_matches<P: MatchPattern<T>>(&self, pat: P) -> (r: &[T])
        ensures
            r@ == trim_end_spec(self.units(), pat_fn(pat)),
    ;
}

impl<T: TrimUnit> TrimSliceMatches<T> for [T] {
    open spec fn units(&self) -> Seq<T> {
        self@
    }

    fn trim_matches<P: MatchPattern<T>>(&self, pat: P) -> (r: &[T]) {
        trim_matches_units(self, pat)
    }

    fn trim_start_matches<P: MatchPattern<T>>(&self, pat: P) -> (r: &[T]) {
        trim_start_matches_units(self, pat)
    }

    fn trim_end_matches<P: MatchPattern<T>>(&self, pat: P) -> (r: &[T]) {
        trim_end_matches_units(self, pat)
    }
}

} // verus!
