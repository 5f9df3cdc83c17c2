//! Flexible match patterns for the match-based trimming operations.
//!
//! A pattern answers one question: should this unit be trimmed? The
//! interchangeable forms are a single unit, an array or slice of units, an
//! ordered set of units, and a named predicate type.

use std::collections::BTreeSet;
use vstd::prelude::*;

use crate::unit::TrimUnit;

verus! {

broadcast use
    vstd::laws_cmp::group_laws_cmp,
    vstd::std_specs::btree::group_btree_axioms,
;

/// A match pattern: a capability answering whether a given unit should be
/// trimmed.
///
/// Patterns are total: `is_match` is defined for every unit, has no side
/// effects, and always agrees with the pattern's own `matches_spec`.
///
/// The provided forms are:
/// * a single unit (`u8` or `char`);
/// * an array or slice of units (linear scan, duplicates harmless);
/// * a `&BTreeSet<u8>` (ordered-set lookup);
/// * a named predicate such as [`IsWhitespace`].
pub trait MatchPattern<T: TrimUnit>: Copy + Sized {
    /// The set of units this pattern trims, as a predicate.
    spec fn matches_spec(self, u: T) -> bool;

    /// Returns `true` if `u` should be trimmed.
    fn is_match(self, u: T) -> (r: bool)
        ensures
            r == self.matches_spec(u),
    ;
}

/// The predicate view of a pattern, for use in contracts.
pub open spec fn pat_fn<T: TrimUnit, P: MatchPattern<T>>(pat: P) -> spec_fn(T) -> bool {
    |u: T| pat.matches_spec(u)
}

/// The whitespace predicate of the active unit model, as a pattern.
#[derive(Clone, Copy, Debug)]
pub struct IsWhitespace;

/// The control predicate of the active unit model, as a pattern.
#[derive(Clone, Copy, Debug)]
pub struct IsControl;

impl MatchPattern<u8> for u8 {
    open spec fn matches_spec(self, u: u8) -> bool {
        self == u
    }

    fn is_match(self, u: u8) -> (r: bool) {
        self.eq_unit(u)
    }
}

impl MatchPattern<char> for char {
    open spec fn matches_spec(self, u: char) -> bool {
        self == u
    }

    fn is_match(self, u: char) -> (r: bool) {
        self.eq_unit(u)
    }
}

impl<'a, T: TrimUnit> MatchPattern<T> for &'a [T] {
    open spec fn matches_spec(self, u: T) -> bool {
        self@.contains(u)
    }

    fn is_match(self, u: T) -> (r: bool) {
        let mut i: usize = 0;
        while i < self.len()
            invariant
                0 <= i <= self@.len(),
                forall|j: int| 0 <= j < i ==> self@[j] != u,
            decreases self@.len() - i,
        {
            if self[i].eq_unit(u) {
                return true;
            }
            i = i + 1;
        }
        false
    }
}

impl<T: TrimUnit, const N: usize> MatchPattern<T> for [T; N] {
    open spec fn matches_spec(self, u: T) -> bool {
        self@.contains(u)
    }

    fn is_match(self, u: T) -> (r: bool) {
        let mut i: usize = 0;
        while i < N
            invariant
                0 <= i <= N,
                self@.len() == N,
                forall|j: int| 0 <= j < i ==> self@[j] != u,
            decreases N - i,
        {
            if self[i].eq_unit(u) {
                return true;
            }
            i = i + 1;
        }
        false
    }
}

impl<'a, T: TrimUnit, const N: usize> MatchPattern<T> for &'a [T; N] {
    open spec fn matches_spec(self, u: T) -> bool {
        self@.contains(u)
    }

    fn is_match(self, u: T) -> (r: bool) {
        let mut i: usize = 0;
        while i < N
            invariant
                0 <= i <= N,
                self@.len() == N,
                forall|j: int| 0 <= j < i ==> self@[j] != u,
            decreases N - i,
        {
            if self[i].eq_unit(u) {
                return true;
            }
            i = i + 1;
        }
        false
    }
}

// Only the byte set is provided: vstd's `BTreeSet` contracts hold under
// `obeys_cmp` of the key, which vstd establishes for the integer types
// and not for `char`, so the `char` counterpart of this impl does not
// verify.
impl<'a> MatchPattern<u8> for &'a BTreeSet<u8> {
    open spec fn matches_spec(self, u: u8) -> bool {
        self@.contains(u)
    }

    /// Ordered-set membership, through `BTreeSet::contains`.
    fn is_match(self, u: u8) -> (r: bool) {
        self.contains(&u)
    }
}

impl<T: TrimUnit> MatchPattern<T> for IsWhitespace {
    open spec fn matches_spec(self, u: T) -> bool {
        u.is_ws_spec()
    }

    fn is_match(self, u: T) -> (r: bool) {
        u.is_ws()
    }
}

impl<T: TrimUnit> MatchPattern<T> for IsControl {
    open spec fn matches_spec(self, u: T) -> bool {
        u.is_ctl_spec()
    }

    fn is_match(self, u: T) -> (r: bool) {
        u.is_ctl()
    }
}

} // verus!
