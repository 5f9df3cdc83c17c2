//! The library's laws, each stated over the spec functions that the
//! executable functions' contracts use, and proved once for both unit
//! models.

use vstd::prelude::*;

use crate::normal::lemma_norm_idempotent;
use crate::normal::lemma_norm_of_normal;
use crate::normal::lemma_norm_shape;
use crate::normal::normal_shape;
use crate::normal::normalized;
use crate::normal::normalized_ctl;
use crate::pattern::MatchPattern;
use crate::pattern::pat_fn;
use crate::scan::lemma_first_keep_is;
use crate::scan::lemma_keep_end_is;
use crate::scan::lemma_trim_extensional;
use crate::scan::lemma_trim_idempotent;
use crate::scan::trim_end_spec;
use crate::scan::trim_spec;
use crate::scan::trim_start_spec;
use crate::unit::TrimUnit;
use crate::unit::ws_ctl_fn;
use crate::unit::ws_fn;

verus! {

/// Idempotence of normalization: normalizing a second time changes
/// nothing. (Idempotence of trimming is [`lemma_trim_idempotent`].)
pub proof fn law_normalize_idempotent<T: TrimUnit>(x: Seq<T>)
    ensures
        normalized(normalized(x)) == normalized(x),
        normalized_ctl(normalized_ctl(x)) == normalized_ctl(x),
{
    lemma_norm_idempotent(x, ws_fn::<T>());
    lemma_norm_idempotent(x, ws_ctl_fn::<T>());
}

/// Equivalence of the scan and mutate paths: the read-only trims and the
/// in-place trims promise the very same sequence, so a view returned by
/// one equals the buffer left by the other.
pub proof fn law_scan_mutate_agree<T: TrimUnit>(
    x: Seq<T>,
    scanned: Seq<T>,
    mutated: Seq<T>,
    p: spec_fn(T) -> bool,
)
    requires
        scanned == trim_spec(x, p),
        mutated == trim_spec(x, p),
    ensures
        scanned == mutated,
{
}

/// Borrow correctness: an input in normal shape — nothing to trim at
/// either edge, every interior whitespace run already one canonical
/// space — is its own normalized form, and equals its own trimmed
/// sub-range, so the borrowing entry point returns it borrowed.
pub proof fn law_normalize_borrows_clean<T: TrimUnit>(x: Seq<T>)
    requires
        normal_shape(x, ws_fn::<T>(), true),
    ensures
        normalized(x) == x,
        trim_spec(x, ws_fn::<T>()) == x,
{
    let p = ws_fn::<T>();
    lemma_norm_of_normal(x, p, true);
    if x.len() > 0 {
        assert(!p(x.last()));
        lemma_first_keep_is(x, p, 0);
        lemma_keep_end_is(x, p, x.len() as int);
        assert(trim_spec(x, p) =~= x);
    } else {
        lemma_first_keep_is(x, p, 0);
        assert(trim_spec(x, p) =~= x);
    }
}

/// Agreement of the delivery modes: the direct value mode and the lazy
/// sequence mode promise the same normalized sequence, so a collected
/// lazy iterator equals the direct result.
pub proof fn law_modes_agree<T: TrimUnit>(x: Seq<T>, direct: Seq<T>, lazy: Seq<T>)
    requires
        direct == normalized(x),
        lazy == normalized(x),
    ensures
        direct == lazy,
{
}

/// The whitespace-collapse law: in a normalized sequence no whitespace
/// leads, none trails, and every interior whitespace unit is the
/// canonical space followed immediately by content.
pub proof fn law_whitespace_collapsed<T: TrimUnit>(x: Seq<T>)
    ensures
        normal_shape(normalized(x), ws_fn::<T>(), true),
        normalized(x).len() > 0 ==> !ws_fn::<T>()(normalized(x).last()),
        normal_shape(normalized_ctl(x), ws_ctl_fn::<T>(), true),
        normalized_ctl(x).len() > 0 ==> !ws_ctl_fn::<T>()(normalized_ctl(x).last()),
{
    lemma_norm_shape(x, ws_fn::<T>(), true);
    lemma_norm_shape(x, ws_ctl_fn::<T>(), true);
    let r = normalized(x);
    if r.len() > 0 && ws_fn::<T>()(r.last()) {
        assert(false);
    }
    let rc = normalized_ctl(x);
    if rc.len() > 0 && ws_ctl_fn::<T>()(rc.last()) {
        assert(false);
    }
}

/// Matcher-form equivalence: two patterns that match the same units —
/// a single unit and the one-element array, slice, set or predicate
/// forms of the same set — trim every sequence identically.
pub proof fn law_matcher_forms_agree<T: TrimUnit, P1: MatchPattern<T>, P2: MatchPattern<T>>(
    x: Seq<T>,
    a: P1,
    b: P2,
)
    requires
        forall|u: T| #[trigger] a.matches_spec(u) == b.matches_spec(u),
    ensures
        trim_spec(x, pat_fn(a)) == trim_spec(x, pat_fn(b)),
        trim_start_spec(x, pat_fn(a)) == trim_start_spec(x, pat_fn(b)),
        trim_end_spec(x, pat_fn(a)) == trim_end_spec(x, pat_fn(b)),
{
    lemma_trim_extensional(x, pat_fn(a), pat_fn(b));
}

} // verus!
