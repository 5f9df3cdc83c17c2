//! Read-only boundary scans: where trimmed content starts and ends.
//!
//! The retained region of a sequence under a predicate `p` runs from the
//! first unit on which `p` fails to just past the last such unit. All
//! trimming operations, read-only and mutating alike, are specified
//! against [`first_keep`] and [`keep_end`].

use vstd::prelude::*;
use vstd::slice::slice_subrange;

use crate::pattern::MatchPattern;
use crate::pattern::pat_fn;
use crate::unit::TrimUnit;

verus! {

/// The index of the first unit on which `p` fails; `s.len()` if `p` holds
/// everywhere.
pub open spec fn first_keep<T>(s: Seq<T>, p: spec_fn(T) -> bool) -> int
    decreases s.len(),
{
    if s.len() == 0 {
        0
    } else if !p(s[0]) {
        0
    } else {
        1 + first_keep(s.drop_first(), p)
    }
}

/// One past the index of the last unit on which `p` fails; `0` if `p`
/// holds everywhere.
pub open spec fn keep_end<T>(s: Seq<T>, p: spec_fn(T) -> bool) -> int
    decreases s.len(),
{
    if s.len() == 0 {
        0
    } else if !p(s.last()) {
        s.len() as int
    } else {
        keep_end(s.drop_last(), p)
    }
}

/// `s` with its leading run of `p`-units removed.
pub open spec fn trim_start_spec<T>(s: Seq<T>, p: spec_fn(T) -> bool) -> Seq<T> {
    s.subrange(first_keep(s, p), s.len() as int)
}

/// `s` with its trailing run of `p`-units removed.
pub open spec fn trim_end_spec<T>(s: Seq<T>, p: spec_fn(T) -> bool) -> Seq<T> {
    s.subrange(0, keep_end(s, p))
}

/// `s` with both its leading and its trailing run of `p`-units removed:
/// the retained region, empty when every unit matches.
pub open spec fn trim_spec<T>(s: Seq<T>, p: spec_fn(T) -> bool) -> Seq<T> {
    if first_keep(s, p) == s.len() {
        Seq::empty()
    } else {
        s.subrange(first_keep(s, p), keep_end(s, p))
    }
}

/// What [`first_keep`] returns: every earlier unit matches, and the unit
/// at the boundary, if any, does not.
pub proof fn lemma_first_keep<T>(s: Seq<T>, p: spec_fn(T) -> bool)
    ensures
        0 <= first_keep(s, p) <= s.len(),
        forall|j: int| 0 <= j < first_keep(s, p) ==> p(s[j]),
        first_keep(s, p) < s.len() ==> !p(s[first_keep(s, p)]),
    decreases s.len(),
{
    if s.len() > 0 && p(s[0]) {
        lemma_first_keep(s.drop_first(), p);
        assert forall|j: int| 0 <= j < first_keep(s, p) implies p(s[j]) by {
            if j > 0 {
                assert(s.drop_first()[j - 1] == s[j]);
            }
        }
    }
}

/// [`first_keep`] is the unique boundary with these properties.
pub proof fn lemma_first_keep_is<T>(s: Seq<T>, p: spec_fn(T) -> bool, i: int)
    requires
        0 <= i <= s.len(),
        forall|j: int| 0 <= j < i ==> p(s[j]),
        i < s.len() ==> !p(s[i]),
    ensures
        first_keep(s, p) == i,
    decreases s.len(),
{
    if s.len() > 0 && p(s[0]) {
        assert forall|j: int| 0 <= j < i - 1 implies p(s.drop_first()[j]) by {
            assert(s.drop_first()[j] == s[j + 1]);
        }
        assert(i - 1 < s.drop_first().len() ==> !p(s.drop_first()[i - 1]));
        lemma_first_keep_is(s.drop_first(), p, i - 1);
    }
}

/// What [`keep_end`] returns: every later unit matches, and the unit just
/// before the boundary, if any, does not.
pub proof fn lemma_keep_end<T>(s: Seq<T>, p: spec_fn(T) -> bool)
    ensures
        0 <= keep_end(s, p) <= s.len(),
        forall|j: int| keep_end(s, p) <= j < s.len() ==> p(s[j]),
        keep_end(s, p) > 0 ==> !p(s[keep_end(s, p) - 1]),
    decreases s.len(),
{
    if s.len() > 0 && p(s.last()) {
        lemma_keep_end(s.drop_last(), p);
        assert forall|j: int| keep_end(s, p) <= j < s.len() implies p(s[j]) by {
            if j < s.len() - 1 {
                assert(s.drop_last()[j] == s[j]);
            }
        }
    }
}

/// [`keep_end`] is the unique boundary with these properties.
pub proof fn lemma_keep_end_is<T>(s: Seq<T>, p: spec_fn(T) -> bool, e: int)
    requires
        0 <= e <= s.len(),
        forall|j: int| e <= j < s.len() ==> p(s[j]),
        e > 0 ==> !p(s[e - 1]),
    ensures
        keep_end(s, p) == e,
    decreases s.len(),
{
    if s.len() > 0 && p(s.last()) {
        assert(e < s.len());
        assert forall|j: int| e <= j < s.drop_last().len() implies p(s.drop_last()[j]) by {
            assert(s.drop_last()[j] == s[j]);
        }
        lemma_keep_end_is(s.drop_last(), p, e);
    }
}

/// When anything is retained at all, the two boundaries are ordered:
/// `first_keep < keep_end`.
pub proof fn lemma_keep_bounds<T>(s: Seq<T>, p: spec_fn(T) -> bool)
    ensures
        first_keep(s, p) == s.len() <==> keep_end(s, p) == 0,
        first_keep(s, p) < s.len() ==> first_keep(s, p) < keep_end(s, p),
{
    lemma_first_keep(s, p);
    lemma_keep_end(s, p);
    if first_keep(s, p) < s.len() {
        if keep_end(s, p) <= first_keep(s, p) {
            assert(p(s[first_keep(s, p)]));
            assert(false);
        }
    }
    if keep_end(s, p) > 0 {
        if first_keep(s, p) == s.len() {
            assert(p(s[keep_end(s, p) - 1]));
            assert(false);
        }
    }
}

/// Trimming both edges in either order gives the retained region:
/// `trim_start` then `trim_end` equals `trim`, and so does the reverse
/// composition.
pub proof fn lemma_trim_composes<T>(s: Seq<T>, p: spec_fn(T) -> bool)
    ensures
        trim_end_spec(trim_start_spec(s, p), p) == trim_spec(s, p),
        trim_start_spec(trim_end_spec(s, p), p) == trim_spec(s, p),
{
    let f = first_keep(s, p);
    let e = keep_end(s, p);
    lemma_first_keep(s, p);
    lemma_keep_end(s, p);
    lemma_keep_bounds(s, p);
    if f == s.len() {
        let t1 = trim_start_spec(s, p);
        assert(t1.len() == 0);
        assert(keep_end(t1, p) == 0) by {
            lemma_keep_end(t1, p);
        }
        assert(trim_end_spec(t1, p) =~= trim_spec(s, p));
        let t2 = trim_end_spec(s, p);
        assert(t2.len() == 0);
        assert(first_keep(t2, p) == 0) by {
            lemma_first_keep(t2, p);
        }
        assert(trim_start_spec(t2, p) =~= trim_spec(s, p));
    } else {
        let t1 = trim_start_spec(s, p);
        assert(keep_end(t1, p) == e - f) by {
            lemma_keep_end_is(t1, p, e - f);
        }
        assert(trim_end_spec(t1, p) =~= trim_spec(s, p));
        let t2 = trim_end_spec(s, p);
        assert(first_keep(t2, p) == f) by {
            lemma_first_keep_is(t2, p, f);
        }
        assert(trim_start_spec(t2, p) =~= trim_spec(s, p));
    }
}

/// Trimming is idempotent: a second pass, of the same operation, changes
/// nothing.
pub proof fn lemma_trim_idempotent<T>(s: Seq<T>, p: spec_fn(T) -> bool)
    ensures
        trim_spec(trim_spec(s, p), p) == trim_spec(s, p),
        trim_start_spec(trim_start_spec(s, p), p) == trim_start_spec(s, p),
        trim_end_spec(trim_end_spec(s, p), p) == trim_end_spec(s, p),
{
    let f = first_keep(s, p);
    let e = keep_end(s, p);
    lemma_first_keep(s, p);
    lemma_keep_end(s, p);
    lemma_keep_bounds(s, p);
    let r = trim_spec(s, p);
    if f == s.len() {
        assert(first_keep(r, p) == 0) by {
            lemma_first_keep(r, p);
        }
        assert(trim_spec(r, p) =~= r);
    } else {
        assert(first_keep(r, p) == 0) by {
            lemma_first_keep_is(r, p, 0);
        }
        assert(keep_end(r, p) == r.len()) by {
            lemma_keep_end_is(r, p, r.len() as int);
        }
        assert(trim_spec(r, p) =~= r);
    }
    let rs = trim_start_spec(s, p);
    if f == s.len() {
        assert(first_keep(rs, p) == 0) by {
            lemma_first_keep(rs, p);
        }
    } else {
        assert(first_keep(rs, p) == 0) by {
            lemma_first_keep_is(rs, p, 0);
        }
    }
    assert(trim_start_spec(rs, p) =~= rs);
    let re = trim_end_spec(s, p);
    if e == 0 {
        assert(keep_end(re, p) == 0) by {
            lemma_keep_end(re, p);
        }
    } else {
        assert(keep_end(re, p) == re.len()) by {
            lemma_keep_end_is(re, p, re.len() as int);
        }
    }
    assert(trim_end_spec(re, p) =~= re);
}

/// A trimmed sequence has nothing left to trim: its boundaries are its
/// own ends.
pub proof fn lemma_trim_shape<T>(s: Seq<T>, p: spec_fn(T) -> bool)
    ensures
        first_keep(trim_spec(s, p), p) == 0,
        keep_end(trim_spec(s, p), p) == trim_spec(s, p).len(),
        trim_spec(s, p).len() > 0 ==> !p(trim_spec(s, p)[0]),
        trim_spec(s, p).len() > 0 ==> !p(trim_spec(s, p).last()),
{
    let f = first_keep(s, p);
    lemma_first_keep(s, p);
    lemma_keep_end(s, p);
    lemma_keep_bounds(s, p);
    let r = trim_spec(s, p);
    if f == s.len() {
        lemma_first_keep(r, p);
        lemma_keep_end(r, p);
    } else {
        lemma_first_keep_is(r, p, 0);
        lemma_keep_end_is(r, p, r.len() as int);
    }
}

/// Trimming depends only on the predicate's extension: two patterns that
/// match the same units trim identically.
pub proof fn lemma_trim_extensional<T>(s: Seq<T>, p: spec_fn(T) -> bool, q: spec_fn(T) -> bool)
    requires
        forall|u: T| #[trigger] p(u) == q(u),
    ensures
        first_keep(s, p) == first_keep(s, q),
        keep_end(s, p) == keep_end(s, q),
        trim_start_spec(s, p) == trim_start_spec(s, q),
        trim_end_spec(s, p) == trim_end_spec(s, q),
        trim_spec(s, p) == trim_spec(s, q),
{
    lemma_first_keep(s, p);
    lemma_keep_end(s, p);
    lemma_first_keep_is(s, q, first_keep(s, p));
    lemma_keep_end_is(s, q, keep_end(s, p));
}

/// The exec scan for [`first_keep`], driven by a pattern.
pub(crate) fn find_first_keep<T: TrimUnit, P: MatchPattern<T>>(s: &[T], pat: P) -> (i: usize)
    ensures
        i as int == first_keep(s@, pat_fn(pat)),
{
    let mut i: usize = 0;
    while i < s.len() && pat.is_match(s[i])
        invariant
            0 <= i <= s@.len(),
            forall|j: int| 0 <= j < i ==> pat_fn(pat)(s@[j]),
        decreases s@.len() - i,
    {
        i = i + 1;
    }
    proof {
        lemma_first_keep_is(s@, pat_fn(pat), i as int);
    }
    i
}

/// The exec scan for [`keep_end`], driven by a pattern.
pub(crate) fn find_keep_end<T: TrimUnit, P: MatchPattern<T>>(s: &[T], pat: P) -> (e: usize)
    ensures
        e as int == keep_end(s@, pat_fn(pat)),
{
    let mut e: usize = s.len();
    while e > 0 && pat.is_match(s[e - 1])
        invariant
            0 <= e <= s@.len(),
            forall|j: int| e <= j < s@.len() ==> pat_fn(pat)(s@[j]),
        decreases e,
    {
        e = e - 1;
    }
    proof {
        lemma_keep_end_is(s@, pat_fn(pat), e as int);
    }
    e
}

/// The narrowed view of `s` with leading `pat`-units removed.
pub(crate) fn trim_start_matches_units<'a, T: TrimUnit, P: MatchPattern<T>>(
    s: &'a [T],
    pat: P,
) -> (r: &'a [T])
    ensures
        r@ == trim_start_spec(s@, pat_fn(pat)),
{
    let i = find_first_keep(s, pat);
    proof {
        lemma_first_keep(s@, pat_fn(pat));
    }
    slice_subrange(s, i, s.len())
}

/// The narrowed view of `s` with trailing `pat`-units removed.
pub(crate) fn trim_end_matches_units<'a, T: TrimUnit, P: MatchPattern<T>>(
    s: &'a [T],
    pat: P,
) -> (r: &'a [T])
    ensures
        r@ == trim_end_spec(s@, pat_fn(pat)),
{
    let e = find_keep_end(s, pat);
    proof {
        lemma_keep_end(s@, pat_fn(pat));
    }
    slice_subrange(s, 0, e)
}

/// The narrowed view of `s` with both edge runs of `pat`-units removed.
pub(crate) fn trim_matches_units<'a, T: TrimUnit, P: MatchPattern<T>>(s: &'a [T], pat: P) -> (r:
    &'a [T])
    ensures
        r@ == trim_spec(s@, pat_fn(pat)),
{
    let i = find_first_keep(s, pat);
    if i == s.len() {
        let r = slice_subrange(s, 0, 0);
        proof {
            assert(r@ =~= Seq::<T>::empty());
        }
        r
    } else {
        let e = find_keep_end(s, pat);
        proof {
            lemma_first_keep(s@, pat_fn(pat));
            lemma_keep_end(s@, pat_fn(pat));
            lemma_keep_bounds(s@, pat_fn(pat));
        }
        slice_subrange(s, i, e)
    }
}

} // verus!
