//! The whitespace-normalization function and its algebra.
//!
//! Normalization runs a three-state machine over the input: leading
//! matched units are swallowed; once content begins, every maximal
//! interior run of matched units becomes exactly one canonical space; a
//! run that reaches the end of the input disappears. [`norm_from`] is
//! that machine as a single recursive function, with the state carried in
//! one flag: `in_run` is true while units are being swallowed without a
//! separator owed, so leading skip is the `in_run == true` start state.

use vstd::prelude::*;

use crate::scan::first_keep;
use crate::scan::keep_end;
use crate::scan::lemma_first_keep;
use crate::scan::lemma_first_keep_is;
use crate::scan::lemma_keep_bounds;
use crate::scan::lemma_keep_end;
use crate::scan::lemma_keep_end_is;
use crate::scan::lemma_trim_composes;
use crate::scan::trim_end_spec;
use crate::scan::trim_spec;
use crate::scan::trim_start_spec;
use crate::unit::TrimUnit;
use crate::unit::ws_ctl_fn;
use crate::unit::ws_fn;

verus! {

/// The normalized form of `s` under the predicate `p`, starting with the
/// machine's run flag set to `in_run`.
///
/// With `in_run` true the machine is inside a run (or before any
/// content), so matched units are dropped silently. With `in_run` false a
/// matched unit opens a new interior run: one canonical space stands for
/// the whole run, unless the run reaches the end of the input, in which
/// case it vanishes.
pub open spec fn norm_from<T: TrimUnit>(s: Seq<T>, p: spec_fn(T) -> bool, in_run: bool) -> Seq<T>
    decreases s.len(),
{
    if s.len() == 0 {
        Seq::empty()
    } else if p(s[0]) {
        if in_run {
            norm_from(s.drop_first(), p, true)
        } else {
            let tail = norm_from(s.drop_first(), p, true);
            if tail.len() == 0 {
                Seq::empty()
            } else {
                seq![T::space()] + tail
            }
        }
    } else {
        seq![s[0]] + norm_from(s.drop_first(), p, false)
    }
}

/// `s` trimmed and with every interior whitespace run collapsed to one
/// canonical space.
pub open spec fn normalized<T: TrimUnit>(s: Seq<T>) -> Seq<T> {
    norm_from(s, ws_fn::<T>(), true)
}

/// Control-aware normalization: control units are trimmed and collapsed
/// exactly as whitespace is.
pub open spec fn normalized_ctl<T: TrimUnit>(s: Seq<T>) -> Seq<T> {
    norm_from(s, ws_ctl_fn::<T>(), true)
}

/// The collapse shape: every `p`-unit in `r` is the canonical space and
/// is immediately followed by a non-`p` unit, so `p`-runs have length
/// exactly one and never touch the end.
pub open spec fn collapsed_shape<T: TrimUnit>(r: Seq<T>, p: spec_fn(T) -> bool) -> bool {
    forall|i: int|
        0 <= i < r.len() && #[trigger] p(r[i]) ==> r[i] == T::space() && i + 1 < r.len() && !p(
            r[i + 1],
        )
}

/// The full normal shape: collapsed, and, when `lead` is set, not
/// starting with a `p`-unit either.
pub open spec fn normal_shape<T: TrimUnit>(r: Seq<T>, p: spec_fn(T) -> bool, lead: bool) -> bool {
    collapsed_shape(r, p) && (lead && r.len() > 0 ==> !p(r[0]))
}

/// Like [`norm_from`], but a collapsed run stands as its own first unit
/// rather than as the canonical space: the shape a single retain-style
/// pass leaves behind, before any non-canonical whitespace is rewritten.
pub open spec fn norm_keep_from<T: TrimUnit>(
    s: Seq<T>,
    p: spec_fn(T) -> bool,
    in_run: bool,
) -> Seq<T>
    decreases s.len(),
{
    if s.len() == 0 {
        Seq::empty()
    } else if p(s[0]) {
        if in_run {
            norm_keep_from(s.drop_first(), p, true)
        } else {
            let tail = norm_keep_from(s.drop_first(), p, true);
            if tail.len() == 0 {
                Seq::empty()
            } else {
                seq![s[0]] + tail
            }
        }
    } else {
        seq![s[0]] + norm_keep_from(s.drop_first(), p, false)
    }
}

/// Every `p`-unit of `r` rewritten to the canonical space.
pub open spec fn canonized<T: TrimUnit>(r: Seq<T>, p: spec_fn(T) -> bool) -> Seq<T> {
    Seq::new(
        r.len(),
        |i: int|
            if p(r[i]) {
                T::space()
            } else {
                r[i]
            },
    )
}

/// The number of non-canonical `p`-units in `r`: those a fix-up pass
/// still has to rewrite.
pub open spec fn noncanon_count<T: TrimUnit>(r: Seq<T>, p: spec_fn(T) -> bool) -> int
    decreases r.len(),
{
    if r.len() == 0 {
        0
    } else {
        (if p(r[0]) && r[0] != T::space() {
            1int
        } else {
            0int
        }) + noncanon_count(r.drop_first(), p)
    }
}

/// The retain-style pass keeps exactly as much as normalization keeps,
/// and drops a run exactly when normalization does.
pub proof fn lemma_norm_keep_empty_iff<T: TrimUnit>(s: Seq<T>, p: spec_fn(T) -> bool, in_run: bool)
    ensures
        norm_keep_from(s, p, in_run).len() == 0 <==> (forall|j: int| 0 <= j < s.len() ==> p(s[j])),
    decreases s.len(),
{
    if s.len() > 0 {
        let rest = s.drop_first();
        lemma_norm_keep_empty_iff(rest, p, true);
        assert(forall|j: int| 1 <= j < s.len() ==> s[j] == rest[j - 1]);
        assert(forall|k: int| 0 <= k < rest.len() ==> rest[k] == s[k + 1]);
    }
}

/// Rewriting the kept run leaders to the canonical space turns the
/// retain-style result into the normalized form.
pub proof fn lemma_canonized_norm_keep<T: TrimUnit>(s: Seq<T>, p: spec_fn(T) -> bool, in_run: bool)
    ensures
        canonized(norm_keep_from(s, p, in_run), p) == norm_from(s, p, in_run),
    decreases s.len(),
{
    if s.len() == 0 {
        assert(canonized(norm_keep_from(s, p, in_run), p) =~= norm_from(s, p, in_run));
    } else {
        let rest = s.drop_first();
        lemma_canonized_norm_keep(rest, p, true);
        lemma_canonized_norm_keep(rest, p, false);
        if p(s[0]) && !in_run {
            let tk = norm_keep_from(rest, p, true);
            let tn = norm_from(rest, p, true);
            assert(canonized(tk, p).len() == tk.len());
            if tk.len() == 0 {
                assert(canonized(norm_keep_from(s, p, false), p) =~= norm_from(s, p, false));
            } else {
                assert(canonized(seq![s[0]] + tk, p) =~= seq![T::space()] + canonized(tk, p));
            }
        } else if !p(s[0]) {
            let tk = norm_keep_from(rest, p, false);
            assert(canonized(seq![s[0]] + tk, p) =~= seq![s[0]] + canonized(tk, p));
        }
    }
}

/// Rewriting is the identity exactly where nothing non-canonical is
/// left.
pub proof fn lemma_canonized_identity<T: TrimUnit>(r: Seq<T>, p: spec_fn(T) -> bool)
    requires
        forall|i: int| 0 <= i < r.len() && #[trigger] p(r[i]) ==> r[i] == T::space(),
    ensures
        canonized(r, p) == r,
{
    assert(canonized(r, p) =~= r);
}

/// The count of non-canonical units never exceeds the length.
pub proof fn lemma_noncanon_bounds<T: TrimUnit>(r: Seq<T>, p: spec_fn(T) -> bool)
    ensures
        0 <= noncanon_count(r, p) <= r.len(),
    decreases r.len(),
{
    if r.len() > 0 {
        lemma_noncanon_bounds(r.drop_first(), p);
    }
}

/// Appending one unit raises the count by one exactly when the unit is a
/// non-canonical `p`-unit.
pub proof fn lemma_noncanon_push<T: TrimUnit>(r: Seq<T>, p: spec_fn(T) -> bool, u: T)
    ensures
        noncanon_count(r.push(u), p) == noncanon_count(r, p) + (if p(u) && u != T::space() {
            1int
        } else {
            0int
        }),
    decreases r.len(),
{
    let delta: int = if p(u) && u != T::space() {
        1int
    } else {
        0int
    };
    if r.len() == 0 {
        assert(r.push(u)[0] == u);
        assert(r.push(u).drop_first() =~= Seq::<T>::empty());
        assert(noncanon_count(Seq::<T>::empty(), p) == 0);
        assert(noncanon_count(r.push(u), p) == delta);
    } else {
        assert(r.push(u).drop_first() =~= r.drop_first().push(u));
        assert(r.push(u)[0] == r[0]);
        lemma_noncanon_push(r.drop_first(), p, u);
        assert(noncanon_count(r.push(u), p) == (if p(r[0]) && r[0] != T::space() {
            1int
        } else {
            0int
        }) + noncanon_count(r.drop_first().push(u), p));
    }
}

/// The count splits across any cut of the sequence.
pub proof fn lemma_noncanon_split<T: TrimUnit>(r: Seq<T>, p: spec_fn(T) -> bool, m: int)
    requires
        0 <= m <= r.len(),
    ensures
        noncanon_count(r, p) == noncanon_count(r.subrange(0, m), p) + noncanon_count(
            r.subrange(m, r.len() as int),
            p,
        ),
    decreases m,
{
    if m == 0 {
        assert(r.subrange(0, r.len() as int) =~= r);
        assert(noncanon_count(r.subrange(0, 0), p) == 0);
    } else {
        let rest = r.drop_first();
        lemma_noncanon_split(rest, p, m - 1);
        assert(r.subrange(0, m).drop_first() =~= rest.subrange(0, m - 1));
        assert(r.subrange(0, m)[0] == r[0]);
        assert(rest.subrange(m - 1, rest.len() as int) =~= r.subrange(m, r.len() as int));
    }
}

/// The count is zero exactly where every `p`-unit is already the
/// canonical space.
pub proof fn lemma_noncanon_zero<T: TrimUnit>(r: Seq<T>, p: spec_fn(T) -> bool)
    ensures
        noncanon_count(r, p) == 0 <==> (forall|i: int|
            0 <= i < r.len() && #[trigger] p(r[i]) ==> r[i] == T::space()),
    decreases r.len(),
{
    if r.len() > 0 {
        let rest = r.drop_first();
        lemma_noncanon_zero(rest, p);
        lemma_noncanon_bounds(rest, p);
        assert(forall|j: int| 1 <= j < r.len() ==> r[j] == rest[j - 1]);
        assert(forall|k: int| 0 <= k < rest.len() ==> rest[k] == r[k + 1]);
    }
}

/// Normalization never lengthens its input.
pub proof fn lemma_norm_len<T: TrimUnit>(s: Seq<T>, p: spec_fn(T) -> bool, in_run: bool)
    ensures
        norm_from(s, p, in_run).len() <= s.len(),
    decreases s.len(),
{
    if s.len() > 0 {
        lemma_norm_len(s.drop_first(), p, true);
        lemma_norm_len(s.drop_first(), p, false);
    }
}

/// The normalized form is empty exactly when every unit of the input
/// matches `p`.
pub proof fn lemma_norm_empty_iff<T: TrimUnit>(s: Seq<T>, p: spec_fn(T) -> bool, in_run: bool)
    ensures
        norm_from(s, p, in_run).len() == 0 <==> (forall|j: int| 0 <= j < s.len() ==> p(s[j])),
    decreases s.len(),
{
    if s.len() > 0 {
        let rest = s.drop_first();
        lemma_norm_empty_iff(rest, p, true);
        assert(forall|j: int| 1 <= j < s.len() ==> s[j] == rest[j - 1]);
        assert(forall|k: int| 0 <= k < rest.len() ==> rest[k] == s[k + 1]);
    }
}

/// The output of normalization has the normal shape: no unit of a run
/// except one canonical space, never at the start (when begun in a run)
/// and never at the end.
pub proof fn lemma_norm_shape<T: TrimUnit>(s: Seq<T>, p: spec_fn(T) -> bool, in_run: bool)
    ensures
        normal_shape(norm_from(s, p, in_run), p, in_run),
    decreases s.len(),
{
    if s.len() > 0 {
        let rest = s.drop_first();
        lemma_norm_shape(rest, p, true);
        lemma_norm_shape(rest, p, false);
        let r = norm_from(s, p, in_run);
        if p(s[0]) {
            if !in_run {
                let tail = norm_from(rest, p, true);
                if tail.len() > 0 {
                    assert(r == seq![T::space()] + tail);
                    assert forall|i: int| 0 <= i < r.len() && #[trigger] p(r[i]) implies r[i]
                        == T::space() && i + 1 < r.len() && !p(r[i + 1]) by {
                        if i == 0 {
                            assert(r[1] == tail[0]);
                            assert(!p(tail[0]));
                        } else {
                            assert(r[i] == tail[i - 1]);
                            assert(r[i + 1] == tail[i]);
                        }
                    }
                }
            }
        } else {
            let tail = norm_from(rest, p, false);
            assert(r == seq![s[0]] + tail);
            assert forall|i: int| 0 <= i < r.len() && #[trigger] p(r[i]) implies r[i] == T::space()
                && i + 1 < r.len() && !p(r[i + 1]) by {
                assert(i >= 1);
                assert(r[i] == tail[i - 1]);
                assert(tail[i - 1 + 1] == r[i + 1]);
            }
        }
    }
}

/// An input that already has the normal shape is a fixed point of
/// normalization.
pub proof fn lemma_norm_of_normal<T: TrimUnit>(r: Seq<T>, p: spec_fn(T) -> bool, in_run: bool)
    requires
        normal_shape(r, p, in_run),
    ensures
        norm_from(r, p, in_run) == r,
    decreases r.len(),
{
    if r.len() > 0 {
        let rest = r.drop_first();
        if !p(r[0]) {
            assert(collapsed_shape(rest, p)) by {
                assert forall|i: int| 0 <= i < rest.len() && #[trigger] p(rest[i]) implies rest[i]
                    == T::space() && i + 1 < rest.len() && !p(rest[i + 1]) by {
                    assert(rest[i] == r[i + 1]);
                    assert(p(r[i + 1]));
                    assert(i + 2 < r.len());
                    assert(rest[i + 1] == r[i + 2]);
                }
            }
            lemma_norm_of_normal(rest, p, false);
            assert(norm_from(r, p, in_run) =~= r);
        } else {
            // in_run must be false; r starts with its one-space run.
            assert(!in_run);
            assert(r[0] == T::space());
            assert(r.len() > 1);
            assert(!p(r[1]));
            assert(normal_shape(rest, p, true)) by {
                assert forall|i: int| 0 <= i < rest.len() && #[trigger] p(rest[i]) implies rest[i]
                    == T::space() && i + 1 < rest.len() && !p(rest[i + 1]) by {
                    assert(rest[i] == r[i + 1]);
                    assert(p(r[i + 1]));
                    assert(rest[i + 1] == r[i + 2]);
                }
                assert(rest[0] == r[1]);
            }
            lemma_norm_of_normal(rest, p, true);
            let tail = norm_from(rest, p, true);
            assert(tail.len() > 0);
            assert(norm_from(r, p, false) =~= r);
        }
    }
}

/// Normalization is idempotent.
pub proof fn lemma_norm_idempotent<T: TrimUnit>(s: Seq<T>, p: spec_fn(T) -> bool)
    ensures
        norm_from(norm_from(s, p, true), p, true) == norm_from(s, p, true),
{
    lemma_norm_shape(s, p, true);
    lemma_norm_of_normal(norm_from(s, p, true), p, true);
}

/// Leading `p`-units do not affect the normalized form.
pub proof fn lemma_norm_trim_start<T: TrimUnit>(s: Seq<T>, p: spec_fn(T) -> bool)
    ensures
        norm_from(trim_start_spec(s, p), p, true) == norm_from(s, p, true),
    decreases s.len(),
{
    if s.len() > 0 && p(s[0]) {
        let rest = s.drop_first();
        lemma_norm_trim_start(rest, p);
        lemma_first_keep(s, p);
        lemma_first_keep(rest, p);
        assert(first_keep(s, p) == 1 + first_keep(rest, p));
        assert(trim_start_spec(s, p) =~= trim_start_spec(rest, p));
    } else {
        assert(trim_start_spec(s, p) =~= s);
    }
}

/// Skipping over a prefix of matched units, while in a run, does not
/// change the normalized form.
pub proof fn lemma_norm_skip_run<T: TrimUnit>(s: Seq<T>, p: spec_fn(T) -> bool, i: int)
    requires
        0 <= i <= s.len(),
        forall|j: int| 0 <= j < i ==> p(s[j]),
    ensures
        norm_from(s, p, true) == norm_from(s.subrange(i, s.len() as int), p, true),
    decreases i,
{
    if i == 0 {
        assert(s.subrange(0, s.len() as int) =~= s);
    } else {
        let rest = s.drop_first();
        assert(p(s[0]));
        assert(forall|j: int| 0 <= j < i - 1 ==> rest[j] == s[j + 1] && p(rest[j]));
        lemma_norm_skip_run(rest, p, i - 1);
        assert(rest.subrange(i - 1, rest.len() as int) =~= s.subrange(i, s.len() as int));
    }
}

/// Trailing `p`-units do not affect the normalized form.
pub proof fn lemma_norm_trim_end<T: TrimUnit>(s: Seq<T>, p: spec_fn(T) -> bool, in_run: bool)
    ensures
        norm_from(trim_end_spec(s, p), p, in_run) == norm_from(s, p, in_run),
    decreases s.len(),
{
    let e = keep_end(s, p);
    lemma_keep_end(s, p);
    if s.len() == 0 {
        assert(trim_end_spec(s, p) =~= s);
    } else if e == 0 {
        // Everything matches: both sides normalize to nothing.
        assert(trim_end_spec(s, p) =~= Seq::<T>::empty());
        lemma_norm_empty_iff(s, p, in_run);
        assert(norm_from(s, p, in_run) =~= Seq::<T>::empty());
    } else {
        let rest = s.drop_first();
        let t = trim_end_spec(s, p);
        assert(keep_end(rest, p) == e - 1) by {
            lemma_keep_end_is(rest, p, e - 1);
        }
        assert(t.drop_first() =~= trim_end_spec(rest, p));
        lemma_norm_trim_end(rest, p, true);
        lemma_norm_trim_end(rest, p, false);
        assert(t.len() == e > 0);
        assert(t[0] == s[0]);
    }
}

/// Trimming both edges first does not affect the normalized form.
pub proof fn lemma_norm_trim<T: TrimUnit>(s: Seq<T>, p: spec_fn(T) -> bool)
    ensures
        norm_from(trim_spec(s, p), p, true) == norm_from(s, p, true),
{
    lemma_trim_composes(s, p);
    lemma_norm_trim_start(s, p);
    lemma_norm_trim_end(trim_start_spec(s, p), p, true);
}

/// Normalizing under a weaker predicate first changes nothing about a
/// later normalization under a stronger one: the second pass re-collapses
/// whatever the first one kept.
pub proof fn lemma_norm_compose<T: TrimUnit>(
    s: Seq<T>,
    p1: spec_fn(T) -> bool,
    p2: spec_fn(T) -> bool,
    b1: bool,
    b2: bool,
)
    requires
        forall|u: T| #[trigger] p1(u) ==> p2(u),
        p2(T::space()),
        b1 ==> b2,
    ensures
        norm_from(norm_from(s, p1, b1), p2, b2) == norm_from(s, p2, b2),
    decreases s.len(),
{
    if s.len() > 0 {
        let rest = s.drop_first();
        let c = s[0];
        if !p2(c) {
            // Content for both passes.
            assert(!p1(c));
            let n1 = norm_from(s, p1, b1);
            assert(n1 == seq![c] + norm_from(rest, p1, false));
            assert(n1.len() > 0 && n1[0] == c && n1.drop_first() =~= norm_from(rest, p1, false));
            lemma_norm_compose(rest, p1, p2, false, false);
        } else if p1(c) {
            if b1 {
                lemma_norm_compose(rest, p1, p2, true, b2);
                assert(b2);
            } else {
                let tail1 = norm_from(rest, p1, true);
                if tail1.len() == 0 {
                    lemma_norm_empty_iff(rest, p1, true);
                    lemma_norm_empty_iff(rest, p2, true);
                    assert(norm_from(s, p1, b1) =~= Seq::<T>::empty());
                    if b2 {
                        assert(norm_from(s, p2, b2) =~= Seq::<T>::empty());
                    }
                } else {
                    let n1 = norm_from(s, p1, false);
                    assert(n1 == seq![T::space()] + tail1);
                    assert(n1.len() > 0 && n1[0] == T::space() && n1.drop_first() =~= tail1);
                    lemma_norm_compose(rest, p1, p2, true, true);
                    // The second pass sees the space as a matched unit.
                    if b2 {
                        assert(norm_from(n1, p2, true) == norm_from(tail1, p2, true));
                    }
                }
            }
        } else {
            // Matched only by the stronger predicate: the first pass
            // keeps the unit, the second collapses it.
            let n1rest = norm_from(rest, p1, false);
            let n1 = norm_from(s, p1, b1);
            assert(n1 == seq![c] + n1rest);
            assert(n1.len() > 0 && n1[0] == c && n1.drop_first() =~= n1rest);
            lemma_norm_compose(rest, p1, p2, false, true);
        }
    }
}

/// Control-aware normalization absorbs plain normalization: applying the
/// whitespace-only pass first changes nothing, and the control-aware
/// result is never longer than the plain one.
pub proof fn lemma_norm_ctl_superset<T: TrimUnit>(s: Seq<T>)
    ensures
        normalized_ctl(normalized(s)) == normalized_ctl(s),
        normalized_ctl(s).len() <= normalized(s).len(),
{
    T::space_is_ws();
    lemma_norm_compose(s, ws_fn::<T>(), ws_ctl_fn::<T>(), true, true);
    lemma_norm_len(normalized(s), ws_ctl_fn::<T>(), true);
}

} // verus!
