//! Trim-and-normalize: trim both edges and collapse every interior
//! whitespace run to a single canonical space.
//!
//! The borrowed entry point scans for the first position where the input
//! differs from its normalized form, and allocates only from that point
//! on, copying the already-confirmed prefix verbatim; input that is
//! already normal is returned as a borrow of its trimmed sub-range. The
//! owned entry point rewrites the buffer in a single filtering pass with
//! a write index that never passes the read index.

use vstd::prelude::*;
use vstd::pervasive::VecAdditionalExecFns;

use crate::cow::TrimCow;
use crate::iter::NormalizeWhiteSpaceIter;
use crate::normal::canonized;
use crate::normal::lemma_canonized_identity;
use crate::normal::lemma_canonized_norm_keep;
use crate::normal::lemma_noncanon_push;
use crate::normal::lemma_noncanon_split;
use crate::normal::lemma_noncanon_zero;
use crate::normal::lemma_norm_empty_iff;
use crate::normal::lemma_norm_keep_empty_iff;
use crate::normal::lemma_norm_len;
use crate::normal::lemma_norm_trim;
use crate::normal::lemma_norm_trim_end;
use crate::normal::noncanon_count;
use crate::normal::norm_from;
use crate::normal::norm_keep_from;
use crate::normal::normalized;
use crate::pattern::IsWhitespace;
use crate::pattern::pat_fn;
use crate::scan::keep_end;
use crate::scan::lemma_keep_end;
use crate::scan::lemma_trim_extensional;
use crate::scan::lemma_trim_shape;
use crate::scan::trim_matches_units;
use crate::scan::trim_spec;
use crate::trim_mut::vec_trim_end_matches;
use crate::unit::TrimUnit;
use crate::unit::ws_fn;

verus! {

/// In a sequence with no trailing run, a matched unit always has content
/// somewhere after it.
proof fn lemma_tail_nonempty<T: TrimUnit>(s: Seq<T>, p: spec_fn(T) -> bool, j: int)
    requires
        0 <= j < s.len(),
        keep_end(s, p) == s.len(),
        p(s[j]),
    ensures
        j + 1 < s.len(),
        norm_from(s.subrange(j + 1, s.len() as int), p, true).len() > 0,
        norm_keep_from(s.subrange(j + 1, s.len() as int), p, true).len() > 0,
{
    lemma_keep_end(s, p);
    assert(!p(s[s.len() - 1]));
    let rest = s.subrange(j + 1, s.len() as int);
    assert(rest[rest.len() - 1] == s[s.len() - 1]);
    lemma_norm_empty_iff(rest, p, true);
    lemma_norm_keep_empty_iff(rest, p, true);
}

/// The trimmed-and-collapsed form of `s`, borrowing the trimmed
/// sub-range of `s` whenever that sub-range is already normal, and
/// allocating otherwise.
pub fn trim_and_normalize_slice<'a, T: TrimUnit>(s: &'a [T]) -> (r: TrimCow<'a, T>)
    ensures
        r@ == normalized(s@),
        r.is_borrowed_spec() <==> normalized(s@) == trim_spec(s@, ws_fn::<T>()),
{
    let ghost p = ws_fn::<T>();
    let src = trim_matches_units(s, IsWhitespace);
    proof {
        lemma_trim_extensional(s@, pat_fn::<T, IsWhitespace>(IsWhitespace), p);
        lemma_norm_trim(s@, p);
        lemma_trim_shape(s@, p);
    }
    let ghost total = normalized(s@);
    let n = src.len();
    proof {
        assert(src@.subrange(0, n as int) =~= src@);
        assert(src@.subrange(0, 0) + norm_from(src@.subrange(0, n as int), p, true) =~= norm_from(
            src@,
            p,
            true,
        ));
    }
    let mut i: usize = 0;
    let mut run = true;
    let mut diverged = false;
    while i < n
        invariant_except_break
            0 <= i <= n,
            n == src@.len(),
            src@ == trim_spec(s@, p),
            keep_end(src@, p) == n as int,
            p == ws_fn::<T>(),
            total == normalized(s@),
            !diverged,
            total == src@.subrange(0, i as int) + norm_from(
                src@.subrange(i as int, n as int),
                p,
                run,
            ),
        ensures
            0 <= i <= n,
            n == src@.len(),
            src@ == trim_spec(s@, p),
            keep_end(src@, p) == n as int,
            p == ws_fn::<T>(),
            total == normalized(s@),
            !diverged ==> i == n && total == src@.subrange(0, i as int) + norm_from(
                src@.subrange(i as int, n as int),
                p,
                run,
            ),
            diverged ==> i < n && p(src@[i as int]) && (run || src@[i as int] != T::space())
                && total == src@.subrange(0, i as int) + norm_from(
                src@.subrange(i as int, n as int),
                p,
                run,
            ),
        decreases n - i,
    {
        let c = src[i];
        proof {
            let rem = src@.subrange(i as int, n as int);
            assert(rem[0] == src@[i as int]);
            assert(rem.drop_first() =~= src@.subrange(i as int + 1, n as int));
        }
        if c.is_ws() {
            if run {
                diverged = true;
                break;
            }
            if !c.eq_unit(T::space_unit()) {
                diverged = true;
                break;
            }
            // The canonical space that the run's collapse owes: already
            // in place, so the confirmed prefix simply grows.
            proof {
                lemma_tail_nonempty(src@, p, i as int);
                assert(src@.subrange(0, i as int + 1) =~= src@.subrange(0, i as int) + seq![
                    src@[i as int],
                ]);
            }
            run = true;
        } else {
            proof {
                assert(src@.subrange(0, i as int + 1) =~= src@.subrange(0, i as int) + seq![
                    src@[i as int],
                ]);
            }
            run = false;
        }
        i = i + 1;
    }
    if !diverged {
        proof {
            assert(src@.subrange(0, n as int) =~= src@);
            assert(src@.subrange(n as int, n as int) =~= Seq::<T>::empty());
            assert(total =~= src@);
        }
        return TrimCow::Borrowed(src);
    }
    // The source diverges from its normal form at `i`: build the output,
    // starting from the confirmed prefix.
    let mut out: Vec<T> = Vec::with_capacity(n);
    proof {
        assert(out@ =~= src@.subrange(0, 0));
    }
    let mut k: usize = 0;
    while k < i
        invariant
            0 <= k <= i <= n,
            n == src@.len(),
            out@ == src@.subrange(0, k as int),
        decreases i - k,
    {
        out.push(src[k]);
        proof {
            assert(src@.subrange(0, k as int) + seq![src@[k as int]] =~= src@.subrange(
                0,
                k as int + 1,
            ));
        }
        k = k + 1;
    }
    proof {
        let rem = src@.subrange(i as int, n as int);
        assert(rem[0] == src@[i as int]);
        assert(rem.drop_first() =~= src@.subrange(i as int + 1, n as int));
    }
    if !run {
        // A non-canonical whitespace unit where the collapse owes a
        // space: write the correction.
        proof {
            lemma_tail_nonempty(src@, p, i as int);
        }
        out.push(T::space_unit());
        proof {
            assert(total.len() > i);
            assert(total[i as int] == T::space());
            assert(total != src@);
        }
    } else {
        // A redundant unit inside a run: dropped, so the output is
        // strictly shorter than the trimmed source.
        proof {
            lemma_norm_len(src@.subrange(i as int + 1, n as int), p, true);
            assert(total.len() < src@.len());
            assert(total != src@);
        }
    }
    let mut j: usize = i + 1;
    let mut run2 = true;
    while j < n
        invariant
            i < j <= n,
            n == src@.len(),
            src@ == trim_spec(s@, p),
            keep_end(src@, p) == n as int,
            p == ws_fn::<T>(),
            total == normalized(s@),
            total != src@,
            out@ + norm_from(src@.subrange(j as int, n as int), p, run2) == total,
        decreases n - j,
    {
        let c = src[j];
        proof {
            let rem = src@.subrange(j as int, n as int);
            assert(rem[0] == src@[j as int]);
            assert(rem.drop_first() =~= src@.subrange(j as int + 1, n as int));
        }
        if c.is_ws() {
            if !run2 {
                proof {
                    lemma_tail_nonempty(src@, p, j as int);
                }
                out.push(T::space_unit());
                run2 = true;
            }
        } else {
            out.push(c);
            run2 = false;
        }
        j = j + 1;
    }
    proof {
        assert(src@.subrange(n as int, n as int) =~= Seq::<T>::empty());
        assert(out@ == total);
    }
    TrimCow::Owned(out)
}

/// Trim-and-normalize as one operation on a whole value: trim the
/// leading and trailing whitespace, and collapse every interior
/// whitespace run to a single canonical space.
///
/// Whitespace is the whitespace class of the unit model: the ASCII
/// whitespace bytes for byte sequences, the Unicode `White_Space`
/// scalars for character sequences.
pub trait TrimNormal: Sized {
    /// The unit type of the sequence.
    type Unit: TrimUnit;

    /// The output type: an owned buffer for owned input, an
    /// owned-or-borrowed buffer for borrowed input.
    type Normalized;

    /// The units the input holds.
    spec fn in_units(&self) -> Seq<Self::Unit>;

    /// The units the output holds.
    spec fn out_units(r: &Self::Normalized) -> Seq<Self::Unit>;

    /// Whether the input borrows its storage. An owned input (a `Vec`,
    /// or an `Owned` handle) answers false.
    spec fn borrowed_in(&self) -> bool;

    /// Whether the output borrows its storage.
    spec fn borrowed_out(r: &Self::Normalized) -> bool;

    /// Trims both edges and collapses interior whitespace runs, each to
    /// one canonical space.
    ///
    /// The output borrows exactly when the input did and its trimmed
    /// sub-range was already normal: owned storage is reused, never
    /// demoted to a borrow, and a clean borrowed input costs no
    /// allocation.
    fn trim_and_normalize(self) -> (r: Self::Normalized)
        ensures
            Self::out_units(&r) == normalized(self.in_units()),
            Self::borrowed_out(&r) <==> (self.borrowed_in() && normalized(self.in_units())
                == trim_spec(self.in_units(), ws_fn::<Self::Unit>())),
    ;
}

impl<'a, T: TrimUnit> TrimNormal for &'a [T] {
    type Unit = T;

    type Normalized = TrimCow<'a, T>;

    open spec fn in_units(&self) -> Seq<T> {
        self@
    }

    open spec fn out_units(r: &TrimCow<'a, T>) -> Seq<T> {
        r@
    }

    open spec fn borrowed_in(&self) -> bool {
        true
    }

    open spec fn borrowed_out(r: &TrimCow<'a, T>) -> bool {
        r.is_borrowed_spec()
    }

    /// Borrows the trimmed sub-range when it is already normal;
    /// allocates only from the first divergence on.
    fn trim_and_normalize(self) -> (r: TrimCow<'a, T>) {
        trim_and_normalize_slice(self)
    }
}

impl<T: TrimUnit> TrimNormal for Vec<T> {
    type Unit = T;

    type Normalized = Vec<T>;

    open spec fn in_units(&self) -> Seq<T> {
        self@
    }

    open spec fn out_units(r: &Vec<T>) -> Seq<T> {
        r@
    }

    open spec fn borrowed_in(&self) -> bool {
        false
    }

    open spec fn borrowed_out(r: &Vec<T>) -> bool {
        false
    }

    /// Rewrites the buffer in place; the caller keeps the storage.
    fn trim_and_normalize(self) -> (r: Vec<T>) {
        let mut v = self;
        trim_and_normalize_mut(&mut v);
        v
    }
}

impl<'a, T: TrimUnit> TrimNormal for TrimCow<'a, T> {
    type Unit = T;

    type Normalized = TrimCow<'a, T>;

    open spec fn in_units(&self) -> Seq<T> {
        self@
    }

    open spec fn out_units(r: &TrimCow<'a, T>) -> Seq<T> {
        r@
    }

    open spec fn borrowed_in(&self) -> bool {
        self.is_borrowed_spec()
    }

    open spec fn borrowed_out(r: &TrimCow<'a, T>) -> bool {
        r.is_borrowed_spec()
    }

    /// A borrowed handle stays borrowed when its trimmed sub-range is
    /// already normal; an owned one is rewritten in place and stays
    /// owned.
    fn trim_and_normalize(self) -> (r: TrimCow<'a, T>) {
        match self {
            TrimCow::Borrowed(s) => trim_and_normalize_slice(s),
            TrimCow::Owned(v) => {
                let mut v = v;
                trim_and_normalize_mut(&mut v);
                TrimCow::Owned(v)
            },
        }
    }
}

/// The iterator yielded by [`TrimNormalBytes::trim_and_normalize`] and
/// [`TrimNormalChars::trim_and_normalize`]: the lazy delivery mode of
/// trim-and-normalize, always in plain (not control-aware) form.
pub struct TrimNormalIter<'a, T: TrimUnit> {
    /// The underlying normalizing iterator, fixed to plain mode.
    it: NormalizeWhiteSpaceIter<'a, T>,
}

impl<'a, T: TrimUnit> TrimNormalIter<'a, T> {
    /// The iterator's invariant.
    pub closed spec fn wf(&self) -> bool {
        self.it.wf() && !self.it.control_aware()
    }

    /// The units the iterator will still yield, in order.
    pub closed spec fn future(&self) -> Seq<T> {
        self.it.future()
    }

    /// An upper bound on the number of `next` calls left.
    pub closed spec fn measure(&self) -> int {
        self.it.measure()
    }

    /// A trim-and-normalize iterator over `src`.
    pub fn new(src: &'a [T]) -> (r: Self)
        ensures
            r.wf(),
            r.future() == normalized(src@),
    {
        TrimNormalIter { it: NormalizeWhiteSpaceIter::new(src, false) }
    }

    /// The next unit of the normalized content, or `None` at the end.
    pub fn next(&mut self) -> (r: Option<T>)
        requires
            old(self).wf(),
        ensures
            final(self).wf(),
            (match r {
                Some(c) => old(self).future() == seq![c] + final(self).future()
                    && final(self).measure() < old(self).measure(),
                None => old(self).future().len() == 0 && final(self).future().len() == 0
                    && final(self).measure() == 0,
            }),
    {
        self.it.next()
    }

    /// How many units are left: at least the buffered one, at most the
    /// rest of the slice plus the buffered one.
    ///
    /// The estimate itself is bounded: the lower bound accounts for no
    /// more than the one buffered look-ahead unit, and the upper bound
    /// never exceeds the unconsumed input plus that unit.
    pub fn size_hint(&self) -> (r: (usize, Option<usize>))
        requires
            self.wf(),
        ensures
            r.0 <= 1,
            r.0 as int <= self.future().len(),
            (r.1 matches Some(u) && self.future().len() <= u as int && u as int <= self.measure()),
    {
        self.it.size_hint()
    }

    /// Runs the iterator to exhaustion and collects every yielded unit.
    pub fn collect_vec(self) -> (out: Vec<T>)
        requires
            self.wf(),
        ensures
            out@ == self.future(),
    {
        self.it.collect_vec()
    }
}

/// The lazy trim-and-normalize entry point for byte slices.
pub trait TrimNormalBytes {
    /// The bytes the receiver holds.
    spec fn units(&self) -> Seq<u8>;

    /// An iterator over the receiver's content with the edges trimmed
    /// and every interior whitespace run collapsed to one space.
    fn trim_and_normalize(&self) -> (r: TrimNormalIter<'_, u8>)
        ensures
            r.wf(),
            r.future() == normalized(self.units()),
    ;
}

impl TrimNormalBytes for [u8] {
    open spec fn units(&self) -> Seq<u8> {
        self@
    }

    fn trim_and_normalize(&self) -> (r: TrimNormalIter<'_, u8>) {
        TrimNormalIter::new(self)
    }
}

/// The lazy trim-and-normalize entry point for character slices.
pub trait TrimNormalChars {
    /// The characters the receiver holds.
    spec fn units(&self) -> Seq<char>;

    /// An iterator over the receiver's content with the edges trimmed
    /// and every interior whitespace run collapsed to one space.
    fn trim_and_normalize(&self) -> (r: TrimNormalIter<'_, char>)
        ensures
            r.wf(),
            r.future() == normalized(self.units()),
    ;
}

impl TrimNormalChars for [char] {
    open spec fn units(&self) -> Seq<char> {
        self@
    }

    fn trim_and_normalize(&self) -> (r: TrimNormalIter<'_, char>) {
        TrimNormalIter::new(self)
    }
}

/// Rewrites `v` in place to its trimmed-and-collapsed form: the trailing
/// run is truncated away first, then one filtering pass drops the
/// leading run and collapses interior runs, writing each kept unit at a
/// write index that never passes the read index.
pub fn trim_and_normalize_mut<T: TrimUnit>(v: &mut Vec<T>)
    ensures
        final(v)@ == normalized(old(v)@),
{
    let ghost p = ws_fn::<T>();
    vec_trim_end_matches(v, IsWhitespace);
    proof {
        lemma_trim_extensional(old(v)@, pat_fn::<T, IsWhitespace>(IsWhitespace), p);
        lemma_norm_trim_end(old(v)@, p, true);
        lemma_keep_end(old(v)@, p);
    }
    let ghost base = v@;
    proof {
        assert(keep_end(base, p) == base.len()) by {
            crate::scan::lemma_keep_end_is(base, p, base.len() as int);
        }
        assert(norm_from(base, p, true) == normalized(old(v)@));
    }
    let n = v.len();
    proof {
        assert(base.subrange(0, n as int) =~= base);
        assert(v@.subrange(0, 0) + norm_from(base.subrange(0, n as int), p, true) =~= norm_from(
            base,
            p,
            true,
        ));
    }
    let mut w: usize = 0;
    let mut i: usize = 0;
    let mut run = true;
    while i < n
        invariant
            0 <= w <= i <= n,
            n == base.len(),
            v@.len() == n,
            keep_end(base, p) == n as int,
            p == ws_fn::<T>(),
            v@.subrange(i as int, n as int) == base.subrange(i as int, n as int),
            v@.subrange(0, w as int) + norm_from(base.subrange(i as int, n as int), p, run)
                == norm_from(base, p, true),
        decreases n - i,
    {
        let c = v[i];
        proof {
            let rem = base.subrange(i as int, n as int);
            assert(v@.subrange(i as int, n as int)[0] == v@[i as int]);
            assert(rem[0] == base[i as int]);
            assert(c == base[i as int]);
            assert(rem.drop_first() =~= base.subrange(i as int + 1, n as int));
        }
        if c.is_ws() {
            if !run {
                proof {
                    lemma_tail_nonempty(base, p, i as int);
                }
                let sp = T::space_unit();
                proof {
                    assert(v@.subrange(0, w as int).push(sp) =~= v@.update(w as int, sp).subrange(
                        0,
                        w as int + 1,
                    ));
                    assert(v@.update(w as int, sp).subrange(i as int + 1, n as int)
                        =~= base.subrange(i as int + 1, n as int));
                }
                v.set(w, sp);
                w = w + 1;
                run = true;
            } else {
                proof {
                    assert(v@.subrange(i as int + 1, n as int) =~= base.subrange(
                        i as int + 1,
                        n as int,
                    ));
                }
            }
        } else {
            proof {
                assert(v@.subrange(0, w as int).push(c) =~= v@.update(w as int, c).subrange(
                    0,
                    w as int + 1,
                ));
                assert(v@.update(w as int, c).subrange(i as int + 1, n as int) =~= base.subrange(
                    i as int + 1,
                    n as int,
                ));
            }
            v.set(w, c);
            w = w + 1;
            run = false;
        }
        i = i + 1;
    }
    proof {
        assert(base.subrange(n as int, n as int) =~= Seq::<T>::empty());
    }
    v.truncate(w);
}

/// The position of the last non-canonical whitespace unit before `stop`:
/// the backward scan of the fix-up pass.
fn find_last_noncanon<T: TrimUnit>(s: &[T], stop: usize) -> (r: usize)
    requires
        stop <= s@.len(),
        noncanon_count(s@.subrange(0, stop as int), ws_fn::<T>()) > 0,
    ensures
        r < stop,
        ws_fn::<T>()(s@[r as int]) && s@[r as int] != T::space(),
        forall|j: int|
            r < j < stop ==> !(ws_fn::<T>()(s@[j]) && s@[j] != T::space()),
{
    let ghost p = ws_fn::<T>();
    let mut q: usize = stop;
    while q > 0
        invariant
            q <= stop <= s@.len(),
            p == ws_fn::<T>(),
            noncanon_count(s@.subrange(0, stop as int), p) > 0,
            forall|j: int| q <= j < stop ==> !(p(s@[j]) && s@[j] != T::space()),
        decreases q,
    {
        q = q - 1;
        let u = s[q];
        if u.is_ws() && !u.eq_unit(T::space_unit()) {
            return q;
        }
    }
    proof {
        lemma_noncanon_zero(s@.subrange(0, stop as int), p);
        assert(forall|j: int|
            0 <= j < stop ==> s@.subrange(0, stop as int)[j] == s@[j]);
        assert(false);
    }
    0
}

/// Rewrites `v` in place to its trimmed-and-collapsed form, deferring
/// canonicalization: the trailing run is truncated away, one retain-style
/// pass drops the leading run and keeps only the first unit of each
/// interior run, counting the kept units that are not already the
/// canonical space, and a backward fix-up pass then rewrites exactly that
/// many units, nearest-to-the-end first, never rescanning what it has
/// already passed.
pub fn trim_and_normalize_fixup<T: TrimUnit>(v: &mut Vec<T>)
    ensures
        final(v)@ == normalized(old(v)@),
{
    let ghost p = ws_fn::<T>();
    vec_trim_end_matches(v, IsWhitespace);
    proof {
        lemma_trim_extensional(old(v)@, pat_fn::<T, IsWhitespace>(IsWhitespace), p);
        lemma_norm_trim_end(old(v)@, p, true);
        lemma_keep_end(old(v)@, p);
    }
    let ghost base = v@;
    proof {
        assert(keep_end(base, p) == base.len()) by {
            crate::scan::lemma_keep_end_is(base, p, base.len() as int);
        }
        assert(norm_from(base, p, true) == normalized(old(v)@));
    }
    let n = v.len();
    proof {
        assert(base.subrange(0, n as int) =~= base);
        assert(v@.subrange(0, 0) + norm_keep_from(base.subrange(0, n as int), p, true)
            =~= norm_keep_from(base, p, true));
        assert(noncanon_count(v@.subrange(0, 0), p) == 0);
    }
    // The retain-style pass: keep content and each run's first unit,
    // count the kept whitespace units that still need rewriting.
    let mut w: usize = 0;
    let mut i: usize = 0;
    let mut run = true;
    let mut other: usize = 0;
    while i < n
        invariant
            0 <= w <= i <= n,
            n == base.len(),
            v@.len() == n,
            keep_end(base, p) == n as int,
            p == ws_fn::<T>(),
            other <= w,
            v@.subrange(i as int, n as int) == base.subrange(i as int, n as int),
            v@.subrange(0, w as int) + norm_keep_from(base.subrange(i as int, n as int), p, run)
                == norm_keep_from(base, p, true),
            other as int == noncanon_count(v@.subrange(0, w as int), p),
        decreases n - i,
    {
        let c = v[i];
        proof {
            let rem = base.subrange(i as int, n as int);
            assert(v@.subrange(i as int, n as int)[0] == v@[i as int]);
            assert(rem[0] == base[i as int]);
            assert(c == base[i as int]);
            assert(rem.drop_first() =~= base.subrange(i as int + 1, n as int));
        }
        if c.is_ws() {
            if !run {
                // The run's first unit is kept as it stands; the fix-up
                // pass will canonicalize it if need be.
                proof {
                    lemma_tail_nonempty(base, p, i as int);
                    lemma_noncanon_push(v@.subrange(0, w as int), p, c);
                    assert(v@.subrange(0, w as int).push(c) =~= v@.update(w as int, c).subrange(
                        0,
                        w as int + 1,
                    ));
                    assert(v@.update(w as int, c).subrange(i as int + 1, n as int)
                        =~= base.subrange(i as int + 1, n as int));
                }
                let keep_sp = c.eq_unit(T::space_unit());
                v.set(w, c);
                w = w + 1;
                run = true;
                if !keep_sp {
                    other = other + 1;
                }
            } else {
                proof {
                    assert(v@.subrange(i as int + 1, n as int) =~= base.subrange(
                        i as int + 1,
                        n as int,
                    ));
                }
            }
        } else {
            proof {
                lemma_noncanon_push(v@.subrange(0, w as int), p, c);
                assert(v@.subrange(0, w as int).push(c) =~= v@.update(w as int, c).subrange(
                    0,
                    w as int + 1,
                ));
                assert(v@.update(w as int, c).subrange(i as int + 1, n as int) =~= base.subrange(
                    i as int + 1,
                    n as int,
                ));
            }
            v.set(w, c);
            w = w + 1;
            run = false;
        }
        i = i + 1;
    }
    proof {
        assert(base.subrange(n as int, n as int) =~= Seq::<T>::empty());
    }
    v.truncate(w);
    let ghost goal = norm_from(base, p, true);
    proof {
        assert(v@ == norm_keep_from(base, p, true));
        lemma_canonized_norm_keep(base, p, true);
        assert(canonized(v@, p) == goal);
    }
    // The fix-up pass: exactly `other` rewrites, from the end backward.
    let mut stop: usize = v.len();
    proof {
        assert(v@.subrange(0, stop as int) =~= v@);
    }
    while other > 0
        invariant
            stop <= v@.len(),
            p == ws_fn::<T>(),
            goal == norm_from(base, p, true),
            other as int == noncanon_count(v@.subrange(0, stop as int), p),
            forall|j: int|
                stop <= j < v@.len() ==> !(p(v@[j]) && v@[j] != T::space()),
            canonized(v@, p) == goal,
        decreases other,
    {
        let pos = find_last_noncanon(v.as_slice(), stop);
        proof {
            let pre = v@.subrange(0, stop as int);
            lemma_noncanon_split(pre, p, pos as int);
            assert(pre.subrange(0, pos as int) =~= v@.subrange(0, pos as int));
            let aft = pre.subrange(pos as int, stop as int);
            assert(aft[0] == v@[pos as int]);
            assert(aft.drop_first() =~= v@.subrange(pos as int + 1, stop as int));
            lemma_noncanon_zero(v@.subrange(pos as int + 1, stop as int), p);
            assert(forall|j: int|
                0 <= j < stop - pos - 1 ==> #[trigger] v@.subrange(pos as int + 1, stop as int)[j]
                    == v@[pos as int + 1 + j]);
            assert(noncanon_count(v@.subrange(pos as int + 1, stop as int), p) == 0);
            // One non-canonical unit at `pos`, none after it: the prefix
            // before `pos` holds the remaining `other - 1`.
            assert(noncanon_count(pre, p) == noncanon_count(v@.subrange(0, pos as int), p) + 1);
            let after_set = v@.update(pos as int, T::space());
            assert(after_set.subrange(0, pos as int) =~= v@.subrange(0, pos as int));
            assert(canonized(after_set, p) =~= canonized(v@, p));
        }
        v.set(pos, T::space_unit());
        stop = pos;
        other = other - 1;
    }
    proof {
        lemma_noncanon_zero(v@.subrange(0, stop as int), p);
        assert(forall|j: int|
            0 <= j < stop ==> v@.subrange(0, stop as int)[j] == v@[j]);
        assert(forall|i2: int| 0 <= i2 < v@.len() && #[trigger] p(v@[i2]) ==> v@[i2] == T::space());
        lemma_canonized_identity(v@, p);
    }
}

} // verus!
