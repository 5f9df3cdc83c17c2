//! The lazy delivery mode of normalization: an iterator that yields the
//! trimmed-and-collapsed content of a slice one unit at a time, buffering
//! at most one looked-ahead unit.

use vstd::prelude::*;

use crate::normal::lemma_norm_empty_iff;
use crate::normal::lemma_norm_len;
use crate::normal::lemma_norm_skip_run;
use crate::normal::norm_from;
use crate::normal::normalized;
use crate::normal::normalized_ctl;
use crate::unit::TrimUnit;
use crate::unit::ws_ctl_fn;
use crate::unit::ws_fn;

verus! {

/// Whether `u` belongs to the class being collapsed: whitespace, or,
/// when `ctl` is set, whitespace and control units together.
fn unit_dropped<T: TrimUnit>(u: T, ctl: bool) -> (r: bool)
    ensures
        ctl ==> r == ws_ctl_fn::<T>()(u),
        !ctl ==> r == ws_fn::<T>()(u),
{
    if ctl {
        u.is_ws() || u.is_ctl()
    } else {
        u.is_ws()
    }
}

/// A whitespace-normalizing iterator over a slice of units.
///
/// Yields the slice's content with the edges trimmed and every interior
/// run of whitespace (and, in control-aware mode, control) units
/// replaced by one canonical space. The iterator looks one unit ahead:
/// whether a run yields a space or nothing depends on whether content
/// follows it.
pub struct NormalizeWhiteSpaceIter<'a, T: TrimUnit> {
    /// The source slice.
    src: &'a [T],
    /// The scan position: everything before it is consumed.
    pos: usize,
    /// Whether control units are collapsed along with whitespace.
    normalize_control: bool,
    /// The buffered look-ahead unit, always content, never dropped.
    pending: Option<T>,
}

impl<'a, T: TrimUnit> NormalizeWhiteSpaceIter<'a, T> {
    /// The predicate whose runs this iterator collapses.
    pub closed spec fn drop_fn(&self) -> spec_fn(T) -> bool {
        if self.normalize_control {
            ws_ctl_fn::<T>()
        } else {
            ws_fn::<T>()
        }
    }

    /// Whether control units are collapsed along with whitespace.
    pub closed spec fn control_aware(&self) -> bool {
        self.normalize_control
    }

    /// The iterator's invariant: the position is in range, and a
    /// buffered unit is content and was read from the slice.
    pub closed spec fn wf(&self) -> bool {
        &&& self.pos <= self.src@.len()
        &&& match self.pending {
            Some(c) => !self.drop_fn()(c) && self.pos >= 1,
            None => true,
        }
    }

    /// The units the iterator will still yield, in order.
    pub closed spec fn future(&self) -> Seq<T> {
        let tail = norm_from(
            self.src@.subrange(self.pos as int, self.src@.len() as int),
            self.drop_fn(),
            false,
        );
        match self.pending {
            Some(c) => seq![c] + tail,
            None => tail,
        }
    }

    /// An upper bound on the number of `next` calls left.
    pub closed spec fn measure(&self) -> int {
        self.src@.len() - self.pos + (if self.pending is Some {
            1int
        } else {
            0int
        })
    }

    /// A normalizing iterator over `src`, in plain or control-aware
    /// mode. The leading run is consumed here, so the first yielded unit
    /// is content.
    pub fn new(src: &'a [T], ctl: bool) -> (r: Self)
        ensures
            r.wf(),
            r.control_aware() == ctl,
            r.measure() <= src@.len(),
            ctl ==> r.future() == normalized_ctl(src@),
            !ctl ==> r.future() == normalized(src@),
    {
        let ghost p: spec_fn(T) -> bool = if ctl {
            ws_ctl_fn::<T>()
        } else {
            ws_fn::<T>()
        };
        let n = src.len();
        let mut i: usize = 0;
        while i < n && unit_dropped(src[i], ctl)
            invariant
                0 <= i <= n,
                n == src@.len(),
                (p == if ctl {
                    ws_ctl_fn::<T>()
                } else {
                    ws_fn::<T>()
                }),
                forall|j: int| 0 <= j < i ==> p(src@[j]),
            decreases n - i,
        {
            i = i + 1;
        }
        proof {
            lemma_norm_skip_run(src@, p, i as int);
        }
        if i < n {
            let c = src[i];
            let r = NormalizeWhiteSpaceIter { src, pos: i + 1, normalize_control: ctl, pending: Some(c) };
            proof {
                let t = src@.subrange(i as int, n as int);
                assert(t[0] == src@[i as int]);
                assert(t.drop_first() =~= src@.subrange(i as int + 1, n as int));
            }
            r
        } else {
            let r = NormalizeWhiteSpaceIter { src, pos: n, normalize_control: ctl, pending: None };
            proof {
                assert(src@.subrange(n as int, n as int) =~= Seq::<T>::empty());
                lemma_norm_empty_iff(src@, p, true);
            }
            r
        }
    }

    /// The next unit of the normalized content, or `None` at the end.
    ///
    /// Each yielded unit is the head of [`Self::future`]; `None` means
    /// nothing is left.
    pub fn next(&mut self) -> (r: Option<T>)
        requires
            old(self).wf(),
        ensures
            final(self).wf(),
            final(self).control_aware() == old(self).control_aware(),
            (match r {
                Some(c) => old(self).future() == seq![c] + final(self).future()
                    && final(self).measure() < old(self).measure(),
                None => old(self).future().len() == 0 && final(self).future().len() == 0
                    && final(self).measure() == 0,
            }),
    {
        let ghost p = self.drop_fn();
        if let Some(c) = self.pending {
            self.pending = None;
            return Some(c);
        }
        let src = self.src;
        let ctl = self.normalize_control;
        let n = src.len();
        if self.pos >= n {
            proof {
                assert(src@.subrange(self.pos as int, n as int) =~= Seq::<T>::empty());
            }
            return None;
        }
        let c = src[self.pos];
        let ghost head = self.pos as int;
        proof {
            let rem = src@.subrange(head, n as int);
            assert(rem[0] == src@[head]);
            assert(rem.drop_first() =~= src@.subrange(head + 1, n as int));
        }
        self.pos = self.pos + 1;
        if unit_dropped(c, ctl) {
            // Fast-forward over the run; whether it yields a space
            // depends on whether any content follows it.
            let mut k: usize = self.pos;
            while k < n && unit_dropped(src[k], ctl)
                invariant
                    head + 1 <= k <= n,
                    n == src@.len(),
                    (p == if ctl {
                        ws_ctl_fn::<T>()
                    } else {
                        ws_fn::<T>()
                    }),
                    forall|j: int| head + 1 <= j < k ==> p(src@[j]),
                decreases n - k,
            {
                k = k + 1;
            }
            proof {
                let after = src@.subrange(head + 1, n as int);
                assert(forall|j: int|
                    0 <= j < k - (head + 1) ==> after[j] == src@[head + 1 + j] && p(after[j]));
                lemma_norm_skip_run(after, p, k - (head + 1));
                assert(after.subrange(k - (head + 1), after.len() as int) =~= src@.subrange(
                    k as int,
                    n as int,
                ));
            }
            if k < n {
                let c2 = src[k];
                self.pending = Some(c2);
                self.pos = k + 1;
                proof {
                    let t = src@.subrange(k as int, n as int);
                    assert(t[0] == src@[k as int]);
                    assert(t.drop_first() =~= src@.subrange(k as int + 1, n as int));
                }
                Some(T::space_unit())
            } else {
                self.pos = n;
                proof {
                    let t = src@.subrange(k as int, n as int);
                    assert(t =~= Seq::<T>::empty());
                    assert(src@.subrange(n as int, n as int) =~= Seq::<T>::empty());
                }
                None
            }
        } else {
            Some(c)
        }
    }

    /// How many units are left: at least the buffered one, at most the
    /// rest of the slice plus the buffered one.
    ///
    /// The estimate itself is bounded: the lower bound accounts for no
    /// more than the one buffered look-ahead unit, and the upper bound
    /// never exceeds the unconsumed input plus that unit.
    pub fn size_hint(&self) -> (r: (usize, Option<usize>))
        requires
            self.wf(),
        ensures
            r.0 <= 1,
            r.0 as int <= self.future().len(),
            (r.1 matches Some(u) && self.future().len() <= u as int && u as int <= self.measure()),
    {
        let lower: usize = if self.pending.is_some() {
            1
        } else {
            0
        };
        let upper: usize = self.src.len() - self.pos + lower;
        proof {
            lemma_norm_len(
                self.src@.subrange(self.pos as int, self.src@.len() as int),
                self.drop_fn(),
                false,
            );
        }
        (lower, Some(upper))
    }

    /// Runs the iterator to exhaustion and collects every yielded unit.
    pub fn collect_vec(self) -> (out: Vec<T>)
        requires
            self.wf(),
        ensures
            out@ == self.future(),
    {
        let ghost goal = self.future();
        let mut it = self;
        let mut out: Vec<T> = Vec::new();
        loop
            invariant_except_break
                it.wf(),
                out@ + it.future() == goal,
            ensures
                out@ == goal,
            decreases it.measure(),
        {
            match it.next() {
                Some(c) => {
                    out.push(c);
                    proof {
                        assert(out@ + it.future() =~= goal);
                    }
                },
                None => {
                    proof {
                        assert(out@ + it.future() =~= out@);
                    }
                    break;
                },
            }
        }
        out
    }
}

/// The lazy normalization entry points for slices of units.
///
/// Both methods return a [`NormalizeWhiteSpaceIter`] over the receiver:
/// one collapsing whitespace alone, one collapsing control units along
/// with it.
pub trait NormalizeWhitespace<T: TrimUnit> {
    /// The units the receiver holds.
    spec fn units(&self) -> Seq<T>;

    /// An iterator over the receiver's content with the edges trimmed
    /// and every interior whitespace run collapsed to one canonical
    /// space.
    fn normalized_whitespace(&self) -> (r: NormalizeWhiteSpaceIter<'_, T>)
        ensures
            r.wf(),
            !r.control_aware(),
            r.future() == normalized(self.units()),
    ;

    /// Like [`Self::normalized_whitespace`], but control units are
    /// trimmed and collapsed as if they were whitespace.
    fn normalized_control_and_whitespace(&self) -> (r: NormalizeWhiteSpaceIter<'_, T>)
        ensures
            r.wf(),
            r.control_aware(),
            r.future() == normalized_ctl(self.units()),
    ;
}

impl<T: TrimUnit> NormalizeWhitespace<T> for [T] {
    open spec fn units(&self) -> Seq<T> {
        self@
    }

    fn normalized_whitespace(&self) -> (r: NormalizeWhiteSpaceIter<'_, T>) {
        NormalizeWhiteSpaceIter::new(self, false)
    }

    fn normalized_control_and_whitespace(&self) -> (r: NormalizeWhiteSpaceIter<'_, T>) {
        NormalizeWhiteSpaceIter::new(self, true)
    }
}

} // verus!
