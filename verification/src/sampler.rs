//! Restartable arithmetic-progression ranges for sampling viewport
//! coordinates.
//!
//! A [`StepRange`] walks a half-open interval by a fixed positive step,
//! mutating its own bounds as it is consumed.  On exhaustion it restores the
//! bounds it was constructed with and signals the end: the same instance can
//! then be walked again from scratch.  The reverse walk starts at the upper
//! bound and descends; when the interval length is not an exact multiple of
//! the step it is not the mirror image of the forward walk, which is the
//! accepted behaviour, not a defect.

use vstd::prelude::*;

verus! {

/// Largest magnitude accepted for a freshly constructed bound or step.
pub const SAMPLE_BOUND: i64 = 0x100_0000;

/// The values of a forward walk from `start`: each value yielded while it is
/// strictly below `stop`, advancing by `step`.
pub open spec fn fwd_seq(start: int, stop: int, step: int) -> Seq<i64>
    decreases stop - start + step,
        when step >= 1
{
    if start >= stop {
        Seq::empty()
    } else {
        seq![start as i64] + fwd_seq(start + step, stop, step)
    }
}

/// The values of a reverse walk: `stop` yielded while the interval is still
/// non-empty, lowering `stop` by `step`.
pub open spec fn rev_seq(start: int, stop: int, step: int) -> Seq<i64>
    decreases stop - start + step,
        when step >= 1
{
    if start >= stop {
        Seq::empty()
    } else {
        seq![stop as i64] + rev_seq(start, stop - step, step)
    }
}

/// Every value of a forward walk lies in `[start, stop)`.
pub proof fn lemma_fwd_seq_range(start: int, stop: int, step: int)
    requires
        step >= 1,
        i64::MIN <= start,
        stop <= i64::MAX,
    ensures
        forall|n: int|
            0 <= n < fwd_seq(start, stop, step).len() ==> start <= (
            #[trigger] fwd_seq(start, stop, step)[n]) < stop,
    decreases stop - start + step,
{
    if start < stop {
        lemma_fwd_seq_range(start + step, stop, step);
        assert forall|n: int|
            0 <= n < fwd_seq(start, stop, step).len() implies start <= (#[trigger] fwd_seq(
            start,
            stop,
            step,
        )[n]) < stop by {
            if n == 0 {
                assert(fwd_seq(start, stop, step)[0] == start as i64);
            } else {
                assert(fwd_seq(start, stop, step)[n] == fwd_seq(start + step, stop, step)[n - 1]);
            }
        }
    }
}

/// Every value of a reverse walk lies in `(start, stop]`.
pub proof fn lemma_rev_seq_range(start: int, stop: int, step: int)
    requires
        step >= 1,
        i64::MIN <= start,
        stop <= i64::MAX,
    ensures
        forall|n: int|
            0 <= n < rev_seq(start, stop, step).len() ==> start < (
            #[trigger] rev_seq(start, stop, step)[n]) <= stop,
    decreases stop - start + step,
{
    if start < stop {
        lemma_rev_seq_range(start, stop - step, step);
        assert forall|n: int|
            0 <= n < rev_seq(start, stop, step).len() implies start < (#[trigger] rev_seq(
            start,
            stop,
            step,
        )[n]) <= stop by {
            if n == 0 {
                assert(rev_seq(start, stop, step)[0] == stop as i64);
            } else {
                assert(rev_seq(start, stop, step)[n] == rev_seq(start, stop - step, step)[n - 1]);
            }
        }
    }
}

/// A restartable arithmetic progression over a half-open interval.  The
/// current bounds mutate as values are taken; the original bounds are kept
/// so that exhaustion restores them.
#[derive(Clone, Copy, PartialEq, Eq, Structural, Debug)]
pub struct StepRange {
    pub start: i64,
    pub stop: i64,
    pub step: i64,
    pub orig_start: i64,
    pub orig_stop: i64,
}

impl StepRange {
    /// The invariant every walk preserves: a positive step, original bounds
    /// within the sample window, and current bounds within one window of it.
    pub open spec fn wf(self) -> bool {
        &&& 1 <= self.step <= SAMPLE_BOUND
        &&& -SAMPLE_BOUND <= self.orig_start <= SAMPLE_BOUND
        &&& -SAMPLE_BOUND <= self.orig_stop <= SAMPLE_BOUND
        &&& -SAMPLE_BOUND <= self.start <= 2 * SAMPLE_BOUND
        &&& -2 * SAMPLE_BOUND <= self.stop <= SAMPLE_BOUND
    }

    /// A fresh range over `[start, stop)` advancing by `step`.
    pub fn new(start: i64, stop: i64, step: i64) -> (r: StepRange)
        requires
            -SAMPLE_BOUND <= start <= SAMPLE_BOUND,
            -SAMPLE_BOUND <= stop <= SAMPLE_BOUND,
            1 <= step <= SAMPLE_BOUND,
        ensures
            r.wf(),
            r.start == start,
            r.stop == stop,
            r.step == step,
            r.orig_start == start,
            r.orig_stop == stop,
    {
        StepRange { start, stop, step, orig_start: start, orig_stop: stop }
    }

    /// The next forward value: the current start while the interval is
    /// non-empty; on exhaustion the constructed bounds are restored and the
    /// end is signalled, after which the walk starts over.
    pub fn next(&mut self) -> (r: Option<i64>)
        requires
            old(self).wf(),
        ensures
            final(self).wf(),
            final(self).step == old(self).step,
            final(self).orig_start == old(self).orig_start,
            final(self).orig_stop == old(self).orig_stop,
            old(self).start < old(self).stop ==> r == Some(old(self).start) && final(self).start == old(
                self,
            ).start + old(self).step && final(self).stop == old(self).stop,
            old(self).start >= old(self).stop ==> r == None::<i64> && final(self).start == old(
                self,
            ).orig_start && final(self).stop == old(self).orig_stop,
    {
        if self.start < self.stop {
            let v = self.start;
            self.start = v + self.step;
            Some(v)
        } else {
            self.start = self.orig_start;
            self.stop = self.orig_stop;
            None
        }
    }

    /// The next reverse value: the current stop while the interval is
    /// non-empty; on exhaustion the constructed bounds are restored.
    pub fn next_back(&mut self) -> (r: Option<i64>)
        requires
            old(self).wf(),
        ensures
            final(self).wf(),
            final(self).step == old(self).step,
            final(self).orig_start == old(self).orig_start,
            final(self).orig_stop == old(self).orig_stop,
            old(self).start < old(self).stop ==> r == Some(old(self).stop) && final(self).stop == old(
                self,
            ).stop - old(self).step && final(self).start == old(self).start,
            old(self).start >= old(self).stop ==> r == None::<i64> && final(self).start == old(
                self,
            ).orig_start && final(self).stop == old(self).orig_stop,
    {
        if self.start < self.stop {
            let v = self.stop;
            self.stop = v - self.step;
            Some(v)
        } else {
            self.start = self.orig_start;
            self.stop = self.orig_stop;
            None
        }
    }

    /// Walks the whole forward sequence into a vector, leaving the range
    /// restored to its constructed bounds.
    pub fn collect_forward(&mut self) -> (r: Vec<i64>)
        requires
            old(self).wf(),
        ensures
            final(self).wf(),
            final(self).step == old(self).step,
            final(self).orig_start == old(self).orig_start,
            final(self).orig_stop == old(self).orig_stop,
            final(self).start == old(self).orig_start,
            final(self).stop == old(self).orig_stop,
            r@ == fwd_seq(old(self).start as int, old(self).stop as int, old(self).step as int),
    {
        let mut out: Vec<i64> = Vec::new();
        loop
            invariant
                self.wf(),
                self.step == old(self).step,
                self.orig_start == old(self).orig_start,
                self.orig_stop == old(self).orig_stop,
                out@ + fwd_seq(self.start as int, self.stop as int, self.step as int) == fwd_seq(
                    old(self).start as int,
                    old(self).stop as int,
                    old(self).step as int,
                ),
            decreases self.stop - self.start + self.step,
        {
            let ghost prev = *self;
            let ghost prefix = out@;
            match self.next() {
                Some(v) => {
                    out.push(v);
                    proof {
                        assert(fwd_seq(prev.start as int, prev.stop as int, prev.step as int)
                            =~= seq![prev.start] + fwd_seq(
                            prev.start + prev.step,
                            prev.stop as int,
                            prev.step as int,
                        ));
                        assert(out@ + fwd_seq(self.start as int, self.stop as int, self.step as int)
                            =~= prefix + fwd_seq(prev.start as int, prev.stop as int, prev.step as int));
                    }
                },
                None => {
                    proof {
                        assert(fwd_seq(prev.start as int, prev.stop as int, prev.step as int)
                            =~= Seq::<i64>::empty());
                        assert(out@ + fwd_seq(prev.start as int, prev.stop as int, prev.step as int)
                            =~= out@);
                    }
                    return out;
                },
            }
        }
    }

    /// Walks the whole reverse sequence into a vector, leaving the range
    /// restored to its constructed bounds.
    pub fn collect_reverse(&mut self) -> (r: Vec<i64>)
        requires
            old(self).wf(),
        ensures
            final(self).wf(),
            final(self).step == old(self).step,
            final(self).orig_start == old(self).orig_start,
            final(self).orig_stop == old(self).orig_stop,
            final(self).start == old(self).orig_start,
            final(self).stop == old(self).orig_stop,
            r@ == rev_seq(old(self).start as int, old(self).stop as int, old(self).step as int),
    {
        let mut out: Vec<i64> = Vec::new();
        loop
            invariant
                self.wf(),
                self.step == old(self).step,
                self.orig_start == old(self).orig_start,
                self.orig_stop == old(self).orig_stop,
                out@ + rev_seq(self.start as int, self.stop as int, self.step as int) == rev_seq(
                    old(self).start as int,
                    old(self).stop as int,
                    old(self).step as int,
                ),
            decreases self.stop - self.start + self.step,
        {
            let ghost prev = *self;
            let ghost prefix = out@;
            match self.next_back() {
                Some(v) => {
                    out.push(v);
                    proof {
                        assert(rev_seq(prev.start as int, prev.stop as int, prev.step as int)
                            =~= seq![prev.stop] + rev_seq(
                            prev.start as int,
                            prev.stop - prev.step,
                            prev.step as int,
                        ));
                        assert(out@ + rev_seq(self.start as int, self.stop as int, self.step as int)
                            =~= prefix + rev_seq(prev.start as int, prev.stop as int, prev.step as int));
                    }
                },
                None => {
                    proof {
                        assert(rev_seq(prev.start as int, prev.stop as int, prev.step as int)
                            =~= Seq::<i64>::empty());
                        assert(out@ + rev_seq(prev.start as int, prev.stop as int, prev.step as int)
                            =~= out@);
                    }
                    return out;
                },
            }
        }
    }
}

} // verus!
