//! Batch sizing and flush policy, shared by both strategies' callers.
//!
//! Records accumulate up to a configured threshold; a full batch is
//! handed out for one bulk-load call and the buffer cleared; after the
//! source is exhausted a final call carries any remainder, and an empty
//! remainder is no call at all.  Every record pushed ends in exactly one
//! batch, in push order.

use vstd::prelude::*;

use crate::codec::batch_view;
use crate::errors::PipelineError;
use crate::partition::page_count;
use crate::record::{Conditions, RecordView};

verus! {

/// Collects records into fixed-size batches.
pub struct BatchAccumulator {
    threshold: usize,
    buffer: Vec<Conditions>,
    pushed: Ghost<Seq<RecordView>>,
    flushed: Ghost<Seq<RecordView>>,
}

impl BatchAccumulator {
    /// The configured batch size.
    pub closed spec fn threshold_of(self) -> int {
        self.threshold as int
    }

    /// The records waiting for the next flush, in push order.
    pub closed spec fn buffered(self) -> Seq<RecordView> {
        batch_view(self.buffer@)
    }

    /// Every record pushed so far, in push order.
    pub closed spec fn pushed_of(self) -> Seq<RecordView> {
        self.pushed@
    }

    /// Every record already handed out in a batch, in push order.
    pub closed spec fn flushed_of(self) -> Seq<RecordView> {
        self.flushed@
    }

    /// No record is lost or reordered: what was pushed is what was
    /// flushed followed by what is still buffered, and the buffer never
    /// reaches the threshold between calls.
    pub closed spec fn wf(self) -> bool {
        &&& self.threshold >= 1
        &&& self.buffer@.len() < self.threshold
        &&& self.pushed@ == self.flushed@ + batch_view(self.buffer@)
    }

    /// A fresh accumulator; a threshold of zero is rejected.
    pub fn new(threshold: usize) -> (r: Result<BatchAccumulator, PipelineError>)
        ensures
            threshold == 0 ==> (r matches Err(e) && e is InvalidArgument),
            threshold > 0 ==> (r matches Ok(a) && a.wf() && a.threshold_of() == threshold
                && a.pushed_of().len() == 0 && a.flushed_of().len() == 0 && a.buffered().len()
                == 0),
    {
        if threshold == 0 {
            return Err(PipelineError::InvalidArgument);
        }
        let a = BatchAccumulator {
            threshold,
            buffer: Vec::new(),
            pushed: Ghost(Seq::<RecordView>::empty()),
            flushed: Ghost(Seq::<RecordView>::empty()),
        };
        proof {
            assert(batch_view(a.buffer@) =~= Seq::<RecordView>::empty());
            assert(a.pushed@ =~= a.flushed@ + batch_view(a.buffer@));
        }
        Ok(a)
    }

    /// Takes one record.  When it fills the buffer to the threshold, the
    /// full batch comes back, in push order, and the buffer is cleared;
    /// otherwise the record is kept.
    pub fn push(&mut self, r: Conditions) -> (out: Option<Vec<Conditions>>)
        requires
            old(self).wf(),
        ensures
            final(self).wf(),
            final(self).threshold_of() == old(self).threshold_of(),
            final(self).pushed_of() == old(self).pushed_of().push(r@),
            out matches Some(b) ==> (batch_view(b@) == old(self).buffered().push(r@) && b@.len()
                == old(self).threshold_of() && final(self).buffered().len() == 0 && final(self).flushed_of() == old(self).flushed_of() + batch_view(b@)),
            out is None ==> (final(self).buffered() == old(self).buffered().push(r@) && final(self).flushed_of() == old(self).flushed_of()),
    {
        let ghost rv = r@;
        self.buffer.push(r);
        proof {
            assert(batch_view(self.buffer@) =~= batch_view(old(self).buffer@).push(rv));
        }
        self.pushed = Ghost(self.pushed@.push(rv));
        if self.buffer.len() == self.threshold {
            let mut batch: Vec<Conditions> = Vec::new();
            core::mem::swap(&mut batch, &mut self.buffer);
            self.flushed = Ghost(self.flushed@ + batch_view(batch@));
            proof {
                assert(batch_view(self.buffer@) =~= Seq::<RecordView>::empty());
                assert(self.pushed@ =~= self.flushed@ + batch_view(self.buffer@));
            }
            Some(batch)
        } else {
            proof {
                assert(self.pushed@ =~= self.flushed@ + batch_view(self.buffer@));
            }
            None
        }
    }

    /// The final call once the source is exhausted: any remainder comes
    /// back as a last short batch; an empty remainder is no batch at all.
    /// Afterwards everything pushed has been flushed.
    pub fn finish(&mut self) -> (out: Option<Vec<Conditions>>)
        requires
            old(self).wf(),
        ensures
            final(self).wf(),
            final(self).threshold_of() == old(self).threshold_of(),
            final(self).pushed_of() == old(self).pushed_of(),
            final(self).flushed_of() == final(self).pushed_of(),
            final(self).buffered().len() == 0,
            out matches Some(b) ==> (batch_view(b@) == old(self).buffered() && b@.len() > 0),
            out is None ==> old(self).buffered().len() == 0,
    {
        if self.buffer.len() == 0 {
            proof {
                assert(batch_view(self.buffer@) =~= Seq::<RecordView>::empty());
                assert(self.flushed@ + batch_view(self.buffer@) =~= self.flushed@);
            }
            return None;
        }
        let mut batch: Vec<Conditions> = Vec::new();
        core::mem::swap(&mut batch, &mut self.buffer);
        self.flushed = Ghost(self.flushed@ + batch_view(batch@));
        proof {
            assert(batch_view(self.buffer@) =~= Seq::<RecordView>::empty());
            assert(self.pushed@ =~= self.flushed@ + batch_view(self.buffer@));
        }
        Some(batch)
    }
}

/// The concatenated views of a list of batches, in order.
pub open spec fn flat_view(bs: Seq<Vec<Conditions>>) -> Seq<RecordView>
    decreases bs.len(),
{
    if bs.len() == 0 {
        Seq::<RecordView>::empty()
    } else {
        batch_view(bs[0]@) + flat_view(bs.drop_first())
    }
}

proof fn lemma_flat_view_push(bs: Seq<Vec<Conditions>>, b: Vec<Conditions>)
    ensures
        flat_view(bs.push(b)) == flat_view(bs) + batch_view(b@),
    decreases bs.len(),
{
    if bs.len() == 0 {
        assert(bs.push(b).drop_first() =~= Seq::<Vec<Conditions>>::empty());
        assert(flat_view(Seq::<Vec<Conditions>>::empty()) == Seq::<RecordView>::empty());
        assert(bs.push(b)[0] == b);
        assert(flat_view(bs.push(b)) == batch_view(b@) + Seq::<RecordView>::empty());
        assert(batch_view(b@) + Seq::<RecordView>::empty() =~= Seq::<RecordView>::empty()
            + batch_view(b@));
    } else {
        assert(bs.push(b).drop_first() =~= bs.drop_first().push(b));
        lemma_flat_view_push(bs.drop_first(), b);
        assert(bs.push(b)[0] == bs[0]);
        assert(batch_view(bs[0]@) + (flat_view(bs.drop_first()) + batch_view(b@)) =~= (batch_view(
            bs[0]@,
        ) + flat_view(bs.drop_first())) + batch_view(b@));
    }
}

/// Cuts a whole record list into load batches of `batch_size`, the last
/// one shorter: together the batches carry exactly the input records, in
/// order, and their number is the input length divided by `batch_size`,
/// rounded up.  A `batch_size` of zero is rejected.
pub fn split_batches(records: Vec<Conditions>, batch_size: usize) -> (r: Result<
    Vec<Vec<Conditions>>,
    PipelineError,
>)
    ensures
        batch_size == 0 ==> (r matches Err(e) && e is InvalidArgument),
        batch_size > 0 ==> (r matches Ok(bs) && flat_view(bs@) == batch_view(records@) && bs@.len()
            == page_count(records@.len() as int, batch_size as int) && (forall|i: int|
            0 <= i < bs@.len() ==> 1 <= (#[trigger] bs@[i])@.len() <= batch_size) && (forall|i: int|
            0 <= i < bs@.len() - 1 ==> (#[trigger] bs@[i])@.len() == batch_size)),
{
    if batch_size == 0 {
        return Err(PipelineError::InvalidArgument);
    }
    let ghost orig = records@;
    let mut records = records;
    let mut bs: Vec<Vec<Conditions>> = Vec::new();
    let mut cur: Vec<Conditions> = Vec::new();
    let ghost total = orig.len() as int;
    proof {
        assert(flat_view(bs@) =~= Seq::<RecordView>::empty());
        assert(batch_view(cur@) =~= Seq::<RecordView>::empty());
        assert(batch_view(orig.subrange(0, 0)) =~= Seq::<RecordView>::empty());
        assert(flat_view(bs@) + batch_view(cur@) =~= batch_view(orig.subrange(0, 0)));
        assert(bs@.len() * batch_size == 0) by (nonlinear_arith)
            requires
                bs@.len() == 0,
        ;
    }
    let mut taken: usize = 0;
    while taken < records.len()
        invariant
            batch_size >= 1,
            0 <= taken <= records@.len(),
            records@ == orig,
            flat_view(bs@) + batch_view(cur@) == batch_view(orig.subrange(0, taken as int)),
            cur@.len() < batch_size,
            taken == bs@.len() * batch_size + cur@.len(),
            forall|i: int| 0 <= i < bs@.len() ==> (#[trigger] bs@[i])@.len() == batch_size,
        decreases records@.len() - taken,
    {
        let ghost bs_before = bs@;
        let ghost cur_before = cur@;
        let ghost n = bs@.len() as int;
        cur.push(records[taken].clone());
        taken = taken + 1;
        proof {
            assert(batch_view(cur@) =~= batch_view(cur_before).push(orig[taken - 1]@));
            assert(batch_view(orig.subrange(0, taken as int)) =~= batch_view(
                orig.subrange(0, taken - 1),
            ).push(orig[taken - 1]@));
            assert(flat_view(bs@) + batch_view(cur@) =~= batch_view(orig.subrange(0, taken as int)));
        }
        if cur.len() == batch_size {
            let mut full: Vec<Conditions> = Vec::new();
            core::mem::swap(&mut full, &mut cur);
            bs.push(full);
            proof {
                lemma_flat_view_push(bs_before, bs@[n]);
                assert(bs@ =~= bs_before.push(bs@[n]));
                assert(batch_view(cur@) =~= Seq::<RecordView>::empty());
                assert(flat_view(bs@) + batch_view(cur@) =~= batch_view(
                    orig.subrange(0, taken as int),
                ));
                assert((n + 1) * batch_size == n * batch_size + batch_size) by (nonlinear_arith);
            }
        }
    }
    let ghost n_full = bs@.len() as int;
    let ghost s = batch_size as int;
    if cur.len() > 0 {
        let ghost bs_before = bs@;
        bs.push(cur);
        proof {
            lemma_flat_view_push(bs_before, bs@[n_full]);
            assert(bs@ =~= bs_before.push(bs@[n_full]));
            assert(orig.subrange(0, total) =~= orig);
            assert(flat_view(bs@) =~= batch_view(orig));
            // `total == n_full * s + rest` with `0 < rest < s`.
            assert((n_full + 1) * s == n_full * s + s) by (nonlinear_arith);
            vstd::arithmetic::div_mod::lemma_fundamental_div_mod_converse(
                total + s - 1,
                s,
                n_full + 1,
                total - n_full * s - 1,
            );
        }
        return Ok(bs);
    }
    proof {
        assert(orig.subrange(0, total) =~= orig);
        assert(batch_view(cur@) =~= Seq::<RecordView>::empty());
        assert(flat_view(bs@) + batch_view(cur@) =~= flat_view(bs@));
        // `total == n_full * s` exactly.
        vstd::arithmetic::div_mod::lemma_fundamental_div_mod_converse(
            total + s - 1,
            s,
            n_full,
            s - 1,
        );
    }
    Ok(bs)
}

} // verus!
