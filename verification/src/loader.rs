//! The two streaming bulk-load strategies.
//!
//! Strategy A stages the batch in the exchange format and streams it to
//! the store's copy channel in fixed-size chunks inside one transaction:
//! `Staging -> TransactionOpen -> Streaming -> Finalizing -> Committed`
//! or `RolledBack`.  Strategy B sends each record down a bulk-insert
//! channel: `Idle -> ChannelOpen -> Streaming -> Finalized` or `Aborted`.
//! An empty batch is loaded successfully with zero rows, and neither a
//! transaction nor a channel can be opened for it.
//!
//! The machines here make every decision and hand out the staging text in
//! order; the unverified driver only carries actions to the store and
//! reports each outcome back.  Staging text of encodable records is ASCII
//! (see the codec), so the character chunks handed out here are exactly
//! the byte chunks the copy channel receives.

use vstd::prelude::*;
use vstd::string::*;

use crate::codec::{batch_view, encodable, encode_batch, staging_of};
use crate::errors::PipelineError;
use crate::record::Conditions;

verus! {

/// The default size of one copy-channel chunk: 64 KiB.  The staging text
/// is ASCII, so its characters and its bytes coincide.
pub const DEFAULT_CHUNK_SIZE: usize = 65536;

/// The chunks of `s`, `k` characters each, the last one shorter.
pub open spec fn chunks_of(s: Seq<char>, k: nat) -> Seq<Seq<char>>
    decreases s.len(),
{
    if k == 0 || s.len() == 0 {
        Seq::<Seq<char>>::empty()
    } else if s.len() <= k {
        seq![s]
    } else {
        seq![s.subrange(0, k as int)] + chunks_of(s.subrange(k as int, s.len() as int), k)
    }
}

/// Concatenation of a sequence of texts, in order.
pub open spec fn concat_of(cs: Seq<Seq<char>>) -> Seq<char>
    decreases cs.len(),
{
    if cs.len() == 0 {
        Seq::<char>::empty()
    } else {
        cs[0] + concat_of(cs.drop_first())
    }
}

/// Chunked streaming loses nothing: for every chunk size, the chunks of a
/// staging text concatenate back to exactly that text, so every chunk
/// size delivers the same content to the copy channel.
pub proof fn lemma_chunks_concat(s: Seq<char>, k: nat)
    requires
        k >= 1,
    ensures
        concat_of(chunks_of(s, k)) == s,
    decreases s.len(),
{
    if s.len() == 0 {
        assert(concat_of(chunks_of(s, k)) =~= s);
    } else if s.len() <= k {
        assert(chunks_of(s, k).drop_first() =~= Seq::<Seq<char>>::empty());
        assert(concat_of(Seq::<Seq<char>>::empty()) == Seq::<char>::empty());
        assert(chunks_of(s, k)[0] == s);
        assert(concat_of(chunks_of(s, k)) == s + Seq::<char>::empty());
        assert(s + Seq::<char>::empty() =~= s);
    } else {
        let tail = s.subrange(k as int, s.len() as int);
        lemma_chunks_concat(tail, k);
        assert(chunks_of(s, k).drop_first() =~= chunks_of(tail, k));
        assert(s.subrange(0, k as int) + tail =~= s);
    }
}

/// The phases of the file-staged copy load.
#[derive(Debug, Clone, Copy, PartialEq, Eq, Structural)]
pub enum CopyPhase {
    Staging,
    TransactionOpen,
    Streaming,
    Finalizing,
    Committed,
    RolledBack,
}

/// Strategy A: the file-staged copy load of one batch.
///
/// Built by serializing the batch into the staging text; the driver then
/// opens the transaction and the copy channel, pulls chunks with
/// [`CopyLoader::next_chunk`] and forwards each to the channel's sink in
/// order, and confirms the commit.  Any reported failure rolls back.
pub struct CopyLoader {
    staged: String,
    cursor: usize,
    chunk_size: usize,
    rows: usize,
    phase: CopyPhase,
    sent: Ghost<Seq<char>>,
}

impl CopyLoader {
    pub closed spec fn phase_of(self) -> CopyPhase {
        self.phase
    }

    /// The whole staging text of the batch.
    pub closed spec fn staged_text(self) -> Seq<char> {
        self.staged@
    }

    /// Everything handed to the copy channel so far, in order.
    pub closed spec fn sent_text(self) -> Seq<char> {
        self.sent@
    }

    pub closed spec fn cursor_at(self) -> int {
        self.cursor as int
    }

    pub closed spec fn chunk_size_of(self) -> int {
        self.chunk_size as int
    }

    pub closed spec fn rows_total(self) -> int {
        self.rows as int
    }

    /// The machine's invariant: what was sent is exactly the staging
    /// text up to the cursor, and each phase pins the cursor down.
    pub closed spec fn wf(self) -> bool {
        &&& self.chunk_size >= 1
        &&& self.cursor <= self.staged@.len()
        &&& self.sent@ == self.staged@.subrange(0, self.cursor as int)
        &&& (self.phase is Staging ==> self.cursor == 0)
        &&& (self.phase is TransactionOpen ==> self.cursor == 0)
        &&& (self.phase is Finalizing ==> self.cursor == self.staged@.len())
        &&& (self.phase is Committed ==> self.cursor == self.staged@.len())
    }

    /// Serializes the batch.  An empty batch is complete at once, with
    /// zero rows loaded: no transaction or channel can be opened for it.
    /// Fails with `SerializationFailed` exactly when some record cannot
    /// be carried by the exchange format.
    pub fn new(batch: &Vec<Conditions>, chunk_size: usize) -> (r: Result<CopyLoader, PipelineError>)
        requires
            chunk_size >= 1,
        ensures
            r matches Ok(l) ==> (l.wf() && l.staged_text() == staging_of(batch_view(batch@))
                && l.rows_total() == batch@.len() && l.cursor_at() == 0 && l.chunk_size_of()
                == chunk_size && (batch@.len() == 0 ==> l.phase_of() is Committed) && (batch@.len()
                > 0 ==> l.phase_of() is Staging) && (forall|i: int|
                0 <= i < batch@.len() ==> encodable(#[trigger] batch@[i]@))),
            r matches Err(e) ==> (e is SerializationFailed && exists|i: int|
                0 <= i < batch@.len() && !encodable(#[trigger] batch@[i]@)),
    {
        let staged = match encode_batch(batch) {
            Ok(s) => s,
            Err(e) => {
                return Err(e);
            },
        };
        let phase = if batch.len() == 0 {
            proof {
                assert(batch_view(batch@).len() == 0);
                assert(staged@.len() == 0);
            }
            CopyPhase::Committed
        } else {
            CopyPhase::Staging
        };
        let l = CopyLoader {
            staged,
            cursor: 0,
            chunk_size,
            rows: batch.len(),
            phase,
            sent: Ghost(Seq::<char>::empty()),
        };
        proof {
            assert(l.sent@ =~= l.staged@.subrange(0, 0));
        }
        Ok(l)
    }

    /// The machine's invariant keeps the cursor inside the staging text,
    /// and the opening phases keep it at the start: what a caller needs
    /// to see that the chunk hand-out terminates.
    pub proof fn lemma_wf_bounds(self)
        requires
            self.wf(),
        ensures
            0 <= self.cursor_at() <= self.staged_text().len(),
            self.phase_of() is Staging ==> self.cursor_at() == 0,
            self.phase_of() is TransactionOpen ==> self.cursor_at() == 0,
    {
    }

    /// The staging text itself, for the driver to write to the staging
    /// file: the same text whose chunks `next_chunk` hands out.
    pub fn staged(&self) -> (s: &String)
        ensures
            s@ == self.staged_text(),
    {
        &self.staged
    }

    /// The driver reports that the transaction is open.
    pub fn transaction_opened(&mut self)
        requires
            old(self).wf(),
            old(self).phase_of() is Staging,
        ensures
            final(self).wf(),
            final(self).phase_of() is TransactionOpen,
            final(self).staged_text() == old(self).staged_text(),
            final(self).sent_text() == old(self).sent_text(),
            final(self).cursor_at() == old(self).cursor_at(),
            final(self).rows_total() == old(self).rows_total(),
            final(self).chunk_size_of() == old(self).chunk_size_of(),
    {
        self.phase = CopyPhase::TransactionOpen;
    }

    /// The driver reports that the copy channel is open.
    pub fn channel_opened(&mut self)
        requires
            old(self).wf(),
            old(self).phase_of() is TransactionOpen,
        ensures
            final(self).wf(),
            final(self).phase_of() is Streaming,
            final(self).staged_text() == old(self).staged_text(),
            final(self).sent_text() == old(self).sent_text(),
            final(self).cursor_at() == old(self).cursor_at(),
            final(self).rows_total() == old(self).rows_total(),
            final(self).chunk_size_of() == old(self).chunk_size_of(),
    {
        self.phase = CopyPhase::Streaming;
    }

    /// The next chunk for the channel's sink: the staging text in file
    /// order, every chunk full except possibly the last.  `None` once the
    /// whole text has been handed out, which closes the streaming step:
    /// at that point what was sent is exactly the staging text, whatever
    /// the chunk size.
    pub fn next_chunk(&mut self) -> (r: Option<String>)
        requires
            old(self).wf(),
            old(self).phase_of() is Streaming,
        ensures
            final(self).wf(),
            final(self).staged_text() == old(self).staged_text(),
            final(self).rows_total() == old(self).rows_total(),
            final(self).chunk_size_of() == old(self).chunk_size_of(),
            final(self).cursor_at() <= final(self).staged_text().len(),
            r matches Some(c) ==> (final(self).phase_of() is Streaming && c@.len() > 0 && c@
                == old(self).staged_text().subrange(old(self).cursor_at(), final(self).cursor_at())
                && final(self).cursor_at() == old(self).cursor_at() + c@.len() && (c@.len()
                == old(self).chunk_size_of() || final(self).cursor_at()
                == old(self).staged_text().len()) && c@.len() <= old(self).chunk_size_of()
                && final(self).sent_text() == old(self).sent_text() + c@),
            r is None ==> (final(self).phase_of() is Finalizing && old(self).cursor_at()
                == old(self).staged_text().len() && final(self).cursor_at() == old(self).cursor_at() && final(self).sent_text() == old(self).staged_text()),
    {
        let len = self.staged.as_str().unicode_len();
        if self.cursor == len {
            self.phase = CopyPhase::Finalizing;
            proof {
                assert(self.staged@.subrange(0, self.staged@.len() as int) =~= self.staged@);
            }
            None
        } else {
            let next_cur = if len - self.cursor > self.chunk_size {
                self.cursor + self.chunk_size
            } else {
                len
            };
            let c = self.staged.as_str().substring_char(self.cursor, next_cur).to_owned();
            proof {
                assert(self.staged@.subrange(0, next_cur as int) =~= self.staged@.subrange(
                    0,
                    self.cursor as int,
                ) + self.staged@.subrange(self.cursor as int, next_cur as int));
            }
            self.sent = Ghost(self.sent@ + c@);
            self.cursor = next_cur;
            Some(c)
        }
    }

    /// The driver reports that the commit completed.
    pub fn commit_confirmed(&mut self)
        requires
            old(self).wf(),
            old(self).phase_of() is Finalizing,
        ensures
            final(self).wf(),
            final(self).phase_of() is Committed,
            final(self).sent_text() == old(self).sent_text(),
            final(self).staged_text() == old(self).staged_text(),
            final(self).rows_total() == old(self).rows_total(),
    {
        self.phase = CopyPhase::Committed;
    }

    /// The driver reports a failure in any step before the commit
    /// completed; the transaction is rolled back.
    pub fn rolled_back(&mut self)
        requires
            old(self).wf(),
            !(old(self).phase_of() is Committed),
        ensures
            final(self).wf(),
            final(self).phase_of() is RolledBack,
            final(self).staged_text() == old(self).staged_text(),
            final(self).rows_total() == old(self).rows_total(),
    {
        self.phase = CopyPhase::RolledBack;
    }

    /// How many rows the committed load carried: the whole batch.
    pub fn rows_loaded(&self) -> (r: usize)
        requires
            self.wf(),
            self.phase_of() is Committed,
        ensures
            r == self.rows_total(),
    {
        self.rows
    }

    /// Whether the load reached its committed state.
    pub fn is_committed(&self) -> (b: bool)
        ensures
            b == (self.phase_of() is Committed),
    {
        match self.phase {
            CopyPhase::Committed => true,
            _ => false,
        }
    }
}

/// The phases of the row-streaming bulk insert.
#[derive(Debug, Clone, Copy, PartialEq, Eq, Structural)]
pub enum RowPhase {
    Idle,
    ChannelOpen,
    Streaming,
    Finalized,
    Aborted,
}

/// Strategy B: the row-streaming bulk insert of one batch.
///
/// The driver opens the bulk channel (inside an explicit transaction when
/// the store requires one), sends each row that [`RowLoader::next_row`]
/// hands out, in order, and reports the store's committed-row count to
/// [`RowLoader::finalized`].
pub struct RowLoader {
    batch: Vec<Conditions>,
    cursor: usize,
    explicit_transaction: bool,
    phase: RowPhase,
    reported: u64,
}

impl RowLoader {
    pub closed spec fn phase_of(self) -> RowPhase {
        self.phase
    }

    /// The rows of the batch, in load order.
    pub closed spec fn rows_of(self) -> Seq<Conditions> {
        self.batch@
    }

    pub closed spec fn cursor_at(self) -> int {
        self.cursor as int
    }

    /// Whether the store needs the channel wrapped in an explicit
    /// transaction (a store-capability flag, not a separate code path).
    pub closed spec fn explicit_transaction_of(self) -> bool {
        self.explicit_transaction
    }

    /// What the store reported on finalize.
    pub closed spec fn reported_of(self) -> int {
        self.reported as int
    }

    pub closed spec fn wf(self) -> bool {
        &&& self.cursor <= self.batch@.len()
        &&& (self.phase is Idle ==> self.cursor == 0)
        &&& (self.phase is ChannelOpen ==> self.cursor == 0)
        &&& (self.phase is Finalized ==> self.cursor == self.batch@.len())
    }

    /// Takes the batch to load.  An empty batch is finalized at once with
    /// zero rows: no channel can be opened for it.
    pub fn new(batch: Vec<Conditions>, explicit_transaction: bool) -> (l: RowLoader)
        ensures
            l.wf(),
            l.rows_of() == batch@,
            l.cursor_at() == 0,
            l.explicit_transaction_of() == explicit_transaction,
            batch@.len() == 0 ==> (l.phase_of() is Finalized && l.reported_of() == 0),
            batch@.len() > 0 ==> l.phase_of() is Idle,
    {
        let phase = if batch.len() == 0 {
            RowPhase::Finalized
        } else {
            RowPhase::Idle
        };
        RowLoader { batch, cursor: 0, explicit_transaction, phase, reported: 0 }
    }

    /// The machine's invariant keeps the cursor inside the batch, and the
    /// phases before streaming keep it at the start: what a caller needs
    /// to see that the row hand-out terminates.
    pub proof fn lemma_wf_bounds(self)
        requires
            self.wf(),
        ensures
            0 <= self.cursor_at() <= self.rows_of().len(),
            self.phase_of() is Idle ==> self.cursor_at() == 0,
            self.phase_of() is ChannelOpen ==> self.cursor_at() == 0,
    {
    }

    /// The driver reports that the bulk channel is open.
    pub fn channel_opened(&mut self)
        requires
            old(self).wf(),
            old(self).phase_of() is Idle,
        ensures
            final(self).wf(),
            final(self).phase_of() is ChannelOpen,
            final(self).rows_of() == old(self).rows_of(),
            final(self).cursor_at() == old(self).cursor_at(),
            final(self).explicit_transaction_of() == old(self).explicit_transaction_of(),
    {
        self.phase = RowPhase::ChannelOpen;
    }

    /// The next row for the channel, in batch order; `None` once every
    /// row has been handed out.
    pub fn next_row(&mut self) -> (r: Option<Conditions>)
        requires
            old(self).wf(),
            old(self).phase_of() is ChannelOpen || old(self).phase_of() is Streaming,
        ensures
            final(self).wf(),
            final(self).phase_of() is Streaming,
            final(self).rows_of() == old(self).rows_of(),
            final(self).explicit_transaction_of() == old(self).explicit_transaction_of(),
            final(self).cursor_at() <= final(self).rows_of().len(),
            r matches Some(c) ==> (c@ == old(self).rows_of()[old(self).cursor_at()]@ && final(self).cursor_at() == old(self).cursor_at() + 1),
            r is None ==> (old(self).cursor_at() == old(self).rows_of().len() && final(self).cursor_at() == old(self).cursor_at()),
    {
        self.phase = RowPhase::Streaming;
        if self.cursor < self.batch.len() {
            let c = self.batch[self.cursor].clone();
            self.cursor = self.cursor + 1;
            Some(c)
        } else {
            None
        }
    }

    /// The driver reports the committed-row count the store returned on
    /// finalize.  Every row must have been handed out first.
    pub fn finalized(&mut self, committed_rows: u64)
        requires
            old(self).wf(),
            old(self).phase_of() is Streaming,
            old(self).cursor_at() == old(self).rows_of().len(),
        ensures
            final(self).wf(),
            final(self).phase_of() is Finalized,
            final(self).rows_of() == old(self).rows_of(),
            final(self).reported_of() == committed_rows,
    {
        self.phase = RowPhase::Finalized;
        self.reported = committed_rows;
    }

    /// The driver reports a failure before finalize completed.
    pub fn aborted(&mut self)
        requires
            old(self).wf(),
            !(old(self).phase_of() is Finalized),
        ensures
            final(self).wf(),
            final(self).phase_of() is Aborted,
            final(self).rows_of() == old(self).rows_of(),
    {
        self.phase = RowPhase::Aborted;
    }

    /// How many rows the store committed.
    pub fn rows_loaded(&self) -> (r: u64)
        requires
            self.wf(),
            self.phase_of() is Finalized,
        ensures
            r == self.reported_of(),
    {
        self.reported
    }

    /// Whether the load reached its finalized state.
    pub fn is_finalized(&self) -> (b: bool)
        ensures
            b == (self.phase_of() is Finalized),
    {
        match self.phase {
            RowPhase::Finalized => true,
            _ => false,
        }
    }
}

} // verus!
