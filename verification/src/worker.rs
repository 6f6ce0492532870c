//! The state a context worker keeps between commands, and the decision each
//! command makes on it.
//!
//! The worker owns the native context and runs one command at a time. What
//! it decides is held here: which sequence slots are checked out, which
//! checkouts are still waiting for their requester to commit, the one-slot
//! batch it decodes through, and how each sequence's token snapshot changes.
//! The native work itself (decoding, KV-memory edits) is described by the
//! values these functions return and performed by the caller, which hands the
//! outcome back.
use vstd::prelude::*;

use std::collections::HashMap;
use vstd::std_specs::iter::IteratorSpec;

use crate::batch::{batch_add, batch_clear, fresh_batch, Batch, RawBatch};
use crate::error::{spec_decode_status, DecodeError};
use crate::{Pos, SeqId, Token};

verus! {

broadcast use vstd::std_specs::hash::group_hash_axioms;

/// An edit of the native KV memory that a command asks for.
#[derive(Debug, Clone, Copy, PartialEq, Eq, Structural)]
pub enum MemoryOp {
    /// Remove the cells of `seq_id` in positions `[p0, p1)`; a negative bound
    /// stands for "unbounded".
    SeqRm { seq_id: SeqId, p0: Pos, p1: Pos },
    /// Copy the cells of `src` in positions `[p0, p1)` to `dst`.
    SeqCp { src: SeqId, dst: SeqId, p0: Pos, p1: Pos },
    /// Shift the positions of the cells of `seq_id` in `[p0, p1)` by `delta`.
    SeqAdd { seq_id: SeqId, p0: Pos, p1: Pos, delta: Pos },
}

/// Number of slots that are not checked out.
pub open spec fn count_free(slots: Seq<bool>) -> nat
    decreases slots.len(),
{
    if slots.len() == 0 {
        0
    } else {
        count_free(slots.drop_last()) + (if slots.last() { 0nat } else { 1nat })
    }
}

/// `i` is the lowest slot that is not checked out.
pub open spec fn is_first_free(slots: Seq<bool>, i: int) -> bool {
    &&& 0 <= i < slots.len()
    &&& !slots[i]
    &&& forall|j: int| 0 <= j < i ==> #[trigger] slots[j]
}

/// The slots after `seq_id` was handed back: free when it names a slot, and
/// unchanged otherwise.
pub open spec fn released(slots: Seq<bool>, seq_id: SeqId) -> Seq<bool> {
    if 0 <= seq_id < slots.len() {
        slots.update(seq_id as int, false)
    } else {
        slots
    }
}

/// The pending checkouts that do not point at `seq_id`.
pub open spec fn without_value(m: Map<u64, SeqId>, seq_id: SeqId) -> Map<u64, SeqId> {
    Map::new(|k: u64| m.contains_key(k) && m[k] != seq_id, |k: u64| m[k])
}

/// The observable state of a worker: which slots are checked out, and which
/// checkout requests (by request id) are still waiting to be committed, with
/// the slot each of them holds.
#[verifier::ext_equal]
pub struct WorkerModel {
    pub slots: Seq<bool>,
    pub pending: Map<u64, SeqId>,
}

/// The state after a checkout request: the lowest free slot is taken and
/// recorded as pending under the request id; with no free slot nothing
/// changes.
pub open spec fn spec_checkout(m: WorkerModel, request_id: u64) -> (WorkerModel, Option<SeqId>) {
    if exists|i: int| is_first_free(m.slots, i) {
        let i = choose|i: int| is_first_free(m.slots, i);
        (
            WorkerModel { slots: m.slots.update(i, true), pending: m.pending.insert(request_id, i as SeqId) },
            Some(i as SeqId),
        )
    } else {
        (m, None)
    }
}

/// The state after a checkout request was committed by its requester.
pub open spec fn spec_commit(m: WorkerModel, request_id: u64) -> WorkerModel {
    WorkerModel { slots: m.slots, pending: m.pending.remove(request_id) }
}

/// The state after a checkout request was abandoned: a slot it still holds
/// is handed back.
pub open spec fn spec_cancel(m: WorkerModel, request_id: u64) -> WorkerModel {
    if m.pending.contains_key(request_id) {
        WorkerModel {
            slots: released(m.slots, m.pending[request_id]),
            pending: m.pending.remove(request_id),
        }
    } else {
        m
    }
}

/// The state after a sequence handle let go of `seq_id`.
pub open spec fn spec_release(m: WorkerModel, seq_id: SeqId) -> WorkerModel {
    WorkerModel { slots: released(m.slots, seq_id), pending: without_value(m.pending, seq_id) }
}

/// The KV-memory edit that hands a slot back: all cells of the sequence go.
pub open spec fn clear_all(seq_id: SeqId) -> MemoryOp {
    MemoryOp::SeqRm { seq_id, p0: -1i32, p1: -1i32 }
}

/// The logits a decode leaves behind, when the decode succeeded: none when
/// the native logits pointer is null or the vocabulary is empty.
pub open spec fn spec_push_outcome<L>(decoded: Result<(), DecodeError>, logits: Option<L>) -> Result<L, DecodeError> {
    match decoded {
        Err(e) => Err(e),
        Ok(()) => match logits {
            Some(l) => Ok(l),
            None => Err(DecodeError::FatalError),
        },
    }
}

/// The state after the reply to checkout request `request_id` was lost:
/// the request is forgotten, and the slot it was given, if any, goes back.
pub open spec fn spec_undelivered(m: WorkerModel, request_id: u64, allocated: Option<SeqId>) -> WorkerModel {
    WorkerModel {
        slots: match allocated {
            Some(s) => released(m.slots, s),
            None => m.slots,
        },
        pending: m.pending.remove(request_id),
    }
}

/// A push reports a failed decode as it failed, whatever logits row is at
/// hand; after a successful decode it hands back the logits row, and it is
/// fatal only when that row is missing.
pub proof fn lemma_push_outcome<L>(decoded: Result<(), DecodeError>, logits: Option<L>)
    ensures
        decoded matches Err(e) ==> spec_push_outcome(decoded, logits) == Err::<L, DecodeError>(e),
        decoded is Ok ==> (spec_push_outcome(decoded, logits) is Ok <==> logits is Some),
        forall|l: L| decoded is Ok && logits == Some(l) ==> spec_push_outcome(decoded, logits) == Ok::<
            L,
            DecodeError,
        >(l),
        spec_push_outcome(decoded, logits) is Ok ==> decoded is Ok,
        spec_push_outcome(decoded, logits) == Err::<L, DecodeError>(DecodeError::FatalError) ==> (
        decoded is Ok && logits is None) || decoded == Err::<(), DecodeError>(DecodeError::FatalError),
{
}

/// The logits of a push: the decode outcome, then the logits row, which is
/// fatal to be missing.
pub fn push_outcome<L>(decoded: Result<(), DecodeError>, logits: Option<L>) -> (r: Result<L, DecodeError>)
    ensures
        r == spec_push_outcome(decoded, logits),
{
    match decoded {
        Err(e) => Err(e),
        Ok(()) => match logits {
            Some(l) => Ok(l),
            None => Err(DecodeError::FatalError),
        },
    }
}

/// The model invariant: slot ids fit a sequence id, every pending checkout
/// holds a checked-out slot, and no two pending checkouts hold the same slot.
pub open spec fn model_wf(m: WorkerModel) -> bool {
    &&& m.slots.len() <= i32::MAX
    &&& forall|k: u64| #[trigger] m.pending.contains_key(k) ==> {
        let s = m.pending[k];
        0 <= s < m.slots.len() && m.slots[s as int]
    }
    &&& forall|k1: u64, k2: u64|
        #[trigger] m.pending.contains_key(k1) && #[trigger] m.pending.contains_key(k2) && k1 != k2
            ==> m.pending[k1] != m.pending[k2]
}

proof fn lemma_count_free_update(s: Seq<bool>, i: int, b: bool)
    requires
        0 <= i < s.len(),
    ensures
        count_free(s.update(i, b)) + (if s[i] { 0int } else { 1int }) == count_free(s) + (if b {
            0int
        } else {
            1int
        }),
    decreases s.len(),
{
    let t = s.update(i, b);
    if i == s.len() - 1 {
        assert(t.drop_last() == s.drop_last());
    } else {
        assert(t.drop_last() == s.drop_last().update(i, b));
        lemma_count_free_update(s.drop_last(), i, b);
    }
}

proof fn lemma_first_free_exists(s: Seq<bool>)
    requires
        exists|i: int| 0 <= i < s.len() && !#[trigger] s[i],
    ensures
        exists|i: int| is_first_free(s, i),
    decreases s.len(),
{
    let t = s.drop_last();
    if exists|i: int| 0 <= i < t.len() && !#[trigger] t[i] {
        lemma_first_free_exists(t);
        let i = choose|i: int| is_first_free(t, i);
        assert forall|j: int| 0 <= j < i implies #[trigger] s[j] by {
            assert(t[j] == s[j]);
        }
        assert(is_first_free(s, i));
    } else {
        let w = choose|i: int| 0 <= i < s.len() && !#[trigger] s[i];
        if w < s.len() - 1 {
            assert(t[w] == s[w]);
        }
        assert forall|j: int| 0 <= j < s.len() - 1 implies #[trigger] s[j] by {
            assert(t[j] == s[j]);
        }
        assert(is_first_free(s, s.len() - 1));
    }
}

proof fn lemma_count_free_positive(s: Seq<bool>)
    ensures
        count_free(s) > 0 <==> exists|i: int| 0 <= i < s.len() && !#[trigger] s[i],
    decreases s.len(),
{
    if s.len() > 0 {
        let t = s.drop_last();
        lemma_count_free_positive(t);
        if exists|i: int| 0 <= i < t.len() && !#[trigger] t[i] {
            let i = choose|i: int| 0 <= i < t.len() && !#[trigger] t[i];
            assert(s[i] == t[i]);
        }
        if exists|i: int| 0 <= i < s.len() && !#[trigger] s[i] {
            let i = choose|i: int| 0 <= i < s.len() && !#[trigger] s[i];
            if i < s.len() - 1 {
                assert(s[i] == t[i]);
            }
        }
    }
}

/// A checkout succeeds exactly when some slot is free, and then takes one
/// free slot away.
pub proof fn lemma_checkout_free_count(m: WorkerModel, request_id: u64)
    ensures
        spec_checkout(m, request_id).1 is Some <==> count_free(m.slots) > 0,
        spec_checkout(m, request_id).1 is Some ==> count_free(spec_checkout(m, request_id).0.slots)
            + 1 == count_free(m.slots),
{
    lemma_count_free_positive(m.slots);
    if count_free(m.slots) > 0 {
        lemma_first_free_exists(m.slots);
        let i = choose|i: int| is_first_free(m.slots, i);
        lemma_count_free_update(m.slots, i, true);
    } else {
        if exists|i: int| is_first_free(m.slots, i) {
            let i = choose|i: int| is_first_free(m.slots, i);
            assert(!m.slots[i]);
        }
    }
}

/// A checkout that is cancelled before it was committed leaves the worker
/// as it was.
pub proof fn lemma_checkout_then_cancel(m: WorkerModel, request_id: u64)
    requires
        model_wf(m),
        !m.pending.contains_key(request_id),
    ensures
        spec_cancel(spec_checkout(m, request_id).0, request_id) == m,
{
    if exists|i: int| is_first_free(m.slots, i) {
        let i = choose|i: int| is_first_free(m.slots, i);
        let m1 = spec_checkout(m, request_id).0;
        assert(m1.pending[request_id] == i as SeqId);
        assert(spec_cancel(m1, request_id).slots =~= m.slots);
        assert(spec_cancel(m1, request_id).pending =~= m.pending);
    }
}

/// A committed checkout whose sequence is later released leaves the worker
/// as it was before the checkout.
pub proof fn lemma_checkout_commit_release(m: WorkerModel, request_id: u64)
    requires
        model_wf(m),
        !m.pending.contains_key(request_id),
        spec_checkout(m, request_id).1 is Some,
    ensures
        spec_release(
            spec_commit(spec_checkout(m, request_id).0, request_id),
            spec_checkout(m, request_id).1->0,
        ) == m,
{
    let i = choose|i: int| is_first_free(m.slots, i);
    let id = i as SeqId;
    let m2 = spec_commit(spec_checkout(m, request_id).0, request_id);
    assert(m2.pending =~= m.pending);
    assert(spec_release(m2, id).slots =~= m.slots);
    assert forall|k: u64| #[trigger] m.pending.contains_key(k) implies m.pending[k] != id by {
        assert(m.slots[m.pending[k] as int]);
    }
    assert(without_value(m2.pending, id) =~= m.pending);
}

/// Releasing a checked-out slot frees it and adds one free slot.
pub proof fn lemma_release_frees_slot(m: WorkerModel, seq_id: SeqId)
    requires
        0 <= seq_id < m.slots.len(),
        m.slots[seq_id as int],
    ensures
        !spec_release(m, seq_id).slots[seq_id as int],
        count_free(spec_release(m, seq_id).slots) == count_free(m.slots) + 1,
{
    lemma_count_free_update(m.slots, seq_id as int, false);
}

/// Popping right after a push gives back the pushed token and the tokens as
/// they were before the push.
pub proof fn lemma_push_then_pop(tokens: Seq<Token>, token: Token)
    ensures
        tokens.push(token).last() == token,
        tokens.push(token).drop_last() == tokens,
{
    assert(tokens.push(token).drop_last() =~= tokens);
}

/// Removing `[start, end)` leaves `end - start` fewer tokens, and the tokens
/// after the range move down to `start`.
pub proof fn lemma_remove_closes_gap(tokens: Seq<Token>, start: int, end: int)
    requires
        0 <= start <= end <= tokens.len(),
    ensures
        ({
            let rest = tokens.subrange(0, start) + tokens.subrange(end, tokens.len() as int);
            &&& rest.len() == tokens.len() - (end - start)
            &&& forall|i: int| 0 <= i < start ==> rest[i] == tokens[i]
            &&& forall|i: int| end <= i < tokens.len() ==> rest[i - (end - start)] == tokens[i]
        }),
{
}

/// A checked-out slot that was handed to a requester, together with the
/// token snapshot the requester will share with the worker.
pub struct SequenceReservation<L> {
    pub id: SeqId,
    pub snapshot: SequenceSnapshot<L>,
}

impl<L> SequenceReservation<L> {
    pub fn new(id: SeqId, snapshot: SequenceSnapshot<L>) -> (r: Self)
        ensures
            r.id == id,
            r.snapshot == snapshot,
    {
        SequenceReservation { id, snapshot }
    }

    pub fn into_parts(self) -> (r: (SeqId, SequenceSnapshot<L>))
        ensures
            r.0 == self.id,
            r.1 == self.snapshot,
    {
        (self.id, self.snapshot)
    }
}

/// The tokens a sequence has decoded, a cached copy of them for readers, and
/// the logits of its last decode.
pub struct SequenceSnapshot<L> {
    pub tokens: Vec<Token>,
    pub token_snapshot: Option<Vec<Token>>,
    pub logits: Option<L>,
}

/// The worker's own state: the native context it drives lives beside it.
pub struct Worker {
    batch: Batch,
    n_vocab: i32,
    checked_out: Vec<bool>,
    pending_checkouts: HashMap<u64, SeqId>,
}

impl Worker {
    /// The observable slot and checkout state.
    pub closed spec fn model(&self) -> WorkerModel {
        WorkerModel { slots: self.checked_out@, pending: self.pending_checkouts@ }
    }

    /// Size of the vocabulary, which is the length of a logits row.
    pub closed spec fn spec_n_vocab(&self) -> i32 {
        self.n_vocab
    }

    /// The batch the worker decodes through.
    pub closed spec fn spec_batch(&self) -> RawBatch {
        self.batch.0
    }

    /// The worker is consistent: one batch slot with room for a sequence id
    /// per context slot, and every pending checkout holds a slot that is
    /// checked out.
    pub closed spec fn wf(&self) -> bool {
        &&& self.checked_out@.len() <= i32::MAX
        &&& self.batch.0.wf()
        &&& self.batch.0.is_token_mode()
        &&& self.batch.0.capacity() == 1
        &&& self.batch.0.fits_seq_ids(self.checked_out@.len())
        &&& forall|k: u64| #[trigger] self.pending_checkouts@.contains_key(k) ==> {
            let s = self.pending_checkouts@[k];
            0 <= s < self.checked_out@.len() && self.checked_out@[s as int]
        }
        &&& forall|k1: u64, k2: u64|
            #[trigger] self.pending_checkouts@.contains_key(k1)
                && #[trigger] self.pending_checkouts@.contains_key(k2) && k1 != k2
                ==> self.pending_checkouts@[k1] != self.pending_checkouts@[k2]
    }

    /// A worker for a context with `n_seq_max` sequence slots, all free, over
    /// a vocabulary of `n_vocab` tokens.
    pub fn new(n_seq_max: u32, n_vocab: i32) -> (w: Worker)
        requires
            n_seq_max <= i32::MAX,
        ensures
            w.wf(),
            w.model().slots == Seq::new(n_seq_max as nat, |i: int| false),
            w.model().pending == Map::<u64, SeqId>::empty(),
            w.spec_n_vocab() == n_vocab,
            fresh_batch(w.spec_batch(), 1, 0, n_seq_max as int),
    {
        let batch = Batch::init_token(1, n_seq_max as i32);
        let checked_out: Vec<bool> = vec![false; n_seq_max as usize];
        assert(checked_out@ == Seq::new(n_seq_max as nat, |i: int| false));
        Worker { batch, n_vocab, checked_out, pending_checkouts: HashMap::new() }
    }

    /// Borrow the batch, for the native decode call.
    pub fn batch(&self) -> (r: &Batch)
        ensures
            r.0 == self.spec_batch(),
    {
        &self.batch
    }

    /// Number of sequence slots.
    pub fn n_seq_max(&self) -> (r: usize)
        ensures
            r == self.model().slots.len(),
    {
        self.checked_out.len()
    }

    /// Size of the vocabulary.
    pub fn n_vocab(&self) -> (r: i32)
        ensures
            r == self.spec_n_vocab(),
    {
        self.n_vocab
    }

    /// Take the lowest free slot for checkout request `request_id` and record
    /// it as pending until the requester commits; `None` when every slot is
    /// checked out.
    pub fn checkout_sequence<L>(&mut self, request_id: u64) -> (r: Option<SequenceReservation<L>>)
        requires
            old(self).wf(),
        ensures
            final(self).wf(),
            (final(self).model(), match r {
                Some(res) => Some(res.id),
                None => None,
            }) == spec_checkout(old(self).model(), request_id),
            final(self).spec_n_vocab() == old(self).spec_n_vocab(),
            final(self).spec_batch() == old(self).spec_batch(),
            r matches Some(res) ==> res.snapshot.is_empty_snapshot(),
    {
        let n = self.checked_out.len();
        let mut i: usize = 0;
        while i < n && self.checked_out[i]
            invariant
                n == self.checked_out@.len(),
                i <= n,
                forall|j: int| 0 <= j < i ==> #[trigger] self.checked_out@[j],
            decreases n - i,
        {
            i = i + 1;
        }
        if i == n {
            proof {
                assert forall|k: int| !is_first_free(self.checked_out@, k) by {
                    if 0 <= k < n {
                        assert(self.checked_out@[k]);
                    }
                }
            }
            return None;
        }
        let ghost old_model = self.model();
        proof {
            assert(is_first_free(self.checked_out@, i as int));
            let c = choose|c: int| is_first_free(old_model.slots, c);
            if c < i {
                assert(old_model.slots[c]);
            } else if c > i {
                assert(old_model.slots[i as int]);
            }
        }
        self.checked_out.set(i, true);
        let seq_id = i as SeqId;
        self.pending_checkouts.insert(request_id, seq_id);
        proof {
            assert forall|k: u64| #[trigger] self.pending_checkouts@.contains_key(k) implies ({
                let s = self.pending_checkouts@[k];
                0 <= s < self.checked_out@.len() && self.checked_out@[s as int]
            }) by {
                if k != request_id {
                    assert(old_model.pending.contains_key(k));
                }
            }
            assert forall|k1: u64, k2: u64|
                #[trigger] self.pending_checkouts@.contains_key(k1)
                    && #[trigger] self.pending_checkouts@.contains_key(k2) && k1 != k2
                    implies self.pending_checkouts@[k1] != self.pending_checkouts@[k2] by {
                if k1 != request_id && k2 != request_id {
                    assert(old_model.pending.contains_key(k1));
                    assert(old_model.pending.contains_key(k2));
                } else if k1 == request_id {
                    assert(old_model.pending.contains_key(k2));
                } else {
                    assert(old_model.pending.contains_key(k1));
                }
            }
        }
        Some(SequenceReservation::new(seq_id, SequenceSnapshot::empty()))
    }

    /// Hand slot `seq_id` back and say which KV-memory edit clears it.
    fn release_sequence(&mut self, seq_id: SeqId) -> (op: MemoryOp)
        ensures
            op == clear_all(seq_id),
            final(self).checked_out@ == released(old(self).checked_out@, seq_id),
            final(self).pending_checkouts@ == old(self).pending_checkouts@,
            final(self).batch == old(self).batch,
            final(self).n_vocab == old(self).n_vocab,
    {
        if 0 <= seq_id && (seq_id as usize) < self.checked_out.len() {
            self.checked_out.set(seq_id as usize, false);
        }
        MemoryOp::SeqRm { seq_id, p0: -1, p1: -1 }
    }

    /// The requester of `request_id` committed its checkout: the slot is
    /// now its own to release.
    pub fn commit_checkout(&mut self, request_id: u64)
        requires
            old(self).wf(),
        ensures
            final(self).wf(),
            final(self).model() == spec_commit(old(self).model(), request_id),
            final(self).spec_n_vocab() == old(self).spec_n_vocab(),
            final(self).spec_batch() == old(self).spec_batch(),
    {
        self.pending_checkouts.remove(&request_id);
    }

    /// The requester of `request_id` gave up: a slot it still holds is handed
    /// back, and the KV-memory edit that clears it is returned.
    pub fn cancel_checkout(&mut self, request_id: u64) -> (op: Option<MemoryOp>)
        requires
            old(self).wf(),
        ensures
            final(self).wf(),
            final(self).model() == spec_cancel(old(self).model(), request_id),
            op == (if old(self).model().pending.contains_key(request_id) {
                Some(clear_all(old(self).model().pending[request_id]))
            } else {
                None::<MemoryOp>
            }),
            final(self).spec_n_vocab() == old(self).spec_n_vocab(),
            final(self).spec_batch() == old(self).spec_batch(),
    {
        let ghost old_model = self.model();
        match self.pending_checkouts.remove(&request_id) {
            Some(seq_id) => {
                let op = self.release_sequence(seq_id);
                proof {
                    self.lemma_wf_after_release(old_model, seq_id, request_id);
                    assert(self.model() =~= spec_cancel(old_model, request_id));
                }
                Some(op)
            },
            None => {
                assert(self.model() =~= spec_cancel(old_model, request_id));
                None
            },
        }
    }

    /// The sequence handle of `seq_id` let go of it: checkouts still pending
    /// on that slot are dropped, the slot is handed back, and the KV-memory
    /// edit that clears it is returned.
    pub fn release_seq(&mut self, seq_id: SeqId) -> (op: MemoryOp)
        requires
            old(self).wf(),
        ensures
            final(self).wf(),
            final(self).model() == spec_release(old(self).model(), seq_id),
            op == clear_all(seq_id),
            final(self).spec_n_vocab() == old(self).spec_n_vocab(),
            final(self).spec_batch() == old(self).spec_batch(),
    {
        let ghost old_model = self.model();
        let ghost m = self.pending_checkouts@;
        let mut doomed: Vec<u64> = Vec::new();
        for entry in it: self.pending_checkouts.iter()
            invariant
                m == self.pending_checkouts@,
                it.seq() == vstd::std_specs::hash::spec_hash_map_iter(&self.pending_checkouts).remaining(),
                forall|j: int| 0 <= j < doomed@.len() ==> #[trigger] m.contains_key(doomed@[j]) && m[doomed@[j]] == seq_id,
                forall|i: int| 0 <= i < it.index() && *(#[trigger] it.seq()[i]).1 == seq_id ==> doomed@.contains(*it.seq()[i].0),
        {
            let (k, v) = entry;
            let ghost d0 = doomed@;
            if *v == seq_id {
                doomed.push(*k);
            }
            proof {
                assert forall|y: u64| d0.contains(y) implies doomed@.contains(y) by {
                    let i = choose|i: int| 0 <= i < d0.len() && d0[i] == y;
                    assert(doomed@[i] == d0[i]);
                }
                if *v == seq_id {
                    assert(doomed@[doomed@.len() - 1] == *k);
                }
            }
        }
        proof {
            let r = vstd::std_specs::hash::spec_hash_map_iter(&self.pending_checkouts).remaining();
            assert forall|k: u64| #[trigger] m.contains_key(k) && m[k] == seq_id implies doomed@.contains(k) by {
                assert(r.contains((&k, &m[k])));
                let i = choose|i: int| 0 <= i < r.len() && r[i] == (&k, &m[k]);
                assert(*r[i].1 == seq_id);
            }
        }
        let mut j: usize = 0;
        while j < doomed.len()
            invariant
                j <= doomed@.len(),
                forall|i: int| 0 <= i < doomed@.len() ==> #[trigger] m.contains_key(doomed@[i]) && m[doomed@[i]] == seq_id,
                forall|k: u64| #[trigger] m.contains_key(k) && m[k] == seq_id ==> doomed@.contains(k),
                self.pending_checkouts@ == m.remove_keys(doomed@.subrange(0, j as int).to_set()),
                self.checked_out@ == old_model.slots,
                self.batch == old(self).batch,
                self.n_vocab == old(self).n_vocab,
            decreases doomed@.len() - j,
        {
            self.pending_checkouts.remove(&doomed[j]);
            proof {
                assert(doomed@.subrange(0, j + 1).to_set() == doomed@.subrange(0, j as int).to_set().insert(doomed@[j as int])) by {
                    assert(doomed@.subrange(0, j + 1) == doomed@.subrange(0, j as int).push(doomed@[j as int]));
                    doomed@.subrange(0, j as int).lemma_push_to_set_commute(doomed@[j as int]);
                }
                assert(self.pending_checkouts@ =~= m.remove_keys(doomed@.subrange(0, j + 1).to_set()));
            }
            j = j + 1;
        }
        proof {
            assert(doomed@.subrange(0, doomed@.len() as int) == doomed@);
            assert forall|k: u64| true implies (#[trigger] doomed@.to_set().contains(k) && m.contains_key(k)) == (m.contains_key(k) && m[k] == seq_id) by {
                if doomed@.to_set().contains(k) {
                    let i = choose|i: int| 0 <= i < doomed@.len() && doomed@[i] == k;
                    assert(m.contains_key(doomed@[i]));
                }
            }
            assert(self.pending_checkouts@ =~= without_value(m, seq_id));
        }
        let op = self.release_sequence(seq_id);
        proof {
            assert(self.model() =~= spec_release(old_model, seq_id));
            assert forall|k: u64| #[trigger] self.pending_checkouts@.contains_key(k) implies ({
                let s = self.pending_checkouts@[k];
                0 <= s < self.checked_out@.len() && self.checked_out@[s as int]
            }) by {
                assert(m.contains_key(k));
                assert(self.pending_checkouts@[k] == m[k]);
                assert(m[k] != seq_id);
            }
            assert forall|k1: u64, k2: u64|
                #[trigger] self.pending_checkouts@.contains_key(k1)
                    && #[trigger] self.pending_checkouts@.contains_key(k2) && k1 != k2
                    implies self.pending_checkouts@[k1] != self.pending_checkouts@[k2] by {
                assert(m.contains_key(k1));
                assert(m.contains_key(k2));
            }
        }
        op
    }

    /// The reply to checkout request `request_id` could not be delivered:
    /// the request is forgotten and the slot it was given, if any, is handed
    /// back; the KV-memory edit that clears that slot is returned.
    pub fn checkout_undelivered(&mut self, request_id: u64, allocated: Option<SeqId>) -> (op: Option<MemoryOp>)
        requires
            old(self).wf(),
            allocated matches Some(s) ==> old(self).model().pending.contains_key(request_id)
                && old(self).model().pending[request_id] == s,
        ensures
            final(self).wf(),
            final(self).model() == spec_undelivered(old(self).model(), request_id, allocated),
            op == (match allocated {
                Some(s) => Some(clear_all(s)),
                None => None::<MemoryOp>,
            }),
            final(self).spec_n_vocab() == old(self).spec_n_vocab(),
            final(self).spec_batch() == old(self).spec_batch(),
    {
        let ghost old_model = self.model();
        self.pending_checkouts.remove(&request_id);
        match allocated {
            Some(seq_id) => {
                let op = self.release_sequence(seq_id);
                proof {
                    self.lemma_wf_after_release(old_model, seq_id, request_id);
                    assert(self.model() =~= spec_undelivered(old_model, request_id, allocated));
                }
                Some(op)
            },
            None => {
                proof {
                    assert(self.model() =~= spec_undelivered(old_model, request_id, allocated));
                }
                None
            },
        }
    }

    /// Number of slots that are not checked out.
    pub fn free_slots(&self) -> (r: usize)
        ensures
            r == count_free(self.model().slots),
    {
        let n = self.checked_out.len();
        let mut c: usize = 0;
        let mut i: usize = 0;
        while i < n
            invariant
                n == self.checked_out@.len(),
                i <= n,
                c <= i,
                c == count_free(self.checked_out@.subrange(0, i as int)),
            decreases n - i,
        {
            proof {
                assert(self.checked_out@.subrange(0, i + 1).drop_last() == self.checked_out@.subrange(0, i as int));
            }
            if !self.checked_out[i] {
                c = c + 1;
            }
            i = i + 1;
        }
        assert(self.checked_out@.subrange(0, n as int) == self.checked_out@);
        c
    }

    /// Load the batch with the single entry that decodes `token` at `pos`
    /// for sequence `seq_id`, with logits requested.
    pub fn prepare_push(&mut self, token: Token, pos: Pos, seq_id: SeqId) -> (r: Result<(), DecodeError>)
        requires
            old(self).wf(),
            old(self).model().slots.len() >= 1,
        ensures
            final(self).wf(),
            r is Ok,
            final(self).model() == old(self).model(),
            final(self).spec_n_vocab() == old(self).spec_n_vocab(),
            final(self).spec_batch().n_tokens == 1,
            final(self).spec_batch().slot_holds(0, token, pos, seq![seq_id], true),
    {
        batch_clear(self.batch.as_raw_mut());
        let ids: [SeqId; 1] = [seq_id];
        let r = match batch_add(self.batch.as_raw_mut(), token, pos, &ids, true) {
            Ok(()) => Ok(()),
            Err(_) => Err(DecodeError::InvalidInput),
        };
        assert(ids@ == seq![seq_id]);
        r
    }

    /// Length of the logits row to read back after a decode: none when the
    /// native logits pointer is null or the vocabulary is empty.
    pub fn logits_len(&self, is_null: bool) -> (r: Option<usize>)
        ensures
            r == (if is_null || self.spec_n_vocab() <= 0 {
                None::<usize>
            } else {
                Some(self.spec_n_vocab() as usize)
            }),
    {
        if is_null || self.n_vocab <= 0 {
            None
        } else {
            Some(self.n_vocab as usize)
        }
    }

    /// A consistent worker has a consistent model.
    pub proof fn lemma_model_wf(&self)
        requires
            self.wf(),
        ensures
            model_wf(self.model()),
    {
    }

    proof fn lemma_wf_after_release(&self, old_model: WorkerModel, seq_id: SeqId, request_id: u64)
        requires
            self.checked_out@ == released(old_model.slots, seq_id),
            self.pending_checkouts@ == old_model.pending.remove(request_id),
            old_model.pending.contains_key(request_id),
            old_model.pending[request_id] == seq_id,
            old_model.slots.len() <= i32::MAX,
            forall|k: u64| #[trigger] old_model.pending.contains_key(k) ==> {
                let s = old_model.pending[k];
                0 <= s < old_model.slots.len() && old_model.slots[s as int]
            },
            forall|k1: u64, k2: u64|
                #[trigger] old_model.pending.contains_key(k1) && #[trigger] old_model.pending.contains_key(k2)
                    && k1 != k2 ==> old_model.pending[k1] != old_model.pending[k2],
        ensures
            forall|k: u64| #[trigger] self.pending_checkouts@.contains_key(k) ==> {
                let s = self.pending_checkouts@[k];
                0 <= s < self.checked_out@.len() && self.checked_out@[s as int]
            },
    {
        assert forall|k: u64| #[trigger] self.pending_checkouts@.contains_key(k) implies ({
            let s = self.pending_checkouts@[k];
            0 <= s < self.checked_out@.len() && self.checked_out@[s as int]
        }) by {
            assert(old_model.pending.contains_key(k));
            assert(old_model.pending.contains_key(request_id));
        }
    }
}

impl<L> SequenceSnapshot<L> {
    /// No tokens, an empty cached copy, and no logits.
    pub open spec fn is_empty_snapshot(&self) -> bool {
        &&& self.tokens@ == Seq::<Token>::empty()
        &&& self.token_snapshot matches Some(t) && t@ == Seq::<Token>::empty()
        &&& self.logits is None
    }

    /// The snapshot of a freshly checked-out sequence.
    pub fn empty() -> (r: Self)
        ensures
            r.is_empty_snapshot(),
    {
        SequenceSnapshot { tokens: Vec::new(), token_snapshot: Some(Vec::new()), logits: None }
    }

    /// Number of tokens in the sequence.
    pub fn len(&self) -> (r: usize)
        ensures
            r == self.tokens@.len(),
    {
        self.tokens.len()
    }

    /// The sequence holds no tokens.
    pub fn is_empty(&self) -> (r: bool)
        ensures
            r == (self.tokens@.len() == 0),
    {
        self.tokens.len() == 0
    }

    /// The token at `index`, if there is one.
    pub fn get(&self, index: usize) -> (r: Option<Token>)
        ensures
            r == (if index < self.tokens@.len() {
                Some(self.tokens@[index as int])
            } else {
                None::<Token>
            }),
    {
        if index < self.tokens.len() {
            Some(self.tokens[index])
        } else {
            None
        }
    }

    /// The tokens of the sequence.
    pub fn tokens(&self) -> (r: &[Token])
        ensures
            r@ == self.tokens@,
    {
        self.tokens.as_slice()
    }

    /// The position the next pushed token is decoded at: one past the last
    /// (the token count, cast to a position as the native API takes it).
    pub fn push_position(&self) -> (r: Pos)
        ensures
            r == self.tokens@.len() as Pos,
    {
        self.tokens.len() as Pos
    }

    /// Record the outcome of decoding `token` at the end of the sequence:
    /// on success the token is appended, the cached copy dropped and the
    /// logits kept; a failed decode leaves the sequence unchanged.
    pub fn record_push(&mut self, token: Token, outcome: Result<L, DecodeError>) -> (r: Result<(), DecodeError>)
        ensures
            match outcome {
                Ok(l) => {
                    &&& r is Ok
                    &&& final(self).tokens@ == old(self).tokens@.push(token)
                    &&& final(self).token_snapshot is None
                    &&& final(self).logits == Some(l)
                },
                Err(e) => r == Err::<(), DecodeError>(e) && *final(self) == *old(self),
            },
    {
        match outcome {
            Ok(l) => {
                self.tokens.push(token);
                self.token_snapshot = None;
                self.logits = Some(l);
                Ok(())
            },
            Err(e) => Err(e),
        }
    }

    /// The last token and its position, which a refresh decodes again; none
    /// for an empty sequence.
    pub fn last_token(&self) -> (r: Option<(Token, Pos)>)
        ensures
            r == (if self.tokens@.len() == 0 {
                None::<(Token, Pos)>
            } else {
                Some((self.tokens@.last(), (self.tokens@.len() - 1) as Pos))
            }),
    {
        let n = self.tokens.len();
        if n == 0 {
            None
        } else {
            Some((self.tokens[n - 1], (n - 1) as Pos))
        }
    }

    /// Record the outcome of decoding the last token again: fresh logits are
    /// kept; nothing else changes, and a failed or skipped decode changes
    /// nothing.
    pub fn record_decode(&mut self, outcome: Result<Option<L>, DecodeError>) -> (r: Result<(), DecodeError>)
        ensures
            final(self).tokens == old(self).tokens,
            final(self).token_snapshot == old(self).token_snapshot,
            match outcome {
                Ok(Some(l)) => r is Ok && final(self).logits == Some(l),
                Ok(None) => r is Ok && final(self).logits == old(self).logits,
                Err(e) => r == Err::<(), DecodeError>(e) && final(self).logits == old(self).logits,
            },
    {
        match outcome {
            Ok(Some(l)) => {
                self.logits = Some(l);
                Ok(())
            },
            Ok(None) => Ok(()),
            Err(e) => Err(e),
        }
    }

    /// The KV edit a pop of sequence `seq_id` starts with: remove the cells
    /// at positions `[len - 1, len)`; none for an empty sequence.
    pub fn begin_pop(&self, seq_id: SeqId) -> (r: Option<MemoryOp>)
        ensures
            r == (if self.tokens@.len() == 0 {
                None::<MemoryOp>
            } else {
                Some(MemoryOp::SeqRm {
                    seq_id,
                    p0: (self.tokens@.len() - 1) as Pos,
                    p1: self.tokens@.len() as Pos,
                })
            }),
    {
        let n = self.tokens.len();
        if n == 0 {
            None
        } else {
            Some(MemoryOp::SeqRm { seq_id, p0: (n - 1) as Pos, p1: n as Pos })
        }
    }

    /// Finish a pop once the KV edit ran: when the cells were removed, the
    /// last token goes (and is returned) and the cached copy and logits are
    /// dropped; otherwise nothing changes and `None` is returned.
    pub fn apply_pop(&mut self, removed: bool) -> (r: Option<Token>)
        requires
            old(self).tokens@.len() > 0,
        ensures
            removed ==> {
                &&& r == Some(old(self).tokens@.last())
                &&& final(self).tokens@ == old(self).tokens@.drop_last()
                &&& final(self).token_snapshot is None
                &&& final(self).logits is None
            },
            !removed ==> r is None && *final(self) == *old(self),
    {
        if removed {
            let token = self.tokens.pop();
            self.token_snapshot = None;
            self.logits = None;
            token
        } else {
            None
        }
    }

    /// The range `[start, end)` names tokens of the sequence.
    pub open spec fn valid_range(&self, start: Pos, end: Pos) -> bool {
        0 <= start <= end <= self.tokens@.len()
    }

    /// Whether `[start, end)` names tokens of the sequence.
    pub fn range_is_valid(&self, start: Pos, end: Pos) -> (r: bool)
        ensures
            r == self.valid_range(start, end),
    {
        start >= 0 && end >= start && (end as usize) <= self.tokens.len()
    }

    /// After the KV cells of `[start, end)` were removed, the edit that moves
    /// the later cells down to close the gap; none when nothing was removed
    /// or nothing follows.
    pub fn remove_shift(&self, seq_id: SeqId, start: Pos, end: Pos) -> (r: Option<MemoryOp>)
        requires
            self.valid_range(start, end),
        ensures
            r == (if end - start > 0 && end < self.tokens@.len() {
                Some(MemoryOp::SeqAdd { seq_id, p0: end, p1: -1i32, delta: (start - end) as Pos })
            } else {
                None::<MemoryOp>
            }),
    {
        let removed = end - start;
        if removed > 0 && (end as usize) < self.tokens.len() {
            Some(MemoryOp::SeqAdd { seq_id, p0: end, p1: -1, delta: -removed })
        } else {
            None
        }
    }

    fn apply_remove(&mut self, start: Pos, end: Pos)
        requires
            old(self).valid_range(start, end),
        ensures
            final(self).tokens@ == old(self).tokens@.subrange(0, start as int) + old(self).tokens@.subrange(
                end as int,
                old(self).tokens@.len() as int,
            ),
            final(self).token_snapshot is None,
            final(self).logits is None,
    {
        let n = self.tokens.len();
        let mut kept: Vec<Token> = Vec::new();
        let mut i: usize = 0;
        while i < n
            invariant
                n == self.tokens@.len(),
                0 <= start <= end <= n,
                i <= n,
                kept@ == (if i <= start as int {
                    self.tokens@.subrange(0, i as int)
                } else if i <= end as int {
                    self.tokens@.subrange(0, start as int)
                } else {
                    self.tokens@.subrange(0, start as int) + self.tokens@.subrange(end as int, i as int)
                }),
            decreases n - i,
        {
            if i < start as usize || i >= end as usize {
                kept.push(self.tokens[i]);
            }
            proof {
                if i + 1 <= start as int {
                    assert(self.tokens@.subrange(0, i + 1) == self.tokens@.subrange(0, i as int).push(self.tokens@[i as int]));
                } else if i + 1 > end as int {
                    if i == end as int {
                        assert(self.tokens@.subrange(end as int, i + 1) == seq![self.tokens@[i as int]]);
                    } else {
                        assert(self.tokens@.subrange(end as int, i + 1) == self.tokens@.subrange(end as int, i as int).push(self.tokens@[i as int]));
                    }
                }
            }
            i = i + 1;
        }
        self.tokens = kept;
        self.token_snapshot = None;
        self.logits = None;
    }

    /// The KV edit a removal of tokens `[start, end)` of sequence `seq_id`
    /// starts with; none when the range does not name tokens of the sequence.
    pub fn begin_remove(&self, seq_id: SeqId, start: Pos, end: Pos) -> (r: Option<MemoryOp>)
        ensures
            r == (if self.valid_range(start, end) {
                Some(MemoryOp::SeqRm { seq_id, p0: start, p1: end })
            } else {
                None::<MemoryOp>
            }),
    {
        if self.range_is_valid(start, end) {
            Some(MemoryOp::SeqRm { seq_id, p0: start, p1: end })
        } else {
            None
        }
    }

    /// Finish a removal of tokens `[start, end)` once the KV cells were (or
    /// were not) removed. When they were, the tokens go, the cached copy and
    /// logits are dropped, and the edit that moves the later cells down to
    /// close the gap is returned (none when nothing was removed or nothing
    /// follows); the flag is the reply. Otherwise nothing changes.
    pub fn finish_remove(&mut self, seq_id: SeqId, start: Pos, end: Pos, removed: bool) -> (r: (bool, Option<MemoryOp>))
        requires
            old(self).valid_range(start, end),
        ensures
            r.0 == removed,
            removed ==> {
                &&& r.1 == (if end - start > 0 && end < old(self).tokens@.len() {
                    Some(MemoryOp::SeqAdd { seq_id, p0: end, p1: -1i32, delta: (start - end) as Pos })
                } else {
                    None::<MemoryOp>
                })
                &&& final(self).tokens@ == old(self).tokens@.subrange(0, start as int) + old(self).tokens@.subrange(
                    end as int,
                    old(self).tokens@.len() as int,
                )
                &&& final(self).token_snapshot is None
                &&& final(self).logits is None
            },
            !removed ==> r.1 is None && *final(self) == *old(self),
    {
        if !removed {
            return (false, None);
        }
        let shift = self.remove_shift(seq_id, start, end);
        self.apply_remove(start, end);
        (true, shift)
    }

    /// The KV edits that copy positions `[start, end)` of this sequence
    /// (`src`) into `dst`, renumbered to start at zero: clear `dst`, copy the
    /// cells, then shift them down by `start` when it is positive. None when
    /// the range does not name tokens of this sequence.
    pub fn copy_ops(&self, src: SeqId, dst: SeqId, start: Pos, end: Pos) -> (r: Option<Vec<MemoryOp>>)
        ensures
            r is Some <==> self.valid_range(start, end),
            r matches Some(ops) ==> ops@ == (if start > 0 {
                seq![
                    clear_all(dst),
                    MemoryOp::SeqCp { src, dst, p0: start, p1: end },
                    MemoryOp::SeqAdd { seq_id: dst, p0: start, p1: end, delta: (0 - start) as Pos },
                ]
            } else {
                seq![clear_all(dst), MemoryOp::SeqCp { src, dst, p0: start, p1: end }]
            }),
    {
        if !self.range_is_valid(start, end) {
            return None;
        }
        let mut ops: Vec<MemoryOp> = Vec::new();
        ops.push(MemoryOp::SeqRm { seq_id: dst, p0: -1, p1: -1 });
        ops.push(MemoryOp::SeqCp { src, dst, p0: start, p1: end });
        if start > 0 {
            ops.push(MemoryOp::SeqAdd { seq_id: dst, p0: start, p1: end, delta: -start });
        }
        Some(ops)
    }

    /// Record that this sequence now holds tokens `[start, end)` of a source
    /// sequence; the cached copy and logits are dropped.
    pub fn apply_copy(&mut self, src_tokens: &[Token], start: Pos, end: Pos)
        requires
            0 <= start <= end <= src_tokens@.len(),
        ensures
            final(self).tokens@ == src_tokens@.subrange(start as int, end as int),
            final(self).token_snapshot is None,
            final(self).logits is None,
    {
        let mut copied: Vec<Token> = Vec::new();
        let mut i: usize = start as usize;
        while i < end as usize
            invariant
                0 <= start <= end <= src_tokens@.len(),
                start <= i <= end,
                copied@ == src_tokens@.subrange(start as int, i as int),
            decreases end - i,
        {
            copied.push(src_tokens[i]);
            assert(src_tokens@.subrange(start as int, i + 1) == src_tokens@.subrange(start as int, i as int).push(src_tokens@[i as int]));
            i = i + 1;
        }
        self.tokens = copied;
        self.token_snapshot = None;
        self.logits = None;
    }

    /// Record the outcome of a direct removal of KV cells: the logits no
    /// longer describe the cache when cells were removed.
    pub fn apply_seq_rm(&mut self, removed: bool)
        ensures
            final(self).tokens == old(self).tokens,
            final(self).token_snapshot == old(self).token_snapshot,
            final(self).logits == (if removed { None } else { old(self).logits }),
    {
        if removed {
            self.logits = None;
        }
    }

    /// Record a direct edit of KV cells that keeps them (a position shift,
    /// or a copy into this sequence): the logits no longer describe the cache.
    pub fn forget_logits(&mut self)
        ensures
            final(self).tokens == old(self).tokens,
            final(self).token_snapshot == old(self).token_snapshot,
            final(self).logits is None,
    {
        self.logits = None;
    }
}

} // verus!
