//! The input container that one decode call consumes.
//!
//! A batch is a set of parallel arrays with one entry per token slot: the
//! token id (or, in embedding mode, `n_embd` embedding values), its position,
//! the sequence ids it belongs to and whether logits are wanted for it. The
//! number of slots is fixed when the batch is made; `n_tokens` counts the
//! slots written since the last [`batch_clear`].
use vstd::prelude::*;

use crate::error::BatchAddError;
use crate::{Pos, SeqId, Token};

verus! {

/// The record a decode call reads: parallel per-slot arrays plus the live
/// entry count.
///
/// The number of slots is the length of `seq_id`; each `seq_id[i]` holds room
/// for the maximum number of sequence ids per slot. In token mode `token` has
/// one entry per slot and `embd` is empty; in embedding mode `token` is empty
/// and `embd` holds `n_embd` values (as IEEE-754 bit patterns) per slot.
pub struct RawBatch {
    pub n_tokens: i32,
    pub token: Vec<Token>,
    pub embd: Vec<u32>,
    pub pos: Vec<Pos>,
    pub n_seq_id: Vec<i32>,
    pub seq_id: Vec<Vec<SeqId>>,
    pub logits: Vec<i8>,
}

impl RawBatch {
    /// Number of slots the batch was made with.
    pub open spec fn capacity(&self) -> nat {
        self.seq_id@.len()
    }

    /// The per-slot arrays agree in length and the live count is in range.
    pub open spec fn wf(&self) -> bool {
        &&& self.pos@.len() == self.capacity()
        &&& self.n_seq_id@.len() == self.capacity()
        &&& self.logits@.len() == self.capacity()
        &&& self.capacity() <= i32::MAX
        &&& 0 <= self.n_tokens <= self.capacity()
        &&& forall|i: int| 0 <= i < self.capacity() ==> (#[trigger] self.seq_id@[i])@.len() <= i32::MAX
    }

    /// The batch carries token ids (rather than embeddings).
    pub open spec fn is_token_mode(&self) -> bool {
        self.token@.len() == self.capacity()
    }

    /// Every slot is in use.
    pub open spec fn is_full(&self) -> bool {
        self.n_tokens == self.capacity()
    }

    /// Every slot has room for at least `n` sequence ids.
    pub open spec fn fits_seq_ids(&self, n: nat) -> bool {
        forall|i: int| 0 <= i < self.capacity() ==> n <= #[trigger] self.seq_id@[i]@.len()
    }

    /// The slot `i` holds the given entry.
    pub open spec fn slot_holds(
        &self,
        i: int,
        id: Token,
        pos: Pos,
        seq_ids: Seq<SeqId>,
        logits: bool,
    ) -> bool {
        &&& self.token@[i] == id
        &&& self.pos@[i] == pos
        &&& self.n_seq_id@[i] == seq_ids.len()
        &&& self.seq_id@[i]@.subrange(0, seq_ids.len() as int) == seq_ids
        &&& self.logits@[i] == (if logits { 1i8 } else { 0i8 })
    }
}

/// Owned batch, made with a fixed number of token slots.
pub struct Batch(pub RawBatch);

/// A batch as it stands right after it was made with `n_tokens` slots and room
/// for `n_seq_max` sequence ids per slot, in token mode when `n_embd == 0` and
/// with `n_embd` values per slot otherwise.
pub open spec fn fresh_batch(b: RawBatch, n_tokens: int, n_embd: int, n_seq_max: int) -> bool {
    &&& b.wf()
    &&& b.n_tokens == 0
    &&& b.capacity() == n_tokens
    &&& b.token@.len() == (if n_embd == 0 { n_tokens } else { 0 })
    &&& b.embd@.len() == (if n_embd == 0 { 0 } else { n_tokens * n_embd })
    &&& forall|i: int| 0 <= i < n_tokens ==> (#[trigger] b.seq_id@[i])@.len() == n_seq_max
}

fn alloc_batch(n_tokens: i32, n_embd: i32, n_seq_max: i32) -> (b: RawBatch)
    requires
        n_tokens >= 0,
        n_embd >= 0,
        n_seq_max >= 0,
        n_tokens * n_embd <= usize::MAX,
    ensures
        fresh_batch(b, n_tokens as int, n_embd as int, n_seq_max as int),
{
    let cap = n_tokens as usize;
    let width = n_seq_max as usize;
    let token: Vec<Token> = if n_embd == 0 { vec![0; cap] } else { Vec::new() };
    let embd: Vec<u32> = if n_embd == 0 { Vec::new() } else { vec![0; cap * (n_embd as usize)] };
    let mut seq_id: Vec<Vec<SeqId>> = Vec::new();
    let mut i: usize = 0;
    while i < cap
        invariant
            i <= cap,
            seq_id@.len() == i,
            forall|j: int| 0 <= j < i ==> (#[trigger] seq_id@[j])@.len() == width,
        decreases cap - i,
    {
        let row: Vec<SeqId> = vec![0; width];
        seq_id.push(row);
        i = i + 1;
    }
    RawBatch {
        n_tokens: 0,
        token,
        embd,
        pos: vec![0; cap],
        n_seq_id: vec![0; cap],
        seq_id,
        logits: vec![0; cap],
    }
}

impl Batch {
    /// Allocate a token-mode batch with room for `n_tokens` token slots and
    /// up to `n_seq_max` sequence ids per slot.
    pub fn init_token(n_tokens: i32, n_seq_max: i32) -> (b: Batch)
        requires
            n_tokens >= 0,
            n_seq_max >= 0,
        ensures
            fresh_batch(b.0, n_tokens as int, 0, n_seq_max as int),
            b.0.is_token_mode(),
    {
        Batch(alloc_batch(n_tokens, 0, n_seq_max))
    }

    /// Allocate an embedding-mode batch with room for `n_tokens` slots of
    /// `n_embd`-dimensional embeddings and up to `n_seq_max` sequence ids per
    /// slot.
    pub fn init_embd(n_tokens: i32, n_embd: i32, n_seq_max: i32) -> (b: Batch)
        requires
            n_tokens >= 0,
            n_embd > 0,
            n_seq_max >= 0,
            n_tokens * n_embd <= usize::MAX,
        ensures
            fresh_batch(b.0, n_tokens as int, n_embd as int, n_seq_max as int),
    {
        Batch(alloc_batch(n_tokens, n_embd, n_seq_max))
    }

    /// Borrow the wrapped record for reading.
    pub fn as_raw(&self) -> (r: &RawBatch)
        ensures
            *r == self.0,
    {
        &self.0
    }

    /// Borrow the wrapped record for writing.
    pub fn as_raw_mut(&mut self) -> (r: &mut RawBatch)
        ensures
            *r == old(self).0,
            final(self).0 == *final(r),
    {
        &mut self.0
    }
}

/// Append a single token entry to `batch` and bump `batch.n_tokens`.
///
/// Writes slot `n_tokens` of the parallel arrays: the token id, its position,
/// the number of sequence ids, the sequence ids themselves and the logits
/// flag. When every slot is in use nothing is written and
/// [`BatchAddError::SizeExceeded`] is returned.
pub fn batch_add(
    batch: &mut RawBatch,
    id: Token,
    pos: Pos,
    seq_ids: &[SeqId],
    logits: bool,
) -> (r: Result<(), BatchAddError>)
    requires
        old(batch).wf(),
        old(batch).is_token_mode(),
        old(batch).fits_seq_ids(seq_ids@.len()),
    ensures
        final(batch).wf(),
        final(batch).is_token_mode(),
        final(batch).seq_id@.len() == old(batch).seq_id@.len(),
        final(batch).fits_seq_ids(seq_ids@.len()),
        r is Err <==> old(batch).is_full(),
        r is Err ==> *final(batch) == *old(batch),
        r is Ok ==> {
            let i = old(batch).n_tokens as int;
            &&& final(batch).n_tokens == old(batch).n_tokens + 1
            &&& final(batch).slot_holds(i, id, pos, seq_ids@, logits)
            &&& final(batch).seq_id@[i]@.subrange(seq_ids@.len() as int, final(batch).seq_id@[i]@.len() as int)
                == old(batch).seq_id@[i]@.subrange(seq_ids@.len() as int, old(batch).seq_id@[i]@.len() as int)
            &&& final(batch).seq_id@[i]@.len() == old(batch).seq_id@[i]@.len()
            &&& forall|j: int| 0 <= j < old(batch).capacity() && j != i ==> {
                &&& #[trigger] final(batch).token@[j] == old(batch).token@[j]
                &&& final(batch).pos@[j] == old(batch).pos@[j]
                &&& final(batch).n_seq_id@[j] == old(batch).n_seq_id@[j]
                &&& final(batch).seq_id@[j] == old(batch).seq_id@[j]
                &&& final(batch).logits@[j] == old(batch).logits@[j]
            }
            &&& final(batch).embd == old(batch).embd
        },
{
    let i = batch.n_tokens as usize;
    if i == batch.seq_id.len() {
        return Err(BatchAddError::SizeExceeded);
    }
    batch.token.set(i, id);
    batch.pos.set(i, pos);
    batch.n_seq_id.set(i, seq_ids.len() as i32);
    let ghost old_row = batch.seq_id@[i as int]@;
    let mut row: Vec<SeqId> = Vec::new();
    std::mem::swap(&mut row, &mut batch.seq_id[i]);
    let mut j: usize = 0;
    while j < seq_ids.len()
        invariant
            j <= seq_ids@.len(),
            seq_ids@.len() <= old_row.len(),
            row@.len() == old_row.len(),
            row@.subrange(0, j as int) == seq_ids@.subrange(0, j as int),
            row@.subrange(seq_ids@.len() as int, row@.len() as int)
                == old_row.subrange(seq_ids@.len() as int, old_row.len() as int),
        decreases seq_ids@.len() - j,
    {
        row.set(j, seq_ids[j]);
        assert(row@.subrange(0, j + 1) == seq_ids@.subrange(0, j + 1));
        j = j + 1;
    }
    std::mem::swap(&mut row, &mut batch.seq_id[i]);
    batch.logits.set(i, if logits { 1i8 } else { 0i8 });
    batch.n_tokens = batch.n_tokens + 1;
    proof {
        assert(seq_ids@.subrange(0, seq_ids@.len() as int) == seq_ids@);
        assert forall|k: int| 0 <= k < batch.capacity() implies seq_ids@.len() <= #[trigger] batch.seq_id@[k]@.len() by {
            if k != i as int {
                assert(old(batch).seq_id@[k]@.len() >= seq_ids@.len());
            }
        }
    }
    Ok(())
}

/// Reset `batch.n_tokens` to zero so the batch can be filled again. The slot
/// contents stay as they are; they are simply no longer counted as live.
pub fn batch_clear(batch: &mut RawBatch)
    ensures
        *final(batch) == (RawBatch { n_tokens: 0, ..*old(batch) }),
{
    batch.n_tokens = 0;
}

} // verus!
