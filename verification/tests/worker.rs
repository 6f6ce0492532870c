use rusty_llama::worker::{push_outcome, MemoryOp, SequenceSnapshot, Worker};
use rusty_llama::DecodeError;
use rusty_llama::logit::{stable_order, NEG_INFINITY_BITS};
use rusty_llama::samplers::{mask_ranked, xtc_cut};

type Logits = Vec<f32>;

fn snapshot(tokens: &[i32]) -> SequenceSnapshot<Logits> {
    SequenceSnapshot { tokens: tokens.to_vec(), token_snapshot: Some(tokens.to_vec()), logits: Some(vec![0.5]) }
}

#[test]
fn checkout_takes_lowest_free_slot() {
    let mut w = Worker::new(3, 32);
    assert_eq!(w.free_slots(), 3);
    assert_eq!(w.n_seq_max(), 3);
    let a = w.checkout_sequence::<Logits>(1).unwrap();
    assert_eq!(a.id, 0);
    assert!(a.snapshot.tokens.is_empty());
    assert_eq!(a.snapshot.token_snapshot, Some(vec![]));
    assert!(a.snapshot.logits.is_none());
    let b = w.checkout_sequence::<Logits>(2).unwrap();
    assert_eq!(b.id, 1);
    assert_eq!(w.free_slots(), 1);
    w.commit_checkout(1);
    w.commit_checkout(2);
    assert_eq!(w.release_seq(0), MemoryOp::SeqRm { seq_id: 0, p0: -1, p1: -1 });
    assert_eq!(w.free_slots(), 2);
    let c = w.checkout_sequence::<Logits>(3).unwrap();
    assert_eq!(c.id, 0);
    let (id, snap) = c.into_parts();
    assert_eq!(id, 0);
    assert!(snap.tokens.is_empty());
}

#[test]
fn checkout_fails_when_full() {
    let mut w = Worker::new(1, 32);
    assert!(w.checkout_sequence::<Logits>(1).is_some());
    assert!(w.checkout_sequence::<Logits>(2).is_none());
    assert_eq!(w.free_slots(), 0);
    let mut empty = Worker::new(0, 32);
    assert!(empty.checkout_sequence::<Logits>(1).is_none());
}

#[test]
fn cancel_hands_pending_slot_back() {
    let mut w = Worker::new(2, 32);
    let r = w.checkout_sequence::<Logits>(7).unwrap();
    assert_eq!(w.cancel_checkout(7), Some(MemoryOp::SeqRm { seq_id: r.id, p0: -1, p1: -1 }));
    assert_eq!(w.free_slots(), 2);
    assert_eq!(w.cancel_checkout(7), None);
    assert_eq!(w.free_slots(), 2);
}

#[test]
fn cancel_after_commit_keeps_slot() {
    let mut w = Worker::new(2, 32);
    w.checkout_sequence::<Logits>(7).unwrap();
    w.commit_checkout(7);
    assert_eq!(w.cancel_checkout(7), None);
    assert_eq!(w.free_slots(), 1);
}

#[test]
fn release_drops_pending_checkout() {
    let mut w = Worker::new(2, 32);
    let r = w.checkout_sequence::<Logits>(9).unwrap();
    w.release_seq(r.id);
    assert_eq!(w.free_slots(), 2);
    assert_eq!(w.cancel_checkout(9), None);
    assert_eq!(w.free_slots(), 2);
}

#[test]
fn release_of_unknown_slot_changes_nothing() {
    let mut w = Worker::new(2, 32);
    w.checkout_sequence::<Logits>(1).unwrap();
    assert_eq!(w.release_seq(5), MemoryOp::SeqRm { seq_id: 5, p0: -1, p1: -1 });
    assert_eq!(w.release_seq(-1), MemoryOp::SeqRm { seq_id: -1, p0: -1, p1: -1 });
    assert_eq!(w.free_slots(), 1);
}

#[test]
fn undelivered_checkout_is_undone() {
    let mut w = Worker::new(2, 32);
    let r = w.checkout_sequence::<Logits>(4).unwrap();
    assert_eq!(
        w.checkout_undelivered(4, Some(r.id)),
        Some(MemoryOp::SeqRm { seq_id: r.id, p0: -1, p1: -1 })
    );
    assert_eq!(w.free_slots(), 2);
    assert_eq!(w.checkout_undelivered(5, None), None);
    assert_eq!(w.free_slots(), 2);
}

#[test]
fn prepare_push_loads_single_entry() {
    let mut w = Worker::new(4, 32);
    assert_eq!(w.prepare_push(11, 0, 2), Ok(()));
    assert_eq!(w.prepare_push(12, 5, 3), Ok(()));
    let raw = w.batch().as_raw();
    assert_eq!(raw.n_tokens, 1);
    assert_eq!(raw.token[0], 12);
    assert_eq!(raw.pos[0], 5);
    assert_eq!(raw.n_seq_id[0], 1);
    assert_eq!(raw.seq_id[0][0], 3);
    assert_eq!(raw.logits[0], 1);
}

#[test]
fn logits_length_and_push_outcome() {
    let w = Worker::new(1, 32);
    assert_eq!(w.n_vocab(), 32);
    assert_eq!(w.logits_len(false), Some(32));
    assert_eq!(w.logits_len(true), None);
    let w0 = Worker::new(1, 0);
    assert_eq!(w0.logits_len(false), None);
    assert_eq!(push_outcome(Ok(()), Some(3u8)), Ok(3u8));
    assert_eq!(push_outcome::<u8>(Ok(()), None), Err(DecodeError::FatalError));
    assert_eq!(push_outcome(Err(DecodeError::SlotNotFound), Some(3u8)), Err(DecodeError::SlotNotFound));
}

#[test]
fn push_then_pop_restores_tokens() {
    let mut s = snapshot(&[1, 2]);
    assert_eq!(s.push_position(), 2);
    assert_eq!(s.record_push(3, Ok(vec![0.25])), Ok(()));
    assert_eq!(s.tokens(), &[1, 2, 3]);
    assert_eq!(s.token_snapshot, None);
    assert_eq!(s.logits, Some(vec![0.25]));
    assert_eq!(s.begin_pop(4), Some(MemoryOp::SeqRm { seq_id: 4, p0: 2, p1: 3 }));
    assert_eq!(s.apply_pop(true), Some(3));
    assert_eq!(s.tokens(), &[1, 2]);
    assert!(s.logits.is_none());
}

#[test]
fn pop_that_kv_refused_changes_nothing() {
    let mut s = snapshot(&[1, 2]);
    assert_eq!(s.apply_pop(false), None);
    assert_eq!(s.tokens(), &[1, 2]);
    assert_eq!(s.logits, Some(vec![0.5]));
    let e: SequenceSnapshot<Logits> = SequenceSnapshot::empty();
    assert_eq!(e.begin_pop(0), None);
    assert!(e.is_empty());
}

#[test]
fn snapshot_reads() {
    let s = snapshot(&[4, 5, 6]);
    assert_eq!(s.len(), 3);
    assert!(!s.is_empty());
    assert_eq!(s.get(1), Some(5));
    assert_eq!(s.get(3), None);
    assert_eq!(s.last_token(), Some((6, 2)));
    let e: SequenceSnapshot<Logits> = SequenceSnapshot::empty();
    assert_eq!(e.last_token(), None);
}

#[test]
fn failed_push_leaves_sequence_unchanged() {
    let mut s = snapshot(&[1, 2]);
    assert_eq!(s.record_push(3, Err(DecodeError::SlotNotFound)), Err(DecodeError::SlotNotFound));
    assert_eq!(s.tokens(), &[1, 2]);
    assert_eq!(s.token_snapshot, Some(vec![1, 2]));
    assert_eq!(s.logits, Some(vec![0.5]));
}

#[test]
fn decode_refresh_sets_logits() {
    let mut s = snapshot(&[4]);
    assert_eq!(s.record_decode(Err(DecodeError::Aborted)), Err(DecodeError::Aborted));
    assert_eq!(s.logits, Some(vec![0.5]));
    assert_eq!(s.record_decode(Ok(None)), Ok(()));
    assert_eq!(s.logits, Some(vec![0.5]));
    assert_eq!(s.record_decode(Ok(Some(vec![9.0]))), Ok(()));
    assert_eq!(s.logits, Some(vec![9.0]));
    assert_eq!(s.tokens(), &[4]);
    assert_eq!(s.token_snapshot, Some(vec![4]));
}

#[test]
fn remove_range_and_shift() {
    let s = snapshot(&[10, 11, 12, 13, 14]);
    assert!(s.range_is_valid(1, 3));
    assert!(s.range_is_valid(5, 5));
    assert!(!s.range_is_valid(-1, 2));
    assert!(!s.range_is_valid(3, 2));
    assert!(!s.range_is_valid(2, 6));
    assert_eq!(s.begin_remove(7, 1, 3), Some(MemoryOp::SeqRm { seq_id: 7, p0: 1, p1: 3 }));
    assert_eq!(s.begin_remove(7, 2, 6), None);
    assert_eq!(s.remove_shift(7, 1, 3), Some(MemoryOp::SeqAdd { seq_id: 7, p0: 3, p1: -1, delta: -2 }));
    assert_eq!(s.remove_shift(7, 2, 2), None);
    assert_eq!(s.remove_shift(7, 3, 5), None);
    let mut s = s;
    assert_eq!(s.finish_remove(7, 1, 3, false), (false, None));
    assert_eq!(s.tokens(), &[10, 11, 12, 13, 14]);
    assert_eq!(s.finish_remove(7, 1, 3, true), (true, Some(MemoryOp::SeqAdd { seq_id: 7, p0: 3, p1: -1, delta: -2 })));
    assert_eq!(s.tokens(), &[10, 13, 14]);
    assert!(s.logits.is_none());
    assert!(s.token_snapshot.is_none());
    assert_eq!(s.finish_remove(7, 1, 3, true), (true, None));
    assert_eq!(s.tokens(), &[10]);
}

#[test]
fn copy_ops_and_apply() {
    let src = snapshot(&[1, 2, 3, 4]);
    assert_eq!(
        src.copy_ops(0, 1, 1, 3),
        Some(vec![
            MemoryOp::SeqRm { seq_id: 1, p0: -1, p1: -1 },
            MemoryOp::SeqCp { src: 0, dst: 1, p0: 1, p1: 3 },
            MemoryOp::SeqAdd { seq_id: 1, p0: 1, p1: 3, delta: -1 },
        ])
    );
    assert_eq!(
        src.copy_ops(0, 1, 0, 2),
        Some(vec![MemoryOp::SeqRm { seq_id: 1, p0: -1, p1: -1 }, MemoryOp::SeqCp { src: 0, dst: 1, p0: 0, p1: 2 }])
    );
    assert_eq!(src.copy_ops(0, 1, 2, 9), None);
    let mut dst = snapshot(&[9, 9, 9]);
    dst.apply_copy(src.tokens(), 1, 3);
    assert_eq!(dst.tokens(), &[2, 3]);
    assert!(dst.logits.is_none());
}

#[test]
fn direct_kv_edits_drop_logits() {
    let mut s = snapshot(&[1]);
    s.apply_seq_rm(false);
    assert_eq!(s.logits, Some(vec![0.5]));
    s.apply_seq_rm(true);
    assert!(s.logits.is_none());
    let mut s = snapshot(&[1]);
    s.forget_logits();
    assert!(s.logits.is_none());
    assert_eq!(s.tokens(), &[1]);
}

#[test]
fn xtc_cut_and_mask() {
    let logits: Vec<u32> = [2.0f32, 5.0, 4.0, 0.0].iter().map(|x| x.to_bits()).collect();
    let probs: Vec<u32> = [0.05f32, 0.5, 0.4, 0.05].iter().map(|x| x.to_bits()).collect();
    let order = stable_order(&logits, true);
    assert_eq!(order, vec![1, 2, 0, 3]);
    let th = 0.3f32.to_bits();
    assert_eq!(xtc_cut(&order, &probs, th, 1), 2);
    assert_eq!(xtc_cut(&order, &probs, th, 2), 2);
    assert_eq!(xtc_cut(&order, &probs, th, 3), 0);
    assert_eq!(xtc_cut(&order, &probs, 0.45f32.to_bits(), 1), 0);
    assert_eq!(xtc_cut(&order, &probs, 0.01f32.to_bits(), 0), 4);
    assert_eq!(xtc_cut(&order, &probs, 0.01f32.to_bits(), 1), 0);
    let mut l = logits.clone();
    mask_ranked(&mut l, &order, 2);
    assert_eq!(l, vec![logits[0], NEG_INFINITY_BITS, NEG_INFINITY_BITS, logits[3]]);
}

#[test]
fn xtc_drops_every_token_at_or_above_threshold() {
    let logits: Vec<u32> = [3.0f32, 2.0, -10.0].iter().map(|x| x.to_bits()).collect();
    let max = 3.0f32;
    let exps: Vec<f32> = [3.0f32, 2.0, -10.0].iter().map(|l| (l - max).exp()).collect();
    let sum: f32 = exps.iter().sum();
    let probs: Vec<u32> = exps.iter().map(|e| (e / sum).to_bits()).collect();
    let order = stable_order(&logits, true);
    let cut = xtc_cut(&order, &probs, 0.1f32.to_bits(), 1);
    assert_eq!(cut, 2);
    let mut l = logits.clone();
    mask_ranked(&mut l, &order, cut);
    let out: Vec<f32> = l.iter().map(|b| f32::from_bits(*b)).collect();
    assert_eq!(out, vec![f32::NEG_INFINITY, f32::NEG_INFINITY, -10.0]);
}
