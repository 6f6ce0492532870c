use rusty_llama::{batch_add, batch_clear, Batch, BatchAddError};

#[test]
fn init_token_shape() {
    let b = Batch::init_token(3, 2);
    let raw = b.as_raw();
    assert_eq!(raw.n_tokens, 0);
    assert_eq!(raw.token.len(), 3);
    assert_eq!(raw.pos.len(), 3);
    assert_eq!(raw.n_seq_id.len(), 3);
    assert_eq!(raw.logits.len(), 3);
    assert_eq!(raw.seq_id.len(), 3);
    assert!(raw.seq_id.iter().all(|row| row.len() == 2));
    assert!(raw.embd.is_empty());
}

#[test]
fn init_embd_shape() {
    let b = Batch::init_embd(2, 4, 1);
    let raw = b.as_raw();
    assert_eq!(raw.n_tokens, 0);
    assert!(raw.token.is_empty());
    assert_eq!(raw.embd.len(), 8);
    assert_eq!(raw.seq_id.len(), 2);
}

#[test]
fn batch_add_writes_slot() {
    let mut b = Batch::init_token(2, 3);
    let raw = b.as_raw_mut();
    assert_eq!(batch_add(raw, 42, 7, &[1, 2], true), Ok(()));
    assert_eq!(raw.n_tokens, 1);
    assert_eq!(raw.token[0], 42);
    assert_eq!(raw.pos[0], 7);
    assert_eq!(raw.n_seq_id[0], 2);
    assert_eq!(&raw.seq_id[0][..2], &[1, 2]);
    assert_eq!(raw.logits[0], 1);
    assert_eq!(batch_add(raw, 9, 8, &[0], false), Ok(()));
    assert_eq!(raw.n_tokens, 2);
    assert_eq!(raw.token[1], 9);
    assert_eq!(raw.logits[1], 0);
    assert_eq!(raw.token[0], 42);
}

#[test]
fn batch_add_full_is_refused() {
    let mut b = Batch::init_token(1, 1);
    let raw = b.as_raw_mut();
    assert_eq!(batch_add(raw, 5, 0, &[0], true), Ok(()));
    assert_eq!(batch_add(raw, 6, 1, &[0], true), Err(BatchAddError::SizeExceeded));
    assert_eq!(raw.n_tokens, 1);
    assert_eq!(raw.token[0], 5);
    assert_eq!(raw.pos[0], 0);
}

#[test]
fn batch_add_zero_capacity() {
    let mut b = Batch::init_token(0, 1);
    assert_eq!(batch_add(b.as_raw_mut(), 1, 0, &[0], true), Err(BatchAddError::SizeExceeded));
    assert_eq!(b.as_raw().n_tokens, 0);
}

#[test]
fn batch_clear_resets_count() {
    let mut b = Batch::init_token(1, 1);
    assert_eq!(batch_add(b.as_raw_mut(), 5, 0, &[0], true), Ok(()));
    batch_clear(b.as_raw_mut());
    assert_eq!(b.as_raw().n_tokens, 0);
    assert_eq!(b.as_raw().token[0], 5);
    assert_eq!(batch_add(b.as_raw_mut(), 6, 3, &[0], false), Ok(()));
    assert_eq!(b.as_raw().token[0], 6);
    assert_eq!(b.as_raw().pos[0], 3);
}
