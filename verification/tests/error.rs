use rusty_llama::error::{decode_status, DecodeError};

#[test]
fn decode_status_codes() {
    assert_eq!(decode_status(0), Ok(()));
    assert_eq!(decode_status(1), Err(DecodeError::SlotNotFound));
    assert_eq!(decode_status(2), Err(DecodeError::Aborted));
    assert_eq!(decode_status(-1), Err(DecodeError::InvalidInput));
    assert_eq!(decode_status(3), Err(DecodeError::FatalError));
    assert_eq!(decode_status(-2), Err(DecodeError::FatalError));
    assert_eq!(decode_status(i32::MIN), Err(DecodeError::FatalError));
}
