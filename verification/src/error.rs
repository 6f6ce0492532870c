use vstd::prelude::*;

verus! {

/// Outcome of a failed decode call, as reported by the native status code.
#[derive(Debug, Clone, Copy, PartialEq, Eq, Structural)]
pub enum DecodeError {
    SlotNotFound,
    Aborted,
    InvalidInput,
    FatalError,
}

/// Errors returned by the request/reply path of a context.
#[derive(Debug, Clone, Copy, PartialEq, Eq, Structural)]
pub enum ContextError {
    WorkerStopped,
}

/// Errors that can occur while creating a context.
#[derive(Debug, Clone, Copy, PartialEq, Eq, Structural)]
pub enum ContextInitError {
    /// The safe constructor was given callbacks, callback user data, or native
    /// backend sampler pointers that may reference thread-affine external state.
    ThreadUnsafeParams,
    /// The dedicated context worker thread could not be spawned.
    ThreadSpawnFailed,
    /// The worker stopped before reporting whether native initialization
    /// succeeded.
    WorkerStopped,
    /// Native initialization returned a null context.
    NativeInitFailed,
}

/// Errors returned by tokenization of text.
#[derive(Debug, Clone, Copy, PartialEq, Eq, Structural)]
pub enum TokenizeError {
    /// The text contains a NUL byte at this index, which the tokenizer cannot
    /// encode.
    InteriorNul(usize),
}

/// Reasons a batch can refuse to take another entry.
#[derive(Debug, Clone, Copy, PartialEq, Eq, Structural)]
pub enum BatchAddError {
    /// Every slot of the batch is already in use.
    SizeExceeded,
}

/// The decode outcome that a native status code stands for: `0` is success,
/// `1` means no KV slot was found, `2` that the call was aborted, `-1` that
/// the input was invalid, and every other code is fatal.
pub open spec fn spec_decode_status(code: i32) -> Result<(), DecodeError> {
    if code == 0 {
        Ok(())
    } else if code == 1 {
        Err(DecodeError::SlotNotFound)
    } else if code == 2 {
        Err(DecodeError::Aborted)
    } else if code == -1 {
        Err(DecodeError::InvalidInput)
    } else {
        Err(DecodeError::FatalError)
    }
}

/// A decode succeeds only on status `0`; `1`, `2` and `-1` are the missing
/// KV slot, the abort and the invalid input, each on that code alone; every
/// other code, positive or negative, is fatal.
pub proof fn lemma_decode_status_codes(code: i32)
    ensures
        spec_decode_status(code) is Ok <==> code == 0,
        spec_decode_status(code) == Err::<(), DecodeError>(DecodeError::SlotNotFound) <==> code == 1,
        spec_decode_status(code) == Err::<(), DecodeError>(DecodeError::Aborted) <==> code == 2,
        spec_decode_status(code) == Err::<(), DecodeError>(DecodeError::InvalidInput) <==> code == -1,
        code != 0 && code != 1 && code != 2 && code != -1 ==> spec_decode_status(code) == Err::<
            (),
            DecodeError,
        >(DecodeError::FatalError),
{
}

/// Maps the status code returned by a native decode call to its outcome.
pub fn decode_status(code: i32) -> (r: Result<(), DecodeError>)
    ensures
        r == spec_decode_status(code),
{
    match code {
        0 => Ok(()),
        1 => Err(DecodeError::SlotNotFound),
        2 => Err(DecodeError::Aborted),
        -1 => Err(DecodeError::InvalidInput),
        _ => Err(DecodeError::FatalError),
    }
}

} // verus!
