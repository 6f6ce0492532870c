//! rusty-llama - the verified core of safe bindings for llama.cpp.
use vstd::prelude::*;

pub mod error;
pub mod batch;
pub mod logit;
pub mod samplers;
pub mod worker;
pub mod params;
pub mod backend;
pub mod text;

pub use error::{BatchAddError, ContextError, ContextInitError, DecodeError, TokenizeError};
pub use batch::{batch_add, batch_clear, Batch, RawBatch};

verus! {

/// Type alias for llama.cpp token IDs.
pub type Token = i32;

/// Type alias for llama.cpp position indices.
pub type Pos = i32;

/// Type alias for llama.cpp sequence IDs.
pub type SeqId = i32;

} // verus!
