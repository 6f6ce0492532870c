//! Decisions around the native text functions: tokenisation, token pieces,
//! model descriptions, and optional special tokens.
//!
//! The native calls fill caller-provided buffers and report sizes; these
//! functions check the input, size the buffers, and turn what was written
//! into Rust values.
use vstd::prelude::*;
use vstd::string::StringSliceAdditionalSpecFns;
use vstd::utf8::{decode_utf8, valid_utf8};

use crate::error::TokenizeError;
use crate::Token;

verus! {

/// The token id llama.cpp returns when a model has no such token.
pub const LLAMA_TOKEN_NULL: Token = -1;

/// A token id, or `None` for the "no such token" sentinel.
pub fn token_or_none(token: Token) -> (r: Option<Token>)
    ensures
        r == (if token == LLAMA_TOKEN_NULL { None } else { Some(token) }),
{
    if token == LLAMA_TOKEN_NULL {
        None
    } else {
        Some(token)
    }
}

/// `p` is the index of the first NUL byte of `bytes`.
pub open spec fn is_first_nul(bytes: Seq<u8>, p: int) -> bool {
    &&& 0 <= p < bytes.len()
    &&& bytes[p] == 0
    &&& forall|j: int| 0 <= j < p ==> bytes[j] != 0
}

/// Check that `text` can be handed to the tokenizer: a NUL byte cannot be
/// encoded, and its byte index is reported.
pub fn check_tokenizable(text: &str) -> (r: Result<(), TokenizeError>)
    ensures
        r is Ok <==> forall|j: int| 0 <= j < text.spec_bytes().len() ==> text.spec_bytes()[j] != 0,
        r matches Err(TokenizeError::InteriorNul(p)) ==> is_first_nul(text.spec_bytes(), p as int),
{
    let bytes = text.as_bytes();
    let mut i: usize = 0;
    while i < bytes.len()
        invariant
            bytes@ == text.spec_bytes(),
            i <= bytes@.len(),
            forall|j: int| 0 <= j < i ==> bytes@[j] != 0,
        decreases bytes@.len() - i,
    {
        if bytes[i] == 0 {
            return Err(TokenizeError::InteriorNul(i));
        }
        i = i + 1;
    }
    Ok(())
}

/// Size of the token buffer, from the result of a first tokenizer call made
/// with no room: the negated number of tokens the text needs.
pub fn token_buffer_len(first_call: i32) -> (r: usize)
    requires
        i32::MIN < first_call <= 0,
    ensures
        r == -first_call,
{
    (-first_call) as usize
}

/// The tokens of a filled buffer, given the count the filling call returned:
/// the buffer is cut to that count when it fits, and left as it is otherwise.
pub fn finish_tokens(tokens: Vec<Token>, n_tokens: i32) -> (r: Vec<Token>)
    ensures
        r@ == (if 0 <= n_tokens <= tokens@.len() {
            tokens@.subrange(0, n_tokens as int)
        } else {
            tokens@
        }),
{
    let mut tokens = tokens;
    if n_tokens >= 0 {
        tokens.truncate(n_tokens as usize);
    }
    tokens
}

/// The characters that `String::from_utf8_lossy` makes of `bytes`.
pub uninterp spec fn utf8_lossy(bytes: Seq<u8>) -> Seq<char>;

/// `bytes` is plain ASCII.
pub open spec fn is_ascii_bytes(bytes: Seq<u8>) -> bool {
    forall|i: int| 0 <= i < bytes.len() ==> bytes[i] < 0x80
}

/// Calls `String::from_utf8_lossy`: it decodes `bytes` as UTF-8, putting
/// U+FFFD in place of invalid sequences. The contract names the result; of
/// valid UTF-8 input, which std hands back as the string it already is, it
/// states that the result is exactly the characters the bytes encode, and of
/// ASCII input that each byte becomes its character.
#[verifier::external_body]
fn from_utf8_lossy(bytes: &[u8]) -> (r: String)
    ensures
        r@ == utf8_lossy(bytes@),
        valid_utf8(bytes@) ==> r@ == decode_utf8(bytes@),
        is_ascii_bytes(bytes@) ==> r@ == Seq::new(bytes@.len(), |i: int| bytes@[i] as char),
{
    String::from_utf8_lossy(bytes).into_owned()
}

/// The text of a native string's bytes (without its NUL terminator), with
/// invalid UTF-8 replaced by U+FFFD.
pub fn text_from_bytes(bytes: &[u8]) -> (r: String)
    ensures
        r@ == utf8_lossy(bytes@),
        valid_utf8(bytes@) ==> r@ == decode_utf8(bytes@),
        is_ascii_bytes(bytes@) ==> r@ == Seq::new(bytes@.len(), |i: int| bytes@[i] as char),
{
    from_utf8_lossy(bytes)
}

fn lossy_prefix(buf: &[u8], n: usize) -> (r: String)
    requires
        n <= buf@.len(),
    ensures
        r@ == utf8_lossy(buf@.subrange(0, n as int)),
        valid_utf8(buf@.subrange(0, n as int)) ==> r@ == decode_utf8(buf@.subrange(0, n as int)),
        is_ascii_bytes(buf@.subrange(0, n as int)) ==> r@ == Seq::new(n as nat, |i: int| buf@[i] as char),
{
    let mut prefix: Vec<u8> = Vec::new();
    let mut i: usize = 0;
    while i < n
        invariant
            i <= n <= buf@.len(),
            prefix@ == buf@.subrange(0, i as int),
        decreases n - i,
    {
        prefix.push(buf[i]);
        assert(buf@.subrange(0, i + 1) == buf@.subrange(0, i as int).push(buf@[i as int]));
        i = i + 1;
    }
    let r = from_utf8_lossy(prefix.as_slice());
    proof {
        if is_ascii_bytes(buf@.subrange(0, n as int)) {
            assert(r@ =~= Seq::new(n as nat, |i: int| buf@[i] as char));
        }
    }
    r
}

/// The text of a token piece written into `buf`, given the byte count the
/// native call returned; a negative count is an error.
pub fn piece_from_buffer(buf: &[u8], n: i32) -> (r: Result<String, ()>)
    requires
        n <= buf@.len(),
    ensures
        r is Err <==> n < 0,
        r matches Ok(s) ==> s@ == utf8_lossy(buf@.subrange(0, n as int)),
        r matches Ok(s) ==> valid_utf8(buf@.subrange(0, n as int)) ==> s@ == decode_utf8(
            buf@.subrange(0, n as int),
        ),
        r matches Ok(s) ==> is_ascii_bytes(buf@.subrange(0, n as int)) ==> s@ == Seq::new(
            n as nat,
            |i: int| buf@[i] as char,
        ),
{
    if n < 0 {
        return Err(());
    }
    Ok(lossy_prefix(buf, n as usize))
}

/// Size of the buffer for a model description, from the length a first call
/// without a buffer reported (room for a terminating NUL is added); none when
/// there is nothing to describe.
pub fn desc_buffer_len(needed: i32) -> (r: Option<usize>)
    ensures
        r == (if needed <= 0 { None } else { Some((needed + 1) as usize) }),
{
    if needed <= 0 {
        None
    } else {
        Some((needed as usize) + 1)
    }
}

/// The description written into `buf`, given the length the filling call
/// returned, capped to leave out the terminating NUL; empty when nothing was
/// written.
pub fn desc_from_buffer(buf: &[u8], written: i32) -> (r: String)
    requires
        buf@.len() >= 1,
    ensures
        written <= 0 ==> r@ == Seq::<char>::empty(),
        written > 0 ==> {
            let n = if written < buf@.len() - 1 { written as int } else { buf@.len() - 1 };
            &&& r@ == utf8_lossy(buf@.subrange(0, n))
            &&& valid_utf8(buf@.subrange(0, n)) ==> r@ == decode_utf8(buf@.subrange(0, n))
            &&& is_ascii_bytes(buf@.subrange(0, n)) ==> r@ == Seq::new(n as nat, |i: int| buf@[i] as char)
        },
{
    if written <= 0 {
        return String::new();
    }
    let cap = buf.len() - 1;
    let n: usize = if (written as usize) < cap { written as usize } else { cap };
    lossy_prefix(buf, n)
}

} // verus!
