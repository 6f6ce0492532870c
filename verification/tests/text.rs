use rusty_llama::text::{
    check_tokenizable, desc_buffer_len, desc_from_buffer, finish_tokens, piece_from_buffer,
    text_from_bytes, token_buffer_len, token_or_none, LLAMA_TOKEN_NULL,
};
use rusty_llama::TokenizeError;

#[test]
fn nul_byte_is_refused_with_its_index() {
    assert_eq!(check_tokenizable("hello"), Ok(()));
    assert_eq!(check_tokenizable(""), Ok(()));
    assert_eq!(check_tokenizable("ab\0cd\0"), Err(TokenizeError::InteriorNul(2)));
    assert_eq!(check_tokenizable("é\0"), Err(TokenizeError::InteriorNul(2)));
}

#[test]
fn token_buffer_sizes() {
    assert_eq!(token_buffer_len(0), 0);
    assert_eq!(token_buffer_len(-5), 5);
    assert_eq!(finish_tokens(vec![1, 2, 3, 4], 2), vec![1, 2]);
    assert_eq!(finish_tokens(vec![1, 2, 3], 3), vec![1, 2, 3]);
    assert_eq!(finish_tokens(vec![1, 2], 7), vec![1, 2]);
    assert_eq!(finish_tokens(vec![1, 2], -1), vec![1, 2]);
}

#[test]
fn piece_from_written_bytes() {
    let mut buf = [0u8; 64];
    buf[..5].copy_from_slice(b"hello");
    assert_eq!(piece_from_buffer(&buf, 5), Ok("hello".to_string()));
    assert_eq!(piece_from_buffer(&buf, 3), Ok("hel".to_string()));
    assert_eq!(piece_from_buffer(&buf, 0), Ok(String::new()));
    assert_eq!(piece_from_buffer(&buf, -1), Err(()));
    buf[0] = 0xff;
    assert_eq!(piece_from_buffer(&buf, 2), Ok("\u{fffd}e".to_string()));
}

#[test]
fn description_buffer() {
    assert_eq!(desc_buffer_len(0), None);
    assert_eq!(desc_buffer_len(-3), None);
    assert_eq!(desc_buffer_len(10), Some(11));
    let buf = b"llama 7B\0".to_vec();
    assert_eq!(desc_from_buffer(&buf, 8), "llama 7B");
    assert_eq!(desc_from_buffer(&buf, 20), "llama 7B");
    assert_eq!(desc_from_buffer(&buf, 5), "llama");
    assert_eq!(desc_from_buffer(&buf, 0), "");
    assert_eq!(desc_from_buffer(&buf, -2), "");
}

#[test]
fn token_sentinel() {
    assert_eq!(LLAMA_TOKEN_NULL, -1);
    assert_eq!(token_or_none(-1), None);
    assert_eq!(token_or_none(0), Some(0));
    assert_eq!(token_or_none(128001), Some(128001));
}

#[test]
fn native_text_is_decoded_lossily() {
    assert_eq!(text_from_bytes(b"chatml"), "chatml");
    assert_eq!(text_from_bytes(&[0x61, 0xff, 0x62]), "a\u{FFFD}b");
    assert_eq!(text_from_bytes("h\u{e9}".as_bytes()), "h\u{e9}");
    assert_eq!(text_from_bytes(&[]), "");
}
