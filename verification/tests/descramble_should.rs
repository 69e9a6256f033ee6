use edge_proxy::obfuscation::{
    build_fetch_request_body, chacha20_decrypt, decrypt_stream_url, encode_variant,
    parse_protobuf, rot71_decode,
};

use base64::Engine;
use chacha20::cipher::{KeyIvInit, StreamCipher, StreamCipherSeek};

fn chacha_block1(key: &[u8], nonce: &[u8], data: &[u8]) -> Vec<u8> {
    let mut cipher = chacha20::ChaCha20::new(
        chacha20::Key::from_slice(key),
        chacha20::Nonce::from_slice(nonce),
    );
    cipher.seek(64u64);
    let mut buf = data.to_vec();
    cipher.apply_keystream(&mut buf);
    buf
}

/// The inverse of ROT-71 within the printable range: rotate by 23.
fn rot71_inverse(s: &str) -> String {
    s.chars()
        .map(|c| {
            let code = c as u32;
            if (33..=126).contains(&code) {
                char::from_u32(33 + ((code - 33) + 23) % 94).unwrap()
            } else {
                c
            }
        })
        .collect()
}

#[test]
fn rot71_maps_range_endpoints() {
    // '!' (33) -> 33 + ((0 + 71) % 94) = 104 = 'h'
    assert_eq!(rot71_decode("!"), "h");
    // '~' (126) -> 33 + ((93 + 71) % 94) = 103 = 'g'
    assert_eq!(rot71_decode("~"), "g");
    // a space (32) is outside the range and passes through
    assert_eq!(rot71_decode(" "), " ");
    assert_eq!(rot71_decode("!~ !"), "hg h");
}

#[test]
fn rot71_inverse_round_trips() {
    let original = "QWxhZGRpbjpvcGVuIHNlc2FtZQ==";
    assert_eq!(rot71_decode(&rot71_inverse(original)), original);
}

#[test]
fn varint_encodes_single_and_multi_byte() {
    let mut out: Vec<u8> = Vec::new();
    encode_variant(0, &mut out);
    assert_eq!(out, vec![0x00]);

    let mut out: Vec<u8> = Vec::new();
    encode_variant(127, &mut out);
    assert_eq!(out, vec![0x7f]);

    let mut out: Vec<u8> = Vec::new();
    encode_variant(300, &mut out);
    // 300 = 0b100101100 -> 0xac 0x02
    assert_eq!(out, vec![0xac, 0x02]);
}

#[test]
fn protobuf_parses_two_fields() {
    let mut buffer: Vec<u8> = Vec::new();
    buffer.push(0x0a);
    encode_variant(5, &mut buffer);
    buffer.extend_from_slice(b"hello");
    buffer.push(0x12);
    encode_variant(4, &mut buffer);
    buffer.extend_from_slice(b"name");

    let (f1, f2) = parse_protobuf(&buffer).unwrap();
    assert_eq!(f1, "hello");
    assert_eq!(f2.as_deref(), Some("name"));
}

#[test]
fn protobuf_skips_unknown_tags_and_halts_on_truncation() {
    let mut buffer: Vec<u8> = Vec::new();
    // unknown tag 0x1a, skipped by its declared length
    buffer.push(0x1a);
    encode_variant(3, &mut buffer);
    buffer.extend_from_slice(b"xyz");
    buffer.push(0x0a);
    encode_variant(2, &mut buffer);
    buffer.extend_from_slice(b"ok");
    // truncated record: declares 100 bytes, supplies none
    buffer.push(0x12);
    encode_variant(100, &mut buffer);

    let (f1, f2) = parse_protobuf(&buffer).unwrap();
    assert_eq!(f1, "ok");
    assert!(f2.is_none());
}

#[test]
fn protobuf_without_field1_is_an_error() {
    let mut buffer: Vec<u8> = Vec::new();
    buffer.push(0x12);
    encode_variant(4, &mut buffer);
    buffer.extend_from_slice(b"name");
    assert!(parse_protobuf(&buffer).is_err());
}

#[test]
fn chacha20_counter_one_recovers_url() {
    let key = "0123456789abcdef0123456789abcdef";
    let nonce = b"unique_nonc!";
    let plaintext = b"https://example.invalid/stream.m3u8XYZ";
    let ciphertext = chacha_block1(key.as_bytes(), nonce, plaintext);

    let mut decoded: Vec<u8> = Vec::new();
    decoded.extend_from_slice(nonce);
    decoded.extend_from_slice(&ciphertext);

    let url = chacha20_decrypt(&decoded, key).unwrap();
    assert_eq!(url, "https://example.invalid/stream.m3u8");
}

#[test]
fn chacha20_counter_zero_would_be_wrong() {
    // the same ciphertext under counter 0 must not decrypt to the URL
    let key = "0123456789abcdef0123456789abcdef";
    let nonce = b"unique_nonc!";
    let plaintext = b"https://example.invalid/stream.m3u8XYZ";
    let mut cipher = chacha20::ChaCha20::new(
        chacha20::Key::from_slice(key.as_bytes()),
        chacha20::Nonce::from_slice(nonce),
    );
    let mut ciphertext = plaintext.to_vec();
    cipher.apply_keystream(&mut ciphertext); // counter 0

    let mut decoded: Vec<u8> = Vec::new();
    decoded.extend_from_slice(nonce);
    decoded.extend_from_slice(&ciphertext);

    let url = chacha20_decrypt(&decoded, key).unwrap();
    assert_ne!(url, "https://example.invalid/stream.m3u8");
}

#[test]
fn chacha20_rejects_short_data_and_bad_key() {
    assert!(chacha20_decrypt(&[0u8; 11], "0123456789abcdef0123456789abcdef").is_err());
    assert!(chacha20_decrypt(&[0u8; 16], "short key").is_err());
}

#[test]
fn decrypt_stream_url_unwraps_whole_pipeline() {
    let key = "0123456789abcdef0123456789abcdef";
    let nonce = b"unique_nonc!";
    let plaintext = b"https://example.invalid/stream.m3u8\0garbage";
    let ciphertext = chacha_block1(key.as_bytes(), nonce, plaintext);

    let mut decoded: Vec<u8> = Vec::new();
    decoded.extend_from_slice(nonce);
    decoded.extend_from_slice(&ciphertext);

    let b64 = base64::engine::general_purpose::STANDARD.encode(&decoded);
    let field1 = rot71_inverse(&b64);

    let mut blob: Vec<u8> = Vec::new();
    blob.push(0x0a);
    encode_variant(field1.len(), &mut blob);
    blob.extend_from_slice(field1.as_bytes());

    let url = decrypt_stream_url(&blob, key).unwrap();
    assert_eq!(url, "https://example.invalid/stream.m3u8");
}

#[test]
fn decrypt_stream_url_rejects_bad_base64() {
    // field1 that is not base64 after ROT-71
    let field1 = "???***";
    let mut blob: Vec<u8> = Vec::new();
    blob.push(0x0a);
    encode_variant(field1.len(), &mut blob);
    blob.extend_from_slice(field1.as_bytes());
    assert!(decrypt_stream_url(&blob, "0123456789abcdef0123456789abcdef").is_err());
}

#[test]
fn fetch_request_body_is_one_length_delimited_field() {
    let body = build_fetch_request_body("nfl/2026-01-17/buf-den");
    assert_eq!(body[0], 0x0a);
    assert_eq!(body[1], 22); // path length fits one varint byte
    assert_eq!(&body[2..], b"nfl/2026-01-17/buf-den");

    // and the parser reads it back
    let (f1, f2) = parse_protobuf(&body).unwrap();
    assert_eq!(f1, "nfl/2026-01-17/buf-den");
    assert!(f2.is_none());
}

#[test]
fn fallback_prefix_without_m3u8_marker() {
    let key = "0123456789abcdef0123456789abcdef";
    let nonce = b"unique_nonc!";
    let plaintext = b"printable tail\x01binary";
    let ciphertext = chacha_block1(key.as_bytes(), nonce, plaintext);
    let mut decoded: Vec<u8> = Vec::new();
    decoded.extend_from_slice(nonce);
    decoded.extend_from_slice(&ciphertext);
    let url = chacha20_decrypt(&decoded, key).unwrap();
    assert_eq!(url, "printable tail");
}
