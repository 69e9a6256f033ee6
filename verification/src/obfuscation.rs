//! The obfuscated-stream decryption pipeline: a fixed protobuf framing, a
//! ROT-71 alphabet transform, base64, and a ChaCha20 keystream positioned at
//! block counter 1, unwrapping the upstream `fetch` response into a real
//! media URL.

use vstd::prelude::*;
use vstd::slice::{slice_index_get, slice_subrange, slice_to_vec};
use vstd::string::*;
use vstd::utf8::{decode_utf8, valid_utf8};

use crate::b64::{b64_standard_decode, spec_b64_encode};
use crate::errors::AppError;
use crate::textutil::{
    find_str, lemma_find_sub_props, spec_find_sub, string_push, substr_copy, u64_to_string,
};

verus! {

/// ROT-71 on one character: code points in `[33, 126]` rotate by 71 within
/// that range of 94; everything else passes through.
pub open spec fn spec_rot71_char(c: char) -> char {
    let code = c as u32;
    if 33 <= code <= 126 {
        ((33 + ((code - 33) + 71) % 94) as u8) as char
    } else {
        c
    }
}

/// ROT-71 over a whole string.
pub open spec fn spec_rot71(s: Seq<char>) -> Seq<char> {
    Seq::new(s.len(), |i: int| spec_rot71_char(s[i]))
}

/// Apply ROT-71 to every character; this turns the upstream's custom
/// charset into standard base64.
pub fn rot71_decode(input: &str) -> (r: String)
    ensures
        r@ == spec_rot71(input@),
{
    let n = input.unicode_len();
    let mut r = String::new();
    let mut i: usize = 0;
    while i < n
        invariant
            n == input@.len(),
            0 <= i <= n,
            r@ =~= spec_rot71(input@).take(i as int),
        decreases n - i,
    {
        let c = input.get_char(i);
        let code: u32 = c as u32;
        let mapped: char = if 33 <= code && code <= 126 {
            ((33 + ((code - 33) + 71) % 94) as u8) as char
        } else {
            c
        };
        assert(mapped == spec_rot71_char(input@[i as int]));
        string_push(&mut r, mapped);
        assert(r@ =~= spec_rot71(input@).take(i + 1));
        i += 1;
    }
    proof {
        assert(spec_rot71(input@).take(n as int) =~= spec_rot71(input@));
    }
    r
}

/// The little-endian 7-bit varint encoding of a number.
pub open spec fn spec_varint(n: nat) -> Seq<u8>
    decreases n,
{
    if n < 128 {
        seq![n as u8]
    } else {
        seq![((n % 128) + 128) as u8] + spec_varint(n / 128)
    }
}

/// Append the varint encoding of `n`.
pub fn encode_variant(n: usize, out: &mut Vec<u8>)
    ensures
        final(out)@ == old(out)@ + spec_varint(n as nat),
    decreases n,
{
    if n < 128 {
        out.push(n as u8);
        assert(final(out)@ =~= old(out)@ + spec_varint(n as nat));
    } else {
        let low: u8 = ((n % 128) + 128) as u8;
        out.push(low);
        let ghost mid = out@;
        encode_variant(n / 128, out);
        proof {
            assert(final(out)@ =~= old(out)@ + spec_varint(n as nat));
        }
    }
}

/// The value of the varint read at `offset`: low 7 bits of each byte, least
/// significant group first, up to the first byte without its top bit (or
/// the end of the buffer).
pub open spec fn spec_varint_value(bytes: Seq<u8>, offset: int) -> nat
    decreases bytes.len() - offset,
{
    if offset < 0 || offset >= bytes.len() {
        0
    } else {
        let b = bytes[offset];
        (b & 0x7f) as nat + if b & 0x80 != 0 {
            128 * spec_varint_value(bytes, offset + 1)
        } else {
            0
        }
    }
}

/// The position just past the varint read at `offset`.
pub open spec fn spec_varint_end(bytes: Seq<u8>, offset: int) -> int
    decreases bytes.len() - offset,
{
    if offset < 0 || offset >= bytes.len() {
        offset
    } else if bytes[offset] & 0x80 == 0 {
        offset + 1
    } else {
        let e = spec_varint_end(bytes, offset + 1);
        if e < offset + 1 {
            offset + 1
        } else {
            e
        }
    }
}

/// Read the varint at `offset`: its value when it fits a `usize` (otherwise
/// nothing, and the value is known to exceed `usize::MAX`), and the
/// position just past it.
fn read_varint(buffer: &[u8], offset: usize) -> (r: (Option<usize>, usize))
    requires
        offset <= buffer@.len(),
    ensures
        r.1 == spec_varint_end(buffer@, offset as int),
        offset <= r.1 <= buffer@.len(),
        match r.0 {
            Some(v) => v == spec_varint_value(buffer@, offset as int),
            None => spec_varint_value(buffer@, offset as int) > usize::MAX,
        },
    decreases buffer@.len() - offset,
{
    let n = buffer.len();
    if offset >= n {
        return (Some(0), offset);
    }
    let b = *slice_index_get(buffer, offset);
    proof {
        assert(b & 0x7f <= 127) by (bit_vector);
    }
    let low: usize = (b & 0x7f) as usize;
    if b & 0x80 == 0 {
        (Some(low), offset + 1)
    } else {
        let (rest, end) = read_varint(buffer, offset + 1);
        match rest {
            Some(v) => {
                if v <= (usize::MAX - low) / 128 {
                    proof {
                        assert(128 * v + low <= usize::MAX) by (nonlinear_arith)
                            requires
                                v <= (usize::MAX - low) / 128,
                                low <= 127,
                        ;
                    }
                    (Some(low + 128 * v), end)
                } else {
                    proof {
                        assert(128 * v + low > usize::MAX) by (nonlinear_arith)
                            requires
                                v > (usize::MAX - low) / 128,
                                0 <= low,
                        ;
                    }
                    (None, end)
                }
            },
            None => {
                proof {
                    let tail = spec_varint_value(buffer@, offset + 1);
                    assert(tail > usize::MAX);
                    assert(128 * tail >= tail) by (nonlinear_arith)
                        requires
                            tail >= 0,
                    ;
                }
                (None, end)
            },
        }
    }
}

/// What the protobuf walk has gathered when it halts, starting at `offset`
/// with fields already seen: each `0x0a` record overwrites field one, each
/// `0x12` record field two, other tags are skipped over, and a record whose
/// declared length runs past the end halts the walk.
pub open spec fn spec_pb_fields(
    bytes: Seq<u8>,
    offset: int,
    f1: Option<Seq<u8>>,
    f2: Option<Seq<u8>>,
) -> (Option<Seq<u8>>, Option<Seq<u8>>)
    decreases bytes.len() - offset,
{
    if offset < 0 || offset >= bytes.len() {
        (f1, f2)
    } else {
        let tag = bytes[offset];
        let o1 = offset + 1;
        let length = spec_varint_value(bytes, o1);
        let o2 = spec_varint_end(bytes, o1);
        if o2 + length > bytes.len() {
            (f1, f2)
        } else {
            let data = bytes.subrange(o2, o2 + length);
            let o3 = o2 + length;
            if tag == 0x0a {
                spec_pb_fields(bytes, o3, Some(data), f2)
            } else if tag == 0x12 {
                spec_pb_fields(bytes, o3, f1, Some(data))
            } else {
                spec_pb_fields(bytes, o3, f1, f2)
            }
        }
    }
}

/// What `String::from_utf8_lossy` makes of a byte string: a function of the
/// bytes alone.
pub uninterp spec fn utf8_lossy_of(bytes: Seq<u8>) -> Seq<char>;

/// Relies on `String::from_utf8_lossy`: the result depends on the bytes
/// alone; valid UTF-8 decodes unchanged, invalid sequences become
/// replacement characters.
#[verifier::external_body]
pub fn utf8_lossy(bytes: &[u8]) -> (r: String)
    ensures
        r@ == utf8_lossy_of(bytes@),
        valid_utf8(bytes@) ==> r@ == decode_utf8(bytes@),
{
    String::from_utf8_lossy(bytes).into_owned()
}

/// Parse the two-field protobuf message: field one (tag `0x0a`) carries the
/// encoded ciphertext, field two (tag `0x12`) the stream name. Both come
/// back as text, read with UTF-8 replacement. A message without field one
/// is an internal error.
pub fn parse_protobuf(buffer: &[u8]) -> (r: Result<(String, Option<String>), AppError>)
    ensures
        ({
            let fields = spec_pb_fields(buffer@, 0, None, None);
            match r {
                Ok((f1, f2)) => fields.0 matches Some(d1) && f1@ == utf8_lossy_of(d1) && (match (
                    f2,
                    fields.1,
                ) {
                    (Some(t), Some(d2)) => t@ == utf8_lossy_of(d2),
                    (None, None) => true,
                    _ => false,
                }),
                Err(e) => fields.0 is None && (e matches AppError::InternalServerErrorWithContext(
                    m,
                ) && m@ == "failed to extract field1 from protobuf"@),
            }
        }),
{
    let n = buffer.len();
    let mut offset: usize = 0;
    let mut field1: Option<Vec<u8>> = None;
    let mut field2: Option<Vec<u8>> = None;
    let ghost full = spec_pb_fields(buffer@, 0, None, None);
    while offset < n
        invariant
            n == buffer@.len(),
            0 <= offset <= n,
            full == spec_pb_fields(buffer@, 0, None, None),
            full == spec_pb_fields(
                buffer@,
                offset as int,
                match field1 {
                    Some(v) => Some(v@),
                    None => None,
                },
                match field2 {
                    Some(v) => Some(v@),
                    None => None,
                },
            ),
        decreases n - offset,
    {
        let tag = *slice_index_get(buffer, offset);
        let o1 = offset + 1;
        let (value, o2) = read_varint(buffer, o1);
        let ghost f1g: Option<Seq<u8>> = match &field1 {
            Some(v) => Some(v@),
            None => None,
        };
        let ghost f2g: Option<Seq<u8>> = match &field2 {
            Some(v) => Some(v@),
            None => None,
        };
        let length: usize = match value {
            Some(v) => {
                if v > n - o2 {
                    proof {
                        assert(o2 + spec_varint_value(buffer@, o1 as int) > n);
                        assert(spec_pb_fields(buffer@, offset as int, f1g, f2g) == (f1g, f2g));
                    }
                    return finish_protobuf(field1, field2);
                }
                v
            },
            None => {
                proof {
                    assert(spec_varint_value(buffer@, o1 as int) > usize::MAX);
                    assert(o2 + spec_varint_value(buffer@, o1 as int) > n);
                    assert(spec_pb_fields(buffer@, offset as int, f1g, f2g) == (f1g, f2g));
                }
                return finish_protobuf(field1, field2);
            },
        };
        let data = slice_to_vec(slice_subrange(buffer, o2, o2 + length));
        let o3 = o2 + length;
        proof {
            assert(data@ == buffer@.subrange(o2 as int, o2 + length));
            if tag == 0x0a {
                assert(spec_pb_fields(buffer@, offset as int, f1g, f2g) == spec_pb_fields(
                    buffer@,
                    o3 as int,
                    Some(data@),
                    f2g,
                ));
            } else if tag == 0x12 {
                assert(spec_pb_fields(buffer@, offset as int, f1g, f2g) == spec_pb_fields(
                    buffer@,
                    o3 as int,
                    f1g,
                    Some(data@),
                ));
            } else {
                assert(spec_pb_fields(buffer@, offset as int, f1g, f2g) == spec_pb_fields(
                    buffer@,
                    o3 as int,
                    f1g,
                    f2g,
                ));
            }
        }
        if tag == 0x0a {
            field1 = Some(data);
        } else if tag == 0x12 {
            field2 = Some(data);
        }
        offset = o3;
    }
    finish_protobuf(field1, field2)
}

/// Turn the gathered raw fields into the parser's result.
fn finish_protobuf(field1: Option<Vec<u8>>, field2: Option<Vec<u8>>) -> (r: Result<
    (String, Option<String>),
    AppError,
>)
    ensures
        match r {
            Ok((f1, f2)) => field1 matches Some(d1) && f1@ == utf8_lossy_of(d1@) && (match (
                f2,
                field2,
            ) {
                (Some(t), Some(d2)) => t@ == utf8_lossy_of(d2@),
                (None, None) => true,
                _ => false,
            }),
            Err(e) => field1 is None && (e matches AppError::InternalServerErrorWithContext(m)
                && m@ == "failed to extract field1 from protobuf"@),
        },
{
    match field1 {
        Some(d1) => {
            let f1 = utf8_lossy(d1.as_slice());
            let f2 = match field2 {
                Some(d2) => Some(utf8_lossy(d2.as_slice())),
                None => None,
            };
            Ok((f1, f2))
        },
        None => Err(
            AppError::InternalServerErrorWithContext(
                String::from_str("failed to extract field1 from protobuf"),
            ),
        ),
    }
}

/// The XOR of `data` with the ChaCha20 keystream for `key` and `nonce`,
/// taken from byte offset 64 on (block counter 1).
pub uninterp spec fn chacha20_block1_xor(key: Seq<u8>, nonce: Seq<u8>, data: Seq<u8>) -> Seq<u8>;

/// Relies on `chacha20::ChaCha20` with `cipher`'s seekable stream
/// interface: after seeking to byte 64 the keystream XOR is a function of
/// key, nonce and data alone, and preserves the length. The 32-bit block
/// counter offers `2^38` keystream bytes in all; after the seek the
/// implementation counts `2^32 - 2` whole blocks as remaining, so data up
/// to `2^38 - 128` bytes is guaranteed to go through, and longer data is
/// refused with nothing modified.
#[verifier::external_body]
fn chacha20_apply_block1(key: &[u8], nonce: &[u8], data: &[u8]) -> (r: Option<Vec<u8>>)
    requires
        key@.len() == 32,
        nonce@.len() == 12,
    ensures
        r matches Some(v) ==> v@ == chacha20_block1_xor(key@, nonce@, data@) && v@.len()
            == data@.len(),
        data@.len() + 128 <= 0x4000000000 ==> r is Some,
{
    let mut cipher = <chacha20::ChaCha20 as chacha20::cipher::KeyIvInit>::new(
        chacha20::Key::from_slice(key),
        chacha20::Nonce::from_slice(nonce),
    );
    chacha20::cipher::StreamCipherSeek::seek(&mut cipher, 64u64);
    let mut buffer = data.to_vec();
    match chacha20::cipher::StreamCipher::try_apply_keystream(&mut cipher, &mut buffer) {
        Ok(()) => Some(buffer),
        Err(_) => None,
    }
}

/// The media URL read out of the decrypted text: the prefix up to and
/// including the first `.m3u8`; without one, the longest leading run of
/// printable ASCII.
pub open spec fn spec_extract_media_url(plain: Seq<char>) -> Seq<char> {
    match spec_find_sub(plain, seq!['.', 'm', '3', 'u', '8']) {
        Some(i) => plain.subrange(0, i + 5),
        None => spec_printable_prefix(plain),
    }
}

/// The longest prefix of ASCII characters that are not control characters.
pub open spec fn spec_printable_prefix(s: Seq<char>) -> Seq<char>
    decreases s.len(),
{
    if s.len() == 0 {
        s
    } else if (s[0] as u32) < 127 && (s[0] as u32) >= 32 {
        seq![s[0]] + spec_printable_prefix(s.drop_first())
    } else {
        Seq::empty()
    }
}

/// The longest printable prefix is what stands before the first
/// non-printable character.
proof fn lemma_printable_prefix_at(s: Seq<char>, a: int)
    requires
        0 <= a <= s.len(),
        forall|i: int| 0 <= i < a ==> 32 <= (#[trigger] s[i] as u32) < 127,
        a < s.len() ==> !(32 <= (s[a] as u32) < 127),
    ensures
        spec_printable_prefix(s) == s.subrange(0, a),
    decreases s.len(),
{
    if s.len() == 0 {
        assert(s.subrange(0, 0) =~= s);
    } else if a == 0 {
        if 32 <= (s[0] as u32) < 127 {
            assert(false);
        }
        assert(s.subrange(0, 0) =~= Seq::<char>::empty());
    } else {
        let t = s.drop_first();
        lemma_printable_prefix_at(t, a - 1);
        assert(t.subrange(0, a - 1) =~= s.subrange(1, a));
        assert(seq![s[0]] + s.subrange(1, a) =~= s.subrange(0, a));
    }
}

/// Printable ASCII: neither a control character nor beyond ASCII.
fn is_printable_ascii(c: char) -> (r: bool)
    ensures
        r == (32 <= (c as u32) < 127),
{
    let code: u32 = c as u32;
    32 <= code && code < 127
}

/// Take the decrypted text's media URL.
fn extract_media_url(plain: &str) -> (r: String)
    ensures
        r@ == spec_extract_media_url(plain@),
{
    proof {
        lemma_find_sub_props(plain@, ".m3u8"@);
        reveal_strlit(".m3u8");
        assert(".m3u8"@ =~= seq!['.', 'm', '3', 'u', '8']);
    }
    let n = plain.unicode_len();
    match find_str(plain, ".m3u8") {
        Some(i) => substr_copy(plain, 0, i + 5),
        None => {
            let mut a: usize = 0;
            while a < n && is_printable_ascii(plain.get_char(a))
                invariant
                    n == plain@.len(),
                    0 <= a <= n,
                    forall|i: int| 0 <= i < a ==> 32 <= (#[trigger] plain@[i] as u32) < 127,
                decreases n - a,
            {
                a += 1;
            }
            proof {
                lemma_printable_prefix_at(plain@, a as int);
            }
            substr_copy(plain, 0, a)
        },
    }
}

/// What decrypting well-formed input yields: the extracted media URL of
/// the ChaCha20-unscrambled tail, under the first twelve bytes as nonce.
pub open spec fn spec_decrypted_url(key: Seq<char>, decoded: Seq<u8>) -> Seq<char> {
    spec_extract_media_url(
        utf8_lossy_of(
            chacha20_block1_xor(
                vstd::utf8::encode_utf8(key),
                decoded.subrange(0, 12),
                decoded.subrange(12, decoded.len() as int),
            ),
        ),
    )
}

/// ChaCha20-decrypt the decoded blob: the first twelve bytes are the
/// nonce, the `island` header is the 32-byte key, and the keystream starts
/// at block counter 1. Too little data, a key of the wrong size, or a body
/// outrunning the keystream is an internal error.
pub fn chacha20_decrypt(decoded_data: &[u8], key: &str) -> (r: Result<String, AppError>)
    ensures
        match r {
            Ok(url) => decoded_data@.len() >= 12 && vstd::utf8::encode_utf8(key@).len() == 32
                && url@ == spec_decrypted_url(key@, decoded_data@),
            Err(e) => (decoded_data@.len() < 12 || vstd::utf8::encode_utf8(key@).len() != 32
                || decoded_data@.len() + 116 > 0x4000000000) && (e
                matches AppError::InternalServerErrorWithContext(_)),
        },
{
    if decoded_data.len() < 12 {
        return Err(
            AppError::InternalServerErrorWithContext(
                String::from_str("decoded data too short to contain nonce"),
            ),
        );
    }
    let key_bytes = key.as_bytes();
    if key_bytes.len() != 32 {
        let mut message = String::from_str("key must be 32 bytes, got ");
        let len_text = u64_to_string(key_bytes.len() as u64);
        message.append(len_text.as_str());
        return Err(AppError::InternalServerErrorWithContext(message));
    }
    let nonce = slice_subrange(decoded_data, 0, 12);
    let ciphertext = slice_subrange(decoded_data, 12, decoded_data.len());
    let buffer = match chacha20_apply_block1(key_bytes, nonce, ciphertext) {
        Some(b) => b,
        None => {
            return Err(
                AppError::InternalServerErrorWithContext(
                    String::from_str("ciphertext outruns the keystream"),
                ),
            );
        },
    };
    let plaintext = utf8_lossy(buffer.as_slice());
    Ok(extract_media_url(plaintext.as_str()))
}

/// Unwrap the upstream `fetch` response: protobuf field one, ROT-71 to
/// standard base64, base64 decode, then ChaCha20 under the `island` header.
/// Every step's failure is an internal error, and a failure is permitted
/// only where a step genuinely has no value: no field one, no base64
/// decoding of its ROT-71 form, decoded data too short for the nonce, a
/// key of the wrong size, or data outrunning the keystream.
pub fn decrypt_stream_url(encrypted_blob: &[u8], island_header: &str) -> (r: Result<
    String,
    AppError,
>)
    ensures
        ({
            let fields = spec_pb_fields(encrypted_blob@, 0, None, None);
            match r {
                Ok(url) => fields.0 matches Some(d1) && (exists|decoded: Seq<u8>|
                    spec_b64_encode(decoded, false) == spec_rot71(utf8_lossy_of(d1))
                        && decoded.len() >= 12 && vstd::utf8::encode_utf8(island_header@).len()
                        == 32 && url@ == spec_decrypted_url(island_header@, decoded)),
                Err(e) => (e matches AppError::InternalServerErrorWithContext(_)) && (fields.0
                    is None || (fields.0 matches Some(d1) && !(exists|decoded: Seq<u8>|
                    spec_b64_encode(decoded, false) == spec_rot71(utf8_lossy_of(d1)))) || (
                fields.0 matches Some(d1) && (exists|decoded: Seq<u8>|
                    spec_b64_encode(decoded, false) == spec_rot71(utf8_lossy_of(d1)) && (
                    decoded.len() < 12 || vstd::utf8::encode_utf8(island_header@).len() != 32
                        || decoded.len() + 116 > 0x4000000000)))),
            }
        }),
{
    let (encoded_ciphertext, _stream_name) = match parse_protobuf(encrypted_blob) {
        Ok(pair) => pair,
        Err(e) => {
            return Err(match e {
                AppError::InternalServerErrorWithContext(m) => {
                    AppError::InternalServerErrorWithContext(m)
                },
                _ => AppError::InternalServerError,
            });
        },
    };
    let base64_ciphertext = rot71_decode(encoded_ciphertext.as_str());
    let decoded_data = match b64_standard_decode(base64_ciphertext.as_str()) {
        Some(v) => v,
        None => {
            return Err(
                AppError::InternalServerErrorWithContext(
                    String::from_str("failed to base64 decode after ROT-71"),
                ),
            );
        },
    };
    match chacha20_decrypt(decoded_data.as_slice(), island_header) {
        Ok(url) => Ok(url),
        Err(e) => Err(e),
    }
}

/// The protobuf request body that asks the `fetch` endpoint for a stream:
/// one length-delimited field carrying the embed path.
pub fn build_fetch_request_body(stream_path: &str) -> (r: Vec<u8>)
    ensures
        r@ == seq![0x0au8] + spec_varint(vstd::utf8::encode_utf8(stream_path@).len())
            + vstd::utf8::encode_utf8(stream_path@),
{
    let mut body: Vec<u8> = Vec::new();
    body.push(0x0a);
    let path_bytes = stream_path.as_bytes_vec();
    encode_variant(path_bytes.len(), &mut body);
    let mut tail = path_bytes;
    body.append(&mut tail);
    proof {
        assert(body@ =~= seq![0x0au8] + spec_varint(vstd::utf8::encode_utf8(stream_path@).len())
            + vstd::utf8::encode_utf8(stream_path@));
    }
    body
}

} // verus!
