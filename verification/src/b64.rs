//! Base64, in its standard and URL-safe padded forms.
//!
//! The encoding is fully specified here: `spec_b64_encode` states, chunk by
//! chunk, the exact characters the encoder produces. The outside crate does
//! the work; its encoder is trusted to produce exactly this sequence and its
//! decoder to accept exactly the sequences the encoder produces. On top of
//! that the module proves the encoding injective, so decoding what was
//! encoded gives back the original bytes.

use vstd::prelude::*;
use vstd::string::*;

use crate::textutil::{string_push, substr_copy};

verus! {

/// The alphabet character for a 6-bit value; the two top values differ
/// between the standard and URL-safe alphabets.
pub open spec fn spec_b64_char(v: int, url: bool) -> char {
    if 0 <= v < 26 {
        (65 + v) as u8 as char
    } else if 26 <= v < 52 {
        (71 + v) as u8 as char
    } else if 52 <= v < 62 {
        (v - 4) as u8 as char
    } else if v == 62 {
        if url {
            '-'
        } else {
            '+'
        }
    } else {
        if url {
            '_'
        } else {
            '/'
        }
    }
}

/// Canonical padded base64: full 3-byte groups become 4 alphabet
/// characters; a trailing group of 1 or 2 bytes becomes 2 or 3 characters
/// and `=` padding up to a multiple of 4.
pub open spec fn spec_b64_encode(bytes: Seq<u8>, url: bool) -> Seq<char>
    decreases bytes.len(),
{
    if bytes.len() == 0 {
        Seq::empty()
    } else if bytes.len() == 1 {
        let b0 = bytes[0];
        seq![
            spec_b64_char((b0 >> 2) as int, url),
            spec_b64_char(((b0 & 3) << 4) as int, url),
            '=',
            '=',
        ]
    } else if bytes.len() == 2 {
        let b0 = bytes[0];
        let b1 = bytes[1];
        seq![
            spec_b64_char((b0 >> 2) as int, url),
            spec_b64_char((((b0 & 3) << 4) | (b1 >> 4)) as int, url),
            spec_b64_char(((b1 & 15) << 2) as int, url),
            '=',
        ]
    } else {
        let b0 = bytes[0];
        let b1 = bytes[1];
        let b2 = bytes[2];
        seq![
            spec_b64_char((b0 >> 2) as int, url),
            spec_b64_char((((b0 & 3) << 4) | (b1 >> 4)) as int, url),
            spec_b64_char((((b1 & 15) << 2) | (b2 >> 6)) as int, url),
            spec_b64_char((b2 & 63) as int, url),
        ] + spec_b64_encode(bytes.skip(3), url)
    }
}

/// No alphabet character is the padding character.
proof fn lemma_b64_char_not_pad(v: int, url: bool)
    requires
        0 <= v < 64,
    ensures
        spec_b64_char(v, url) != '=',
{
}

/// Distinct 6-bit values get distinct alphabet characters.
proof fn lemma_b64_char_injective(a: int, b: int, url: bool)
    requires
        0 <= a < 64,
        0 <= b < 64,
        spec_b64_char(a, url) == spec_b64_char(b, url),
    ensures
        a == b,
{
}

/// The encoding's length: four characters for every started 3-byte group.
pub proof fn lemma_b64_encode_len(bytes: Seq<u8>, url: bool)
    ensures
        bytes.len() == 0 ==> spec_b64_encode(bytes, url).len() == 0,
        bytes.len() > 0 ==> spec_b64_encode(bytes, url).len() == 4 * ((bytes.len() + 2) / 3),
        spec_b64_encode(bytes, url).len() % 4 == 0,
    decreases bytes.len(),
{
    if bytes.len() >= 3 {
        lemma_b64_encode_len(bytes.skip(3), url);
    }
}

/// Equal encodings come from equal byte strings.
pub proof fn lemma_b64_encode_injective(a: Seq<u8>, b: Seq<u8>, url: bool)
    requires
        spec_b64_encode(a, url) == spec_b64_encode(b, url),
    ensures
        a == b,
    decreases a.len(),
{
    let ea = spec_b64_encode(a, url);
    let eb = spec_b64_encode(b, url);
    lemma_b64_encode_len(a, url);
    lemma_b64_encode_len(b, url);
    if a.len() == 0 {
        assert(eb.len() == 0);
        assert(b.len() == 0);
        assert(a =~= b);
    } else if b.len() == 0 {
        assert(ea.len() == 0);
        assert(false);
    } else if a.len() == 1 {
        assert(ea[2] == '=');
        if b.len() == 2 {
            let t = b[1];
            assert((t & 15) << 2 < 64) by (bit_vector);
            lemma_b64_char_not_pad((((t & 15) << 2)) as int, url);
            assert(eb[2] != '=');
            assert(false);
        }
        if b.len() >= 3 {
            let t1 = b[1];
            let t2 = b[2];
            assert(((t1 & 15) << 2) | (t2 >> 6) < 64) by (bit_vector);
            lemma_b64_char_not_pad((((t1 & 15) << 2) | (t2 >> 6)) as int, url);
            assert(eb[2] != '=');
            assert(false);
        }
        let x = a[0];
        let y = b[0];
        assert(x >> 2 < 64 && (x & 3) << 4 < 64 && y >> 2 < 64 && (y & 3) << 4 < 64)
            by (bit_vector);
        lemma_b64_char_injective((x >> 2) as int, (y >> 2) as int, url);
        lemma_b64_char_injective(((x & 3) << 4) as int, ((y & 3) << 4) as int, url);
        assert(x >> 2 == y >> 2 && (x & 3) << 4 == (y & 3) << 4 ==> x == y) by (bit_vector);
        assert(a =~= b);
    } else if a.len() == 2 {
        let s1 = a[1];
        assert((s1 & 15) << 2 < 64) by (bit_vector);
        lemma_b64_char_not_pad((((s1 & 15) << 2)) as int, url);
        assert(ea[2] != '=');
        if b.len() == 1 {
            assert(eb[2] == '=');
            assert(false);
        }
        assert(ea[3] == '=');
        if b.len() >= 3 {
            let t2 = b[2];
            assert(t2 & 63 < 64) by (bit_vector);
            lemma_b64_char_not_pad((t2 & 63) as int, url);
            assert(eb[3] != '=');
            assert(false);
        }
        let x0 = a[0];
        let x1 = a[1];
        let y0 = b[0];
        let y1 = b[1];
        assert(x0 >> 2 < 64 && ((x0 & 3) << 4 | (x1 >> 4)) < 64 && (x1 & 15) << 2 < 64)
            by (bit_vector);
        assert(y0 >> 2 < 64 && ((y0 & 3) << 4 | (y1 >> 4)) < 64 && (y1 & 15) << 2 < 64)
            by (bit_vector);
        lemma_b64_char_injective((x0 >> 2) as int, (y0 >> 2) as int, url);
        lemma_b64_char_injective(
            (((x0 & 3) << 4) | (x1 >> 4)) as int,
            (((y0 & 3) << 4) | (y1 >> 4)) as int,
            url,
        );
        lemma_b64_char_injective(((x1 & 15) << 2) as int, ((y1 & 15) << 2) as int, url);
        assert(x0 >> 2 == y0 >> 2 && ((x0 & 3) << 4) | (x1 >> 4) == ((y0 & 3) << 4) | (y1 >> 4)
            && (x1 & 15) << 2 == (y1 & 15) << 2 ==> x0 == y0 && x1 == y1) by (bit_vector);
        assert(a =~= b);
    } else {
        let s1 = a[1];
        let s2 = a[2];
        assert(((s1 & 15) << 2 | (s2 >> 6)) < 64 && s2 & 63 < 64) by (bit_vector);
        lemma_b64_char_not_pad(((s1 & 15) << 2 | (s2 >> 6)) as int, url);
        lemma_b64_char_not_pad((s2 & 63) as int, url);
        assert(ea[2] != '=' && ea[3] != '=');
        if b.len() == 1 {
            assert(eb[2] == '=');
            assert(false);
        }
        if b.len() == 2 {
            assert(eb[3] == '=');
            assert(false);
        }
        let x0 = a[0];
        let x1 = a[1];
        let x2 = a[2];
        let y0 = b[0];
        let y1 = b[1];
        let y2 = b[2];
        assert(ea[0] == spec_b64_char((x0 >> 2) as int, url));
        assert(ea[1] == spec_b64_char((((x0 & 3) << 4) | (x1 >> 4)) as int, url));
        assert(ea[2] == spec_b64_char((((x1 & 15) << 2) | (x2 >> 6)) as int, url));
        assert(ea[3] == spec_b64_char((x2 & 63) as int, url));
        assert(eb[0] == spec_b64_char((y0 >> 2) as int, url));
        assert(eb[1] == spec_b64_char((((y0 & 3) << 4) | (y1 >> 4)) as int, url));
        assert(eb[2] == spec_b64_char((((y1 & 15) << 2) | (y2 >> 6)) as int, url));
        assert(eb[3] == spec_b64_char((y2 & 63) as int, url));
        assert(x0 >> 2 < 64 && ((x0 & 3) << 4 | (x1 >> 4)) < 64 && ((x1 & 15) << 2 | (x2 >> 6))
            < 64 && (x2 & 63) < 64) by (bit_vector);
        assert(y0 >> 2 < 64 && ((y0 & 3) << 4 | (y1 >> 4)) < 64 && ((y1 & 15) << 2 | (y2 >> 6))
            < 64 && (y2 & 63) < 64) by (bit_vector);
        lemma_b64_char_injective((x0 >> 2) as int, (y0 >> 2) as int, url);
        lemma_b64_char_injective(
            (((x0 & 3) << 4) | (x1 >> 4)) as int,
            (((y0 & 3) << 4) | (y1 >> 4)) as int,
            url,
        );
        lemma_b64_char_injective(
            (((x1 & 15) << 2) | (x2 >> 6)) as int,
            (((y1 & 15) << 2) | (y2 >> 6)) as int,
            url,
        );
        lemma_b64_char_injective((x2 & 63) as int, (y2 & 63) as int, url);
        assert(x0 >> 2 == y0 >> 2 && ((x0 & 3) << 4) | (x1 >> 4) == ((y0 & 3) << 4) | (y1 >> 4)
            && ((x1 & 15) << 2) | (x2 >> 6) == ((y1 & 15) << 2) | (y2 >> 6) && x2 & 63 == y2 & 63
            ==> x0 == y0 && x1 == y1 && x2 == y2) by (bit_vector);
        assert forall|i: int| 0 <= i < spec_b64_encode(a.skip(3), url).len() implies spec_b64_encode(
            a.skip(3),
            url,
        )[i] == spec_b64_encode(b.skip(3), url)[i] by {
            assert(spec_b64_encode(a.skip(3), url)[i] == ea[i + 4]);
            assert(spec_b64_encode(b.skip(3), url)[i] == eb[i + 4]);
        }
        assert(spec_b64_encode(a.skip(3), url) =~= spec_b64_encode(b.skip(3), url));
        lemma_b64_encode_injective(a.skip(3), b.skip(3), url);
        assert forall|i: int| 0 <= i < a.len() implies a[i] == b[i] by {
            if i >= 3 {
                assert(a[i] == a.skip(3)[i - 3]);
                assert(b[i] == b.skip(3)[i - 3]);
            }
        }
        assert(a =~= b);
    }
}

/// `s` without its trailing `=` padding.
pub open spec fn spec_strip_pad(s: Seq<char>) -> Seq<char>
    decreases s.len(),
{
    if s.len() > 0 && s.last() == '=' {
        spec_strip_pad(s.drop_last())
    } else {
        s
    }
}

/// `s` extended with `=` to the next multiple of four characters.
pub open spec fn spec_pad4(s: Seq<char>) -> Seq<char>
    decreases (4 - s.len() % 4) % 4,
{
    if s.len() % 4 == 0 {
        s
    } else {
        spec_pad4(s.push('='))
    }
}

/// A run of trailing `=` drops off `spec_strip_pad` one by one.
proof fn lemma_strip_pad_at(s: Seq<char>, b: int)
    requires
        0 <= b <= s.len(),
        forall|i: int| b <= i < s.len() ==> s[i] == '=',
        b > 0 ==> s[b - 1] != '=',
    ensures
        spec_strip_pad(s) == s.subrange(0, b),
    decreases s.len(),
{
    if b == s.len() {
        if s.len() > 0 && s.last() == '=' {
            assert(false);
        }
        assert(s.subrange(0, b) =~= s);
    } else {
        let t = s.drop_last();
        lemma_strip_pad_at(t, b);
        assert(t.subrange(0, b) =~= s.subrange(0, b));
    }
}

/// Padding back a stripped encoding restores it: the data characters are
/// never `=`, so stripping removes exactly the padding, whose count the
/// remaining length determines.
pub proof fn lemma_pad_strip_encode(bytes: Seq<u8>, url: bool)
    ensures
        spec_pad4(spec_strip_pad(spec_b64_encode(bytes, url))) == spec_b64_encode(bytes, url),
{
    let e = spec_b64_encode(bytes, url);
    lemma_b64_encode_len(bytes, url);
    if bytes.len() == 0 {
        assert(spec_strip_pad(e) == e);
        assert(spec_pad4(e) == e);
    } else {
        let pads: int = if bytes.len() % 3 == 1 {
            2
        } else if bytes.len() % 3 == 2 {
            1
        } else {
            0
        };
        lemma_encode_tail_shape(bytes, url);
        let b = e.len() - pads;
        lemma_strip_pad_at(e, b);
        let stripped = e.subrange(0, b);
        if pads == 0 {
            assert(stripped =~= e);
            assert(spec_pad4(e) == e);
        } else if pads == 1 {
            assert(stripped.len() % 4 == 3);
            assert(spec_pad4(stripped) == spec_pad4(stripped.push('=')));
            assert(stripped.push('=') =~= e);
            assert(spec_pad4(e) == e);
        } else {
            assert(stripped.len() % 4 == 2);
            assert(spec_pad4(stripped) == spec_pad4(stripped.push('=')));
            assert(stripped.push('=').len() % 4 == 3);
            assert(spec_pad4(stripped.push('=')) == spec_pad4(stripped.push('=').push('=')));
            assert(stripped.push('=').push('=') =~= e);
            assert(spec_pad4(e) == e);
        }
    }
}

/// The tail of an encoding: its padding characters sit exactly at the end,
/// and the character just before them is a data character.
proof fn lemma_encode_tail_shape(bytes: Seq<u8>, url: bool)
    requires
        bytes.len() > 0,
    ensures
        ({
            let e = spec_b64_encode(bytes, url);
            let pads: int = if bytes.len() % 3 == 1 {
                2
            } else if bytes.len() % 3 == 2 {
                1
            } else {
                0
            };
            &&& (forall|i: int| e.len() - pads <= i < e.len() ==> e[i] == '=')
            &&& e[e.len() - pads - 1] != '='
        }),
    decreases bytes.len(),
{
    let e = spec_b64_encode(bytes, url);
    lemma_b64_encode_len(bytes, url);
    if bytes.len() == 1 {
        let x = bytes[0];
        assert((x & 3) << 4 < 64) by (bit_vector);
        lemma_b64_char_not_pad(((x & 3) << 4) as int, url);
    } else if bytes.len() == 2 {
        let x = bytes[1];
        assert((x & 15) << 2 < 64) by (bit_vector);
        lemma_b64_char_not_pad(((x & 15) << 2) as int, url);
    } else {
        let rest = bytes.skip(3);
        if rest.len() == 0 {
            let x = bytes[2];
            assert(x & 63 < 64) by (bit_vector);
            lemma_b64_char_not_pad((x & 63) as int, url);
            assert(e.len() == 4);
        } else {
            lemma_encode_tail_shape(rest, url);
            lemma_b64_encode_len(rest, url);
            let er = spec_b64_encode(rest, url);
            assert(rest.len() % 3 == bytes.len() % 3);
            let pads: int = if bytes.len() % 3 == 1 {
                2
            } else if bytes.len() % 3 == 2 {
                1
            } else {
                0
            };
            assert forall|i: int| e.len() - pads <= i < e.len() implies e[i] == '=' by {
                assert(e[i] == er[i - 4]);
            }
            assert(e[e.len() - pads - 1] == er[er.len() - pads - 1]);
        }
    }
}

/// Append `=` until the length is a multiple of four.
pub fn pad_base64(s: &str) -> (r: String)
    ensures
        r@ == spec_pad4(s@),
{
    let mut r = String::from_str(s);
    let ghost target: int = s@.len() + ((4 - (s@.len() as int) % 4) % 4);
    loop
        invariant
            spec_pad4(r@) == spec_pad4(s@),
            target == s@.len() + ((4 - (s@.len() as int) % 4) % 4),
            target % 4 == 0,
            s@.len() <= r@.len() <= target,
        decreases (4 - r@.len() % 4) % 4,
    {
        let n = r.unicode_len();
        if n % 4 == 0 {
            return r;
        }
        string_push(&mut r, '=');
    }
}

/// Drop trailing `=` padding.
pub fn strip_pad(s: &str) -> (r: String)
    ensures
        r@ == spec_strip_pad(s@),
{
    let n = s.unicode_len();
    let mut b: usize = n;
    while b > 0 && s.get_char(b - 1) == '='
        invariant
            n == s@.len(),
            0 <= b <= n,
            forall|i: int| b <= i < n ==> s@[i] == '=',
        decreases b,
    {
        b -= 1;
    }
    let r = substr_copy(s, 0, b);
    proof {
        lemma_strip_pad_at(s@, b as int);
    }
    r
}

/// Relies on `base64::engine::general_purpose::URL_SAFE.encode`: canonical
/// padded base64 over the URL-safe alphabet, exactly as `spec_b64_encode`
/// states it.
#[verifier::external_body]
pub fn b64url_encode(data: &[u8]) -> (r: String)
    ensures
        r@ == spec_b64_encode(data@, true),
{
    base64::Engine::encode(&base64::engine::general_purpose::URL_SAFE, data)
}

/// Relies on `base64::engine::general_purpose::URL_SAFE.decode`: the engine
/// requires canonical padding and zeroed trailing bits, so it accepts
/// exactly the strings the canonical padded encoder produces, and returns
/// the bytes it encoded.
#[verifier::external_body]
pub fn b64url_decode(s: &str) -> (r: Option<Vec<u8>>)
    ensures
        r matches Some(v) ==> spec_b64_encode(v@, true) == s@,
        r is None ==> !(exists|v: Seq<u8>| spec_b64_encode(v, true) == s@),
{
    base64::Engine::decode(&base64::engine::general_purpose::URL_SAFE, s).ok()
}

/// Relies on `base64::engine::general_purpose::STANDARD.decode`: as the
/// URL-safe engine, over the standard alphabet.
#[verifier::external_body]
pub fn b64_standard_decode(s: &str) -> (r: Option<Vec<u8>>)
    ensures
        r matches Some(v) ==> spec_b64_encode(v@, false) == s@,
        r is None ==> !(exists|v: Seq<u8>| spec_b64_encode(v, false) == s@),
{
    base64::Engine::decode(&base64::engine::general_purpose::STANDARD, s).ok()
}

} // verus!
