//! Lowercase hexadecimal encoding of byte strings, with its exact
//! specification and an injectivity lemma: equal hex strings come from equal
//! byte strings.

use vstd::prelude::*;

verus! {

/// The lowercase hex character for a value in `[0, 16)`.
pub open spec fn spec_hex_digit(d: int) -> char {
    if d < 10 {
        (48 + d) as u8 as char
    } else {
        (87 + d) as u8 as char
    }
}

/// Lowercase hex encoding: two digits per byte, high nibble first.
pub open spec fn spec_hex_of(bytes: Seq<u8>) -> Seq<char>
    decreases bytes.len(),
{
    if bytes.len() == 0 {
        Seq::empty()
    } else {
        seq![
            spec_hex_digit((bytes.first() >> 4) as int),
            spec_hex_digit((bytes.first() & 0x0f) as int),
        ] + spec_hex_of(bytes.drop_first())
    }
}

/// A hex string is twice as long as the bytes it encodes.
pub proof fn lemma_hex_len(bytes: Seq<u8>)
    ensures
        spec_hex_of(bytes).len() == 2 * bytes.len(),
    decreases bytes.len(),
{
    if bytes.len() > 0 {
        lemma_hex_len(bytes.drop_first());
    }
}

/// Hex digits of distinct values differ.
proof fn lemma_hex_digit_injective(a: int, b: int)
    requires
        0 <= a < 16,
        0 <= b < 16,
        spec_hex_digit(a) == spec_hex_digit(b),
    ensures
        a == b,
{
}

/// Equal hex strings encode equal byte strings.
pub proof fn lemma_hex_injective(a: Seq<u8>, b: Seq<u8>)
    requires
        spec_hex_of(a) == spec_hex_of(b),
    ensures
        a == b,
    decreases a.len(),
{
    lemma_hex_len(a);
    lemma_hex_len(b);
    if a.len() == 0 {
        assert(a =~= b);
    } else {
        let ha = spec_hex_of(a);
        let hb = spec_hex_of(b);
        let x = a.first();
        let y = b.first();
        assert(ha[0] == spec_hex_digit((x >> 4) as int));
        assert(ha[1] == spec_hex_digit((x & 0x0f) as int));
        assert(hb[0] == spec_hex_digit((y >> 4) as int));
        assert(hb[1] == spec_hex_digit((y & 0x0f) as int));
        assert((x >> 4) < 16 && (x & 0x0f) < 16) by (bit_vector);
        assert((y >> 4) < 16 && (y & 0x0f) < 16) by (bit_vector);
        lemma_hex_digit_injective((x >> 4) as int, (y >> 4) as int);
        lemma_hex_digit_injective((x & 0x0f) as int, (y & 0x0f) as int);
        assert(x >> 4 == y >> 4 && x & 0x0f == y & 0x0f ==> x == y) by (bit_vector);
        assert forall|i: int| 0 <= i < spec_hex_of(a.drop_first()).len() implies spec_hex_of(
            a.drop_first(),
        )[i] == spec_hex_of(b.drop_first())[i] by {
            assert(spec_hex_of(a.drop_first())[i] == ha[i + 2]);
            assert(spec_hex_of(b.drop_first())[i] == hb[i + 2]);
        }
        assert(spec_hex_of(a.drop_first()) =~= spec_hex_of(b.drop_first()));
        lemma_hex_injective(a.drop_first(), b.drop_first());
        assert forall|i: int| 0 <= i < a.len() implies a[i] == b[i] by {
            if i == 0 {
                assert(a[0] == x && b[0] == y);
            } else {
                assert(a[i] == a.drop_first()[i - 1]);
                assert(b[i] == b.drop_first()[i - 1]);
            }
        }
        assert(a =~= b);
    }
}

/// Relies on `hex::encode`: each input byte becomes exactly two lowercase
/// hex digits, high nibble first, in input order.
#[verifier::external_body]
pub fn hex_encode(data: &[u8]) -> (r: String)
    ensures
        r@ == spec_hex_of(data@),
{
    hex::encode(data)
}

} // verus!
