//! HTTP range handling for binary bodies: parsing `Range: bytes=a-b`
//! against a body of known length, slicing, and the `Content-Range` value.

use vstd::prelude::*;
use vstd::slice::{slice_subrange, slice_to_vec};
use vstd::string::*;

use crate::textutil::{
    parse_usize, spec_dec_nat, spec_parse_usize, spec_split, split_str, starts_with_str,
    substr_copy, usize_to_string,
};

verus! {

/// The range a `Range` header value selects from a body of `total` bytes:
/// the body is served in full unless the value has the shape
/// `bytes=start-end` with exactly one `-`, where a missing or unreadable
/// start is 0, a missing or unreadable end is the last byte, the end is
/// clamped to the last byte, and the slice must be non-empty and start
/// inside the body.
pub open spec fn spec_range_decision(header: Option<Seq<char>>, total: nat) -> Option<(nat, nat)> {
    match header {
        Option::None => Option::None,
        Option::Some(h) => {
            if "bytes="@.len() <= h.len() && h.subrange(0, "bytes="@.len() as int) == "bytes="@ {
                let rest = h.subrange("bytes="@.len() as int, h.len() as int);
                let parts = spec_split(rest, seq!['-']);
                if parts.len() == 2 {
                    let last: nat = if total > 0 {
                        (total - 1) as nat
                    } else {
                        0
                    };
                    let start: nat = match spec_parse_usize(parts[0]) {
                        Some(v) => v as nat,
                        None => 0,
                    };
                    let end0: nat = match spec_parse_usize(parts[1]) {
                        Some(v) => v as nat,
                        None => last,
                    };
                    let end: nat = if end0 < last {
                        end0
                    } else {
                        last
                    };
                    if start < total && start <= end {
                        Some((start, end))
                    } else {
                        None
                    }
                } else {
                    None
                }
            } else {
                None
            }
        },
    }
}

/// Parse a `Range` header value against a body length.
pub fn parse_range(header: Option<&String>, total: usize) -> (r: Option<(usize, usize)>)
    ensures
        ({
            let h = match header {
                Option::Some(v) => Option::Some(v@),
                Option::None => Option::None,
            };
            match r {
                Some((a, b)) => spec_range_decision(h, total as nat) == Some((a as nat, b as nat))
                    && a <= b < total,
                None => spec_range_decision(h, total as nat) is None,
            }
        }),
{
    let h = match header {
        Some(v) => v,
        None => {
            return None;
        },
    };
    if !starts_with_str(h.as_str(), "bytes=") {
        return None;
    }
    proof {
        reveal_strlit("bytes=");
    }
    let n = h.as_str().unicode_len();
    let rest = substr_copy(h.as_str(), 6, n);
    proof {
        reveal_strlit("-");
        assert("-"@ =~= seq!['-']);
    }
    let parts = split_str(rest.as_str(), "-");
    if parts.len() != 2 {
        return None;
    }
    let last: usize = if total > 0 {
        total - 1
    } else {
        0
    };
    proof {
        assert(parts.deep_view()[0] == parts@[0]@);
        assert(parts.deep_view()[1] == parts@[1]@);
    }
    let start: usize = match parse_usize(parts[0].as_str()) {
        Some(v) => v,
        None => 0,
    };
    let end0: usize = match parse_usize(parts[1].as_str()) {
        Some(v) => v,
        None => last,
    };
    let end: usize = if end0 < last {
        end0
    } else {
        last
    };
    if start < total && start <= end {
        Some((start, end))
    } else {
        None
    }
}

/// The `Content-Range` value for a served slice: `bytes start-end/total`.
pub open spec fn spec_content_range(start: nat, end: nat, total: nat) -> Seq<char> {
    "bytes "@ + spec_dec_nat(start) + "-"@ + spec_dec_nat(end) + "/"@ + spec_dec_nat(total)
}

/// Format the `Content-Range` value.
pub fn content_range_value(start: usize, end: usize, total: usize) -> (r: String)
    ensures
        r@ == spec_content_range(start as nat, end as nat, total as nat),
{
    let mut r = String::from_str("bytes ");
    let start_text = usize_to_string(start);
    r.append(start_text.as_str());
    r.append("-");
    let end_text = usize_to_string(end);
    r.append(end_text.as_str());
    r.append("/");
    let total_text = usize_to_string(total);
    r.append(total_text.as_str());
    r
}

/// A body with its range outcome: a partial slice with its `Content-Range`,
/// or the full body.
pub struct RangedBody {
    /// 206 for a partial body, 200 for the full one.
    pub status: u16,
    /// The bytes to serve.
    pub body: Vec<u8>,
    /// The `Content-Range` value of a partial body.
    pub content_range: Option<String>,
}

/// Law: serve the range a `Range` header selects. A selected range
/// `(start, end)` yields status 206, exactly the bytes `start..=end`
/// (`end - start + 1` of them), and `Content-Range: bytes start-end/total`;
/// anything else yields 200 with the body unchanged.
pub fn apply_range(bytes: Vec<u8>, range_header: Option<&String>) -> (r: RangedBody)
    ensures
        ({
            let h = match range_header {
                Option::Some(v) => Option::Some(v@),
                Option::None => Option::None,
            };
            match spec_range_decision(h, bytes@.len() as nat) {
                Some((a, b)) => r.status == 206 && r.body@ == bytes@.subrange(
                    a as int,
                    b as int + 1,
                ) && r.body@.len() == b - a + 1 && (r.content_range matches Some(cr) && cr@
                    == spec_content_range(a, b, bytes@.len() as nat)),
                None => r.status == 200 && r.body@ == bytes@ && r.content_range is None,
            }
        }),
{
    let total = bytes.len();
    match parse_range(range_header, total) {
        Some((start, end)) => {
            let sliced = slice_to_vec(slice_subrange(bytes.as_slice(), start, end + 1));
            let cr = content_range_value(start, end, total);
            RangedBody { status: 206, body: sliced, content_range: Some(cr) }
        },
        None => RangedBody { status: 200, body: bytes, content_range: None },
    }
}

} // verus!
