//! Small verified utilities over strings and characters: character access,
//! comparison, search, splitting, joining, trimming, and decimal
//! formatting/parsing. Everything here is executable code proved against
//! direct spec functions; only `string_push` leans on std.

use vstd::prelude::*;
use vstd::string::*;

verus! {

/// Read a byte string as UTF-8.
///
/// Relies on `String::from_utf8`: it succeeds exactly on valid UTF-8 and
/// returns its decoding.
#[verifier::external_body]
pub fn string_from_utf8(bytes: Vec<u8>) -> (r: Option<String>)
    ensures
        r is Some <==> vstd::utf8::valid_utf8(bytes@),
        r matches Some(s) ==> s@ == vstd::utf8::decode_utf8(bytes@),
{
    String::from_utf8(bytes).ok()
}

/// Push one character onto a `String`.
///
/// Relies on `String::push` from std: appends exactly the one character.
#[verifier::external_body]
pub fn string_push(s: &mut String, c: char)
    ensures
        final(s)@ == old(s)@.push(c),
{
    s.push(c);
}

/// The character for a decimal digit value in `[0, 9]`.
pub open spec fn spec_digit_char(d: int) -> char {
    (48 + d) as u8 as char
}

/// Executable form of `spec_digit_char`.
pub fn digit_char(d: u8) -> (c: char)
    requires
        d < 10,
    ensures
        c == spec_digit_char(d as int),
{
    (48 + d) as char
}

/// Decimal digit value of a character, or none.
pub open spec fn spec_digit_val(c: char) -> Option<int> {
    if 48 <= c as u32 <= 57 {
        Some(c as u32 as int - 48)
    } else {
        None
    }
}

/// The canonical decimal form of a natural number, most significant digit
/// first, with no leading zeros (`0` itself is "0").
pub open spec fn spec_dec_nat(n: nat) -> Seq<char>
    decreases n,
{
    if n < 10 {
        seq![spec_digit_char(n as int)]
    } else {
        spec_dec_nat(n / 10).push(spec_digit_char((n % 10) as int))
    }
}

/// The canonical decimal form of a signed integer: a `-` sign for negative
/// values, then the magnitude's decimal form.
pub open spec fn spec_dec_int(n: int) -> Seq<char> {
    if n < 0 {
        seq!['-'] + spec_dec_nat((-n) as nat)
    } else {
        spec_dec_nat(n as nat)
    }
}

/// Format a `u64` in decimal, exactly as `spec_dec_nat` describes.
pub fn u64_to_string(n: u64) -> (r: String)
    ensures
        r@ == spec_dec_nat(n as nat),
    decreases n,
{
    if n < 10 {
        let mut s = String::new();
        string_push(&mut s, digit_char(n as u8));
        assert(s@ =~= spec_dec_nat(n as nat));
        s
    } else {
        let mut s = u64_to_string(n / 10);
        string_push(&mut s, digit_char((n % 10) as u8));
        s
    }
}

/// Format a `u32` in decimal.
pub fn u32_to_string(n: u32) -> (r: String)
    ensures
        r@ == spec_dec_nat(n as nat),
{
    u64_to_string(n as u64)
}

/// Format a `usize` in decimal.
pub fn usize_to_string(n: usize) -> (r: String)
    ensures
        r@ == spec_dec_nat(n as nat),
{
    u64_to_string(n as u64)
}

/// Format an `i64` in decimal, exactly as `spec_dec_int` describes.
pub fn i64_to_string(n: i64) -> (r: String)
    ensures
        r@ == spec_dec_int(n as int),
{
    if n >= 0 {
        u64_to_string(n as u64)
    } else {
        let magnitude: u64 = if n == i64::MIN {
            9223372036854775808u64
        } else {
            (-n) as u64
        };
        let mut s = String::new();
        string_push(&mut s, '-');
        let digits = u64_to_string(magnitude);
        let r = s.concat(digits.as_str());
        assert(r@ =~= spec_dec_int(n as int));
        r
    }
}

/// Value of a digit sequence read in decimal, most significant first.
pub open spec fn spec_digits_val(s: Seq<char>) -> nat
    decreases s.len(),
{
    if s.len() == 0 {
        0
    } else {
        spec_digits_val(s.drop_last()) * 10 + (match spec_digit_val(s.last()) {
            Some(d) => d as nat,
            None => 0,
        })
    }
}

/// True when every character of `s` is a decimal digit.
pub open spec fn spec_all_digits(s: Seq<char>) -> bool {
    forall|i: int| 0 <= i < s.len() ==> spec_digit_val(s[i]) is Some
}

/// A digit string's value only grows as more digits are read.
proof fn lemma_digits_val_monotone(s: Seq<char>, i: int)
    requires
        0 <= i <= s.len(),
    ensures
        spec_digits_val(s) >= spec_digits_val(s.subrange(0, i)),
    decreases s.len() - i,
{
    if i == s.len() {
        assert(s.subrange(0, i) =~= s);
    } else {
        lemma_digits_val_monotone(s, i + 1);
        let p = s.subrange(0, i + 1);
        assert(p.drop_last() =~= s.subrange(0, i));
        assert(spec_digits_val(p) >= spec_digits_val(p.drop_last()));
    }
}

/// The value of the digit characters of `s` from `from` on, when they are all
/// digits and the value fits in a `u64`.
pub open spec fn spec_parse_u64(s: Seq<char>) -> Option<u64> {
    let body = if s.len() > 0 && s[0] == '+' {
        s.drop_first()
    } else {
        s
    };
    if body.len() == 0 || !spec_all_digits(body) {
        None
    } else if spec_digits_val(body) <= u64::MAX {
        Some(spec_digits_val(body) as u64)
    } else {
        None
    }
}

/// The value of a signed decimal string, when well formed and in `i64` range.
pub open spec fn spec_parse_i64(s: Seq<char>) -> Option<i64> {
    if s.len() > 0 && (s[0] == '+' || s[0] == '-') {
        let neg = s[0] == '-';
        let body = s.drop_first();
        if body.len() == 0 || !spec_all_digits(body) {
            None
        } else {
            let v = spec_digits_val(body) as int;
            if neg {
                if -v >= i64::MIN as int {
                    Some((-v) as i64)
                } else {
                    None
                }
            } else {
                if v <= i64::MAX as int {
                    Some(v as i64)
                } else {
                    None
                }
            }
        }
    } else {
        if s.len() == 0 || !spec_all_digits(s) {
            None
        } else {
            let v = spec_digits_val(s) as int;
            if v <= i64::MAX as int {
                Some(v as i64)
            } else {
                None
            }
        }
    }
}

/// The value of a decimal string, when well formed and in `usize` range.
pub open spec fn spec_parse_usize(s: Seq<char>) -> Option<usize> {
    let body = if s.len() > 0 && s[0] == '+' {
        s.drop_first()
    } else {
        s
    };
    if body.len() == 0 || !spec_all_digits(body) {
        None
    } else if spec_digits_val(body) <= usize::MAX {
        Some(spec_digits_val(body) as usize)
    } else {
        None
    }
}

/// Read the digit characters of `s` from index `from` to the end.
fn parse_digits_u64(s: &str, from: usize) -> (r: Option<u64>)
    requires
        from <= s@.len(),
    ensures
        ({
            let body = s@.subrange(from as int, s@.len() as int);
            match r {
                Some(v) => body.len() > 0 && spec_all_digits(body) && v == spec_digits_val(body)
                    && spec_digits_val(body) <= u64::MAX,
                None => body.len() == 0 || !spec_all_digits(body) || spec_digits_val(body)
                    > u64::MAX,
            }
        }),
{
    let n = s.unicode_len();
    let ghost body = s@.subrange(from as int, n as int);
    if from == n {
        return None;
    }
    let mut acc: u64 = 0;
    let mut i: usize = from;
    while i < n
        invariant
            n == s@.len(),
            from <= i <= n,
            body == s@.subrange(from as int, n as int),
            from < n,
            spec_all_digits(s@.subrange(from as int, i as int)),
            acc == spec_digits_val(s@.subrange(from as int, i as int)),
        decreases n - i,
    {
        let c = s.get_char(i);
        let code: u32 = c as u32;
        if code < 48 || code > 57 {
            proof {
                assert(body[i - from] == s@[i as int]);
                assert(spec_digit_val(body[i - from]) is None);
            }
            return None;
        }
        let d: u64 = (code - 48) as u64;
        let ghost prefix = s@.subrange(from as int, i as int);
        let ghost prefix1 = s@.subrange(from as int, i + 1);
        proof {
            assert(prefix1.drop_last() =~= prefix);
            assert(spec_digit_val(prefix1.last()) == Some(d as int));
            assert forall|j: int| 0 <= j < prefix1.len() implies spec_digit_val(
                prefix1[j],
            ) is Some by {
                if j < prefix.len() {
                    assert(prefix1[j] == prefix[j]);
                }
            }
        }
        if acc > (u64::MAX - d) / 10 {
            proof {
                assert(spec_digits_val(prefix1) == acc * 10 + d);
                assert(acc * 10 + d > u64::MAX) by (nonlinear_arith)
                    requires
                        acc > (u64::MAX - d) / 10,
                        d <= 9,
                ;
                lemma_digits_val_monotone(body, i + 1 - from);
                assert(body.subrange(0, i + 1 - from) =~= prefix1);
            }
            return None;
        }
        proof {
            assert(acc * 10 + d <= u64::MAX) by (nonlinear_arith)
                requires
                    acc <= (u64::MAX - d) / 10,
                    d <= 9,
            ;
        }
        acc = acc * 10 + d;
        i += 1;
    }
    proof {
        assert(s@.subrange(from as int, n as int) == body);
    }
    Some(acc)
}

/// Parse an unsigned decimal number, allowing one leading `+`.
pub fn parse_u64(s: &str) -> (r: Option<u64>)
    ensures
        r == spec_parse_u64(s@),
{
    let n = s.unicode_len();
    if n == 0 {
        return None;
    }
    let from: usize = if s.get_char(0) == '+' {
        1
    } else {
        0
    };
    let r = parse_digits_u64(s, from);
    proof {
        if from == 1 {
            assert(s@.drop_first() =~= s@.subrange(1, s@.len() as int));
        } else {
            assert(s@ =~= s@.subrange(0, s@.len() as int));
        }
    }
    r
}

/// Parse a decimal number into a `usize`, allowing one leading `+`.
pub fn parse_usize(s: &str) -> (r: Option<usize>)
    ensures
        r == spec_parse_usize(s@),
{
    match parse_u64(s) {
        None => None,
        Some(v) => {
            if v <= usize::MAX as u64 {
                Some(v as usize)
            } else {
                None
            }
        },
    }
}

/// Parse a signed decimal number, allowing one leading `+` or `-`.
pub fn parse_i64(s: &str) -> (r: Option<i64>)
    ensures
        r == spec_parse_i64(s@),
{
    let n = s.unicode_len();
    if n == 0 {
        return None;
    }
    let first = s.get_char(0);
    let neg = first == '-';
    let from: usize = if first == '+' || first == '-' {
        1
    } else {
        0
    };
    let parsed = parse_digits_u64(s, from);
    proof {
        if from == 1 {
            assert(s@.drop_first() =~= s@.subrange(1, s@.len() as int));
        } else {
            assert(s@ =~= s@.subrange(0, s@.len() as int));
        }
    }
    match parsed {
        None => None,
        Some(v) => {
            if neg {
                if v <= 9223372036854775808u64 {
                    if v == 9223372036854775808u64 {
                        Some(i64::MIN)
                    } else {
                        Some(-(v as i64))
                    }
                } else {
                    None
                }
            } else {
                if v <= i64::MAX as u64 {
                    Some(v as i64)
                } else {
                    None
                }
            }
        },
    }
}

/// Character-for-character equality of two string slices.
pub fn str_eq(a: &str, b: &str) -> (r: bool)
    ensures
        r == (a@ == b@),
{
    let na = a.unicode_len();
    let nb = b.unicode_len();
    if na != nb {
        assert(a@ != b@);
        return false;
    }
    let mut i: usize = 0;
    while i < na
        invariant
            na == a@.len(),
            na == b@.len(),
            0 <= i <= na,
            forall|j: int| 0 <= j < i ==> a@[j] == b@[j],
        decreases na - i,
    {
        if a.get_char(i) != b.get_char(i) {
            assert(a@ != b@);
            return false;
        }
        i += 1;
    }
    assert(a@ =~= b@);
    true
}

/// An owned copy of the character range `[from, to)` of `s`.
pub fn substr_copy(s: &str, from: usize, to: usize) -> (r: String)
    requires
        from <= to <= s@.len(),
    ensures
        r@ == s@.subrange(from as int, to as int),
{
    let piece = s.substring_char(from, to);
    String::from_str(piece)
}

/// True when `sub` occurs in `h` starting at index `i`.
pub open spec fn spec_matches_at(h: Seq<char>, n: Seq<char>, i: int) -> bool {
    &&& 0 <= i
    &&& i + n.len() <= h.len()
    &&& h.subrange(i, i + n.len()) == n
}

/// True when `n` occurs somewhere in `h`.
pub open spec fn spec_contains(h: Seq<char>, n: Seq<char>) -> bool {
    exists|i: int| spec_matches_at(h, n, i)
}

/// Index of the first occurrence of `n` in `h`, if any.
pub open spec fn spec_find_sub(h: Seq<char>, n: Seq<char>) -> Option<int>
    decreases h.len(),
{
    if h.len() < n.len() {
        None
    } else if h.subrange(0, n.len() as int) == n {
        Some(0)
    } else if h.len() == 0 {
        None
    } else {
        match spec_find_sub(h.drop_first(), n) {
            Some(i) => Some(i + 1),
            None => None,
        }
    }
}

/// What `spec_find_sub` returns: the least match index, or no match at all.
pub proof fn lemma_find_sub_props(h: Seq<char>, n: Seq<char>)
    ensures
        match spec_find_sub(h, n) {
            Some(i) => spec_matches_at(h, n, i) && (forall|j: int|
                0 <= j < i ==> !spec_matches_at(h, n, j)),
            None => !spec_contains(h, n),
        },
    decreases h.len(),
{
    if h.len() < n.len() {
        assert forall|i: int| !spec_matches_at(h, n, i) by {}
    } else if h.subrange(0, n.len() as int) == n {
    } else if h.len() == 0 {
        assert(n.len() == 0);
        assert(h.subrange(0, 0) =~= n);
    } else {
        lemma_find_sub_props(h.drop_first(), n);
        let t = h.drop_first();
        assert forall|j: int| spec_matches_at(h, n, j) && j >= 1 implies spec_matches_at(
            t,
            n,
            j - 1,
        ) by {
            assert(t.subrange(j - 1, j - 1 + n.len()) =~= h.subrange(j, j + n.len()));
        }
        assert forall|j: int| spec_matches_at(t, n, j) implies spec_matches_at(h, n, j + 1) by {
            assert(h.subrange(j + 1, j + 1 + n.len()) =~= t.subrange(j, j + n.len()));
        }
        match spec_find_sub(t, n) {
            Some(i) => {
                assert(spec_matches_at(h, n, i + 1));
                assert forall|j: int| 0 <= j < i + 1 implies !spec_matches_at(h, n, j) by {
                    if j == 0 {
                        assert(h.subrange(0, n.len() as int) != n);
                    } else {
                        assert(!spec_matches_at(t, n, j - 1));
                    }
                }
            },
            None => {
                assert forall|j: int| !spec_matches_at(h, n, j) by {
                    if j == 0 {
                        assert(h.subrange(0, n.len() as int) != n);
                    } else if j >= 1 && spec_matches_at(h, n, j) {
                        assert(spec_matches_at(t, n, j - 1));
                    }
                }
            },
        }
    }
}

/// True when `p` is a prefix of `s`; checked character by character.
pub fn starts_with_str(s: &str, p: &str) -> (r: bool)
    ensures
        r == (p@.len() <= s@.len() && s@.subrange(0, p@.len() as int) == p@),
{
    let np = p.unicode_len();
    let ns = s.unicode_len();
    if np > ns {
        return false;
    }
    let mut i: usize = 0;
    while i < np
        invariant
            np == p@.len(),
            ns == s@.len(),
            np <= ns,
            0 <= i <= np,
            forall|j: int| 0 <= j < i ==> s@[j] == p@[j],
        decreases np - i,
    {
        if s.get_char(i) != p.get_char(i) {
            assert(s@.subrange(0, np as int)[i as int] != p@[i as int]);
            return false;
        }
        i += 1;
    }
    assert(s@.subrange(0, np as int) =~= p@);
    true
}

/// True when `sub` occurs in `s` at character index `at`.
pub fn matches_at(s: &str, sub: &str, at: usize) -> (r: bool)
    ensures
        r == spec_matches_at(s@, sub@, at as int),
{
    let ns = s.unicode_len();
    let nsub = sub.unicode_len();
    if at > ns || nsub > ns - at {
        return false;
    }
    let mut i: usize = 0;
    while i < nsub
        invariant
            ns == s@.len(),
            nsub == sub@.len(),
            at + nsub <= ns,
            0 <= i <= nsub,
            forall|j: int| 0 <= j < i ==> s@[at + j] == sub@[j],
        decreases nsub - i,
    {
        if s.get_char(at + i) != sub.get_char(i) {
            assert(s@.subrange(at as int, at + nsub)[i as int] != sub@[i as int]);
            return false;
        }
        i += 1;
    }
    assert(s@.subrange(at as int, at + nsub) =~= sub@);
    true
}

/// First occurrence of `sub` in `s`, by character index.
pub fn find_str(s: &str, sub: &str) -> (r: Option<usize>)
    ensures
        match r {
            Some(i) => Some(i as int) == spec_find_sub(s@, sub@),
            None => spec_find_sub(s@, sub@) is None,
        },
{
    let ns = s.unicode_len();
    let nsub = sub.unicode_len();
    let mut at: usize = 0;
    loop
        invariant
            ns == s@.len(),
            nsub == sub@.len(),
            0 <= at,
            at <= ns + 1,
            forall|j: int| 0 <= j < at ==> !spec_matches_at(s@, sub@, j),
        decreases ns + 1 - at,
    {
        if nsub > ns || at > ns - nsub {
            proof {
                lemma_find_sub_props(s@, sub@);
                assert forall|j: int| !spec_matches_at(s@, sub@, j) by {
                    if spec_matches_at(s@, sub@, j) {
                        assert(0 <= j < at);
                    }
                }
            }
            return None;
        }
        if matches_at(s, sub, at) {
            proof {
                lemma_find_sub_props(s@, sub@);
                match spec_find_sub(s@, sub@) {
                    Some(i) => {
                        assert(!(i < at));
                        assert(!(at < i));
                    },
                    None => {
                        assert(false);
                    },
                }
            }
            return Some(at);
        }
        proof {
            if nsub == 0 {
                assert(s@.subrange(at as int, at as int) =~= sub@);
                assert(false);
            }
        }
        at += 1;
    }
}

/// True when `sub` occurs anywhere in `s`.
pub fn contains_str(s: &str, sub: &str) -> (r: bool)
    ensures
        r == spec_contains(s@, sub@),
{
    proof {
        lemma_find_sub_props(s@, sub@);
    }
    match find_str(s, sub) {
        Some(_) => true,
        None => false,
    }
}

/// The pieces of `s` between occurrences of the separator `sep`, leftmost
/// match first; a string without the separator is one piece.
pub open spec fn spec_split(s: Seq<char>, sep: Seq<char>) -> Seq<Seq<char>>
    recommends
        sep.len() >= 1,
    decreases s.len(),
{
    match spec_find_sub(s, sep) {
        None => seq![s],
        Some(i) => {
            if 1 <= sep.len() && 0 <= i && i + sep.len() <= s.len() {
                seq![s.subrange(0, i)] + spec_split(
                    s.subrange(i + sep.len(), s.len() as int),
                    sep,
                )
            } else {
                seq![s]
            }
        },
    }
}

/// Split `s` at every occurrence of `sep`.
pub fn split_str(s: &str, sep: &str) -> (r: Vec<String>)
    requires
        sep@.len() >= 1,
    ensures
        r.deep_view() == spec_split(s@, sep@),
    decreases s@.len(),
{
    proof {
        lemma_find_sub_props(s@, sep@);
    }
    match find_str(s, sep) {
        None => {
            let mut out: Vec<String> = Vec::new();
            out.push(String::from_str(s));
            assert(out.deep_view() =~= spec_split(s@, sep@));
            out
        },
        Some(i) => {
            let ns = s.unicode_len();
            let nsep = sep.unicode_len();
            let head = substr_copy(s, 0, i);
            let tail = s.substring_char(i + nsep, ns);
            let mut rest = split_str(tail, sep);
            let ghost restd = rest.deep_view();
            let ghost rests = rest@;
            let mut out: Vec<String> = Vec::new();
            out.push(head);
            out.append(&mut rest);
            proof {
                assert(out@ =~= seq![out@[0]] + rests);
                assert forall|j: int| 0 <= j < out.deep_view().len() implies out.deep_view()[j] == (
                seq![s@.subrange(0, i as int)] + restd)[j] by {
                    if j >= 1 {
                        assert(out@[j] == rests[j - 1]);
                        assert(restd[j - 1] == rests[j - 1]@);
                    }
                }
                assert(out.deep_view() =~= seq![s@.subrange(0, i as int)] + restd);
            }
            assert(out.deep_view() =~= spec_split(s@, sep@));
            out
        },
    }
}

/// A line without its trailing carriage return, if it has one.
pub open spec fn spec_strip_cr(l: Seq<char>) -> Seq<char> {
    if l.len() > 0 && l.last() == '\r' {
        l.drop_last()
    } else {
        l
    }
}

/// The lines of `s`: pieces between newlines, each without a trailing
/// carriage return; a final piece after the last newline only if non-empty.
pub open spec fn spec_lines(s: Seq<char>) -> Seq<Seq<char>>
    decreases s.len(),
{
    if s.len() == 0 {
        Seq::empty()
    } else {
        match spec_find_sub(s, seq!['\n']) {
            Some(i) => {
                if 0 <= i < s.len() {
                    seq![spec_strip_cr(s.subrange(0, i))] + spec_lines(
                        s.subrange(i + 1, s.len() as int),
                    )
                } else {
                    seq![s]
                }
            },
            None => seq![s],
        }
    }
}

/// Split `s` into lines, as `spec_lines` describes them.
pub fn lines_of(s: &str) -> (r: Vec<String>)
    ensures
        r.deep_view() == spec_lines(s@),
    decreases s@.len(),
{
    proof {
        reveal_strlit("\n");
        assert("\n"@ =~= seq!['\n']);
        lemma_find_sub_props(s@, seq!['\n']);
    }
    let n = s.unicode_len();
    if n == 0 {
        let r: Vec<String> = Vec::new();
        assert(r.deep_view() =~= spec_lines(s@));
        return r;
    }
    match find_str(s, "\n") {
        None => {
            let mut r: Vec<String> = Vec::new();
            r.push(String::from_str(s));
            assert(r.deep_view() =~= spec_lines(s@));
            r
        },
        Some(i) => {
            let raw = s.substring_char(0, i);
            let rn = raw.unicode_len();
            let head: String = if rn > 0 && raw.get_char(rn - 1) == '\r' {
                substr_copy(raw, 0, rn - 1)
            } else {
                String::from_str(raw)
            };
            assert(head@ == spec_strip_cr(s@.subrange(0, i as int)));
            let tail = s.substring_char(i + 1, n);
            let mut rest = lines_of(tail);
            let ghost restd = rest.deep_view();
            let ghost rests = rest@;
            let mut out: Vec<String> = Vec::new();
            out.push(head);
            out.append(&mut rest);
            proof {
                assert(out@ =~= seq![out@[0]] + rests);
                assert forall|j: int| 0 <= j < out.deep_view().len() implies out.deep_view()[j] == (
                seq![spec_strip_cr(s@.subrange(0, i as int))] + restd)[j] by {
                    if j >= 1 {
                        assert(out@[j] == rests[j - 1]);
                        assert(restd[j - 1] == rests[j - 1]@);
                    }
                }
                assert(out.deep_view() =~= seq![spec_strip_cr(s@.subrange(0, i as int))] + restd);
            }
            assert(out.deep_view() =~= spec_lines(s@));
            out
        },
    }
}

/// The index of the last occurrence of `c` in `s`.
pub open spec fn spec_rfind_char(s: Seq<char>, c: char) -> Option<int>
    decreases s.len(),
{
    if s.len() == 0 {
        None
    } else if s.last() == c {
        Some(s.len() - 1)
    } else {
        spec_rfind_char(s.drop_last(), c)
    }
}

/// Find the last occurrence of `c` in `s`.
pub fn rfind_char(s: &str, c: char) -> (r: Option<usize>)
    ensures
        match r {
            Some(i) => Some(i as int) == spec_rfind_char(s@, c),
            None => spec_rfind_char(s@, c) is None,
        },
{
    let n = s.unicode_len();
    let mut b: usize = n;
    proof {
        assert(s@.subrange(0, n as int) =~= s@);
    }
    while b > 0
        invariant
            n == s@.len(),
            0 <= b <= n,
            spec_rfind_char(s@, c) == spec_rfind_char(s@.subrange(0, b as int), c),
        decreases b,
    {
        proof {
            assert(s@.subrange(0, b as int).last() == s@[b - 1]);
            assert(s@.subrange(0, b as int).drop_last() =~= s@.subrange(0, b - 1));
        }
        if s.get_char(b - 1) == c {
            return Some(b - 1);
        }
        b -= 1;
    }
    proof {
        assert(s@.subrange(0, 0) =~= Seq::<char>::empty());
    }
    None
}

/// The concatenation of `parts` with `sep` between consecutive parts.
pub open spec fn spec_join(parts: Seq<Seq<char>>, sep: Seq<char>) -> Seq<char>
    decreases parts.len(),
{
    if parts.len() == 0 {
        Seq::empty()
    } else if parts.len() == 1 {
        parts[0]
    } else {
        parts[0] + sep + spec_join(parts.drop_first(), sep)
    }
}

/// Appending one more part to a join extends it by the separator and the part.
pub proof fn lemma_join_push(parts: Seq<Seq<char>>, sep: Seq<char>, x: Seq<char>)
    requires
        parts.len() >= 1,
    ensures
        spec_join(parts.push(x), sep) == spec_join(parts, sep) + sep + x,
    decreases parts.len(),
{
    if parts.len() == 1 {
        let p = parts.push(x);
        assert(p.drop_first() =~= seq![x]);
        assert(spec_join(seq![x], sep) == seq![x][0]);
        assert(seq![x][0] == x);
        assert(spec_join(p, sep) == p[0] + sep + spec_join(p.drop_first(), sep));
        assert(spec_join(parts, sep) + sep + x =~= parts[0] + sep + x);
    } else {
        lemma_join_push(parts.drop_first(), sep, x);
        assert(parts.push(x).drop_first() =~= parts.drop_first().push(x));
        assert(spec_join(parts, sep) + sep + x =~= parts[0] + sep + (spec_join(
            parts.drop_first(),
            sep,
        ) + sep + x));
    }
}

/// Join the parts with `sep` between consecutive parts.
pub fn join_str(parts: &Vec<String>, sep: &str) -> (r: String)
    ensures
        r@ == spec_join(parts.deep_view(), sep@),
{
    if parts.len() == 0 {
        return String::new();
    }
    let mut out = parts[0].clone();
    assert(out@ == parts.deep_view()[0]);
    let n = parts.len();
    let mut i: usize = 1;
    assert(parts.deep_view().subrange(0, 1) =~= seq![parts.deep_view()[0]]);
    while i < n
        invariant
            n == parts.len(),
            n == parts.deep_view().len(),
            1 <= i <= n,
            out@ == spec_join(parts.deep_view().subrange(0, i as int), sep@),
        decreases n - i,
    {
        out.append(sep);
        let piece = parts[i].clone();
        out.append(piece.as_str());
        proof {
            let prefix = parts.deep_view().subrange(0, i as int);
            lemma_join_push(prefix, sep@, parts.deep_view()[i as int]);
            assert(prefix.push(parts.deep_view()[i as int]) =~= parts.deep_view().subrange(
                0,
                i + 1,
            ));
        }
        i += 1;
    }
    assert(parts.deep_view().subrange(0, n as int) =~= parts.deep_view());
    out
}

/// ASCII whitespace, as trimming understands it.
pub open spec fn spec_is_space(c: char) -> bool {
    c == ' ' || c == '\t' || c == '\r' || c == '\n'
}

/// `s` without leading ASCII whitespace.
pub open spec fn spec_trim_start(s: Seq<char>) -> Seq<char>
    decreases s.len(),
{
    if s.len() > 0 && spec_is_space(s[0]) {
        spec_trim_start(s.drop_first())
    } else {
        s
    }
}

/// `s` without trailing ASCII whitespace.
pub open spec fn spec_trim_end(s: Seq<char>) -> Seq<char>
    decreases s.len(),
{
    if s.len() > 0 && spec_is_space(s.last()) {
        spec_trim_end(s.drop_last())
    } else {
        s
    }
}

/// `s` without leading and trailing ASCII whitespace.
pub open spec fn spec_trim(s: Seq<char>) -> Seq<char> {
    spec_trim_end(spec_trim_start(s))
}

/// Is the character ASCII whitespace?
pub fn is_space(c: char) -> (r: bool)
    ensures
        r == spec_is_space(c),
{
    c == ' ' || c == '\t' || c == '\r' || c == '\n'
}

/// A run of leading spaces drops off `spec_trim_start` one by one.
proof fn lemma_trim_start_at(s: Seq<char>, a: int)
    requires
        0 <= a <= s.len(),
        forall|i: int| 0 <= i < a ==> spec_is_space(s[i]),
        a < s.len() ==> !spec_is_space(s[a]),
    ensures
        spec_trim_start(s) == s.subrange(a, s.len() as int),
    decreases s.len(),
{
    if a == 0 {
        if s.len() > 0 && spec_is_space(s[0]) {
            assert(false);
        }
        assert(s.subrange(0, s.len() as int) =~= s);
    } else {
        let t = s.drop_first();
        lemma_trim_start_at(t, a - 1);
        assert(t.subrange(a - 1, t.len() as int) =~= s.subrange(a, s.len() as int));
    }
}

/// A run of trailing spaces drops off `spec_trim_end` one by one.
proof fn lemma_trim_end_at(s: Seq<char>, b: int)
    requires
        0 <= b <= s.len(),
        forall|i: int| b <= i < s.len() ==> spec_is_space(s[i]),
        b > 0 ==> !spec_is_space(s[b - 1]),
    ensures
        spec_trim_end(s) == s.subrange(0, b),
    decreases s.len(),
{
    if b == s.len() {
        if s.len() > 0 && spec_is_space(s.last()) {
            let t = s.drop_last();
            lemma_trim_end_at(t, b - 1);
            assert(t.subrange(0, b - 1) =~= s.subrange(0, b - 1));
            assert(s.subrange(0, b) =~= s);
            assert(false);
        }
        assert(s.subrange(0, b) =~= s);
    } else {
        let t = s.drop_last();
        lemma_trim_end_at(t, b);
        assert(t.subrange(0, b) =~= s.subrange(0, b));
    }
}

/// Trim leading and trailing ASCII whitespace from `s`.
pub fn trim_str(s: &str) -> (r: String)
    ensures
        r@ == spec_trim(s@),
{
    let n = s.unicode_len();
    let mut a: usize = 0;
    while a < n && is_space(s.get_char(a))
        invariant
            n == s@.len(),
            0 <= a <= n,
            forall|i: int| 0 <= i < a ==> spec_is_space(s@[i]),
        decreases n - a,
    {
        a += 1;
    }
    proof {
        lemma_trim_start_at(s@, a as int);
    }
    let mut b: usize = n;
    while b > a && is_space(s.get_char(b - 1))
        invariant
            n == s@.len(),
            0 <= a <= b <= n,
            a < n ==> !spec_is_space(s@[a as int]),
            forall|i: int| b <= i < n ==> spec_is_space(s@[i]),
        decreases b,
    {
        b -= 1;
    }
    let r = substr_copy(s, a, b);
    proof {
        let st = s@.subrange(a as int, n as int);
        if b > a {
            lemma_trim_end_at(st, b - a);
            assert(st.subrange(0, b - a) =~= s@.subrange(a as int, b as int));
        } else {
            assert(b == a);
            lemma_trim_end_at(st, 0);
            assert(st.subrange(0, 0) =~= s@.subrange(a as int, b as int));
        }
    }
    r
}

} // verus!


