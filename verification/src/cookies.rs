//! The per-upstream-domain cookie jar: merging `Set-Cookie` values into one
//! stored `Cookie` header line.
//!
//! The stored value joins `name=value` pairs with `"; "`. On update, the
//! stored line is parsed back into pairs, incoming `Set-Cookie` values are
//! cut down to their `name=value` part, and the two are merged with the new
//! value winning on a name collision. The key-value store round trips live
//! outside; this module does the merging.

use vstd::prelude::*;
use vstd::string::*;
use vstd::pervasive::VecAdditionalExecFns;

use crate::textutil::{
    find_str, join_str, lemma_find_sub_props, spec_find_sub, spec_join, spec_split, spec_trim,
    split_str, str_eq, substr_copy, trim_str,
};
use crate::urlinfo::{url_host_of, url_is_valid, url_parts};

verus! {

/// The cookie jar's operations; the store round trips are implemented
/// outside, around this module's verified merging.
pub trait CookieServiceTrait {
    fn get_cookies(&self, domain: &str) -> Option<String>;

    fn store_cookies(&self, domain: &str, cookies: &Vec<String>);
}

/// Cookie jar entries live one day.
pub const COOKIE_TTL_SECONDS: u64 = 86400;

/// The store key for a domain's cookie line.
pub fn cookie_key(domain: &str) -> (r: String)
    ensures
        r@ == "proxy_cookies:"@ + domain@,
{
    let mut r = String::from_str("proxy_cookies:");
    r.append(domain);
    r
}

/// The host a URL's cookies are filed under, when the URL parses and has
/// a host.
pub open spec fn spec_extract_domain(url: Seq<char>) -> Option<Seq<char>> {
    if url_is_valid(url) {
        url_host_of(url)
    } else {
        None
    }
}

/// The domain of an upstream URL, for cookie handling.
pub fn extract_domain(url: &str) -> (r: Option<String>)
    ensures
        r.deep_view() == spec_extract_domain(url@),
{
    match url_parts(url) {
        Some((_scheme, host, _path)) => host,
        None => None,
    }
}

/// The name before the first `=`, and what follows it.
pub open spec fn spec_split_once_eq(s: Seq<char>) -> Option<(Seq<char>, Seq<char>)> {
    match spec_find_sub(s, seq!['=']) {
        Some(i) => {
            if 0 <= i && i + 1 <= s.len() {
                Some((s.subrange(0, i), s.subrange(i + 1, s.len() as int)))
            } else {
                None
            }
        },
        None => None,
    }
}

/// Split a string at its first `=`.
pub fn split_once_eq(s: &str) -> (r: Option<(String, String)>)
    ensures
        r.deep_view() == spec_split_once_eq(s@),
{
    proof {
        lemma_find_sub_props(s@, "="@);
        reveal_strlit("=");
        assert("="@ =~= seq!['=']);
    }
    match find_str(s, "=") {
        Some(i) => {
            let n = s.unicode_len();
            let name = substr_copy(s, 0, i);
            let rest = substr_copy(s, i + 1, n);
            Some((name, rest))
        },
        None => None,
    }
}

/// A cookie map: `name=value` entries keyed by name, first insertion first.
pub type CookieEntries = Seq<(Seq<char>, Seq<char>)>;

/// Replace the value under `name`, or add the pair at the end.
pub open spec fn spec_upsert(m: CookieEntries, name: Seq<char>, entry: Seq<char>) -> CookieEntries
    decreases m.len(),
{
    if m.len() == 0 {
        seq![(name, entry)]
    } else if m[0].0 == name {
        seq![(name, entry)] + m.drop_first()
    } else {
        seq![m[0]] + spec_upsert(m.drop_first(), name, entry)
    }
}

/// Where the upsert lands: an update in place at the first occurrence of
/// the name, or a push when the name is absent.
proof fn lemma_upsert_shape(m: CookieEntries, name: Seq<char>, entry: Seq<char>, i: int)
    requires
        0 <= i <= m.len(),
        forall|j: int| 0 <= j < i ==> m[j].0 != name,
        i < m.len() ==> m[i].0 == name,
    ensures
        i < m.len() ==> spec_upsert(m, name, entry) == m.update(i, (name, entry)),
        i == m.len() ==> spec_upsert(m, name, entry) == m.push((name, entry)),
    decreases m.len(),
{
    if m.len() == 0 {
        assert(spec_upsert(m, name, entry) =~= m.push((name, entry)));
    } else if i == 0 {
        assert(spec_upsert(m, name, entry) =~= m.update(0, (name, entry)));
    } else {
        lemma_upsert_shape(m.drop_first(), name, entry, i - 1);
        if i < m.len() {
            assert(seq![m[0]] + m.drop_first().update(i - 1, (name, entry)) =~= m.update(
                i,
                (name, entry),
            ));
        } else {
            assert(seq![m[0]] + m.drop_first().push((name, entry)) =~= m.push((name, entry)));
        }
    }
}

/// Upsert into the executable cookie map.
fn upsert(m: &mut Vec<(String, String)>, name: String, entry: String)
    ensures
        final(m).deep_view() == spec_upsert(old(m).deep_view(), name@, entry@),
{
    let n = m.len();
    let mut i: usize = 0;
    while i < n
        invariant
            n == m@.len(),
            0 <= i <= n,
            m == old(m),
            forall|j: int| 0 <= j < i ==> old(m).deep_view()[j].0 != name@,
        decreases n - i,
    {
        if str_eq(m[i].0.as_str(), name.as_str()) {
            proof {
                assert(old(m).deep_view()[i as int].0 == name@);
                lemma_upsert_shape(old(m).deep_view(), name@, entry@, i as int);
            }
            m.set(i, (name, entry));
            proof {
                let post = m.deep_view();
                assert forall|j: int| 0 <= j < post.len() implies post[j] == old(
                    m,
                ).deep_view().update(i as int, (name@, entry@))[j] by {}
                assert(post =~= old(m).deep_view().update(i as int, (name@, entry@)));
            }
            return;
        }
        i += 1;
    }
    proof {
        lemma_upsert_shape(old(m).deep_view(), name@, entry@, n as int);
    }
    let ghost pre = m.deep_view();
    m.push((name, entry));
    proof {
        let post = m.deep_view();
        let ghost pushed = pre.push((name@, entry@));
        assert forall|j: int| 0 <= j < post.len() implies post[j] == pushed[j] by {}
        assert(post =~= pre.push((name@, entry@)));
    }
}

/// The cookie map read back from the stored line's parts: each `name=...`
/// part files under its name; parts without `=` are dropped.
pub open spec fn spec_map_of_parts(parts: Seq<Seq<char>>) -> CookieEntries
    decreases parts.len(),
{
    if parts.len() == 0 {
        Seq::empty()
    } else {
        let m = spec_map_of_parts(parts.drop_last());
        match spec_split_once_eq(parts.last()) {
            Some((name, _)) => spec_upsert(m, name, parts.last()),
            None => m,
        }
    }
}

/// Read the stored cookie line back into a map.
fn map_of_stored(existing: &str) -> (r: Vec<(String, String)>)
    ensures
        r.deep_view() == spec_map_of_parts(spec_split(existing@, "; "@)),
{
    proof {
        reveal_strlit("; ");
    }
    let parts = split_str(existing, "; ");
    let mut m: Vec<(String, String)> = Vec::new();
    let n = parts.len();
    let mut i: usize = 0;
    proof {
        assert(parts.deep_view().take(0) =~= Seq::<Seq<char>>::empty());
        assert(m.deep_view() =~= spec_map_of_parts(parts.deep_view().take(0)));
    }
    while i < n
        invariant
            n == parts@.len(),
            0 <= i <= n,
            parts.deep_view() == spec_split(existing@, "; "@),
            m.deep_view() == spec_map_of_parts(parts.deep_view().take(i as int)),
        decreases n - i,
    {
        let part = &parts[i];
        proof {
            assert(part@ == parts.deep_view()[i as int]);
            assert(parts.deep_view().take(i + 1).drop_last() =~= parts.deep_view().take(i as int));
            assert(parts.deep_view().take(i + 1).last() == parts.deep_view()[i as int]);
        }
        match split_once_eq(part.as_str()) {
            Some((name, _rest)) => {
                let entry = part.clone();
                upsert(&mut m, name, entry);
            },
            None => {},
        }
        i += 1;
    }
    proof {
        assert(parts.deep_view().take(n as int) =~= parts.deep_view());
    }
    m
}

/// The `name=value` part of a `Set-Cookie` value: everything before the
/// first `;`, or the whole value.
pub open spec fn spec_cookie_entry(c: Seq<char>) -> Seq<char> {
    match spec_find_sub(c, seq![';']) {
        Some(i) => {
            if 0 <= i <= c.len() {
                c.subrange(0, i)
            } else {
                c
            }
        },
        None => c,
    }
}

/// Fold the incoming `Set-Cookie` values into the map: each value's
/// `name=value` part is trimmed and filed under its trimmed name; values
/// without `=` are skipped. New values override stored ones.
pub open spec fn spec_apply_set_cookies(m: CookieEntries, cookies: Seq<Seq<char>>) -> CookieEntries
    decreases cookies.len(),
{
    if cookies.len() == 0 {
        m
    } else {
        let m1 = spec_apply_set_cookies(m, cookies.drop_last());
        let entry = spec_cookie_entry(cookies.last());
        match spec_split_once_eq(entry) {
            Some((name, _)) => spec_upsert(m1, spec_trim(name), spec_trim(entry)),
            None => m1,
        }
    }
}

/// The line written back to the store: the merged map's entries joined with
/// `"; "`.
pub open spec fn spec_merged_cookie_line(
    existing: Option<Seq<char>>,
    cookies: Seq<Seq<char>>,
) -> Seq<char> {
    let m0 = match existing {
        Some(e) => spec_map_of_parts(spec_split(e, "; "@)),
        None => Seq::empty(),
    };
    let m = spec_apply_set_cookies(m0, cookies);
    spec_join(m.map_values(|p: (Seq<char>, Seq<char>)| p.1), "; "@)
}

/// Merge incoming `Set-Cookie` values with the stored cookie line and
/// produce the new line to store.
pub fn merge_cookies(existing: Option<&String>, cookies: &Vec<String>) -> (r: String)
    ensures
        r@ == spec_merged_cookie_line(
            match existing {
                Some(e) => Some(e@),
                None => None,
            },
            cookies.deep_view(),
        ),
{
    let mut m: Vec<(String, String)> = match existing {
        Some(e) => map_of_stored(e.as_str()),
        None => Vec::new(),
    };
    proof {
        if existing is None {
            assert(m.deep_view() =~= Seq::<(Seq<char>, Seq<char>)>::empty());
        }
    }
    let ghost m0 = m.deep_view();
    let n = cookies.len();
    let mut i: usize = 0;
    proof {
        assert(cookies.deep_view().take(0) =~= Seq::<Seq<char>>::empty());
    }
    while i < n
        invariant
            n == cookies@.len(),
            m.deep_view() == spec_apply_set_cookies(m0, cookies.deep_view().take(i as int)),
            0 <= i <= n,
        decreases n - i,
    {
        let c = &cookies[i];
        proof {
            assert(c@ == cookies.deep_view()[i as int]);
            assert(cookies.deep_view().take(i + 1).drop_last() =~= cookies.deep_view().take(
                i as int,
            ));
            assert(cookies.deep_view().take(i + 1).last() == cookies.deep_view()[i as int]);
            lemma_find_sub_props(c@, ";"@);
            reveal_strlit(";");
            assert(";"@ =~= seq![';']);
        }
        let entry = match find_str(c.as_str(), ";") {
            Some(p) => substr_copy(c.as_str(), 0, p),
            None => c.clone(),
        };
        assert(entry@ == spec_cookie_entry(c@));
        match split_once_eq(entry.as_str()) {
            Some((name, _rest)) => {
                let trimmed_name = trim_str(name.as_str());
                let trimmed_entry = trim_str(entry.as_str());
                upsert(&mut m, trimmed_name, trimmed_entry);
            },
            None => {},
        }
        i += 1;
    }
    proof {
        assert(cookies.deep_view().take(n as int) =~= cookies.deep_view());
    }
    let mut values: Vec<String> = Vec::new();
    let nm = m.len();
    let mut k: usize = 0;
    while k < nm
        invariant
            nm == m@.len(),
            0 <= k <= nm,
            values.deep_view() == m.deep_view().take(k as int).map_values(
                |p: (Seq<char>, Seq<char>)| p.1,
            ),
        decreases nm - k,
    {
        let ghost pre = values.deep_view();
        let v = m[k].1.clone();
        assert(v@ == m.deep_view()[k as int].1);
        values.push(v);
        proof {
            assert forall|j: int| 0 <= j < values.deep_view().len() implies values.deep_view()[j]
                == pre.push(m.deep_view()[k as int].1)[j] by {}
            assert(values.deep_view() =~= pre.push(m.deep_view()[k as int].1));
            assert(m.deep_view().take(k + 1).map_values(|p: (Seq<char>, Seq<char>)| p.1) =~= m
                .deep_view()
                .take(k as int)
                .map_values(|p: (Seq<char>, Seq<char>)| p.1)
                .push(m.deep_view()[k as int].1));
        }
        k += 1;
    }
    proof {
        assert(m.deep_view().take(nm as int) =~= m.deep_view());
    }
    join_str(&values, "; ")
}

} // verus!
