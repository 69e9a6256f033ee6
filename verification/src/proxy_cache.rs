//! Content-addressed cache keys for playlists and media segments, the
//! in-process single-flight registry, and the prefetch filtering step.
//!
//! Cache keys are `pcache:m3u8:<hex sha256(url)>` and
//! `pcache:seg:<hex sha256(url)>`: one canonical key per URL, with distinct
//! prefixes for the two kinds.

use vstd::prelude::*;
use vstd::string::*;
use vstd::utf8::*;

use crate::digest::{sha256_digest, sha256_of};
use crate::hexcode::{hex_encode, lemma_hex_injective, lemma_hex_len, spec_hex_of};
use crate::textutil::str_eq;

verus! {

/// The proxy cache's operations; the store and upstream round trips are
/// implemented outside, around this module's verified keys and filtering.
pub trait ProxyCacheServiceTrait {
    /// Look up both cache entries for a URL in one round trip.
    fn get_cached(&self, url: &str) -> (Option<String>, Option<Vec<u8>>);

    /// Cache raw playlist text (before rewriting) with the short TTL.
    fn cache_m3u8(&self, url: &str, text: &str);

    /// Cache segment bytes with the longer TTL.
    fn cache_segment(&self, url: &str, bytes: &Vec<u8>);

    /// Wait for an in-flight prefetch of the URL and re-read the cache.
    fn wait_for_inflight(&self, url: &str) -> Option<Vec<u8>>;

    /// Prefetch segment URLs in the background, skipping cached ones.
    fn prefetch_segments(&self, urls: Vec<String>);
}

/// Playlist cache entries live this many seconds.
pub const M3U8_TTL_SECONDS: u64 = 10;

/// Segment cache entries live this many seconds.
pub const SEGMENT_TTL_SECONDS: u64 = 300;

/// The hex SHA-256 digest a URL is addressed by.
pub open spec fn spec_hash_url(url: Seq<char>) -> Seq<char> {
    spec_hex_of(sha256_of(encode_utf8(url)))
}

/// The cache key for the playlist stored under `url`.
pub open spec fn spec_m3u8_key(url: Seq<char>) -> Seq<char> {
    "pcache:m3u8:"@ + spec_hash_url(url)
}

/// The cache key for the segment stored under `url`.
pub open spec fn spec_segment_key(url: Seq<char>) -> Seq<char> {
    "pcache:seg:"@ + spec_hash_url(url)
}

/// Lowercase hex SHA-256 of the URL's UTF-8 bytes; 64 characters.
pub fn hash_url(url: &str) -> (r: String)
    ensures
        r@ == spec_hash_url(url@),
        r@.len() == 64,
{
    let digest = sha256_digest(url.as_bytes());
    let r = hex_encode(digest.as_slice());
    proof {
        lemma_hex_len(digest@);
    }
    r
}

/// The playlist cache key for `url`.
pub fn m3u8_key(url: &str) -> (r: String)
    ensures
        r@ == spec_m3u8_key(url@),
{
    let mut r = String::from_str("pcache:m3u8:");
    let h = hash_url(url);
    r.append(h.as_str());
    r
}

/// The segment cache key for `url`.
pub fn segment_key(url: &str) -> (r: String)
    ensures
        r@ == spec_segment_key(url@),
{
    let mut r = String::from_str("pcache:seg:");
    let h = hash_url(url);
    r.append(h.as_str());
    r
}

/// Law: playlist keys and segment keys never collide, whatever the URLs:
/// the two prefixes differ at a fixed position.
pub proof fn lemma_key_kinds_distinct(u1: Seq<char>, u2: Seq<char>)
    ensures
        spec_m3u8_key(u1) != spec_segment_key(u2),
{
    reveal_strlit("pcache:m3u8:");
    reveal_strlit("pcache:seg:");
    let k1 = spec_m3u8_key(u1);
    let k2 = spec_segment_key(u2);
    assert(k1[7] == 'm');
    assert(k2[7] == 's');
    if k1 == k2 {
        assert(k1[7] == k2[7]);
        assert(false);
    }
}

/// Law: two URLs sharing a playlist key share their SHA-256 digest, so a key
/// collision requires a SHA-256 collision.
pub proof fn lemma_m3u8_key_collision(u1: Seq<char>, u2: Seq<char>)
    requires
        spec_m3u8_key(u1) == spec_m3u8_key(u2),
    ensures
        sha256_of(encode_utf8(u1)) == sha256_of(encode_utf8(u2)),
{
    reveal_strlit("pcache:m3u8:");
    let p = "pcache:m3u8:"@;
    let h1 = spec_hash_url(u1);
    let h2 = spec_hash_url(u2);
    assert((p + h1).len() == (p + h2).len());
    assert forall|i: int| 0 <= i < h1.len() implies h1[i] == h2[i] by {
        assert((p + h1)[p.len() + i] == h1[i]);
        assert((p + h2)[p.len() + i] == h2[i]);
    }
    assert(h1 =~= h2);
    lemma_hex_injective(sha256_of(encode_utf8(u1)), sha256_of(encode_utf8(u2)));
}

/// Law: the same for segment keys.
pub proof fn lemma_segment_key_collision(u1: Seq<char>, u2: Seq<char>)
    requires
        spec_segment_key(u1) == spec_segment_key(u2),
    ensures
        sha256_of(encode_utf8(u1)) == sha256_of(encode_utf8(u2)),
{
    reveal_strlit("pcache:seg:");
    let p = "pcache:seg:"@;
    let h1 = spec_hash_url(u1);
    let h2 = spec_hash_url(u2);
    assert((p + h1).len() == (p + h2).len());
    assert forall|i: int| 0 <= i < h1.len() implies h1[i] == h2[i] by {
        assert((p + h1)[p.len() + i] == h1[i]);
        assert((p + h2)[p.len() + i] == h2[i]);
    }
    assert(h1 =~= h2);
    lemma_hex_injective(sha256_of(encode_utf8(u1)), sha256_of(encode_utf8(u2)));
}

/// The URLs whose segment is not yet cached, kept in order.
pub open spec fn spec_filter_uncached(urls: Seq<Seq<char>>, cached: Seq<bool>) -> Seq<Seq<char>>
    decreases urls.len(),
{
    if urls.len() == 0 || cached.len() == 0 {
        Seq::empty()
    } else if cached[0] {
        spec_filter_uncached(urls.drop_first(), cached.drop_first())
    } else {
        seq![urls[0]] + spec_filter_uncached(urls.drop_first(), cached.drop_first())
    }
}

/// Keep only the URLs whose cache probe came back negative.
pub fn filter_uncached(urls: &Vec<String>, cached: &Vec<bool>) -> (r: Vec<String>)
    requires
        urls@.len() == cached@.len(),
    ensures
        r.deep_view() == spec_filter_uncached(urls.deep_view(), cached@),
{
    let mut out: Vec<String> = Vec::new();
    let n = urls.len();
    let mut i: usize = 0;
    proof {
        lemma_filter_uncached_take(urls.deep_view(), cached@, 0);
        assert(out.deep_view() =~= spec_filter_uncached(
            urls.deep_view().take(0),
            cached@.take(0),
        ));
    }
    while i < n
        invariant
            n == urls@.len(),
            n == cached@.len(),
            n == urls.deep_view().len(),
            0 <= i <= n,
            out.deep_view() == spec_filter_uncached(
                urls.deep_view().take(i as int),
                cached@.take(i as int),
            ),
        decreases n - i,
    {
        let ghost pre = out.deep_view();
        if !cached[i] {
            let u = urls[i].clone();
            assert(u@ == urls.deep_view()[i as int]);
            out.push(u);
            proof {
                assert forall|j: int| 0 <= j < out.deep_view().len() implies out.deep_view()[j]
                    == pre.push(urls.deep_view()[i as int])[j] by {}
                assert(out.deep_view() =~= pre.push(urls.deep_view()[i as int]));
            }
        }
        proof {
            lemma_filter_uncached_step(urls.deep_view(), cached@, i as int);
        }
        i += 1;
    }
    proof {
        assert(urls.deep_view().take(n as int) =~= urls.deep_view());
        assert(cached@.take(n as int) =~= cached@);
    }
    out
}

/// Filtering an empty prefix yields nothing.
proof fn lemma_filter_uncached_take(urls: Seq<Seq<char>>, cached: Seq<bool>, i: int)
    requires
        i == 0,
    ensures
        spec_filter_uncached(urls.take(0), cached.take(0)) =~= Seq::<Seq<char>>::empty(),
{
}

/// Filtering one more element appends it exactly when it is uncached.
proof fn lemma_filter_uncached_step(urls: Seq<Seq<char>>, cached: Seq<bool>, i: int)
    requires
        urls.len() == cached.len(),
        0 <= i < urls.len(),
    ensures
        spec_filter_uncached(urls.take(i + 1), cached.take(i + 1)) == if cached[i] {
            spec_filter_uncached(urls.take(i), cached.take(i))
        } else {
            spec_filter_uncached(urls.take(i), cached.take(i)).push(urls[i])
        },
    decreases i,
{
    if i == 0 {
        assert(urls.take(1) =~= seq![urls[0]]);
        assert(cached.take(1) =~= seq![cached[0]]);
        assert(urls.take(1).drop_first() =~= Seq::<Seq<char>>::empty());
        assert(cached.take(1).drop_first() =~= Seq::<bool>::empty());
        assert(cached.take(1)[0] == cached[0]);
        assert(urls.take(0) =~= Seq::<Seq<char>>::empty());
        assert(cached.take(0) =~= Seq::<bool>::empty());
        if cached[0] {
        } else {
            assert(spec_filter_uncached(urls.take(1), cached.take(1)) == seq![urls.take(1)[0]]
                + spec_filter_uncached(urls.take(1).drop_first(), cached.take(1).drop_first()));
            assert(spec_filter_uncached(urls.take(1), cached.take(1)) =~= Seq::<
                Seq<char>,
            >::empty().push(urls[0]));
        }
    } else {
        lemma_filter_uncached_step(urls.drop_first(), cached.drop_first(), i - 1);
        assert(urls.take(i + 1).drop_first() =~= urls.drop_first().take(i));
        assert(cached.take(i + 1).drop_first() =~= cached.drop_first().take(i));
        assert(urls.take(i).drop_first() =~= urls.drop_first().take(i - 1));
        assert(cached.take(i).drop_first() =~= cached.drop_first().take(i - 1));
        if cached[0] {
            assert(spec_filter_uncached(urls.take(i + 1), cached.take(i + 1))
                == spec_filter_uncached(urls.drop_first().take(i), cached.drop_first().take(i)));
            assert(urls.drop_first()[i - 1] == urls[i]);
        } else {
            assert(urls.drop_first()[i - 1] == urls[i]);
            assert(seq![urls[0]] + spec_filter_uncached(
                urls.drop_first().take(i - 1),
                cached.drop_first().take(i - 1),
            ).push(urls[i]) =~= (seq![urls[0]] + spec_filter_uncached(
                urls.drop_first().take(i - 1),
                cached.drop_first().take(i - 1),
            )).push(urls[i]));
        }
    }
}

/// No value occurs twice in the sequence.
pub open spec fn seq_no_dups(s: Seq<Seq<char>>) -> bool {
    forall|j: int, k: int| 0 <= j < k < s.len() ==> s[j] != s[k]
}

/// The set of URLs with a prefetch currently in flight in this process.
///
/// A fetcher registers a URL before going upstream; concurrent requests for
/// the same URL see the registration and wait instead of fetching. The
/// registry holds each URL at most once.
pub struct InflightSet {
    urls: Vec<String>,
}

impl InflightSet {
    /// The URLs currently registered.
    pub closed spec fn view(&self) -> Set<Seq<char>> {
        self.urls.deep_view().to_set()
    }

    /// The registry holds each URL at most once.
    pub closed spec fn wf(&self) -> bool {
        seq_no_dups(self.urls.deep_view())
    }

    /// An empty registry.
    pub fn new() -> (r: Self)
        ensures
            r@ == Set::<Seq<char>>::empty(),
            r.wf(),
    {
        let r = InflightSet { urls: Vec::new() };
        proof {
            assert(r.urls.deep_view() =~= Seq::<Seq<char>>::empty());
            assert(r@ =~= Set::<Seq<char>>::empty());
        }
        r
    }

    /// Is a prefetch of `url` registered?
    pub fn contains(&self, url: &str) -> (r: bool)
        ensures
            r == self@.contains(url@),
    {
        let n = self.urls.len();
        let mut i: usize = 0;
        while i < n
            invariant
                n == self.urls@.len(),
                0 <= i <= n,
                forall|j: int| 0 <= j < i ==> self.urls.deep_view()[j] != url@,
            decreases n - i,
        {
            if str_eq(self.urls[i].as_str(), url) {
                proof {
                    assert(self.urls.deep_view()[i as int] == url@);
                }
                return true;
            }
            i += 1;
        }
        proof {
            if self@.contains(url@) {
                let j = choose|j: int|
                    0 <= j < self.urls.deep_view().len() && self.urls.deep_view()[j] == url@;
                assert(false);
            }
        }
        false
    }

    /// Register `url`; the caller becomes the owner (and must fetch) exactly
    /// when no prefetch of `url` was in flight.
    pub fn register(&mut self, url: &str) -> (became_owner: bool)
        requires
            old(self).wf(),
        ensures
            became_owner == !old(self)@.contains(url@),
            final(self)@ == old(self)@.insert(url@),
            final(self).wf(),
    {
        if self.contains(url) {
            proof {
                assert(final(self)@ =~= old(self)@.insert(url@));
            }
            false
        } else {
            let ghost pre = self.urls.deep_view();
            self.urls.push(String::from_str(url));
            proof {
                assert forall|j: int| 0 <= j < self.urls.deep_view().len() implies self
                    .urls
                    .deep_view()[j] == pre.push(url@)[j] by {}
                assert(self.urls.deep_view() =~= pre.push(url@));
                let post = pre.push(url@);
                assert forall|y: Seq<char>| post.to_set().contains(y) implies pre.to_set().insert(
                    url@,
                ).contains(y) by {
                    let k = choose|k: int| 0 <= k < post.len() && post[k] == y;
                    if k < pre.len() {
                        assert(pre[k] == y);
                        assert(pre.contains(y));
                    }
                }
                assert forall|y: Seq<char>| pre.to_set().insert(url@).contains(y) implies post
                    .to_set()
                    .contains(y) by {
                    if y == url@ {
                        assert(post[pre.len() as int] == y);
                        assert(post.contains(y));
                    } else {
                        let k = choose|k: int| 0 <= k < pre.len() && pre[k] == y;
                        assert(post[k] == y);
                        assert(post.contains(y));
                    }
                }
                assert(post.to_set() =~= pre.to_set().insert(url@));
                assert(seq_no_dups(pre));
                assert forall|j: int, k: int| 0 <= j < k < post.len() implies post[j]
                    != post[k] by {
                    if k == pre.len() {
                        assert(post[j] == pre[j]);
                        assert(pre.contains(pre[j]));
                        assert(pre.to_set().contains(pre[j]));
                    } else {
                        assert(post[j] == pre[j] && post[k] == pre[k]);
                    }
                }
            }
            true
        }
    }

    /// Drop the registration of `url`, if any: the fetch finished (or
    /// failed), and waiters are to be woken.
    pub fn remove(&mut self, url: &str)
        requires
            old(self).wf(),
        ensures
            final(self)@ == old(self)@.remove(url@),
            final(self).wf(),
    {
        let n = self.urls.len();
        let mut i: usize = 0;
        while i < n
            invariant
                n == self.urls@.len(),
                0 <= i <= n,
                forall|j: int| 0 <= j < i ==> self.urls.deep_view()[j] != url@,
                self == old(self),
                old(self).wf(),
            decreases n - i,
        {
            if str_eq(self.urls[i].as_str(), url) {
                let ghost pre = self.urls.deep_view();
                self.urls.remove(i);
                proof {
                    assert forall|j: int| 0 <= j < self.urls.deep_view().len() implies self
                        .urls
                        .deep_view()[j] == pre.remove(i as int)[j] by {
                        assert(self.urls@[j] == old(self).urls@.remove(i as int)[j]);
                    }
                    assert(self.urls.deep_view() =~= pre.remove(i as int));
                    assert(old(self).wf());
                    assert(seq_no_dups(old(self).urls.deep_view()));
                    assert(pre =~= old(self).urls.deep_view());
                    assert(seq_no_dups(pre));
                    lemma_remove_sole_occurrence(pre, i as int);
                    assert(final(self)@ =~= old(self)@.remove(url@));
                    assert forall|j: int, k: int|
                        0 <= j < k < self.urls.deep_view().len() implies self.urls.deep_view()[j]
                        != self.urls.deep_view()[k] by {
                        let jj = if j < i as int {
                            j
                        } else {
                            j + 1
                        };
                        let kk = if k < i as int {
                            k
                        } else {
                            k + 1
                        };
                        assert(pre.remove(i as int)[j] == pre[jj]);
                        assert(pre.remove(i as int)[k] == pre[kk]);
                    }
                }
                return;
            }
            i += 1;
        }
        proof {
            if old(self)@.contains(url@) {
                let j = choose|j: int|
                    0 <= j < old(self).urls.deep_view().len() && old(self).urls.deep_view()[j]
                        == url@;
                assert(false);
            }
            assert(final(self)@ =~= old(self)@.remove(url@));
        }
    }
}

/// Removing the only index holding a value takes exactly that value out of
/// the set a duplicate-free sequence covers.
proof fn lemma_remove_sole_occurrence(s: Seq<Seq<char>>, i: int)
    requires
        0 <= i < s.len(),
        seq_no_dups(s),
    ensures
        s.remove(i).to_set() == s.to_set().remove(s[i]),
{
    let r = s.remove(i);
    let x = s[i];
    assert forall|y: Seq<char>| r.to_set().contains(y) implies s.to_set().remove(x).contains(
        y,
    ) by {
        let k = choose|k: int| 0 <= k < r.len() && r[k] == y;
        let kk = if k < i {
            k
        } else {
            k + 1
        };
        assert(r[k] == s[kk]);
        assert(s.contains(y));
        assert(y != x);
    }
    assert forall|y: Seq<char>| s.to_set().remove(x).contains(y) implies r.to_set().contains(
        y,
    ) by {
        let k = choose|k: int| 0 <= k < s.len() && s[k] == y;
        assert(k != i);
        let kk = if k < i {
            k
        } else {
            k - 1
        };
        assert(r[kk] == s[k]);
        assert(r.contains(y));
    }
    assert(r.to_set() =~= s.to_set().remove(x));
}

/// Law: after one caller becomes the owner for `url`, no later registration
/// of `url` becomes the owner until the first is removed.
pub proof fn lemma_single_flight(inflight: Set<Seq<char>>, url: Seq<char>)
    ensures
        inflight.insert(url).contains(url),
{
}

} // verus!
