//! Verified core of an authenticated, caching HLS reverse proxy.
//!
//! The library holds the proxy's logic: signed-URL authentication, cache key
//! derivation, rate-limit decisions, cookie merging, playlist rewriting,
//! range slicing, content negotiation, and the obfuscated-stream decryption
//! pipeline. I/O (HTTP, the key-value store) lives outside, in thin adapters
//! that hand the library plain values.


pub mod auth;
pub mod b64;
pub mod byterange;
pub mod catalog;
pub mod clock;
pub mod config;
pub mod conneg;
pub mod cookies;
pub mod digest;
pub mod errors;
pub mod hexcode;
pub mod obfuscation;
pub mod playlist;
pub mod proxy;
pub mod proxy_cache;
pub mod ratelimit;
pub mod signature;
pub mod textutil;
pub mod urlinfo;
