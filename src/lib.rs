//! Nearest-colour lookups from 24-bit sRGB into the xterm 256-colour and
//! 88-colour terminal palettes.
//!
//! A lookup first tries two shortcuts ([`palette`]): a monochrome colour is
//! answered from a grey table, and a colour that is exactly a palette entry
//! is answered with that entry. Otherwise it probes a shared wait-free
//! cache table ([`cache`]), and on a miss runs the nearest-colour search,
//! whose selection step over distance keys is [`search`], and stores the
//! result.
//!
//! The search itself is handed in by the caller as a function from a
//! colour to a palette index: the Oklab conversion and the distances are
//! floating-point work done outside this library.
use vstd::prelude::*;

pub mod cache;
pub mod palette;
pub mod search;
pub mod uncached;

pub use cache::CacheTab;
pub use palette::ansi256_to_rgb;

use cache::{entry_of, key_of, probe, word_agrees, word_index, word_key, BUCKETS256, BUCKETS88, EMPTY};
use palette::{easychecks256, easychecks88, precheck256, precheck88};

verus! {

/// Looks up the entry of the 256-colour palette nearest to `(r, g, b)`.
///
/// Monochrome and exact palette colours are answered by the shortcuts and
/// never reach the cache. Other colours go through
/// [`CacheTab::get_or_insert`]: the answer is what
/// [`cache::finish_lookup`] gives for the two words loaded from the
/// colour's bucket, a hit's index or else `search`'s result, which is then
/// stored.
pub fn nearest_ansi256<F: Fn(u8, u8, u8) -> u8>(cache: &CacheTab<BUCKETS256>, r: u8, g: u8, b: u8, search: F) -> (res: u8)
    requires
        search.requires((r, g, b)),
        forall|v: u8| search.ensures((r, g, b), v) ==> 16 <= v,
    ensures
        match precheck256((r, g, b)) {
            Some(n) => res == n,
            None => exists|w0: u32, w1: u32|
                match #[trigger] probe(w0, w1, key_of(r, g, b)) {
                    Some(v) => res == v,
                    None => search.ensures((r, g, b), res),
                },
        },
{
    if let Some(n) = easychecks256(r, g, b) {
        return n;
    }
    cache.get_or_insert(r, g, b, search)
}

/// Looks up the entry of the 88-colour palette nearest to `(r, g, b)`, in
/// the same way as [`nearest_ansi256`].
pub fn nearest_ansi88<F: Fn(u8, u8, u8) -> u8>(cache: &CacheTab<BUCKETS88>, r: u8, g: u8, b: u8, search: F) -> (res: u8)
    requires
        search.requires((r, g, b)),
        forall|v: u8| search.ensures((r, g, b), v) ==> 16 <= v,
    ensures
        match precheck88((r, g, b)) {
            Some(n) => res == n,
            None => exists|w0: u32, w1: u32|
                match #[trigger] probe(w0, w1, key_of(r, g, b)) {
                    Some(v) => res == v,
                    None => search.ensures((r, g, b), res),
                },
        },
{
    if let Some(n) = easychecks88(r, g, b) {
        return n;
    }
    cache.get_or_insert(r, g, b, search)
}

/// What a lookup in the 256-colour palette answers when the bucket of the
/// colour holds `w0` and `w1` and the search maps keys by `s`.
pub open spec fn cached_answer256(w0: u32, w1: u32, r: u8, g: u8, b: u8, s: spec_fn(u32) -> u8) -> u8 {
    match precheck256((r, g, b)) {
        Some(n) => n,
        None => match probe(w0, w1, key_of(r, g, b)) {
            Some(v) => v,
            None => s(key_of(r, g, b)),
        },
    }
}

/// What a lookup in the 256-colour palette answers without the cache.
pub open spec fn uncached_answer256(r: u8, g: u8, b: u8, s: spec_fn(u32) -> u8) -> u8 {
    match precheck256((r, g, b)) {
        Some(n) => n,
        None => s(key_of(r, g, b)),
    }
}

/// What a lookup in the 88-colour palette answers through the cache.
pub open spec fn cached_answer88(w0: u32, w1: u32, r: u8, g: u8, b: u8, s: spec_fn(u32) -> u8) -> u8 {
    match precheck88((r, g, b)) {
        Some(n) => n,
        None => match probe(w0, w1, key_of(r, g, b)) {
            Some(v) => v,
            None => s(key_of(r, g, b)),
        },
    }
}

/// What a lookup in the 88-colour palette answers without the cache.
pub open spec fn uncached_answer88(r: u8, g: u8, b: u8, s: spec_fn(u32) -> u8) -> u8 {
    match precheck88((r, g, b)) {
        Some(n) => n,
        None => s(key_of(r, g, b)),
    }
}

proof fn lemma_key_low_byte(r: u8, g: u8, b: u8)
    ensures
        key_of(r, g, b) % 0x100 == 0,
        key_of(r, g, b) == r as int * 0x100_0000 + g as int * 0x1_0000 + b as int * 0x100,
{
    assert(0 <= r as int * 0x100_0000 + g as int * 0x1_0000 + b as int * 0x100 <= 0xffff_ff00
        && (r as int * 0x100_0000 + g as int * 0x1_0000 + b as int * 0x100) % 0x100 == 0) by (nonlinear_arith)
        requires r <= 255, g <= 255, b <= 255;
}

/// An entry that the cache stores agrees with the search whose result it holds.
proof fn lemma_entry_agrees(r: u8, g: u8, b: u8, s: spec_fn(u32) -> u8)
    requires
        16 <= s(key_of(r, g, b)),
    ensures
        word_agrees(entry_of(key_of(r, g, b), s(key_of(r, g, b))), s),
        entry_of(key_of(r, g, b), s(key_of(r, g, b))) != EMPTY,
{
    lemma_key_low_byte(r, g, b);
    let key = key_of(r, g, b);
    let v = s(key);
    let w = entry_of(key, v);
    assert(w == key + v);
    assert(w % 0x100 == v) by (nonlinear_arith)
        requires w == key + v, key % 0x100 == 0, 0 <= v < 0x100;
    assert(word_key(w) == key);
    assert(word_index(w) == v);
    assert(w != EMPTY);
}

/// The cache never answers a wrong index, however threads interleave.
///
/// Take any table of words in which every word agrees with the search `s`
/// (initially all are `EMPTY`). Then a probe of any two of its words for a
/// colour answers `s` of the colour's key or misses; and storing, in any
/// slot, the entry that a miss computes leaves every word agreeing with
/// `s`. Since each load and store moves one whole word, every table that
/// concurrent lookups can produce agrees with `s`, so each key is only
/// ever answered with one index. The stored entry is never `EMPTY`, so a
/// slot once filled is never empty again.
pub proof fn lemma_cache_never_poisons(
    table: Seq<u32>,
    i: int,
    j: int,
    p: int,
    r: u8,
    g: u8,
    b: u8,
    s: spec_fn(u32) -> u8,
)
    requires
        forall|q: int| 0 <= q < table.len() ==> word_agrees(#[trigger] table[q], s),
        0 <= i < table.len(),
        0 <= j < table.len(),
        0 <= p < table.len(),
        16 <= s(key_of(r, g, b)),
    ensures
        entry_of(key_of(r, g, b), s(key_of(r, g, b))) != EMPTY,
        probe(table[i], table[j], key_of(r, g, b)) is None
            || probe(table[i], table[j], key_of(r, g, b)) == Some(s(key_of(r, g, b))),
        forall|q: int|
            0 <= q < table.len() ==> word_agrees(
                #[trigger] table.update(p, entry_of(key_of(r, g, b), s(key_of(r, g, b))))[q],
                s,
            ),
{
    lemma_entry_agrees(r, g, b, s);
    assert(word_agrees(table[i], s));
    assert(word_agrees(table[j], s));
}

/// Cached and uncached lookups in the 256-colour palette agree, and so do
/// repeated lookups: whatever words two lookups find in the colour's
/// bucket, when those words agree with the search `s`, both answer what
/// the lookup without the cache answers.
pub proof fn lemma_cache_idempotent256(
    w0: u32,
    w1: u32,
    v0: u32,
    v1: u32,
    r: u8,
    g: u8,
    b: u8,
    s: spec_fn(u32) -> u8,
)
    requires
        word_agrees(w0, s),
        word_agrees(w1, s),
        word_agrees(v0, s),
        word_agrees(v1, s),
    ensures
        cached_answer256(w0, w1, r, g, b, s) == uncached_answer256(r, g, b, s),
        cached_answer256(v0, v1, r, g, b, s) == cached_answer256(w0, w1, r, g, b, s),
{
}

/// The same for the 88-colour palette.
pub proof fn lemma_cache_idempotent88(
    w0: u32,
    w1: u32,
    v0: u32,
    v1: u32,
    r: u8,
    g: u8,
    b: u8,
    s: spec_fn(u32) -> u8,
)
    requires
        word_agrees(w0, s),
        word_agrees(w1, s),
        word_agrees(v0, s),
        word_agrees(v1, s),
    ensures
        cached_answer88(w0, w1, r, g, b, s) == uncached_answer88(r, g, b, s),
        cached_answer88(v0, v1, r, g, b, s) == cached_answer88(w0, w1, r, g, b, s),
{
}

} // verus!
