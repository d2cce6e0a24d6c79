//! A wait-free cache table in front of the nearest-colour search.
//!
//! The table has `N` buckets of two slots. Each slot is one `AtomicU32`
//! word, read and written with relaxed loads and stores only. A word is
//! either [`EMPTY`] or an *entry*: the colour in its high 24 bits and the
//! palette index in its low 8 bits. `EMPTY` reads as white mapped to index
//! 0, which is never stored: white is monochrome, so it never reaches the
//! cache, and indices below 16 are never search results.
//!
//! The words that the loads return are whatever some thread stored, so
//! nothing is known of them at a call. A lookup is therefore split at the
//! loads: [`finish_lookup`] takes the two loaded words and says exactly
//! what is returned for each of them. What makes the cache correct is
//! a property of the words alone, proved below over every possible word:
//! if every word the table holds agrees with the search, then a probe
//! answers the search's result or misses, and the word that an insertion
//! stores agrees with the search too. Each store writes one whole word,
//! so this holds however the threads interleave.
use std::sync::atomic::{AtomicU32, Ordering};
use vstd::prelude::*;

verus! {

/// The word of an empty slot.
pub const EMPTY: u32 = 0xffff_ff00;

/// Buckets of the cache of the 256-colour palette.
pub const BUCKETS256: usize = 1024;

/// Buckets of the cache of the 88-colour palette.
pub const BUCKETS88: usize = 512;

/// The key of a colour: the channels in the high 24 bits of a word.
pub open spec fn key_of(r: u8, g: u8, b: u8) -> u32 {
    (r as int * 0x100_0000 + g as int * 0x1_0000 + b as int * 0x100) as u32
}

/// The key part of a word (its high 24 bits).
pub open spec fn word_key(w: u32) -> u32 {
    (w - w % 0x100) as u32
}

/// The index part of a word (its low 8 bits).
pub open spec fn word_index(w: u32) -> u8 {
    (w % 0x100) as u8
}

/// The entry mapping `key` to `idx`.
pub open spec fn entry_of(key: u32, idx: u8) -> u32 {
    (key + idx) as u32
}

/// What probing a bucket whose slots hold `w0` and `w1` answers for `key`:
/// the index of the first slot that holds an entry of that key.
pub open spec fn probe(w0: u32, w1: u32, key: u32) -> Option<u8> {
    if w0 != EMPTY && word_key(w0) == key {
        Some(word_index(w0))
    } else if w1 != EMPTY && word_key(w1) == key {
        Some(word_index(w1))
    } else {
        None
    }
}

/// The hash of a key: a fixed sequence of rotations, xors, shifts and
/// wrapping additions.
pub open spec fn mix_of(key: u32) -> u32 {
    let k1 = ((key >> 8u32) | (key << 24u32)) ^ 0x9e37_79b9u32;
    let k2 = k1.wrapping_add(0x7ed5_5d16).wrapping_add(k1 << 12u32);
    let k3 = (k2 ^ 0xc761_c23cu32) ^ (k2 >> 19u32);
    let k4 = k3.wrapping_add(0x1656_67b1).wrapping_add(k3 << 5u32);
    let k5 = k4.wrapping_add(0xd3a2_646c) ^ (k4 << 9u32);
    let k6 = k5.wrapping_add(0xfd70_46c5).wrapping_add(k5 << 3u32);
    (k6 ^ 0xb55a_4f09u32) ^ (k6 >> 16u32)
}

/// The bucket of a key in a table of `n` buckets.
pub open spec fn bucket_of(key: u32, n: int) -> int {
    mix_of(key) as int % n
}

/// Mixes two words into one (a 32×32→64 multiply folded in half).
pub open spec fn wmix(a: u32, b: u32) -> u32 {
    let c = ((a ^ 0x53c5_ca59u32) as u64).wrapping_mul((b ^ 0x7474_3c1bu32) as u64);
    (c as u32) ^ ((c >> 32u64) as u32)
}

/// The slot an insertion of index `idx` overwrites, when the bucket held
/// `w0` and `w1`: an empty slot (the first if both are), slot 0 if both
/// hold the same word, else a slot picked by mixing the two words and the
/// new index. The key's hash is not used for the choice: it would tie the
/// slot to the key, and the table would behave as `2 * N` buckets of one
/// slot.
pub open spec fn victim_slot(w0: u32, w1: u32, idx: u8) -> int {
    if w0 == EMPTY || w0 == w1 {
        0
    } else if w1 == EMPTY {
        1
    } else {
        let h = wmix(wmix(w1, w0), idx as u32);
        (((h >> 16u32) ^ (h & 0xffffu32)) % 2) as int
    }
}

/// Encodes a colour as its key.
pub fn encode_key(r: u8, g: u8, b: u8) -> (k: u32)
    ensures
        k == key_of(r, g, b),
        k % 0x100 == 0,
{
    let k = ((r as u32) << 24u32) | ((g as u32) << 16u32) | ((b as u32) << 8u32);
    assert(((r as u32) << 24u32) | ((g as u32) << 16u32) | ((b as u32) << 8u32)
        == r as u32 * 0x100_0000 + g as u32 * 0x1_0000 + b as u32 * 0x100) by (bit_vector);
    assert((r as u32 * 0x100_0000 + g as u32 * 0x1_0000 + b as u32 * 0x100) % 0x100 == 0) by (bit_vector);
    k
}

/// Hashes a key.
pub fn mix(key: u32) -> (h: u32)
    ensures
        h == mix_of(key),
{
    let k1 = ((key >> 8u32) | (key << 24u32)) ^ 0x9e37_79b9u32;
    let k2 = k1.wrapping_add(0x7ed5_5d16).wrapping_add(k1 << 12u32);
    let k3 = (k2 ^ 0xc761_c23cu32) ^ (k2 >> 19u32);
    let k4 = k3.wrapping_add(0x1656_67b1).wrapping_add(k3 << 5u32);
    let k5 = k4.wrapping_add(0xd3a2_646c) ^ (k4 << 9u32);
    let k6 = k5.wrapping_add(0xfd70_46c5).wrapping_add(k5 << 3u32);
    (k6 ^ 0xb55a_4f09u32) ^ (k6 >> 16u32)
}

/// Probes the two words of a bucket for `key`.
pub fn probe_slots(w0: u32, w1: u32, key: u32) -> (res: Option<u8>)
    ensures
        res == probe(w0, w1, key),
{
    assert(w0 & 0xffff_ff00u32 == w0 - w0 % 0x100 && (w0 & 0xffu32) == w0 % 0x100) by (bit_vector);
    assert(w1 & 0xffff_ff00u32 == w1 - w1 % 0x100 && (w1 & 0xffu32) == w1 % 0x100) by (bit_vector);
    if w0 != EMPTY && (w0 & 0xffff_ff00u32) == key {
        return Some((w0 & 0xffu32) as u8);
    }
    if w1 != EMPTY && (w1 & 0xffff_ff00u32) == key {
        return Some((w1 & 0xffu32) as u8);
    }
    None
}

/// The entry mapping `key` (whose low byte is clear) to `idx`.
pub fn make_entry(key: u32, idx: u8) -> (w: u32)
    requires
        key % 0x100 == 0,
    ensures
        w == entry_of(key, idx),
        word_key(w) == key,
        word_index(w) == idx,
{
    assert(key % 0x100 == 0 ==> key | (idx as u32) == key + idx as u32 && key + idx as u32 <= 0xffff_ffffu32)
        by (bit_vector);
    key | (idx as u32)
}

fn wmix_exec(a: u32, b: u32) -> (h: u32)
    ensures
        h == wmix(a, b),
{
    let c: u64 = ((a ^ 0x53c5_ca59u32) as u64).wrapping_mul((b ^ 0x7474_3c1bu32) as u64);
    (c as u32) ^ ((c >> 32u64) as u32)
}

/// Picks the slot that an insertion overwrites.
pub fn pick_victim(w0: u32, w1: u32, idx: u8) -> (s: usize)
    ensures
        s == victim_slot(w0, w1, idx),
        s < 2,
{
    if w0 == EMPTY || w0 == w1 {
        0
    } else if w1 == EMPTY {
        1
    } else {
        let h = wmix_exec(wmix_exec(w1, w0), idx as u32);
        (((h >> 16u32) ^ (h & 0xffffu32)) % 2) as usize
    }
}

/// Word `w` agrees with a search that maps keys to indices by `s`: it is
/// `EMPTY`, or an entry of some key to `s` of that key, an index of at
/// least 16.
pub open spec fn word_agrees(w: u32, s: spec_fn(u32) -> u8) -> bool {
    w == EMPTY || (word_index(w) == s(word_key(w)) && 16 <= word_index(w))
}

/// The bucket of `key` in a table of `n` buckets.
pub fn bucket_index(key: u32, n: usize) -> (i: usize)
    requires
        n > 0,
    ensures
        i == bucket_of(key, n as int),
        i < n,
{
    (mix(key) as usize) % n
}

/// A table of `N` buckets of two slots, shared by reference between
/// threads. Each slot starts `EMPTY`.
pub struct CacheTab<const N: usize> {
    items: Vec<[AtomicU32; 2]>,
}

impl<const N: usize> CacheTab<N> {
    #[verifier::type_invariant]
    spec fn inv(&self) -> bool {
        self.items.len() == N && N > 0
    }

    /// The number of buckets.
    pub closed spec fn buckets(&self) -> nat {
        self.items@.len()
    }

    /// A table of `N` buckets with every slot empty.
    pub fn new() -> (t: Self)
        requires
            N > 0,
        ensures
            t.buckets() == N,
    {
        let mut items: Vec<[AtomicU32; 2]> = Vec::new();
        let mut i: usize = 0;
        while i < N
            invariant
                0 <= i <= N,
                items.len() == i,
            decreases N - i,
        {
            items.push([AtomicU32::new(EMPTY), AtomicU32::new(EMPTY)]);
            i += 1;
        }
        CacheTab { items }
    }

    /// The two slots of the bucket of `key`.
    fn bucket(&self, key: u32) -> (slots: &[AtomicU32; 2]) {
        proof {
            use_type_invariant(self);
        }
        &self.items[bucket_index(key, N)]
    }

    /// Reads the cache without changing it: the answer of probing the two
    /// words that the bucket of `(r, g, b)` holds at the time. Those words
    /// are whatever some thread last stored, so the contract speaks of some
    /// pair of words; that they agree with the search is
    /// [`crate::lemma_cache_never_poisons`].
    pub fn read(&self, r: u8, g: u8, b: u8) -> (res: Option<u8>)
        ensures
            exists|w0: u32, w1: u32| res == probe(w0, w1, key_of(r, g, b)),
    {
        let key = encode_key(r, g, b);
        let slots = self.bucket(key);
        probe_slots(slots[0].load(Ordering::Relaxed), slots[1].load(Ordering::Relaxed), key)
    }

    /// Returns the cached index of `(r, g, b)`, or, on a miss, computes it
    /// with `f`, stores the entry in the slot that [`victim_slot`] picks
    /// and returns it. At most two loads and one store; no retries. The
    /// result is what [`finish_lookup`] answers for the two loaded words.
    ///
    /// White is never a key (its entry for index 0 would read as `EMPTY`),
    /// and `f` answers searchable indices only, so every stored word is an
    /// entry that agrees with `f`.
    pub fn get_or_insert<F: Fn(u8, u8, u8) -> u8>(&self, r: u8, g: u8, b: u8, f: F) -> (res: u8)
        requires
            !(r == 255 && g == 255 && b == 255),
            f.requires((r, g, b)),
            forall|v: u8| f.ensures((r, g, b), v) ==> 16 <= v,
        ensures
            exists|w0: u32, w1: u32|
                match #[trigger] probe(w0, w1, key_of(r, g, b)) {
                    Some(v) => res == v,
                    None => f.ensures((r, g, b), res),
                },
    {
        let key = encode_key(r, g, b);
        let slots = self.bucket(key);
        let w0 = slots[0].load(Ordering::Relaxed);
        let w1 = slots[1].load(Ordering::Relaxed);
        finish_lookup(slots, w0, w1, r, g, b, f)
    }
}

/// The step of a lookup after the two slots of its bucket were loaded as
/// `w0` and `w1`: on a hit, the index of the matching entry; on a miss,
/// the index `f` computes, whose entry is then stored in slot
/// `victim_slot(w0, w1, index)`.
pub fn finish_lookup<F: Fn(u8, u8, u8) -> u8>(
    slots: &[AtomicU32; 2],
    w0: u32,
    w1: u32,
    r: u8,
    g: u8,
    b: u8,
    f: F,
) -> (res: u8)
    requires
        f.requires((r, g, b)),
    ensures
        match probe(w0, w1, key_of(r, g, b)) {
            Some(v) => res == v,
            None => f.ensures((r, g, b), res),
        },
{
    let key = encode_key(r, g, b);
    if let Some(v) = probe_slots(w0, w1, key) {
        return v;
    }
    let v = f(r, g, b);
    let entry = make_entry(key, v);
    let s = pick_victim(w0, w1, v);
    slots[s].store(entry, Ordering::Relaxed);
    v
}

} // verus!
