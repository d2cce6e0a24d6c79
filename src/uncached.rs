//! Lookups that bypass the cache, for callers whose inputs rarely repeat.
use vstd::prelude::*;
use crate::palette::{easychecks256, easychecks88, precheck256, precheck88};

verus! {

/// Looks up the entry of the 256-colour palette nearest to `(r, g, b)`
/// without the cache: the shortcuts, else `search`.
pub fn nearest_ansi256<F: Fn(u8, u8, u8) -> u8>(r: u8, g: u8, b: u8, search: F) -> (res: u8)
    requires
        search.requires((r, g, b)),
    ensures
        match precheck256((r, g, b)) {
            Some(n) => res == n,
            None => search.ensures((r, g, b), res),
        },
{
    if let Some(n) = easychecks256(r, g, b) {
        return n;
    }
    search(r, g, b)
}

/// Looks up the entry of the 88-colour palette nearest to `(r, g, b)`
/// without the cache: the shortcuts, else `search`.
pub fn nearest_ansi88<F: Fn(u8, u8, u8) -> u8>(r: u8, g: u8, b: u8, search: F) -> (res: u8)
    requires
        search.requires((r, g, b)),
    ensures
        match precheck88((r, g, b)) {
            Some(n) => res == n,
            None => search.ensures((r, g, b), res),
        },
{
    if let Some(n) = easychecks88(r, g, b) {
        return n;
    }
    search(r, g, b)
}

} // verus!
