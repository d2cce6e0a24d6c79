//! The xterm palettes as plain data, and the two shortcuts that answer a
//! lookup without searching: monochrome inputs and exact palette colours.
use vstd::prelude::*;

verus! {

/// An sRGB colour as three channel bytes.
pub type Rgb = (u8, u8, u8);

/// The sixteen named colours, as xterm sets them by default.
pub open spec fn ansi16_rgb(i: int) -> Rgb {
    if i == 0 { (0, 0, 0) }
    else if i == 1 { (205, 0, 0) }
    else if i == 2 { (0, 205, 0) }
    else if i == 3 { (205, 205, 0) }
    else if i == 4 { (0, 0, 238) }
    else if i == 5 { (205, 0, 205) }
    else if i == 6 { (0, 205, 205) }
    else if i == 7 { (229, 229, 229) }
    else if i == 8 { (127, 127, 127) }
    else if i == 9 { (255, 0, 0) }
    else if i == 10 { (0, 255, 0) }
    else if i == 11 { (255, 255, 0) }
    else if i == 12 { (92, 92, 255) }
    else if i == 13 { (255, 0, 255) }
    else if i == 14 { (0, 255, 255) }
    else { (255, 255, 255) }
}

/// The six channel levels of the 256-colour cube.
pub open spec fn level6(i: int) -> u8 {
    if i == 0 { 0 }
    else if i == 1 { 95 }
    else if i == 2 { 135 }
    else if i == 3 { 175 }
    else if i == 4 { 215 }
    else { 255 }
}

/// The four channel levels of the 88-colour cube.
pub open spec fn level4(i: int) -> u8 {
    if i == 0 { 0 }
    else if i == 1 { 139 }
    else if i == 2 { 205 }
    else { 255 }
}

/// The eight steps of the 88-colour grey ramp.
pub open spec fn ramp8(i: int) -> u8 {
    if i == 0 { 46 }
    else if i == 1 { 92 }
    else if i == 2 { 115 }
    else if i == 3 { 139 }
    else if i == 4 { 162 }
    else if i == 5 { 185 }
    else if i == 6 { 208 }
    else { 231 }
}

/// Colour of entry `idx` (in `0..256`) of the xterm 256-colour palette: the
/// named colours, then the 6×6×6 cube from index 16, then a 24-step grey
/// ramp from index 232.
pub open spec fn ansi256_rgb(idx: int) -> Rgb {
    if idx < 16 {
        ansi16_rgb(idx)
    } else if idx < 232 {
        let c = idx - 16;
        (level6(c / 36), level6((c / 6) % 6), level6(c % 6))
    } else {
        let v = (8 + 10 * (idx - 232)) as u8;
        (v, v, v)
    }
}

/// Colour of entry `idx` (in `0..88`) of the xterm 88-colour palette: the
/// named colours, then the 4×4×4 cube from index 16, then an 8-step grey
/// ramp from index 80.
pub open spec fn ansi88_rgb(idx: int) -> Rgb {
    if idx < 16 {
        ansi16_rgb(idx)
    } else if idx < 80 {
        let c = idx - 16;
        (level4(c / 16), level4((c / 4) % 4), level4(c % 4))
    } else {
        let v = ramp8(idx - 80);
        (v, v, v)
    }
}

fn level6_of(i: u8) -> (v: u8)
    requires
        i < 6,
    ensures
        v == level6(i as int),
{
    if i == 0 { 0 } else if i == 1 { 95 } else if i == 2 { 135 } else if i == 3 { 175 } else if i == 4 { 215 } else { 255 }
}

fn level4_of(i: u8) -> (v: u8)
    requires
        i < 4,
    ensures
        v == level4(i as int),
{
    if i == 0 { 0 } else if i == 1 { 139 } else if i == 2 { 205 } else { 255 }
}

fn ramp8_of(i: u8) -> (v: u8)
    requires
        i < 8,
    ensures
        v == ramp8(i as int),
{
    if i == 0 { 46 } else if i == 1 { 92 } else if i == 2 { 115 } else if i == 3 { 139 }
    else if i == 4 { 162 } else if i == 5 { 185 } else if i == 6 { 208 } else { 231 }
}

fn ansi16_to_rgb(i: u8) -> (c: Rgb)
    requires
        i < 16,
    ensures
        c == ansi16_rgb(i as int),
{
    if i == 0 { (0, 0, 0) }
    else if i == 1 { (205, 0, 0) }
    else if i == 2 { (0, 205, 0) }
    else if i == 3 { (205, 205, 0) }
    else if i == 4 { (0, 0, 238) }
    else if i == 5 { (205, 0, 205) }
    else if i == 6 { (0, 205, 205) }
    else if i == 7 { (229, 229, 229) }
    else if i == 8 { (127, 127, 127) }
    else if i == 9 { (255, 0, 0) }
    else if i == 10 { (0, 255, 0) }
    else if i == 11 { (255, 255, 0) }
    else if i == 12 { (92, 92, 255) }
    else if i == 13 { (255, 0, 255) }
    else if i == 14 { (0, 255, 255) }
    else { (255, 255, 255) }
}

/// Splits a cube offset into its three digits in base `n`.
proof fn lemma_cube_digits(c: int, n: int)
    requires
        n == 6 || n == 4,
        0 <= c < n * n * n,
    ensures
        0 <= c / (n * n) < n,
        0 <= (c / n) % n < n,
        0 <= c % n < n,
        c == n * n * (c / (n * n)) + n * ((c / n) % n) + c % n,
{
    if n == 6 {
        assert(0 <= c / 36 < 6 && 0 <= (c / 6) % 6 < 6 && 0 <= c % 6 < 6
            && c == 36 * (c / 36) + 6 * ((c / 6) % 6) + c % 6) by (nonlinear_arith)
            requires 0 <= c < 216;
    } else {
        assert(0 <= c / 16 < 4 && 0 <= (c / 4) % 4 < 4 && 0 <= c % 4 < 4
            && c == 16 * (c / 16) + 4 * ((c / 4) % 4) + c % 4) by (nonlinear_arith)
            requires 0 <= c < 64;
    }
}

/// The cube offset with the given digits has exactly those digits.
proof fn lemma_cube_compose(a: int, b: int, d: int, n: int)
    requires
        n == 6 || n == 4,
        0 <= a < n,
        0 <= b < n,
        0 <= d < n,
    ensures
        0 <= n * n * a + n * b + d < n * n * n,
        (n * n * a + n * b + d) / (n * n) == a,
        ((n * n * a + n * b + d) / n) % n == b,
        (n * n * a + n * b + d) % n == d,
{
    if n == 6 {
        assert(0 <= 36 * a + 6 * b + d < 216 && (36 * a + 6 * b + d) / 36 == a
            && ((36 * a + 6 * b + d) / 6) % 6 == b && (36 * a + 6 * b + d) % 6 == d) by (nonlinear_arith)
            requires 0 <= a < 6, 0 <= b < 6, 0 <= d < 6;
    } else {
        assert(0 <= 16 * a + 4 * b + d < 64 && (16 * a + 4 * b + d) / 16 == a
            && ((16 * a + 4 * b + d) / 4) % 4 == b && (16 * a + 4 * b + d) % 4 == d) by (nonlinear_arith)
            requires 0 <= a < 4, 0 <= b < 4, 0 <= d < 4;
    }
}

/// Returns the colour of palette entry `index` of the 256-colour palette.
pub fn ansi256_to_rgb(index: u8) -> (c: Rgb)
    ensures
        c == ansi256_rgb(index as int),
{
    if index < 16 {
        ansi16_to_rgb(index)
    } else if index < 232 {
        let c: u8 = index - 16;
        proof {
            lemma_cube_digits(c as int, 6);
        }
        (level6_of(c / 36), level6_of((c / 6) % 6), level6_of(c % 6))
    } else {
        let v: u8 = 8 + 10 * (index - 232);
        (v, v, v)
    }
}

/// Returns the colour of palette entry `index` of the 88-colour palette.
pub fn ansi88_to_rgb(index: u8) -> (c: Rgb)
    requires
        index < 88,
    ensures
        c == ansi88_rgb(index as int),
{
    if index < 16 {
        ansi16_to_rgb(index)
    } else if index < 80 {
        let c: u8 = index - 16;
        proof {
            lemma_cube_digits(c as int, 4);
        }
        (level4_of(c / 16), level4_of((c / 4) % 4), level4_of(c % 4))
    } else {
        let v = ramp8_of(index - 80);
        (v, v, v)
    }
}

/// Whether all three channels are equal.
pub open spec fn is_mono(c: Rgb) -> bool {
    c.0 == c.1 && c.1 == c.2
}

/// `i` is the entry that the exact-colour lookup answers for colour `c` in
/// the 256-colour palette: the lowest searchable entry (`16..256`) of colour
/// `c`, or, where none has it, the lowest named entry of colour `c`.
pub open spec fn is_exact256(c: Rgb, i: int) -> bool {
    &&& 0 <= i < 256
    &&& ansi256_rgb(i) == c
    &&& forall|j: int| 16 <= j < i ==> ansi256_rgb(j) != c
    &&& i < 16 ==> forall|j: int| (0 <= j < i || 16 <= j < 256) ==> ansi256_rgb(j) != c
}

/// The same for the 88-colour palette.
pub open spec fn is_exact88(c: Rgb, i: int) -> bool {
    &&& 0 <= i < 88
    &&& ansi88_rgb(i) == c
    &&& forall|j: int| 16 <= j < i ==> ansi88_rgb(j) != c
    &&& i < 16 ==> forall|j: int| (0 <= j < i || 16 <= j < 88) ==> ansi88_rgb(j) != c
}

/// The entry of the 256-colour palette whose colour is exactly `c`, if any.
pub open spec fn exact256(c: Rgb) -> Option<u8> {
    if exists|i: int| is_exact256(c, i) {
        Some((choose|i: int| is_exact256(c, i)) as u8)
    } else {
        None
    }
}

/// The entry of the 88-colour palette whose colour is exactly `c`, if any.
pub open spec fn exact88(c: Rgb) -> Option<u8> {
    if exists|i: int| is_exact88(c, i) {
        Some((choose|i: int| is_exact88(c, i)) as u8)
    } else {
        None
    }
}

/// The entry of the 256-colour palette nearest to the grey `(v, v, v)`.
pub open spec fn grey_ansi256(v: int) -> u8 {
    if v <= 1 { 16 }
    else if v <= 12 { 232 }
    else if v <= 22 { 233 }
    else if v <= 32 { 234 }
    else if v <= 42 { 235 }
    else if v <= 52 { 236 }
    else if v <= 62 { 237 }
    else if v <= 72 { 238 }
    else if v <= 82 { 239 }
    else if v <= 91 { 240 }
    else if v <= 96 { 59 }
    else if v <= 102 { 241 }
    else if v <= 112 { 242 }
    else if v <= 122 { 243 }
    else if v <= 131 { 244 }
    else if v <= 136 { 102 }
    else if v <= 142 { 245 }
    else if v <= 152 { 246 }
    else if v <= 162 { 247 }
    else if v <= 171 { 248 }
    else if v <= 176 { 145 }
    else if v <= 182 { 249 }
    else if v <= 192 { 250 }
    else if v <= 202 { 251 }
    else if v <= 211 { 252 }
    else if v <= 216 { 188 }
    else if v <= 222 { 253 }
    else if v <= 232 { 254 }
    else if v <= 246 { 255 }
    else { 231 }
}

/// The entry of the 88-colour palette nearest to the grey `(v, v, v)`.
pub open spec fn grey_ansi88(v: int) -> u8 {
    if v <= 11 { 16 }
    else if v <= 68 { 80 }
    else if v <= 103 { 81 }
    else if v <= 126 { 82 }
    else if v <= 150 { 37 }
    else if v <= 173 { 84 }
    else if v <= 194 { 85 }
    else if v <= 206 { 58 }
    else if v <= 219 { 86 }
    else if v <= 242 { 87 }
    else { 79 }
}

/// What the shortcuts answer for `c` in the 256-colour palette: the grey
/// table for monochrome colours, else the exact-colour entry, if any.
pub open spec fn precheck256(c: Rgb) -> Option<u8> {
    if is_mono(c) {
        Some(grey_ansi256(c.0 as int))
    } else {
        exact256(c)
    }
}

/// What the shortcuts answer for `c` in the 88-colour palette.
pub open spec fn precheck88(c: Rgb) -> Option<u8> {
    if is_mono(c) {
        Some(grey_ansi88(c.0 as int))
    } else {
        exact88(c)
    }
}

proof fn lemma_exact256_is(c: Rgb, i: int)
    requires
        is_exact256(c, i),
    ensures
        exact256(c) == Some(i as u8),
{
    let k = choose|k: int| is_exact256(c, k);
    assert(is_exact256(c, k));
    assert(k == i);
}

proof fn lemma_exact88_is(c: Rgb, i: int)
    requires
        is_exact88(c, i),
    ensures
        exact88(c) == Some(i as u8),
{
    let k = choose|k: int| is_exact88(c, k);
    assert(is_exact88(c, k));
    assert(k == i);
}

fn level6_index(v: u8) -> (r: Option<u8>)
    ensures
        match r {
            Some(i) => i < 6 && level6(i as int) == v,
            None => forall|i: int| 0 <= i < 6 ==> level6(i) != v,
        },
{
    if v == 0 { Some(0) } else if v == 95 { Some(1) } else if v == 135 { Some(2) }
    else if v == 175 { Some(3) } else if v == 215 { Some(4) } else if v == 255 { Some(5) }
    else { None }
}

fn level4_index(v: u8) -> (r: Option<u8>)
    ensures
        match r {
            Some(i) => i < 4 && level4(i as int) == v,
            None => forall|i: int| 0 <= i < 4 ==> level4(i) != v,
        },
{
    if v == 0 { Some(0) } else if v == 139 { Some(1) } else if v == 205 { Some(2) }
    else if v == 255 { Some(3) } else { None }
}

fn ramp8_index(v: u8) -> (r: Option<u8>)
    ensures
        match r {
            Some(i) => i < 8 && ramp8(i as int) == v && forall|j: int| 0 <= j < i ==> ramp8(j) != v,
            None => forall|i: int| 0 <= i < 8 ==> ramp8(i) != v,
        },
{
    if v == 46 { Some(0) } else if v == 92 { Some(1) } else if v == 115 { Some(2) }
    else if v == 139 { Some(3) } else if v == 162 { Some(4) } else if v == 185 { Some(5) }
    else if v == 208 { Some(6) } else if v == 231 { Some(7) } else { None }
}

/// Finds the palette entry whose colour is exactly `(r, g, b)` in the
/// 256-colour palette, preferring the searchable entries to the named ones.
pub fn get_exact_color256(r: u8, g: u8, b: u8) -> (res: Option<u8>)
    ensures
        res == exact256((r, g, b)),
{
    let ghost c = (r, g, b);
    let ri = level6_index(r);
    let gi = level6_index(g);
    let bi = level6_index(b);
    if let (Some(x), Some(y), Some(z)) = (ri, gi, bi) {
        let i: u8 = 16 + 36 * x + 6 * y + z;
        proof {
            lemma_cube_compose(x as int, y as int, z as int, 6);
            assert forall|j: int| 16 <= j < i implies ansi256_rgb(j) != c by {
                lemma_cube_digits(j - 16, 6);
                if ansi256_rgb(j) == c {
                    lemma_cube_compose((j - 16) / 36, ((j - 16) / 6) % 6, (j - 16) % 6, 6);
                }
            }
            assert(is_exact256(c, i as int));
            lemma_exact256_is(c, i as int);
        }
        return Some(i);
    }
    assert forall|j: int| 16 <= j < 232 implies ansi256_rgb(j) != c by {
        lemma_cube_digits(j - 16, 6);
    }
    if r == g && g == b && 8 <= r && r <= 238 && (r - 8) % 10 == 0 {
        let i: u8 = 232 + (r - 8) / 10;
        proof {
            assert(is_exact256(c, i as int));
            lemma_exact256_is(c, i as int);
        }
        return Some(i);
    }
    assert forall|j: int| 232 <= j < 256 implies ansi256_rgb(j) != c by {}
    let mut i: u8 = 0;
    while i < 16
        invariant
            c == (r, g, b),
            0 <= i <= 16,
            forall|j: int| 16 <= j < 256 ==> ansi256_rgb(j) != c,
            forall|j: int| 0 <= j < i ==> ansi256_rgb(j) != c,
        decreases 16 - i,
    {
        let t = ansi16_to_rgb(i);
        if t.0 == r && t.1 == g && t.2 == b {
            proof {
                assert(is_exact256(c, i as int));
                lemma_exact256_is(c, i as int);
            }
            return Some(i);
        }
        i += 1;
    }
    assert forall|k: int| !is_exact256(c, k) by {}
    None
}

/// Finds the palette entry whose colour is exactly `(r, g, b)` in the
/// 88-colour palette, preferring the searchable entries to the named ones.
pub fn get_exact_color88(r: u8, g: u8, b: u8) -> (res: Option<u8>)
    ensures
        res == exact88((r, g, b)),
{
    let ghost c = (r, g, b);
    let ri = level4_index(r);
    let gi = level4_index(g);
    let bi = level4_index(b);
    if let (Some(x), Some(y), Some(z)) = (ri, gi, bi) {
        let i: u8 = 16 + 16 * x + 4 * y + z;
        proof {
            lemma_cube_compose(x as int, y as int, z as int, 4);
            assert forall|j: int| 16 <= j < i implies ansi88_rgb(j) != c by {
                lemma_cube_digits(j - 16, 4);
                if ansi88_rgb(j) == c {
                    lemma_cube_compose((j - 16) / 16, ((j - 16) / 4) % 4, (j - 16) % 4, 4);
                }
            }
            assert(is_exact88(c, i as int));
            lemma_exact88_is(c, i as int);
        }
        return Some(i);
    }
    assert forall|j: int| 16 <= j < 80 implies ansi88_rgb(j) != c by {
        lemma_cube_digits(j - 16, 4);
    }
    if r == g && g == b {
        if let Some(k) = ramp8_index(r) {
            let i: u8 = 80 + k;
            proof {
                assert(is_exact88(c, i as int));
                lemma_exact88_is(c, i as int);
            }
            return Some(i);
        }
    }
    assert forall|j: int| 80 <= j < 88 implies ansi88_rgb(j) != c by {}
    let mut i: u8 = 0;
    while i < 16
        invariant
            c == (r, g, b),
            0 <= i <= 16,
            forall|j: int| 16 <= j < 88 ==> ansi88_rgb(j) != c,
            forall|j: int| 0 <= j < i ==> ansi88_rgb(j) != c,
        decreases 16 - i,
    {
        let t = ansi16_to_rgb(i);
        if t.0 == r && t.1 == g && t.2 == b {
            proof {
                assert(is_exact88(c, i as int));
                lemma_exact88_is(c, i as int);
            }
            return Some(i);
        }
        i += 1;
    }
    assert forall|k: int| !is_exact88(c, k) by {}
    None
}

/// The nearest entry of the 256-colour palette to the grey `(v, v, v)`.
pub fn grey_to_ansi256(v: u8) -> (i: u8)
    ensures
        i == grey_ansi256(v as int),
{
    if v <= 1 { 16 }
    else if v <= 12 { 232 }
    else if v <= 22 { 233 }
    else if v <= 32 { 234 }
    else if v <= 42 { 235 }
    else if v <= 52 { 236 }
    else if v <= 62 { 237 }
    else if v <= 72 { 238 }
    else if v <= 82 { 239 }
    else if v <= 91 { 240 }
    else if v <= 96 { 59 }
    else if v <= 102 { 241 }
    else if v <= 112 { 242 }
    else if v <= 122 { 243 }
    else if v <= 131 { 244 }
    else if v <= 136 { 102 }
    else if v <= 142 { 245 }
    else if v <= 152 { 246 }
    else if v <= 162 { 247 }
    else if v <= 171 { 248 }
    else if v <= 176 { 145 }
    else if v <= 182 { 249 }
    else if v <= 192 { 250 }
    else if v <= 202 { 251 }
    else if v <= 211 { 252 }
    else if v <= 216 { 188 }
    else if v <= 222 { 253 }
    else if v <= 232 { 254 }
    else if v <= 246 { 255 }
    else { 231 }
}

/// The nearest entry of the 88-colour palette to the grey `(v, v, v)`.
pub fn grey_to_ansi88(v: u8) -> (i: u8)
    ensures
        i == grey_ansi88(v as int),
{
    if v <= 11 { 16 }
    else if v <= 68 { 80 }
    else if v <= 103 { 81 }
    else if v <= 126 { 82 }
    else if v <= 150 { 37 }
    else if v <= 173 { 84 }
    else if v <= 194 { 85 }
    else if v <= 206 { 58 }
    else if v <= 219 { 86 }
    else if v <= 242 { 87 }
    else { 79 }
}

/// The shortcuts in front of the 256-colour search: the grey table for a
/// monochrome colour, else the entry of exactly this colour, if any.
pub fn easychecks256(r: u8, g: u8, b: u8) -> (res: Option<u8>)
    ensures
        res == precheck256((r, g, b)),
{
    if r == g && g == b {
        return Some(grey_to_ansi256(r));
    }
    get_exact_color256(r, g, b)
}

/// The shortcuts in front of the 88-colour search.
pub fn easychecks88(r: u8, g: u8, b: u8) -> (res: Option<u8>)
    ensures
        res == precheck88((r, g, b)),
{
    if r == g && g == b {
        return Some(grey_to_ansi88(r));
    }
    get_exact_color88(r, g, b)
}

/// A colour of the 256-colour palette is answered with its own entry.
///
/// This holds for every searchable entry (`16..256`), and for every named
/// entry whose colour is neither grey nor also a searchable entry (for
/// the others the grey table or the searchable entry answers first).
pub proof fn lemma_exact_match256(idx: int)
    requires
        0 <= idx < 256,
        16 <= idx || (!is_mono(ansi256_rgb(idx)) && forall|j: int|
            16 <= j < 256 ==> #[trigger] ansi256_rgb(j) != ansi256_rgb(idx)),
    ensures
        precheck256(ansi256_rgb(idx)) == Some(idx as u8),
{
    let c = ansi256_rgb(idx);
    if idx < 16 {
        assert forall|j: int| 0 <= j < idx implies #[trigger] ansi256_rgb(j) != c by {
            assert(ansi16_rgb(j) != ansi16_rgb(idx));
        }
        lemma_exact256_is(c, idx);
    } else if idx < 232 {
        lemma_cube_digits(idx - 16, 6);
        if is_mono(c) {
            let a = (idx - 16) / 36;
            assert((idx - 16) / 36 == ((idx - 16) / 6) % 6 && (idx - 16) / 36 == (idx - 16) % 6);
            assert(idx == 16 + 43 * a);
        } else {
            assert forall|j: int| 16 <= j < idx implies #[trigger] ansi256_rgb(j) != c by {
                lemma_cube_digits(j - 16, 6);
            }
            lemma_exact256_is(c, idx);
        }
    } else {
        assert(grey_ansi256(8 + 10 * (idx - 232)) == idx);
    }
}

} // verus!
