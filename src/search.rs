//! The selection step of the nearest-colour search.
//!
//! The squared Oklab distances between a query and the palette are computed
//! in `f32` by the caller, eight candidates to a row (the palette's SoA rows).
//! Each distance reaches this module as its IEEE-754 bit pattern, its *key*:
//! distances are never negative nor NaN, and on such values the order of the
//! bit patterns as unsigned integers is the order of the floats. So the
//! selection made here on keys is the selection the float search makes.
//!
//! Candidate `8 * r + l` is lane `l` of row `r`. The answer is the first
//! candidate with the least key, among keys below [`KEY_MAX`] (the key of
//! `f32::MAX`, where the float search starts); where there is none, it is 0.
//! Padding lanes hold the key of `+inf`, so they never win.
//!
//! Several strategies compute it, each the shape of one vector kernel, and
//! each is proved to give exactly the answer of the scalar loop.
use vstd::prelude::*;

verus! {

/// Key of the largest finite `f32`.
pub const KEY_MAX: u32 = 0x7f7f_ffff;

/// Key of `+inf`, the distance of every padding lane.
pub const KEY_INF: u32 = 0x7f80_0000;

/// The keys of one palette row: eight candidates.
pub type Row = [u32; 8];

/// Key of lane `l` of row `r`.
pub open spec fn key(rows: Seq<Row>, r: int, l: int) -> u32 {
    rows[r]@[l]
}

/// Some candidate has a key below `KEY_MAX`.
pub open spec fn has_candidate(rows: Seq<Row>) -> bool {
    exists|r: int, l: int| 0 <= r < rows.len() && 0 <= l < 8 && #[trigger] key(rows, r, l) < KEY_MAX
}

/// Lane `l` of row `r` is the answer: its key is below `KEY_MAX`, no key is
/// smaller, and every earlier candidate's key is greater.
pub open spec fn is_answer_at(rows: Seq<Row>, r: int, l: int) -> bool {
    &&& 0 <= r < rows.len()
    &&& 0 <= l < 8
    &&& key(rows, r, l) < KEY_MAX
    &&& forall|r2: int, l2: int|
        0 <= r2 < rows.len() && 0 <= l2 < 8 ==> key(rows, r, l) <= #[trigger] key(rows, r2, l2)
    &&& forall|r2: int, l2: int|
        0 <= r2 < rows.len() && 0 <= l2 < 8 && 8 * r2 + l2 < 8 * r + l ==> key(rows, r, l) < #[trigger] key(rows, r2, l2)
}

/// `k` is the answer of the search over `rows`.
pub open spec fn is_nearest(rows: Seq<Row>, k: int) -> bool {
    if has_candidate(rows) {
        is_answer_at(rows, k / 8, k % 8)
    } else {
        k == 0
    }
}

proof fn lemma_split_index(r: int, l: int)
    requires
        0 <= l < 8,
    ensures
        (8 * r + l) / 8 == r,
        (8 * r + l) % 8 == l,
{
    assert((8 * r + l) / 8 == r && (8 * r + l) % 8 == l) by (nonlinear_arith)
        requires 0 <= l < 8;
}

/// The scalar search: one candidate at a time, keeping the first of the
/// least keys.
pub fn nearest_scalar(rows: &[Row]) -> (k: usize)
    requires
        rows@.len() <= usize::MAX / 8,
    ensures
        is_nearest(rows@, k as int),
{
    let mut bi: usize = 0;
    let mut bm: u32 = KEY_MAX;
    let ghost mut br: int = 0;
    let ghost mut bl: int = 0;
    let mut i: usize = 0;
    while i < rows.len()
        invariant
            rows@.len() <= usize::MAX / 8,
            0 <= i <= rows@.len(),
            bm <= KEY_MAX,
            forall|r2: int, l2: int| 0 <= r2 < i && 0 <= l2 < 8 ==> bm <= #[trigger] key(rows@, r2, l2),
            bm == KEY_MAX ==> bi == 0,
            bm < KEY_MAX ==> {
                &&& 0 <= br < i
                &&& 0 <= bl < 8
                &&& bi == 8 * br + bl
                &&& key(rows@, br, bl) == bm
                &&& forall|r2: int, l2: int|
                    0 <= r2 < i && 0 <= l2 < 8 && 8 * r2 + l2 < 8 * br + bl ==> bm < #[trigger] key(rows@, r2, l2)
            },
        decreases rows@.len() - i,
    {
        let row = rows[i];
        let mut j: usize = 0;
        while j < 8
            invariant
                rows@.len() <= usize::MAX / 8,
                0 <= i < rows@.len(),
                0 <= j <= 8,
                row == rows@[i as int],
                bm <= KEY_MAX,
                forall|r2: int, l2: int|
                    0 <= r2 < i && 0 <= l2 < 8 ==> bm <= #[trigger] key(rows@, r2, l2),
                forall|l2: int| 0 <= l2 < j ==> bm <= #[trigger] key(rows@, i as int, l2),
                bm == KEY_MAX ==> bi == 0,
                bm < KEY_MAX ==> {
                    &&& 0 <= br <= i
                    &&& 0 <= bl < 8
                    &&& (br == i ==> bl < j)
                    &&& bi == 8 * br + bl
                    &&& key(rows@, br, bl) == bm
                    &&& forall|r2: int, l2: int|
                        0 <= r2 <= i && 0 <= l2 < 8 && (r2 < i || l2 < j) && 8 * r2 + l2 < 8 * br + bl
                            ==> bm < #[trigger] key(rows@, r2, l2)
                },
            decreases 8 - j,
        {
            let d = row[j];
            if d < bm {
                bi = 8 * i + j;
                bm = d;
                proof {
                    br = i as int;
                    bl = j as int;
                }
            }
            j += 1;
        }
        i += 1;
    }
    proof {
        if has_candidate(rows@) {
            let (r0, l0) = choose|r: int, l: int|
                0 <= r < rows@.len() && 0 <= l < 8 && #[trigger] key(rows@, r, l) < KEY_MAX;
            assert(bm <= key(rows@, r0, l0));
            lemma_split_index(br, bl);
        }
    }
    bi
}

/// The least key of a row.
fn row_min(row: &Row) -> (m: u32)
    ensures
        forall|l: int| 0 <= l < 8 ==> m <= #[trigger] row@[l],
        exists|l: int| 0 <= l < 8 && #[trigger] row@[l] == m,
{
    let mut m: u32 = row[0];
    let mut j: usize = 1;
    while j < 8
        invariant
            1 <= j <= 8,
            forall|l: int| 0 <= l < j ==> m <= #[trigger] row@[l],
            exists|l: int| 0 <= l < j && #[trigger] row@[l] == m,
        decreases 8 - j,
    {
        if row[j] < m {
            m = row[j];
        }
        j += 1;
    }
    m
}

/// Whether some lane of the row holds a key below `t`.
fn any_below(row: &Row, t: u32) -> (b: bool)
    ensures
        b == exists|l: int| 0 <= l < 8 && #[trigger] row@[l] < t,
{
    let mut j: usize = 0;
    while j < 8
        invariant
            0 <= j <= 8,
            forall|l: int| 0 <= l < j ==> #[trigger] row@[l] >= t,
        decreases 8 - j,
    {
        if row[j] < t {
            return true;
        }
        j += 1;
    }
    false
}

/// The first lane of the row that holds `v`.
fn first_lane_equal(row: &Row, v: u32) -> (j: usize)
    requires
        exists|l: int| 0 <= l < 8 && #[trigger] row@[l] == v,
    ensures
        j < 8,
        row@[j as int] == v,
        forall|l: int| 0 <= l < j ==> #[trigger] row@[l] != v,
{
    let mut j: usize = 0;
    while j < 8
        invariant
            0 <= j <= 8,
            exists|l: int| 0 <= l < 8 && #[trigger] row@[l] == v,
            forall|l: int| 0 <= l < j ==> #[trigger] row@[l] != v,
        decreases 8 - j,
    {
        if row[j] == v {
            return j;
        }
        j += 1;
    }
    j
}

/// The eight-wide kernel that tracks the best row: a row that holds a key
/// below the best so far becomes the best row, and the best key is lowered
/// to the row's minimum; at the end the first lane of the best row that
/// holds the best key is taken.
pub fn nearest_best_row8(rows: &[Row]) -> (k: usize)
    requires
        rows@.len() <= usize::MAX / 8,
    ensures
        is_nearest(rows@, k as int),
{
    let mut best: u32 = KEY_MAX;
    let mut best_row: usize = 0;
    let mut best_dists: Row = [KEY_MAX; 8];
    let mut i: usize = 0;
    while i < rows.len()
        invariant
            rows@.len() <= usize::MAX / 8,
            0 <= i <= rows@.len(),
            best <= KEY_MAX,
            forall|r2: int, l2: int| 0 <= r2 < i && 0 <= l2 < 8 ==> best <= #[trigger] key(rows@, r2, l2),
            best == KEY_MAX ==> best_row == 0 && forall|l: int| 0 <= l < 8 ==> #[trigger] best_dists@[l] == KEY_MAX,
            best < KEY_MAX ==> {
                &&& best_row < i
                &&& best_dists == rows@[best_row as int]
                &&& exists|l: int| 0 <= l < 8 && #[trigger] best_dists@[l] == best
                &&& forall|r2: int, l2: int| 0 <= r2 < best_row && 0 <= l2 < 8 ==> best < #[trigger] key(rows@, r2, l2)
            },
        decreases rows@.len() - i,
    {
        let row = rows[i];
        if any_below(&row, best) {
            best_row = i;
            best_dists = row;
            best = row_min(&row);
        }
        i += 1;
    }
    assert(exists|l: int| 0 <= l < 8 && #[trigger] best_dists@[l] == best) by {
        if best == KEY_MAX {
            assert(best_dists@[0] == best);
        }
    }
    let j = first_lane_equal(&best_dists, best);
    proof {
        lemma_split_index(best_row as int, j as int);
        if best < KEY_MAX {
            assert(key(rows@, best_row as int, j as int) == best);
            assert forall|r2: int, l2: int|
                0 <= r2 < rows@.len() && 0 <= l2 < 8 && 8 * r2 + l2 < 8 * best_row + j
                implies best < #[trigger] key(rows@, r2, l2) by {
                if r2 == best_row {
                    assert(best_dists@[l2] != best);
                }
            }
            assert(is_answer_at(rows@, best_row as int, j as int));
        } else {
            assert(best_dists@[0] == best);
            assert(j == 0);
            assert(!has_candidate(rows@));
        }
    }
    best_row * 8 + j
}

/// Bit `s` (of four) of a lane mask.
pub open spec fn mask_bit(m: int, s: int) -> bool {
    if s == 0 {
        m % 2 == 1
    } else if s == 1 {
        (m / 2) % 2 == 1
    } else if s == 2 {
        (m / 4) % 2 == 1
    } else {
        (m / 8) % 2 == 1
    }
}

/// The mask of the lanes of a four-lane half that hold `v`.
fn mask4_equal(half: &[u32; 4], v: u32) -> (m: u8)
    ensures
        m < 16,
        forall|s: int| 0 <= s < 4 ==> mask_bit(m as int, s) == (#[trigger] half@[s] == v),
{
    let b0: u8 = if half[0] == v { 1 } else { 0 };
    let b1: u8 = if half[1] == v { 1 } else { 0 };
    let b2: u8 = if half[2] == v { 1 } else { 0 };
    let b3: u8 = if half[3] == v { 1 } else { 0 };
    b0 + 2 * b1 + 4 * b2 + 8 * b3
}

/// The lowest set bit of a non-empty four-lane mask, by table.
fn first_set4(m: u8) -> (s: usize)
    requires
        0 < m < 16,
    ensures
        s < 4,
        mask_bit(m as int, s as int),
        forall|t: int| 0 <= t < s ==> !mask_bit(m as int, t),
{
    if m % 2 == 1 {
        0
    } else if m == 2 || m == 6 || m == 10 || m == 14 {
        1
    } else if m == 4 || m == 12 {
        2
    } else {
        3
    }
}

/// The two-lane four-wide kernel: each row is two halves of four lanes
/// (lanes `0..4` and `4..8`), compared lane by lane; the best row is kept
/// as in [`nearest_best_row8`]. At the end the lower half is searched first,
/// then the mask of its lanes that hold the best key gives the lane by table.
pub fn nearest_best_row4x2(rows: &[Row]) -> (k: usize)
    requires
        rows@.len() <= usize::MAX / 8,
    ensures
        is_nearest(rows@, k as int),
{
    let mut best: u32 = KEY_MAX;
    let mut best_row: usize = 0;
    let mut best_x: [u32; 4] = [KEY_MAX; 4];
    let mut best_y: [u32; 4] = [KEY_MAX; 4];
    let mut i: usize = 0;
    while i < rows.len()
        invariant
            rows@.len() <= usize::MAX / 8,
            0 <= i <= rows@.len(),
            best <= KEY_MAX,
            forall|r2: int, l2: int| 0 <= r2 < i && 0 <= l2 < 8 ==> best <= #[trigger] key(rows@, r2, l2),
            best == KEY_MAX ==> best_row == 0 && best_x@[0] == KEY_MAX,
            best < KEY_MAX ==> {
                &&& best_row < i
                &&& forall|l: int| 0 <= l < 4 ==> #[trigger] best_x@[l] == key(rows@, best_row as int, l)
                &&& forall|l: int| 0 <= l < 4 ==> #[trigger] best_y@[l] == key(rows@, best_row as int, l + 4)
                &&& exists|l: int| 0 <= l < 8 && #[trigger] key(rows@, best_row as int, l) == best
                &&& forall|r2: int, l2: int| 0 <= r2 < best_row && 0 <= l2 < 8 ==> best < #[trigger] key(rows@, r2, l2)
            },
        decreases rows@.len() - i,
    {
        let row = rows[i];
        let x: [u32; 4] = [row[0], row[1], row[2], row[3]];
        let y: [u32; 4] = [row[4], row[5], row[6], row[7]];
        let mut mind: [u32; 4] = x;
        let mut j: usize = 0;
        while j < 4
            invariant
                0 <= j <= 4,
                forall|l: int| 0 <= l < j ==> #[trigger] mind@[l] == if x@[l] < y@[l] { x@[l] } else { y@[l] },
                forall|l: int| j <= l < 4 ==> #[trigger] mind@[l] == x@[l],
            decreases 4 - j,
        {
            if y[j] < mind[j] {
                mind[j] = y[j];
            }
            j += 1;
        }
        let mut lt: bool = false;
        let mut m: u32 = mind[0];
        let mut j: usize = 0;
        while j < 4
            invariant
                0 <= j <= 4,
                lt == exists|l: int| 0 <= l < j && #[trigger] mind@[l] < best,
                forall|l: int| 0 <= l < j ==> m <= #[trigger] mind@[l],
                exists|l: int| 0 <= l < 4 && #[trigger] mind@[l] == m,
            decreases 4 - j,
        {
            if mind[j] < best {
                lt = true;
            }
            if mind[j] < m {
                m = mind[j];
            }
            j += 1;
        }
        proof {
            assert forall|l: int| 0 <= l < 8 implies m <= #[trigger] key(rows@, i as int, l) by {
                if l < 4 {
                    assert(mind@[l] <= x@[l]);
                } else {
                    assert(mind@[l - 4] <= y@[l - 4]);
                }
            }
            let l0 = choose|l: int| 0 <= l < 4 && #[trigger] mind@[l] == m;
            if x@[l0] < y@[l0] {
                assert(key(rows@, i as int, l0) == m);
            } else {
                assert(key(rows@, i as int, l0 + 4) == m);
            }
            if !lt {
                assert forall|l: int| 0 <= l < 8 implies best <= #[trigger] key(rows@, i as int, l) by {
                    if l < 4 {
                        assert(mind@[l] <= x@[l]);
                    } else {
                        assert(mind@[l - 4] <= y@[l - 4]);
                    }
                }
            }
        }
        if lt {
            best_row = i;
            best_x = x;
            best_y = y;
            best = m;
        }
        i += 1;
    }
    let mx = mask4_equal(&best_x, best);
    let (mask, base) = if mx != 0 {
        (mx, 0usize)
    } else {
        (mask4_equal(&best_y, best), 4usize)
    };
    proof {
        if best == KEY_MAX {
            assert(mask_bit(mx as int, 0));
        } else if mx == 0 {
            let l0 = choose|l: int| 0 <= l < 8 && #[trigger] key(rows@, best_row as int, l) == best;
            if l0 < 4 {
                assert(best_x@[l0] == best);
                assert(mask_bit(mx as int, l0));
            } else {
                assert(best_y@[l0 - 4] == best);
                assert(mask_bit(mask as int, l0 - 4));
            }
        }
    }
    let j = first_set4(mask);
    proof {
        lemma_split_index(best_row as int, base + j);
        if best < KEY_MAX {
            if base == 0 {
                assert(best_x@[j as int] == best);
            } else {
                assert(best_y@[j as int] == best);
            }
            assert(key(rows@, best_row as int, base + j) == best);
            assert forall|r2: int, l2: int|
                0 <= r2 < rows@.len() && 0 <= l2 < 8 && 8 * r2 + l2 < 8 * best_row + base + j
                implies best < #[trigger] key(rows@, r2, l2) by {
                if r2 == best_row {
                    if l2 < base {
                        assert(!mask_bit(mx as int, l2));
                        assert(best_x@[l2] != best);
                    } else if l2 < 4 {
                        assert(!mask_bit(mask as int, l2));
                        assert(best_x@[l2] != best);
                    } else {
                        assert(!mask_bit(mask as int, l2 - 4));
                        assert(best_y@[l2 - 4] != best);
                    }
                }
            }
            assert(is_answer_at(rows@, best_row as int, base + j));
        } else {
            assert(base == 0 && j == 0);
            assert(!has_candidate(rows@));
        }
    }
    best_row * 8 + base + j
}

/// Lane `l` after rows `0..n`: `d` is its least key (at most `KEY_MAX`),
/// and where that is below `KEY_MAX`, `idx` is the candidate of the first
/// row `f` that holds it; else `idx` is 0.
pub open spec fn lane_state(rows: Seq<Row>, n: int, l: int, d: u32, idx: usize, f: int) -> bool {
    &&& d <= KEY_MAX
    &&& forall|r2: int| 0 <= r2 < n ==> d <= #[trigger] key(rows, r2, l)
    &&& d == KEY_MAX ==> idx == 0
    &&& d < KEY_MAX ==> {
        &&& 0 <= f < n
        &&& idx == 8 * f + l
        &&& key(rows, f, l) == d
        &&& forall|r2: int| 0 <= r2 < f ==> d < #[trigger] key(rows, r2, l)
    }
}

/// One step of the reduction: the pair with the smaller key, and on equal
/// keys the one with the lower index.
fn pick(d0: u32, i0: usize, d1: u32, i1: usize) -> (p: (u32, usize))
    ensures
        p == if d1 < d0 || (d1 == d0 && i1 < i0) { (d1, i1) } else { (d0, i0) },
{
    if d1 < d0 || (d1 == d0 && i1 < i0) {
        (d1, i1)
    } else {
        (d0, i0)
    }
}

/// The canonical eight-wide kernel: each lane keeps its own least key and
/// the index where it first came, updated where a row's key is below it;
/// the eight pairs are then reduced pairwise (8 to 4 to 2 to 1), the
/// smaller key winning and equal keys going to the lower index.
///
/// Lanes start at `KEY_MAX` with index 0: such a lane never wins against a
/// lane that saw a key below `KEY_MAX`, and where no lane did, the answer
/// is 0, as in the scalar loop.
pub fn nearest_lanes8(rows: &[Row]) -> (k: usize)
    requires
        rows@.len() <= usize::MAX / 8,
    ensures
        is_nearest(rows@, k as int),
{
    let mut min_d: [u32; 8] = [KEY_MAX; 8];
    let mut min_idx: [usize; 8] = [0; 8];
    let mut cur: [usize; 8] = [0, 1, 2, 3, 4, 5, 6, 7];
    let ghost mut first: Seq<int> = seq![0int, 0, 0, 0, 0, 0, 0, 0];
    let mut i: usize = 0;
    while i < rows.len()
        invariant
            rows@.len() <= usize::MAX / 8,
            0 <= i <= rows@.len(),
            first.len() == 8,
            forall|l: int| 0 <= l < 8 ==> #[trigger] cur@[l] == 8 * i + l,
            forall|l: int|
                0 <= l < 8 ==> lane_state(rows@, i as int, l, #[trigger] min_d@[l], min_idx@[l], first[l]),
        decreases rows@.len() - i,
    {
        let row = rows[i];
        let mut j: usize = 0;
        while j < 8
            invariant
                rows@.len() <= usize::MAX / 8,
                0 <= i < rows@.len(),
                0 <= j <= 8,
                row == rows@[i as int],
                first.len() == 8,
                forall|l: int| 0 <= l < j ==> #[trigger] cur@[l] == 8 * (i + 1) + l,
                forall|l: int| j <= l < 8 ==> #[trigger] cur@[l] == 8 * i + l,
                forall|l: int|
                    0 <= l < j ==> lane_state(rows@, i + 1, l, #[trigger] min_d@[l], min_idx@[l], first[l]),
                forall|l: int|
                    j <= l < 8 ==> lane_state(rows@, i as int, l, #[trigger] min_d@[l], min_idx@[l], first[l]),
            decreases 8 - j,
        {
            if row[j] < min_d[j] {
                min_d[j] = row[j];
                min_idx[j] = cur[j];
                proof {
                    first = first.update(j as int, i as int);
                }
            }
            cur[j] = cur[j] + 8;
            proof {
                assert(lane_state(rows@, i + 1, j as int, min_d@[j as int], min_idx@[j as int], first[j as int]));
            }
            j += 1;
        }
        i += 1;
    }
    let (d0, i0) = pick(min_d[0], min_idx[0], min_d[4], min_idx[4]);
    let (d1, i1) = pick(min_d[1], min_idx[1], min_d[5], min_idx[5]);
    let (d2, i2) = pick(min_d[2], min_idx[2], min_d[6], min_idx[6]);
    let (d3, i3) = pick(min_d[3], min_idx[3], min_d[7], min_idx[7]);
    let (e0, j0) = pick(d0, i0, d2, i2);
    let (e1, j1) = pick(d1, i1, d3, i3);
    let (dk, k) = pick(e0, j0, e1, j1);
    proof {
        assert(exists|l: int| 0 <= l < 8 && #[trigger] min_d@[l] == dk && min_idx@[l] == k);
        assert forall|l: int| 0 <= l < 8 implies dk < #[trigger] min_d@[l] || (dk == min_d@[l] && k <= min_idx@[l]) by {}
        let ls = choose|l: int| 0 <= l < 8 && #[trigger] min_d@[l] == dk && min_idx@[l] == k;
        assert(lane_state(rows@, rows@.len() as int, ls, min_d@[ls], min_idx@[ls], first[ls]));
        if has_candidate(rows@) {
            let (r0, l0) = choose|r: int, l: int|
                0 <= r < rows@.len() && 0 <= l < 8 && #[trigger] key(rows@, r, l) < KEY_MAX;
            assert(lane_state(rows@, rows@.len() as int, l0, min_d@[l0], min_idx@[l0], first[l0]));
            assert(min_d@[l0] <= key(rows@, r0, l0));
            let fs = first[ls];
            lemma_split_index(fs, ls);
            assert forall|r2: int, l2: int|
                0 <= r2 < rows@.len() && 0 <= l2 < 8 implies dk <= #[trigger] key(rows@, r2, l2) by {
                assert(lane_state(rows@, rows@.len() as int, l2, min_d@[l2], min_idx@[l2], first[l2]));
            }
            assert forall|r2: int, l2: int|
                0 <= r2 < rows@.len() && 0 <= l2 < 8 && 8 * r2 + l2 < 8 * fs + ls
                implies dk < #[trigger] key(rows@, r2, l2) by {
                assert(lane_state(rows@, rows@.len() as int, l2, min_d@[l2], min_idx@[l2], first[l2]));
                if key(rows@, r2, l2) == dk {
                    assert(min_d@[l2] == dk);
                    assert(first[l2] <= r2);
                }
            }
            assert(is_answer_at(rows@, fs, ls));
        } else {
            assert forall|l: int| 0 <= l < 8 implies #[trigger] min_d@[l] == KEY_MAX by {
                assert(lane_state(rows@, rows@.len() as int, l, min_d@[l], min_idx@[l], first[l]));
                if min_d@[l] < KEY_MAX {
                    assert(key(rows@, first[l], l) < KEY_MAX);
                }
            }
            assert(min_idx@[ls] == 0);
        }
    }
    k
}

/// Every candidate at or past `n` (the padding of the last row) has a key
/// of at least `KEY_MAX`, so it never wins.
pub open spec fn padded(rows: Seq<Row>, n: int) -> bool {
    forall|r: int, l: int|
        0 <= r < rows.len() && 0 <= l < 8 && 8 * r + l >= n ==> #[trigger] key(rows, r, l) >= KEY_MAX
}

proof fn lemma_answer_below(rows: Seq<Row>, k: int, n: int)
    requires
        padded(rows, n),
        0 <= n,
        is_nearest(rows, k),
    ensures
        0 <= k,
        k < n || k == 0,
{
    if has_candidate(rows) {
        lemma_split_index(k / 8, k % 8);
        assert(8 * (k / 8) + k % 8 == k);
    }
}

/// The search over the 30 rows of the 256-colour palette (240 searchable
/// entries and padding): the xterm index of the answer, that is the
/// candidate plus 16.
pub fn nearest_ansi256_by_keys(rows: &[Row]) -> (i: u8)
    requires
        rows@.len() == 30,
        padded(rows@, 240),
    ensures
        16 <= i,
        is_nearest(rows@, i - 16),
{
    let k = nearest_lanes8(rows);
    proof {
        lemma_answer_below(rows@, k as int, 240);
    }
    (k + 16) as u8
}

/// The search over the 9 rows of the 88-colour palette (72 searchable
/// entries and padding): the xterm index of the answer.
pub fn nearest_ansi88_by_keys(rows: &[Row]) -> (i: u8)
    requires
        rows@.len() == 9,
        padded(rows@, 72),
    ensures
        16 <= i < 88,
        is_nearest(rows@, i - 16),
{
    let k = nearest_lanes8(rows);
    proof {
        lemma_answer_below(rows@, k as int, 72);
    }
    (k + 16) as u8
}

/// Every kernel returns the index that the scalar search returns: each
/// one's result is an answer of the search over the same keys, and the
/// answer is unique.
pub proof fn lemma_kernels_agree(rows: Seq<Row>, k1: int, k2: int)
    requires
        0 <= k1,
        0 <= k2,
        is_nearest(rows, k1),
        is_nearest(rows, k2),
    ensures
        k1 == k2,
{
    if has_candidate(rows) {
        let (r1, l1) = (k1 / 8, k1 % 8);
        let (r2, l2) = (k2 / 8, k2 % 8);
        assert(k1 == 8 * r1 + l1 && k2 == 8 * r2 + l2) by (nonlinear_arith)
            requires r1 == k1 / 8, l1 == k1 % 8, r2 == k2 / 8, l2 == k2 % 8;
        assert(key(rows, r1, l1) <= key(rows, r2, l2));
        assert(key(rows, r2, l2) <= key(rows, r1, l1));
    }
}

} // verus!
