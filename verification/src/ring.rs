// Filling a ring (annulus) on the panel in 2x2 pixel blocks: which blocks lie between
// the two radii, how a row of blocks becomes solid runs to paint, and the block-aligned
// bounding box to scan. The angular limits of an arc come from trigonometry and are
// decided by the caller.
use vstd::prelude::*;

verus! {

/// Largest pixel coordinate on the panel.
pub const PANEL_MAX: i32 = 465;

/// `v` moved down to an even number.
pub open spec fn even_floor(v: int) -> int {
    v - v % 2
}

/// `v` moved up to an odd number.
pub open spec fn odd_ceil(v: int) -> int {
    v + 1 - v % 2
}

pub open spec fn max_i(a: int, b: int) -> int {
    if a >= b { a } else { b }
}

pub open spec fn min_i(a: int, b: int) -> int {
    if a <= b { a } else { b }
}

fn is_odd(v: i32) -> (r: bool)
    ensures
        r == (v % 2 == 1),
{
    let a: u64 = if v >= 0 { v as u64 } else { (-(v as i64)) as u64 };
    proof {
        let vi = v as int;
        if vi < 0 {
            vstd::arithmetic::div_mod::lemma_fundamental_div_mod(-vi, 2);
            vstd::arithmetic::div_mod::lemma_fundamental_div_mod(vi, 2);
            assert(vi % 2 == (-vi) % 2) by {
                let q = (-vi) / 2;
                let r = (-vi) % 2;
                if r == 0 {
                    vstd::arithmetic::div_mod::lemma_fundamental_div_mod_converse(vi, 2, -q, 0);
                } else {
                    vstd::arithmetic::div_mod::lemma_fundamental_div_mod_converse(vi, 2, -q - 1, 1);
                }
            }
        }
    }
    a % 2 == 1
}

/// The scan box for a ring: the corners cut to the panel, then widened so that it
/// starts on an even and ends on an odd coordinate.
pub fn align_bbox(x0: i32, y0: i32, x1: i32, y1: i32) -> (r: (i32, i32, i32, i32))
    ensures
        r == (
            even_floor(max_i(x0 as int, 0)) as i32,
            even_floor(max_i(y0 as int, 0)) as i32,
            odd_ceil(min_i(x1 as int, PANEL_MAX as int)) as i32,
            odd_ceil(min_i(y1 as int, PANEL_MAX as int)) as i32,
        ),
{
    let a = if x0 > 0 { x0 } else { 0 };
    let b = if y0 > 0 { y0 } else { 0 };
    let c = if x1 < PANEL_MAX { x1 } else { PANEL_MAX };
    let d = if y1 < PANEL_MAX { y1 } else { PANEL_MAX };
    let ra = if is_odd(a) { a - 1 } else { a };
    let rb = if is_odd(b) { b - 1 } else { b };
    let rc = if is_odd(c) { c } else { c + 1 };
    let rd = if is_odd(d) { d } else { d + 1 };
    (ra, rb, rc, rd)
}

/// Whether the 2x2 block whose centre lies `(dx, dy)` from the ring's centre is on the
/// ring: its squared distance is between the squared inner and outer radii.
pub fn block_in_ring(dx: i32, dy: i32, r2_outer: i32, r2_inner: i32) -> (r: bool)
    ensures
        r == (r2_inner <= dx * dx + dy * dy <= r2_outer),
{
    let ax: u64 = if dx >= 0 { dx as u64 } else { (-(dx as i64)) as u64 };
    let ay: u64 = if dy >= 0 { dy as u64 } else { (-(dy as i64)) as u64 };
    assert(ax * ax <= 0x4000_0000_0000_0000) by (nonlinear_arith)
        requires
            ax <= 0x8000_0000,
    ;
    assert(ay * ay <= 0x4000_0000_0000_0000) by (nonlinear_arith)
        requires
            ay <= 0x8000_0000,
    ;
    let d2: u64 = ax * ax + ay * ay;
    assert(d2 == dx * dx + dy * dy) by (nonlinear_arith)
        requires
            ax == (if dx >= 0 { dx as int } else { -dx }),
            ay == (if dy >= 0 { dy as int } else { -dy }),
            d2 == ax * ax + ay * ay,
    ;
    let lo_ok = r2_inner < 0 || (r2_inner as u64) <= d2;
    let hi_ok = r2_outer >= 0 && d2 <= (r2_outer as u64);
    lo_ok && hi_ok
}

/// Blocks `s .. s + n` are all set, and the run can grow neither way.
pub open spec fn maximal_run(mask: Seq<bool>, s: int, n: int) -> bool {
    &&& 0 <= s && 1 <= n && s + n <= mask.len()
    &&& forall|k: int| s <= k < s + n ==> #[trigger] mask[k]
    &&& (s == 0 || !mask[s - 1])
    &&& (s + n == mask.len() || !mask[s + n])
}

/// First block of the run `e` (a start coordinate and a width in pixels) in a row whose
/// first block starts at `minx`.
pub open spec fn run_start(minx: int, e: (i32, i32)) -> int {
    (e.0 - minx) / 2
}

/// Number of blocks of the run `e`.
pub open spec fn run_len(e: (i32, i32)) -> int {
    e.1 / 2
}

/// Run `e` covers block `k`.
pub open spec fn covers(minx: int, e: (i32, i32), k: int) -> bool {
    run_start(minx, e) <= k < run_start(minx, e) + run_len(e)
}

/// `e` is a block-aligned maximal run of the row.
pub open spec fn aligned_run(minx: int, mask: Seq<bool>, e: (i32, i32)) -> bool {
    &&& (e.0 - minx) % 2 == 0 && e.1 % 2 == 0
    &&& maximal_run(mask, run_start(minx, e), run_len(e))
}

/// Runs found so far: aligned, maximal, left to right, all ending by block `bound`.
spec fn runs_so_far(minx: int, mask: Seq<bool>, out: Seq<(i32, i32)>, bound: int) -> bool {
    &&& forall|j: int|
        0 <= j < out.len() ==> aligned_run(minx, mask, #[trigger] out[j]) && run_start(minx, out[j]) + run_len(out[j])
            <= bound
    &&& forall|a: int, b: int| 0 <= a < b < out.len() ==> out[a].0 < out[b].0
}

spec fn covered(minx: int, out: Seq<(i32, i32)>, k: int) -> bool {
    exists|j: int| 0 <= j < out.len() && covers(minx, out[j], k)
}

proof fn lemma_push_run(minx: int, mask: Seq<bool>, out: Seq<(i32, i32)>, bound: int, e: (i32, i32))
    requires
        runs_so_far(minx, mask, out, bound),
        aligned_run(minx, mask, e),
        bound <= run_start(minx, e),
    ensures
        runs_so_far(minx, mask, out.push(e), run_start(minx, e) + run_len(e)),
        forall|k: int| covered(minx, out, k) ==> #[trigger] covered(minx, out.push(e), k),
        forall|k: int| covers(minx, e, k) ==> #[trigger] covered(minx, out.push(e), k),
{
    let n = out.push(e);
    assert forall|j: int| 0 <= j < n.len() implies aligned_run(minx, mask, #[trigger] n[j]) && run_start(minx, n[j])
        + run_len(n[j]) <= run_start(minx, e) + run_len(e) by {
        if j < out.len() {
            assert(n[j] == out[j]);
        }
    }
    assert forall|a: int, b: int| 0 <= a < b < n.len() implies n[a].0 < n[b].0 by {
        if b == out.len() {
            assert(n[a] == out[a]);
            assert(aligned_run(minx, mask, out[a]));
        } else {
            assert(n[a] == out[a] && n[b] == out[b]);
        }
    }
    assert forall|k: int| covered(minx, out, k) implies #[trigger] covered(minx, n, k) by {
        let j = choose|j: int| 0 <= j < out.len() && covers(minx, out[j], k);
        assert(n[j] == out[j]);
    }
    assert forall|k: int| covers(minx, e, k) implies #[trigger] covered(minx, n, k) by {
        assert(n[out.len() as int] == e);
    }
}

/// The run that starts at block `s` and has `n` blocks, in pixels.
fn make_run(minx: i32, s: usize, n: usize) -> (e: (i32, i32))
    requires
        minx + 2 * (s + n) <= i32::MAX,
        2 * n <= i32::MAX,
    ensures
        e.0 == minx + 2 * s,
        e.1 == 2 * n,
        run_start(minx as int, e) == s,
        run_len(e) == n,
{
    ((minx as i64 + 2 * (s as i64)) as i32, (2 * (n as i64)) as i32)
}

/// A row of blocks, block `k` starting at `minx + 2k`, as the runs to paint: each is
/// a maximal stretch of set blocks, given by its start coordinate and width in pixels,
/// from left to right, and every set block lies in one.
pub fn block_runs(minx: i32, mask: &[bool]) -> (r: Vec<(i32, i32)>)
    requires
        minx + 2 * mask@.len() <= i32::MAX,
        2 * mask@.len() <= i32::MAX,
    ensures
        forall|i: int| 0 <= i < r@.len() ==> #[trigger] aligned_run(minx as int, mask@, r@[i]),
        forall|i: int, j: int| 0 <= i < j < r@.len() ==> r@[i].0 < r@[j].0,
        forall|k: int|
            0 <= k < mask@.len() && #[trigger] mask@[k] ==> exists|i: int| 0 <= i < r@.len() && covers(minx as int, r@[i], k),
{
    let mut out: Vec<(i32, i32)> = Vec::new();
    let mut cur: Option<usize> = None;
    let mut i: usize = 0;
    let len = mask.len();
    let ghost m = minx as int;
    while i < len
        invariant
            len == mask@.len(),
            m == minx,
            minx + 2 * len <= i32::MAX,
            2 * len <= i32::MAX,
            i <= len,
            cur is Some ==> cur->0 < i && (cur->0 == 0 || !mask@[cur->0 - 1]),
            cur is Some ==> forall|k: int| cur->0 <= k < i ==> #[trigger] mask@[k],
            cur is None ==> i == 0 || !mask@[i - 1],
            runs_so_far(m, mask@, out@, if cur is Some { cur->0 as int } else { i as int }),
            forall|k: int|
                0 <= k < i && #[trigger] mask@[k] ==> (cur is Some && cur->0 <= k) || covered(m, out@, k),
        decreases len - i,
    {
        if mask[i] {
            if cur.is_none() {
                cur = Some(i);
            }
        } else {
            match cur {
                Some(s) => {
                    let e = make_run(minx, s, i - s);
                    proof {
                        assert(maximal_run(mask@, s as int, (i - s) as int));
                        lemma_push_run(m, mask@, out@, s as int, e);
                    }
                    out.push(e);
                    cur = None;
                },
                None => {},
            }
        }
        i = i + 1;
    }
    match cur {
        Some(s) => {
            let e = make_run(minx, s, len - s);
            proof {
                assert(maximal_run(mask@, s as int, (len - s) as int));
                lemma_push_run(m, mask@, out@, s as int, e);
            }
            out.push(e);
        },
        None => {},
    }
    proof {
        assert forall|k: int| 0 <= k < mask@.len() && #[trigger] mask@[k] implies exists|i: int|
            0 <= i < out@.len() && covers(m, out@[i], k) by {
            assert(covered(m, out@, k));
        }
    }
    out
}

} // verus!
