use vstd::prelude::*;

use crate::contour::Contour;
use crate::geometry::{round_div, round_div_wide, GridPoint};
use crate::mesh::edge_count;

verus! {

pub open spec fn is_root(n: int, r: int) -> bool {
    0 <= r && r * r <= n < (r + 1) * (r + 1)
}

/// The integer square root of `n`: the largest `r` with `r * r <= n`.
pub open spec fn root(n: int) -> int {
    choose|r: int| is_root(n, r)
}

proof fn lemma_root_unique(n: int, r: int)
    requires
        0 <= r,
        r * r <= n < (r + 1) * (r + 1),
    ensures
        root(n) == r,
{
    assert(is_root(n, r));
    let q = root(n);
    assert(is_root(n, q));
    if q < r {
        assert((q + 1) * (q + 1) <= r * r) by (nonlinear_arith)
            requires
                0 <= q < r,
        ;
    } else if q > r {
        assert((r + 1) * (r + 1) <= q * q) by (nonlinear_arith)
            requires
                0 <= r < q,
        ;
    }
}

/// The integer square root, by bisection.
pub fn isqrt(n: u128) -> (r: u64)
    requires
        n < 0x10_0000_0000_0000_0000,
    ensures
        r == root(n as int),
        (r as int) * (r as int) <= n,
{
    let mut lo: u128 = 0;
    let mut hi: u128 = 0x4_0000_0000;
    assert(hi * hi == 0x10_0000_0000_0000_0000);
    while hi - lo > 1
        invariant
            lo < hi <= 0x4_0000_0000,
            lo * lo <= n,
            n < hi * hi,
        decreases hi - lo,
    {
        let mid = lo + (hi - lo) / 2;
        assert(mid * mid <= 0x10_0000_0000_0000_0000) by (nonlinear_arith)
            requires
                mid <= 0x4_0000_0000,
        ;
        if mid * mid <= n {
            lo = mid;
        } else {
            hi = mid;
        }
    }
    assert(hi == lo + 1);
    proof {
        lemma_root_unique(n as int, lo as int);
    }
    lo as u64
}

pub open spec fn seg_end(n: int, j: int) -> int {
    if j + 1 == n {
        0
    } else {
        j + 1
    }
}

/// Length of segment `j` of a vertex loop, rounded down to whole grid steps.
pub open spec fn seg_len(pts: Seq<GridPoint>, j: int) -> int {
    let a = pts[j];
    let b = pts[seg_end(pts.len() as int, j)];
    root((b.x - a.x) * (b.x - a.x) + (b.y - a.y) * (b.y - a.y))
}

/// Length of the first `j` segments.
pub open spec fn prefix(pts: Seq<GridPoint>, j: int) -> int
    decreases j,
{
    if j <= 0 {
        0
    } else {
        prefix(pts, j - 1) + seg_len(pts, j - 1)
    }
}

/// The first segment from `j` on, of `e`, whose end lies at or beyond
/// `dist / t` along the loop; `e` if none does.
pub open spec fn seek(pts: Seq<GridPoint>, e: int, dist: int, t: int, j: int) -> int
    decreases e - j,
{
    if j >= e {
        e
    } else if dist <= t * prefix(pts, j + 1) {
        j
    } else {
        seek(pts, e, dist, t, j + 1)
    }
}

/// The point `num / den` of the way from `a` to `b`, rounded to the grid.
pub open spec fn lerp(a: GridPoint, b: GridPoint, num: int, den: int) -> GridPoint {
    GridPoint {
        x: (a.x + round_div((b.x - a.x) * num, den)) as i32,
        y: (a.y + round_div((b.y - a.y) * num, den)) as i32,
    }
}

/// Sample `k` of `t` along a loop: the point at `k / t` of its perimeter.
pub open spec fn sample(pts: Seq<GridPoint>, closed: bool, t: int, k: int) -> GridPoint {
    let n = pts.len() as int;
    let e = edge_count(n, closed);
    let dist = k * prefix(pts, e);
    let j = seek(pts, e, dist, t, 0);
    if j >= e {
        pts[n - 1]
    } else if seg_len(pts, j) == 0 {
        pts[j]
    } else {
        lerp(pts[j], pts[seg_end(n, j)], dist - t * prefix(pts, j), t * seg_len(pts, j))
    }
}

/// A loop resampled to `t` vertices at equal perimeter steps from its first
/// vertex. A loop that has `t` vertices already, or fewer than three, stays as
/// it is; one of no length becomes `t` copies of its first vertex.
pub open spec fn resampled(pts: Seq<GridPoint>, closed: bool, t: int) -> Seq<GridPoint> {
    let n = pts.len() as int;
    if n == t || n < 3 {
        pts
    } else if prefix(pts, edge_count(n, closed)) == 0 {
        Seq::new(t as nat, |k: int| pts[0])
    } else {
        Seq::new(t as nat, |k: int| sample(pts, closed, t, k))
    }
}

fn segment_length(a: GridPoint, b: GridPoint) -> (r: u64)
    ensures
        r == root((b.x - a.x) * (b.x - a.x) + (b.y - a.y) * (b.y - a.y)),
        r <= 0x2_0000_0000,
{
    let dx: i128 = b.x as i128 - a.x as i128;
    let dy: i128 = b.y as i128 - a.y as i128;
    assert(0 <= dx * dx <= 0x1_0000_0000_0000_0000) by (nonlinear_arith)
        requires
            -0x1_0000_0000 <= dx <= 0x1_0000_0000,
    ;
    assert(0 <= dy * dy <= 0x1_0000_0000_0000_0000) by (nonlinear_arith)
        requires
            -0x1_0000_0000 <= dy <= 0x1_0000_0000,
    ;
    let sq: u128 = (dx * dx + dy * dy) as u128;
    let r = isqrt(sq);
    assert(r <= 0x2_0000_0000) by (nonlinear_arith)
        requires
            (r as int) * (r as int) <= sq,
            sq <= 0x2_0000_0000_0000_0000,
            r >= 0,
    ;
    r
}

proof fn lemma_prefix_monotone(pts: Seq<GridPoint>, i: int, j: int)
    requires
        0 <= i <= j,
    ensures
        prefix(pts, i) <= prefix(pts, j),
    decreases j - i,
{
    if i < j {
        lemma_prefix_monotone(pts, i, j - 1);
        let q = pts[j - 1];
        let w = pts[seg_end(pts.len() as int, j - 1)];
        let s = (w.x - q.x) * (w.x - q.x) + (w.y - q.y) * (w.y - q.y);
        assert(s >= 0) by (nonlinear_arith)
            requires
                s == (w.x - q.x) * (w.x - q.x) + (w.y - q.y) * (w.y - q.y),
        ;
        lemma_root_exists(s);
    }
}

proof fn lemma_root_exists(s: int)
    requires
        s >= 0,
    ensures
        exists|r: int| is_root(s, r),
        0 <= root(s),
        root(s) * root(s) <= s < (root(s) + 1) * (root(s) + 1),
    decreases s,
{
    if s == 0 {
        assert(is_root(s, 0));
    } else {
        lemma_root_exists(s - 1);
        let r = root(s - 1);
        if (r + 1) * (r + 1) <= s {
            assert(s < (r + 2) * (r + 2)) by (nonlinear_arith)
                requires
                    s - 1 < (r + 1) * (r + 1),
                    r >= 0,
            ;
            assert(is_root(s, r + 1));
        } else {
            assert(is_root(s, r));
        }
    }
}

proof fn lemma_root_bound(s: int)
    requires
        0 <= s <= 0x2_0000_0000_0000_0000,
    ensures
        0 <= root(s) <= 0x2_0000_0000,
{
    lemma_root_exists(s);
    let r = root(s);
    assert(r <= 0x2_0000_0000) by (nonlinear_arith)
        requires
            r * r <= s,
            s <= 0x2_0000_0000_0000_0000,
            r >= 0,
    ;
}

fn lerp_exec(a: GridPoint, b: GridPoint, num: i128, den: i128) -> (r: GridPoint)
    requires
        0 <= num <= den,
        0 < den < 0x1_0000_0000_0000_0000,
    ensures
        r == lerp(a, b, num as int, den as int),
{
    let dx: i128 = b.x as i128 - a.x as i128;
    let dy: i128 = b.y as i128 - a.y as i128;
    proof {
        assert(-0x1_0000_0000 * 0x1_0000_0000_0000_0000 <= dx * num <= 0x1_0000_0000 * 0x1_0000_0000_0000_0000) by (nonlinear_arith)
            requires
                -0x1_0000_0000 <= dx <= 0x1_0000_0000,
                0 <= num < 0x1_0000_0000_0000_0000,
        ;
        assert(-0x1_0000_0000 * 0x1_0000_0000_0000_0000 <= dy * num <= 0x1_0000_0000 * 0x1_0000_0000_0000_0000) by (nonlinear_arith)
            requires
                -0x1_0000_0000 <= dy <= 0x1_0000_0000,
                0 <= num < 0x1_0000_0000_0000_0000,
        ;
        lemma_lerp_coord(dx as int, num as int, den as int);
        lemma_lerp_coord(dy as int, num as int, den as int);
    }
    let ox = round_div_wide(dx * num, den);
    let oy = round_div_wide(dy * num, den);
    GridPoint { x: (a.x as i128 + ox) as i32, y: (a.y as i128 + oy) as i32 }
}

proof fn lemma_lerp_coord(d: int, num: int, den: int)
    requires
        0 <= num <= den,
        0 < den,
    ensures
        d >= 0 ==> 0 <= round_div(d * num, den) <= d,
        d < 0 ==> d <= round_div(d * num, den) <= 0,
{
    if d >= 0 {
        assert(den * 0 <= d * num <= den * d) by (nonlinear_arith)
            requires
                0 <= num <= den,
                d >= 0,
        ;
        crate::geometry::lemma_round_div_bounds(d * num, den, 0, d);
    } else {
        assert(den * d <= d * num <= den * 0) by (nonlinear_arith)
            requires
                0 <= num <= den,
                d < 0,
        ;
        crate::geometry::lemma_round_div_bounds(d * num, den, d, 0);
    }
}

/// Resamples a contour to `target` vertices spaced evenly along its
/// perimeter, so that rings of one bevel can be bridged vertex by vertex.
pub fn resample_contour(contour: &Contour, target: usize) -> (r: Contour)
    requires
        target <= 0x1_0000,
        contour.vertices@.len() <= 0xffff_ffff,
    ensures
        r.vertices@ == resampled(contour.vertices@, contour.is_closed, target as int),
        r.is_closed == contour.is_closed,
{
    let pts = &contour.vertices;
    let n = pts.len();
    let closed = contour.is_closed;
    if n == target || n < 3 {
        return contour.duplicate();
    }
    let e: usize = if closed {
        n
    } else {
        n - 1
    };
    let mut lens: Vec<u64> = Vec::new();
    let mut pre: Vec<u128> = Vec::new();
    pre.push(0);
    let mut j: usize = 0;
    while j < e
        invariant
            n == pts@.len(),
            3 <= n <= 0xffff_ffff,
            e == edge_count(n as int, closed),
            j <= e,
            lens@.len() == j,
            pre@.len() == j + 1,
            forall|i: int| 0 <= i < j ==> #[trigger] lens@[i] == seg_len(pts@, i),
            forall|i: int| 0 <= i < j ==> #[trigger] lens@[i] <= 0x2_0000_0000,
            forall|i: int| 0 <= i <= j ==> #[trigger] pre@[i] == prefix(pts@, i),
            forall|i: int| 0 <= i <= j ==> #[trigger] pre@[i] <= i * 0x2_0000_0000,
        decreases e - j,
    {
        let k: usize = if j + 1 == n {
            0
        } else {
            j + 1
        };
        let l = segment_length(pts[j], pts[k]);
        let next: u128 = pre[j] + l as u128;
        lens.push(l);
        pre.push(next);
        j += 1;
    }
    let total = pre[e];
    let mut out: Vec<GridPoint> = Vec::new();
    if total == 0 {
        let first = pts[0];
        let mut k: usize = 0;
        while k < target
            invariant
                k <= target,
                out@ == Seq::new(k as nat, |i: int| pts@[0]),
                first == pts@[0],
            decreases target - k,
        {
            out.push(first);
            assert(out@ =~= Seq::new((k + 1) as nat, |i: int| pts@[0]));
            k += 1;
        }
        return Contour { vertices: out, is_closed: closed };
    }
    let tw: u128 = target as u128;
    assert forall|i: int| 0 <= i <= e implies tw * #[trigger] pre@[i] <= 0x1_0000 * (0xffff_ffff
        * 0x2_0000_0000) by {
        assert(tw * pre@[i] <= 0x1_0000 * (0xffff_ffff * 0x2_0000_0000)) by (nonlinear_arith)
            requires
                tw <= 0x1_0000,
                pre@[i] <= i * 0x2_0000_0000,
                i <= 0xffff_ffff,
                0 <= i,
        ;
    }
    let mut k: usize = 0;
    while k < target
        invariant
            n == pts@.len(),
            3 <= n <= 0xffff_ffff,
            n != target,
            target <= 0x1_0000,
            tw == target,
            closed == contour.is_closed,
            e == edge_count(n as int, closed),
            lens@.len() == e,
            pre@.len() == e + 1,
            forall|i: int| 0 <= i < e ==> #[trigger] lens@[i] == seg_len(pts@, i),
            forall|i: int| 0 <= i < e ==> #[trigger] lens@[i] <= 0x2_0000_0000,
            forall|i: int| 0 <= i <= e ==> #[trigger] pre@[i] == prefix(pts@, i),
            forall|i: int| 0 <= i <= e ==> #[trigger] pre@[i] <= i * 0x2_0000_0000,
            total == prefix(pts@, e as int),
            total > 0,
            forall|i: int| 0 <= i <= e ==> tw * #[trigger] pre@[i] <= 0x1_0000 * (0xffff_ffff
                * 0x2_0000_0000),
            k <= target,
            out@ == Seq::new(k as nat, |i: int| sample(pts@, closed, target as int, i)),
        decreases target - k,
    {
        assert(pre@[e as int] <= e * 0x2_0000_0000);
        assert(total <= 0xffff_ffff * 0x2_0000_0000) by (nonlinear_arith)
            requires
                total <= e * 0x2_0000_0000,
                e <= 0xffff_ffff,
        ;
        assert(k * total <= 0x1_0000 * (0xffff_ffff * 0x2_0000_0000)) by (nonlinear_arith)
            requires
                k <= 0x1_0000,
                total <= 0xffff_ffff * 0x2_0000_0000,
        ;
        let dist: u128 = k as u128 * total;
        let mut s: usize = 0;
        while s < e && dist > tw * pre[s + 1]
            invariant
                e == lens@.len(),
                pre@.len() == e + 1,
                forall|i: int| 0 <= i <= e ==> #[trigger] pre@[i] == prefix(pts@, i),
                forall|i: int| 0 <= i <= e ==> #[trigger] pre@[i] <= i * 0x2_0000_0000,
                e <= 0xffff_ffff,
                tw <= 0x1_0000,
                forall|i: int| 0 <= i <= e ==> tw * #[trigger] pre@[i] <= 0x1_0000 * (0xffff_ffff
                    * 0x2_0000_0000),
                s <= e,
                seek(pts@, e as int, dist as int, tw as int, 0) == seek(pts@, e as int, dist as int, tw as int, s as int),
                s > 0 ==> dist > tw * prefix(pts@, s as int),
            decreases e - s,
        {
            proof {
                assert(tw * pre@[s + 1] <= 0x1_0000 * (0xffff_ffff * 0x2_0000_0000)) by (nonlinear_arith)
                    requires
                        tw <= 0x1_0000,
                        pre@[s + 1] <= (s + 1) * 0x2_0000_0000,
                        s + 1 <= 0xffff_ffff,
                ;
            }
            s += 1;
        }
        let ghost sk = seek(pts@, e as int, dist as int, tw as int, 0);
        let p = if s >= e {
            pts[n - 1]
        } else if lens[s] == 0 {
            pts[s]
        } else {
            let end: usize = if s + 1 == n {
                0
            } else {
                s + 1
            };
            proof {
                assert(tw * pre@[s as int] <= 0x1_0000 * (0xffff_ffff * 0x2_0000_0000)) by (nonlinear_arith)
                    requires
                        tw <= 0x1_0000,
                        pre@[s as int] <= s * 0x2_0000_0000,
                        s <= 0xffff_ffff,
                ;
                assert(tw * lens@[s as int] <= 0x1_0000 * 0x2_0000_0000) by (nonlinear_arith)
                    requires
                        tw <= 0x1_0000,
                        lens@[s as int] <= 0x2_0000_0000,
                ;
                assert(prefix(pts@, s + 1) == prefix(pts@, s as int) + seg_len(pts@, s as int));
                assert(tw * prefix(pts@, s + 1) == tw * prefix(pts@, s as int) + tw * seg_len(pts@, s as int)) by (nonlinear_arith);
                assert(dist <= tw * prefix(pts@, s + 1));
                assert(tw > 0);
                assert(tw * lens@[s as int] > 0) by (nonlinear_arith)
                    requires
                        tw > 0,
                        lens@[s as int] > 0,
                ;
                if s == 0 {
                    assert(prefix(pts@, 0) == 0);
                    assert(tw * prefix(pts@, s as int) == 0) by (nonlinear_arith)
                        requires
                            prefix(pts@, s as int) == 0,
                    ;
                }
            }
            let num: u128 = dist - tw * pre[s];
            let den: u128 = tw * lens[s] as u128;
            lerp_exec(pts[s], pts[end], num as i128, den as i128)
        };
        proof {
            assert(sk == s);
        }
        out.push(p);
        assert(out@ =~= Seq::new((k + 1) as nat, |i: int| sample(pts@, closed, target as int, i)));
        k += 1;
    }
    Contour { vertices: out, is_closed: closed }
}

} // verus!
