use vstd::prelude::*;

verus! {

/// A point of the plane on the vertex grid: one step is the vertex tolerance.
#[derive(Debug, Clone, Copy, PartialEq, Eq, Structural)]
pub struct GridPoint {
    pub x: i32,
    pub y: i32,
}

/// A point of space on the vertex grid.
#[derive(Debug, Clone, Copy, PartialEq, Eq, Structural)]
pub struct GridPoint3 {
    pub x: i32,
    pub y: i32,
    pub z: i32,
}

/// Whether a coordinate can be negated within `i32`.
pub open spec fn negatable(v: i32) -> bool {
    v != i32::MIN
}

/// A point mirrored across the x axis.
pub open spec fn flip_spec(p: GridPoint) -> GridPoint {
    GridPoint { x: p.x, y: (-p.y) as i32 }
}

/// `n / d` rounded to the nearest integer, halves rounded up.
pub open spec fn round_div(n: int, d: int) -> int {
    (2 * n + d) / (2 * d)
}

/// One coordinate of the quadratic curve `a, b, c` at `t = k / 8`.
pub open spec fn quad_coord(a: int, b: int, c: int, k: int) -> int {
    round_div((8 - k) * (8 - k) * a + 2 * k * (8 - k) * b + k * k * c, 64)
}

/// One coordinate of the cubic curve `a, b, c, d` at `t = k / 10`.
pub open spec fn cubic_coord(a: int, b: int, c: int, d: int, k: int) -> int {
    round_div(
        (10 - k) * (10 - k) * (10 - k) * a + 3 * (10 - k) * (10 - k) * k * b + 3 * (10 - k) * k * k
            * c + k * k * k * d,
        1000,
    )
}

pub open spec fn quad_point(start: GridPoint, ctrl: GridPoint, end: GridPoint, k: int) -> GridPoint {
    GridPoint {
        x: quad_coord(start.x as int, ctrl.x as int, end.x as int, k) as i32,
        y: quad_coord(start.y as int, ctrl.y as int, end.y as int, k) as i32,
    }
}

pub open spec fn cubic_point(
    start: GridPoint,
    ctrl1: GridPoint,
    ctrl2: GridPoint,
    end: GridPoint,
    k: int,
) -> GridPoint {
    GridPoint {
        x: cubic_coord(start.x as int, ctrl1.x as int, ctrl2.x as int, end.x as int, k) as i32,
        y: cubic_coord(start.y as int, ctrl1.y as int, ctrl2.y as int, end.y as int, k) as i32,
    }
}

/// The points of a quadratic segment after its start, at `t = 1/8, ..., 8/8`.
pub open spec fn quad_samples(start: GridPoint, ctrl: GridPoint, end: GridPoint) -> Seq<GridPoint> {
    Seq::new(8, |i: int| quad_point(start, ctrl, end, i + 1))
}

/// The points of a cubic segment after its start, at `t = 1/10, ..., 10/10`.
pub open spec fn cubic_samples(
    start: GridPoint,
    ctrl1: GridPoint,
    ctrl2: GridPoint,
    end: GridPoint,
) -> Seq<GridPoint> {
    Seq::new(10, |i: int| cubic_point(start, ctrl1, ctrl2, end, i + 1))
}

/// Mirrors a point across the x axis.
pub fn flip(p: GridPoint) -> (r: GridPoint)
    requires
        negatable(p.y),
    ensures
        r == flip_spec(p),
{
    GridPoint { x: p.x, y: -p.y }
}

pub proof fn lemma_round_div_bounds(n: int, d: int, lo: int, hi: int)
    requires
        d > 0,
        d * lo <= n <= d * hi,
    ensures
        lo <= round_div(n, d) <= hi,
{
    assert(2 * d * lo <= 2 * n + d < 2 * d * (hi + 1)) by (nonlinear_arith)
        requires
            d > 0,
            d * lo <= n <= d * hi,
    ;
    let m = 2 * n + d;
    let q = m / (2 * d);
    let r = m % (2 * d);
    vstd::arithmetic::div_mod::lemma_fundamental_div_mod(m, 2 * d);
    assert(lo <= q <= hi) by (nonlinear_arith)
        requires
            d > 0,
            m == 2 * d * q + r,
            0 <= r < 2 * d,
            2 * d * lo <= m < 2 * d * (hi + 1),
    ;
}

/// Floor of `n / d` for a positive `d`.
fn floor_div(n: i64, d: i64) -> (r: i64)
    requires
        d > 0,
        n > i64::MIN,
    ensures
        r == n / d,
{
    if n >= 0 {
        ((n as u64) / (d as u64)) as i64
    } else {
        let m: u64 = (-n) as u64;
        let q: u64 = (m + (d as u64) - 1) / (d as u64);
        proof {
            assert(m + d - 1 <= u64::MAX);
            vstd::arithmetic::div_mod::lemma_fundamental_div_mod((m + d - 1) as int, d as int);
            vstd::arithmetic::div_mod::lemma_fundamental_div_mod(n as int, d as int);
            let qq = (m + d - 1) as int / d as int;
            let rr = (m + d - 1) as int % d as int;
            let q2 = n as int / d as int;
            let r2 = n as int % d as int;
            assert(d * qq + rr == m + d - 1);
            assert(d * q2 + r2 == n);
            // -n = m, so d * (-q2) - r2 == m; then -q2 == qq
            assert(qq <= m) by (nonlinear_arith)
                requires
                    d * qq + rr == m + d - 1,
                    0 <= rr < d,
                    d > 0,
                    m >= 1,
            ;
            assert(-q2 == qq) by (nonlinear_arith)
                requires
                    d * q2 + r2 == n,
                    m == -n,
                    d * qq + rr == m + d - 1,
                    0 <= r2 < d,
                    0 <= rr < d,
                    d > 0,
            ;
        }
        -(q as i64)
    }
}

/// Floor of `n / d` for a positive `d`, on wide integers.
fn floor_div_wide(n: i128, d: i128) -> (r: i128)
    requires
        d > 0,
        n > i128::MIN,
    ensures
        r == n / d,
{
    if n >= 0 {
        ((n as u128) / (d as u128)) as i128
    } else {
        let m: u128 = (-n) as u128;
        let q: u128 = (m + (d as u128) - 1) / (d as u128);
        proof {
            vstd::arithmetic::div_mod::lemma_fundamental_div_mod((m + d - 1) as int, d as int);
            vstd::arithmetic::div_mod::lemma_fundamental_div_mod(n as int, d as int);
            let qq = (m + d - 1) as int / d as int;
            let rr = (m + d - 1) as int % d as int;
            let q2 = n as int / d as int;
            let r2 = n as int % d as int;
            assert(qq <= m) by (nonlinear_arith)
                requires
                    d * qq + rr == m + d - 1,
                    0 <= rr < d,
                    d > 0,
                    m >= 1,
            ;
            assert(-q2 == qq) by (nonlinear_arith)
                requires
                    d * q2 + r2 == n,
                    m == -n,
                    d * qq + rr == m + d - 1,
                    0 <= r2 < d,
                    0 <= rr < d,
                    d > 0,
            ;
        }
        -(q as i128)
    }
}

/// `n / d` rounded to the nearest integer, halves rounded up, on wide integers.
pub(crate) fn round_div_wide(n: i128, d: i128) -> (r: i128)
    requires
        d > 0,
        -0x1000_0000_0000_0000_0000_0000_0000_0000 < n < 0x1000_0000_0000_0000_0000_0000_0000_0000,
        d < 0x1000_0000_0000_0000_0000_0000_0000_0000,
    ensures
        r == round_div(n as int, d as int),
{
    floor_div_wide(2 * n + d, 2 * d)
}

/// `n / d` rounded to the nearest integer, halves rounded up.
pub(crate) fn round_div_exec(n: i64, d: i64) -> (r: i64)
    requires
        d > 0,
        -0x1000_0000_0000_0000 < n < 0x1000_0000_0000_0000,
        d < 0x1000_0000_0000_0000,
    ensures
        r == round_div(n as int, d as int),
{
    floor_div(2 * n + d, 2 * d)
}

proof fn lemma_weighted3(wa: int, wb: int, wc: int, a: int, b: int, c: int, lo: int, hi: int)
    requires
        wa >= 0,
        wb >= 0,
        wc >= 0,
        lo <= a <= hi,
        lo <= b <= hi,
        lo <= c <= hi,
    ensures
        (wa + wb + wc) * lo <= wa * a + wb * b + wc * c <= (wa + wb + wc) * hi,
{
    assert(wa * lo <= wa * a <= wa * hi) by (nonlinear_arith)
        requires
            wa >= 0,
            lo <= a <= hi,
    ;
    assert(wb * lo <= wb * b <= wb * hi) by (nonlinear_arith)
        requires
            wb >= 0,
            lo <= b <= hi,
    ;
    assert(wc * lo <= wc * c <= wc * hi) by (nonlinear_arith)
        requires
            wc >= 0,
            lo <= c <= hi,
    ;
    assert((wa + wb + wc) * lo == wa * lo + wb * lo + wc * lo) by (nonlinear_arith);
    assert((wa + wb + wc) * hi == wa * hi + wb * hi + wc * hi) by (nonlinear_arith);
}

proof fn lemma_weighted4(
    wa: int,
    wb: int,
    wc: int,
    wd: int,
    a: int,
    b: int,
    c: int,
    d: int,
    lo: int,
    hi: int,
)
    requires
        wa >= 0,
        wb >= 0,
        wc >= 0,
        wd >= 0,
        lo <= a <= hi,
        lo <= b <= hi,
        lo <= c <= hi,
        lo <= d <= hi,
    ensures
        (wa + wb + wc + wd) * lo <= wa * a + wb * b + wc * c + wd * d <= (wa + wb + wc + wd) * hi,
{
    lemma_weighted3(wa, wb, wc, a, b, c, lo, hi);
    assert(wd * lo <= wd * d <= wd * hi) by (nonlinear_arith)
        requires
            wd >= 0,
            lo <= d <= hi,
    ;
    assert((wa + wb + wc + wd) * lo == (wa + wb + wc) * lo + wd * lo) by (nonlinear_arith);
    assert((wa + wb + wc + wd) * hi == (wa + wb + wc) * hi + wd * hi) by (nonlinear_arith);
}

proof fn lemma_term_bound(w: int, a: int, bound: int)
    requires
        0 <= w <= bound,
        i32::MIN <= a <= i32::MAX,
    ensures
        -bound * 0x8000_0000 <= w * a <= bound * 0x8000_0000,
{
    assert(-bound * 0x8000_0000 <= w * a <= bound * 0x8000_0000) by (nonlinear_arith)
        requires
            0 <= w <= bound,
            -0x8000_0000 <= a <= 0x7fff_ffff,
    ;
}

fn quad_coord_exec(a: i32, b: i32, c: i32, k: i64) -> (r: i32)
    requires
        1 <= k <= 8,
    ensures
        r as int == quad_coord(a as int, b as int, c as int, k as int),
{
    assert(0 <= (8 - k) * (8 - k) <= 64 && 0 <= 2 * k * (8 - k) <= 128 && 0 <= k * k <= 64)
        by (nonlinear_arith)
        requires
            1 <= k <= 8,
    ;
    let wa: i64 = (8 - k) * (8 - k);
    let wb: i64 = 2 * k * (8 - k);
    let wc: i64 = k * k;
    proof {
        assert(wa + wb + wc == 64) by (nonlinear_arith)
            requires
                wa == (8 - k) * (8 - k),
                wb == 2 * k * (8 - k),
                wc == k * k,
        ;
        lemma_weighted3(wa as int, wb as int, wc as int, a as int, b as int, c as int, i32::MIN as int, i32::MAX as int);
        lemma_term_bound(wa as int, a as int, 64);
        lemma_term_bound(wb as int, b as int, 128);
        lemma_term_bound(wc as int, c as int, 64);
        lemma_round_div_bounds(wa * a + wb * b + wc * c, 64, i32::MIN as int, i32::MAX as int);
    }
    let n: i64 = wa * (a as i64) + wb * (b as i64) + wc * (c as i64);
    round_div_exec(n, 64) as i32
}

fn cubic_coord_exec(a: i32, b: i32, c: i32, d: i32, k: i64) -> (r: i32)
    requires
        1 <= k <= 10,
    ensures
        r as int == cubic_coord(a as int, b as int, c as int, d as int, k as int),
{
    assert(0 <= (10 - k) * (10 - k) <= 100 && 0 <= (10 - k) * (10 - k) * (10 - k) <= 1000) by (nonlinear_arith)
        requires
            1 <= k <= 10,
    ;
    assert(0 <= 3 * (10 - k) * (10 - k) <= 300 && 0 <= 3 * (10 - k) * (10 - k) * k <= 3000) by (nonlinear_arith)
        requires
            1 <= k <= 10,
    ;
    assert(0 <= 3 * (10 - k) * k <= 300 && 0 <= 3 * (10 - k) * k * k <= 3000) by (nonlinear_arith)
        requires
            1 <= k <= 10,
    ;
    assert(0 <= k * k <= 100 && 0 <= k * k * k <= 1000) by (nonlinear_arith)
        requires
            1 <= k <= 10,
    ;
    let wa: i64 = (10 - k) * (10 - k) * (10 - k);
    let wb: i64 = 3 * (10 - k) * (10 - k) * k;
    let wc: i64 = 3 * (10 - k) * k * k;
    let wd: i64 = k * k * k;
    proof {
        assert(wa + wb + wc + wd == 1000) by (nonlinear_arith)
            requires
                wa == (10 - k) * (10 - k) * (10 - k),
                wb == 3 * (10 - k) * (10 - k) * k,
                wc == 3 * (10 - k) * k * k,
                wd == k * k * k,
        ;
        assert(0 <= wa && 0 <= wb && 0 <= wc && 0 <= wd) by (nonlinear_arith)
            requires
                1 <= k <= 10,
                wa == (10 - k) * (10 - k) * (10 - k),
                wb == 3 * (10 - k) * (10 - k) * k,
                wc == 3 * (10 - k) * k * k,
                wd == k * k * k,
        ;
        lemma_weighted4(
            wa as int, wb as int, wc as int, wd as int,
            a as int, b as int, c as int, d as int,
            i32::MIN as int, i32::MAX as int,
        );
        lemma_term_bound(wa as int, a as int, 1000);
        lemma_term_bound(wb as int, b as int, 3000);
        lemma_term_bound(wc as int, c as int, 3000);
        lemma_term_bound(wd as int, d as int, 1000);
        lemma_round_div_bounds(wa * a + wb * b + wc * c + wd * d, 1000, i32::MIN as int, i32::MAX as int);
    }
    let n: i64 = wa * (a as i64) + wb * (b as i64) + wc * (c as i64) + wd * (d as i64);
    round_div_exec(n, 1000) as i32
}

/// The point of the quadratic curve `start, ctrl, end` at `t = k / 8`.
pub fn quad_at(start: GridPoint, ctrl: GridPoint, end: GridPoint, k: i64) -> (r: GridPoint)
    requires
        1 <= k <= 8,
    ensures
        r == quad_point(start, ctrl, end, k as int),
{
    GridPoint { x: quad_coord_exec(start.x, ctrl.x, end.x, k), y: quad_coord_exec(start.y, ctrl.y, end.y, k) }
}

/// The point of the cubic curve `start, ctrl1, ctrl2, end` at `t = k / 10`.
pub fn cubic_at(start: GridPoint, ctrl1: GridPoint, ctrl2: GridPoint, end: GridPoint, k: i64) -> (r: GridPoint)
    requires
        1 <= k <= 10,
    ensures
        r == cubic_point(start, ctrl1, ctrl2, end, k as int),
{
    GridPoint {
        x: cubic_coord_exec(start.x, ctrl1.x, ctrl2.x, end.x, k),
        y: cubic_coord_exec(start.y, ctrl1.y, ctrl2.y, end.y, k),
    }
}

} // verus!
