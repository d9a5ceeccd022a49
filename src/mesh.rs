use vstd::prelude::*;

use crate::bevel::BevelRings;
use crate::contour::Contour;
use crate::error::{MeshFault, MeshTextError};
use crate::geometry::{round_div, GridPoint, GridPoint3};

verus! {

/// The sum of the unnormalised face normals at a vertex; the renderer's unit
/// normal is its direction, and a zero sum has none.
#[derive(Debug, Clone, Copy, PartialEq, Eq, Structural)]
pub struct NormalSum {
    pub x: i128,
    pub y: i128,
    pub z: i128,
}

/// Texture coordinates in millionths.
#[derive(Debug, Clone, Copy, PartialEq, Eq, Structural)]
pub struct Uv {
    pub u: i64,
    pub v: i64,
}

/// A triangle mesh: positions, a flat list of triangle corner indices, and per
/// vertex normal sums and texture coordinates.
#[derive(Debug, Clone)]
pub struct ExtrudedMeshGeometry {
    pub vertices: Vec<GridPoint3>,
    pub indices: Vec<u32>,
    pub normals: Vec<NormalSum>,
    pub uvs: Vec<Uv>,
}

/// What validation found in a mesh.
#[derive(Debug, Clone, Copy, PartialEq, Eq, Structural)]
pub struct MeshValidation {
    pub vertex_count: usize,
    pub triangle_count: usize,
    pub degenerate_triangles: usize,
    pub invalid_normals: usize,
    pub extreme_vertices: usize,
}

// ---------------------------------------------------------------------------
// Index patterns

/// The six corners of the side-wall quad at position `i` between the ring
/// starting at `cur` and the ring starting at `next`, each of `t` vertices.
pub open spec fn quad_corners(cur: int, next: int, t: int, i: int) -> Seq<u32> {
    let j = if i + 1 == t { 0 } else { i + 1 };
    seq![
        (cur + i) as u32,
        (cur + j) as u32,
        (next + j) as u32,
        (cur + i) as u32,
        (next + j) as u32,
        (next + i) as u32,
    ]
}

/// The corners of the first `m` side-wall quads.
pub open spec fn wall_corners(cur: int, next: int, t: int, m: int) -> Seq<u32>
    decreases m,
{
    if m <= 0 {
        Seq::empty()
    } else {
        wall_corners(cur, next, t, m - 1) + quad_corners(cur, next, t, m - 1)
    }
}

/// How many quads bridge two rings of `t` vertices: one per edge.
pub open spec fn edge_count(t: int, closed: bool) -> int {
    if t == 0 {
        0
    } else if closed {
        t
    } else {
        t - 1
    }
}

/// The corners of the back-cap fan triangle `i` (from 1) over a ring at `o`.
pub open spec fn fan_corners(o: int, i: int) -> Seq<u32> {
    seq![o as u32, (o + i + 1) as u32, (o + i) as u32]
}

/// The corners of the first `m` back-cap fan triangles.
pub open spec fn fan(o: int, m: int) -> Seq<u32>
    decreases m,
{
    if m <= 0 {
        Seq::empty()
    } else {
        fan(o, m - 1) + fan_corners(o, m)
    }
}

/// How many fan triangles cover a ring of `t` vertices.
pub open spec fn fan_count(t: int) -> int {
    if t >= 3 {
        t - 2
    } else {
        0
    }
}

/// Appends the side wall between two rings of `t` vertices, starting at
/// `cur` and `next`: one quad per edge, as two triangles.
pub fn add_side_wall(indices: &mut Vec<u32>, cur: u32, next: u32, t: usize, closed: bool)
    requires
        cur as int + t <= u32::MAX + 1,
        next as int + t <= u32::MAX + 1,
    ensures
        final(indices)@ == old(indices)@ + wall_corners(
            cur as int,
            next as int,
            t as int,
            edge_count(t as int, closed),
        ),
{
    let m: usize = if t == 0 {
        0
    } else if closed {
        t
    } else {
        t - 1
    };
    let ghost start = indices@;
    let mut i: usize = 0;
    while i < m
        invariant
            m == edge_count(t as int, closed),
            m <= t,
            i <= m,
            cur as int + t <= u32::MAX + 1,
            next as int + t <= u32::MAX + 1,
            indices@ == start + wall_corners(cur as int, next as int, t as int, i as int),
        decreases m - i,
    {
        let j: usize = if i + 1 == t {
            0
        } else {
            i + 1
        };
        let a = cur + i as u32;
        let b = cur + j as u32;
        let c = next + j as u32;
        let d = next + i as u32;
        indices.push(a);
        indices.push(b);
        indices.push(c);
        indices.push(a);
        indices.push(c);
        indices.push(d);
        assert(wall_corners(cur as int, next as int, t as int, i + 1) =~= wall_corners(
            cur as int,
            next as int,
            t as int,
            i as int,
        ) + quad_corners(cur as int, next as int, t as int, i as int));
        assert(indices@ =~= start + wall_corners(cur as int, next as int, t as int, i + 1));
        i += 1;
    }
}

/// Appends the back cap of a ring of `t` vertices starting at `o`: a fan from
/// its first vertex, wound opposite to the front.
pub fn add_back_cap_triangulation(indices: &mut Vec<u32>, o: u32, t: usize)
    requires
        o as int + t <= u32::MAX + 1,
    ensures
        final(indices)@ == old(indices)@ + fan(o as int, fan_count(t as int)),
{
    if t < 3 {
        assert(fan(o as int, 0) =~= Seq::<u32>::empty());
        assert(indices@ =~= indices@ + fan(o as int, 0));
        return;
    }
    let ghost start = indices@;
    let mut i: usize = 1;
    while i < t - 1
        invariant
            3 <= t,
            1 <= i <= t - 1,
            o as int + t <= u32::MAX + 1,
            indices@ == start + fan(o as int, i - 1),
        decreases t - 1 - i,
    {
        indices.push(o);
        indices.push(o + i as u32 + 1);
        indices.push(o + i as u32);
        assert(fan(o as int, i as int) =~= fan(o as int, i - 1) + fan_corners(o as int, i as int));
        assert(indices@ =~= start + fan(o as int, i as int));
        i += 1;
    }
}

/// The corners of a cap's triangles placed after `offset` vertices, each
/// triangle's last two corners swapped when the winding is reversed.
pub open spec fn cap_corners(offset: int, cap: Seq<u16>, reverse: bool) -> Seq<u32> {
    Seq::new(
        (cap.len() / 3 * 3) as nat,
        |k: int|
            {
                let base = k - k % 3;
                let src = if reverse && k % 3 == 1 {
                    base + 2
                } else if reverse && k % 3 == 2 {
                    base + 1
                } else {
                    k
                };
                (offset + cap[src] as int) as u32
            },
    )
}

/// Appends the triangles of a cap whose vertices start at `offset`: whole
/// triangles only, with reversed winding when asked.
pub fn append_cap_indices(indices: &mut Vec<u32>, offset: u32, cap: &Vec<u16>, reverse: bool)
    requires
        offset as int + 0x1_0000 <= u32::MAX + 1,
    ensures
        final(indices)@ == old(indices)@ + cap_corners(offset as int, cap@, reverse),
{
    let ghost start = indices@;
    let len = cap.len();
    let n = len / 3;
    let mut i: usize = 0;
    while i < n
        invariant
            len == cap@.len(),
            n == cap@.len() / 3,
            i <= n,
            offset as int + 0x1_0000 <= u32::MAX + 1,
            indices@ == start + cap_corners(offset as int, cap@, reverse).take(3 * i),
        decreases n - i,
    {
        proof {
            vstd::arithmetic::div_mod::lemma_fundamental_div_mod(cap@.len() as int, 3);
            assert(3 * i + 2 < cap@.len());
        }
        let k: usize = 3 * i;
        let x: u32 = cap[k] as u32;
        let y: u32 = cap[k + 1] as u32;
        let z: u32 = cap[k + 2] as u32;
        let a = offset + x;
        let (b, c) = if reverse {
            (offset + z, offset + y)
        } else {
            (offset + y, offset + z)
        };
        indices.push(a);
        indices.push(b);
        indices.push(c);
        proof {
            let full = cap_corners(offset as int, cap@, reverse);
            let k = 3 * i as int;
            assert(k % 3 == 0 && (k + 1) % 3 == 1 && (k + 2) % 3 == 2);
            assert(k - k % 3 == k && (k + 1) - (k + 1) % 3 == k && (k + 2) - (k + 2) % 3 == k);
            assert(full.take(k + 3) =~= full.take(k).push(full[k]).push(full[k + 1]).push(full[k + 2]));
        }
        assert(indices@ =~= start + cap_corners(offset as int, cap@, reverse).take(3 * (i + 1)));
        i += 1;
    }
    assert(cap_corners(offset as int, cap@, reverse).take(3 * n) =~= cap_corners(
        offset as int,
        cap@,
        reverse,
    ));
}

/// The vertex count that every ring of a bevel is resampled to: the largest
/// count among them, at least four and at most 256.
pub open spec fn optimal_count(counts: Seq<int>) -> int
    decreases counts.len(),
{
    if counts.len() == 0 {
        4
    } else {
        let rest = optimal_count(counts.drop_last());
        let c = if counts.last() > 256 { 256 } else { counts.last() };
        if c > rest { c } else { rest }
    }
}

pub open spec fn vertex_counts(rings: Seq<Contour>) -> Seq<int> {
    rings.map_values(|c: Contour| c.vertices@.len() as int)
}

/// The vertex count that rings are resampled to before bridging.
pub fn determine_optimal_vertex_count(rings: &Vec<Contour>) -> (r: usize)
    ensures
        r == optimal_count(vertex_counts(rings@)),
        4 <= r <= 256,
{
    let mut best: usize = 4;
    let mut i: usize = 0;
    while i < rings.len()
        invariant
            i <= rings@.len(),
            best == optimal_count(vertex_counts(rings@).take(i as int)),
            4 <= best <= 256,
        decreases rings@.len() - i,
    {
        assert(vertex_counts(rings@).take(i as int + 1).drop_last() =~= vertex_counts(rings@).take(
            i as int,
        ));
        let n = rings[i].vertices.len();
        let c = if n > 256 {
            256
        } else {
            n
        };
        if c > best {
            best = c;
        }
        i += 1;
    }
    assert(vertex_counts(rings@).take(rings@.len() as int) =~= vertex_counts(rings@));
    best
}

// ---------------------------------------------------------------------------
// Normals and texture coordinates

pub open spec fn sub3(a: GridPoint3, b: GridPoint3) -> (int, int, int) {
    (a.x - b.x, a.y - b.y, a.z - b.z)
}

pub open spec fn cross(a: (int, int, int), b: (int, int, int)) -> (int, int, int) {
    (a.1 * b.2 - a.2 * b.1, a.2 * b.0 - a.0 * b.2, a.0 * b.1 - a.1 * b.0)
}

/// The unnormalised normal of the triangle `a, b, c`: twice its area, along
/// the direction its winding faces.
pub open spec fn face_normal(a: GridPoint3, b: GridPoint3, c: GridPoint3) -> (int, int, int) {
    cross(sub3(b, a), sub3(c, a))
}

pub open spec fn sum_view(n: NormalSum) -> (int, int, int) {
    (n.x as int, n.y as int, n.z as int)
}

pub open spec fn add_at(s: Seq<(int, int, int)>, i: int, f: (int, int, int)) -> Seq<(int, int, int)> {
    s.update(i, (s[i].0 + f.0, s[i].1 + f.1, s[i].2 + f.2))
}

/// Whether triangle `t` of an index list names three existing vertices.
pub open spec fn triangle_in_range(nv: int, idx: Seq<u32>, t: int) -> bool {
    &&& idx[3 * t] < nv
    &&& idx[3 * t + 1] < nv
    &&& idx[3 * t + 2] < nv
}

/// The normal sums after the first `m` triangles: each triangle adds its face
/// normal to each of its corners; a triangle naming a missing vertex adds
/// nothing.
pub open spec fn normal_sums(v: Seq<GridPoint3>, idx: Seq<u32>, m: int) -> Seq<(int, int, int)>
    decreases m,
{
    if m <= 0 {
        Seq::new(v.len(), |i: int| (0int, 0int, 0int))
    } else {
        let s = normal_sums(v, idx, m - 1);
        let t = m - 1;
        if triangle_in_range(v.len() as int, idx, t) {
            let (i0, i1, i2) = (idx[3 * t] as int, idx[3 * t + 1] as int, idx[3 * t + 2] as int);
            let f = face_normal(v[i0], v[i1], v[i2]);
            add_at(add_at(add_at(s, i0, f), i1, f), i2, f)
        } else {
            s
        }
    }
}

pub open spec fn within(c: (int, int, int), b: int) -> bool {
    -b <= c.0 <= b && -b <= c.1 <= b && -b <= c.2 <= b
}

proof fn lemma_face_bound(a: GridPoint3, b: GridPoint3, c: GridPoint3)
    ensures
        within(face_normal(a, b, c), 0x4_0000_0000_0000_0000),
{
    let e = sub3(b, a);
    let g = sub3(c, a);
    assert(within(e, 0x1_0000_0000) && within(g, 0x1_0000_0000));
    assert forall|p: int, q: int, r: int, w: int|
        -0x1_0000_0000 <= p <= 0x1_0000_0000 && -0x1_0000_0000 <= q <= 0x1_0000_0000
            && -0x1_0000_0000 <= r <= 0x1_0000_0000 && -0x1_0000_0000 <= w <= 0x1_0000_0000 implies
        -0x4_0000_0000_0000_0000 <= #[trigger] (p * q - r * w) <= 0x4_0000_0000_0000_0000 by {
        assert(-0x1_0000_0000_0000_0000 <= p * q <= 0x1_0000_0000_0000_0000) by (nonlinear_arith)
            requires
                -0x1_0000_0000 <= p <= 0x1_0000_0000,
                -0x1_0000_0000 <= q <= 0x1_0000_0000,
        ;
        assert(-0x1_0000_0000_0000_0000 <= r * w <= 0x1_0000_0000_0000_0000) by (nonlinear_arith)
            requires
                -0x1_0000_0000 <= r <= 0x1_0000_0000,
                -0x1_0000_0000 <= w <= 0x1_0000_0000,
        ;
    }
    assert(-0x4_0000_0000_0000_0000 <= e.1 * g.2 - e.2 * g.1 <= 0x4_0000_0000_0000_0000);
    assert(-0x4_0000_0000_0000_0000 <= e.2 * g.0 - e.0 * g.2 <= 0x4_0000_0000_0000_0000);
    assert(-0x4_0000_0000_0000_0000 <= e.0 * g.1 - e.1 * g.0 <= 0x4_0000_0000_0000_0000);
}

fn face_normal_exec(a: GridPoint3, b: GridPoint3, c: GridPoint3) -> (r: NormalSum)
    ensures
        sum_view(r) == face_normal(a, b, c),
{
    proof {
        lemma_face_bound(a, b, c);
    }
    let ex = b.x as i128 - a.x as i128;
    let ey = b.y as i128 - a.y as i128;
    let ez = b.z as i128 - a.z as i128;
    let gx = c.x as i128 - a.x as i128;
    let gy = c.y as i128 - a.y as i128;
    let gz = c.z as i128 - a.z as i128;
    assert forall|p: i128, q: i128|
        -0x1_0000_0000 <= p <= 0x1_0000_0000 && -0x1_0000_0000 <= q <= 0x1_0000_0000 implies
        -0x1_0000_0000_0000_0000 <= #[trigger] (p * q) <= 0x1_0000_0000_0000_0000 by {
        assert(-0x1_0000_0000_0000_0000 <= p * q <= 0x1_0000_0000_0000_0000) by (nonlinear_arith)
            requires
                -0x1_0000_0000 <= p <= 0x1_0000_0000,
                -0x1_0000_0000 <= q <= 0x1_0000_0000,
        ;
    }
    NormalSum { x: ey * gz - ez * gy, y: ez * gx - ex * gz, z: ex * gy - ey * gx }
}

/// Sums, at every vertex, the face normals of the triangles around it.
pub fn generate_smooth_normals(vertices: &Vec<GridPoint3>, indices: &Vec<u32>) -> (r: Vec<NormalSum>)
    requires
        indices@.len() <= 0x100_0000_0000_0000,
    ensures
        r@.map_values(|n: NormalSum| sum_view(n)) == normal_sums(vertices@, indices@, (indices@.len() / 3) as int),
{
    let nv = vertices.len();
    let mut sums: Vec<NormalSum> = Vec::new();
    let mut i: usize = 0;
    while i < nv
        invariant
            nv == vertices@.len(),
            i <= nv,
            sums@.len() == i,
            forall|k: int| 0 <= k < i ==> #[trigger] sums@[k] == (NormalSum { x: 0, y: 0, z: 0 }),
        decreases nv - i,
    {
        sums.push(NormalSum { x: 0, y: 0, z: 0 });
        i += 1;
    }
    assert(sums@.map_values(|n: NormalSum| sum_view(n)) =~= normal_sums(vertices@, indices@, 0));
    let len = indices.len();
    let m = len / 3;
    let mut t: usize = 0;
    while t < m
        invariant
            nv == vertices@.len(),
            len == indices@.len(),
            len <= 0x100_0000_0000_0000,
            m == len / 3,
            t <= m,
            sums@.len() == nv,
            sums@.map_values(|n: NormalSum| sum_view(n)) == normal_sums(vertices@, indices@, t as int),
            forall|k: int|
                0 <= k < nv ==> within(#[trigger] sum_view(sums@[k]), t * 0xC_0000_0000_0000_0000),
        decreases m - t,
    {
        proof {
            vstd::arithmetic::div_mod::lemma_fundamental_div_mod(len as int, 3);
        }
        let i0 = indices[3 * t] as usize;
        let i1 = indices[3 * t + 1] as usize;
        let i2 = indices[3 * t + 2] as usize;
        let ghost before = sums@.map_values(|n: NormalSum| sum_view(n));
        let ghost lim: int = t * 0xC_0000_0000_0000_0000;
        if i0 < nv && i1 < nv && i2 < nv {
            let f = face_normal_exec(vertices[i0], vertices[i1], vertices[i2]);
            proof {
                lemma_face_bound(vertices@[i0 as int], vertices@[i1 as int], vertices@[i2 as int]);
            }
            proof {
                assert(m <= len);
                assert(t * 0xC_0000_0000_0000_0000 <= 0x100_0000_0000_0000 * 0xC_0000_0000_0000_0000);
                assert(within(sum_view(sums@[i0 as int]), lim));
                assert(within(sum_view(sums@[i1 as int]), lim));
                assert(within(sum_view(sums@[i2 as int]), lim));
            }
            let ghost s0 = sums@;
            let a = sums[i0];
            sums.set(i0, NormalSum { x: a.x + f.x, y: a.y + f.y, z: a.z + f.z });
            assert forall|k: int| 0 <= k < nv implies within(
                #[trigger] sum_view(sums@[k]),
                lim + 0x4_0000_0000_0000_0000,
            ) by {
                assert(within(sum_view(s0[k]), lim));
            }
            let ghost s1 = sums@;
            let b = sums[i1];
            sums.set(i1, NormalSum { x: b.x + f.x, y: b.y + f.y, z: b.z + f.z });
            assert forall|k: int| 0 <= k < nv implies within(
                #[trigger] sum_view(sums@[k]),
                lim + 0x8_0000_0000_0000_0000,
            ) by {
                assert(within(sum_view(s1[k]), lim + 0x4_0000_0000_0000_0000));
            }
            let ghost s2 = sums@;
            let c = sums[i2];
            sums.set(i2, NormalSum { x: c.x + f.x, y: c.y + f.y, z: c.z + f.z });
            assert forall|k: int| 0 <= k < nv implies within(
                #[trigger] sum_view(sums@[k]),
                lim + 0xC_0000_0000_0000_0000,
            ) by {
                assert(within(sum_view(s2[k]), lim + 0x8_0000_0000_0000_0000));
            }
            proof {
                let fv = face_normal(vertices@[i0 as int], vertices@[i1 as int], vertices@[i2 as int]);
                assert(sums@.map_values(|n: NormalSum| sum_view(n)) =~= add_at(
                    add_at(add_at(before, i0 as int, fv), i1 as int, fv),
                    i2 as int,
                    fv,
                ));
            }
        }
        assert forall|k: int| 0 <= k < nv implies within(
            #[trigger] sum_view(sums@[k]),
            (t + 1) * 0xC_0000_0000_0000_0000,
        ) by {
            if !(i0 < nv && i1 < nv && i2 < nv) {
                assert(within(sum_view(sums@[k]), lim));
            }
        }
        t += 1;
    }
    sums
}

/// Millionths of a unit: the grid's step is a ten-thousandth of a layout unit.
pub open spec fn uv_of(p: GridPoint3, depth: int) -> Uv {
    Uv {
        u: (p.x + 500_000) as i64,
        v: if depth > 0 {
            round_div(p.z * 1_000_000, depth) as i64
        } else {
            (p.y + 500_000) as i64
        },
    }
}

/// Planar texture coordinates: `u` follows `x` (a hundred layout units span
/// one texture width, centred), `v` follows the depth when the mesh has any,
/// else `y` in the same way as `u`.
pub fn generate_uvs_for_beveled_mesh(vertices: &Vec<GridPoint3>, depth: i32) -> (r: Vec<Uv>)
    ensures
        r@ == vertices@.map_values(|p: GridPoint3| uv_of(p, depth as int)),
{
    let mut uvs: Vec<Uv> = Vec::new();
    let mut i: usize = 0;
    while i < vertices.len()
        invariant
            i <= vertices@.len(),
            uvs@ == vertices@.take(i as int).map_values(|p: GridPoint3| uv_of(p, depth as int)),
        decreases vertices@.len() - i,
    {
        let p = vertices[i];
        let v: i64 = if depth > 0 {
            proof {
                assert(-0x8000_0000 * 1_000_000 <= p.z * 1_000_000 <= 0x7fff_ffff * 1_000_000);
            }
            crate::geometry::round_div_exec(p.z as i64 * 1_000_000, depth as i64)
        } else {
            p.y as i64 + 500_000
        };
        uvs.push(Uv { u: p.x as i64 + 500_000, v });
        assert(vertices@.take(i as int + 1).map_values(|p: GridPoint3| uv_of(p, depth as int)) =~=
            vertices@.take(i as int).map_values(|p: GridPoint3| uv_of(p, depth as int)).push(uv_of(p, depth as int)));
        i += 1;
    }
    assert(vertices@.take(vertices@.len() as int) =~= vertices@);
    uvs
}

// ---------------------------------------------------------------------------
// Validation

/// Whether a coordinate lies beyond a thousand layout units.
pub open spec fn is_extreme(p: GridPoint3) -> bool {
    p.x > 10_000_000 || p.x < -10_000_000 || p.y > 10_000_000 || p.y < -10_000_000 || p.z
        > 10_000_000 || p.z < -10_000_000
}

pub open spec fn sq_len(c: (int, int, int)) -> int {
    c.0 * c.0 + c.1 * c.1 + c.2 * c.2
}

/// Whether triangle `t` is degenerate: twice its area stays under a
/// millionth of a square layout unit (a hundred square grid steps).
pub open spec fn is_degenerate(v: Seq<GridPoint3>, idx: Seq<u32>, t: int) -> bool {
    sq_len(face_normal(v[idx[3 * t] as int], v[idx[3 * t + 1] as int], v[idx[3 * t + 2] as int]))
        < 10_000
}

pub open spec fn count_degenerate(v: Seq<GridPoint3>, idx: Seq<u32>, m: int) -> int
    decreases m,
{
    if m <= 0 {
        0
    } else {
        count_degenerate(v, idx, m - 1) + if is_degenerate(v, idx, m - 1) { 1int } else { 0 }
    }
}

pub open spec fn count_extreme(v: Seq<GridPoint3>, m: int) -> int
    decreases m,
{
    if m <= 0 {
        0
    } else {
        count_extreme(v, m - 1) + if is_extreme(v[m - 1]) { 1int } else { 0 }
    }
}

/// A normal sum is invalid when it is zero: it has no direction.
pub open spec fn count_invalid_normals(n: Seq<NormalSum>, m: int) -> int
    decreases m,
{
    if m <= 0 {
        0
    } else {
        count_invalid_normals(n, m - 1) + if n[m - 1] == (NormalSum { x: 0, y: 0, z: 0 }) {
            1int
        } else {
            0
        }
    }
}

pub open spec fn indices_in_range(nv: int, idx: Seq<u32>) -> bool {
    forall|k: int| 0 <= k < idx.len() ==> (#[trigger] idx[k] as int) < nv
}

/// The verdict on a mesh. Always rejected: an index count that is not a
/// multiple of three, attribute lists of different lengths, an index naming a
/// missing vertex. Rejected past a share: degenerate triangles beyond a tenth
/// of the triangles, invalid normals beyond a tenth of the vertices, extreme
/// vertices beyond a twentieth of them.
pub open spec fn mesh_verdict(
    v: Seq<GridPoint3>,
    idx: Seq<u32>,
    n: Seq<NormalSum>,
    uv: Seq<Uv>,
) -> Result<MeshValidation, MeshTextError> {
    if idx.len() % 3 != 0 {
        Err(MeshTextError::InvalidMesh(MeshFault::IndexCountNotTriangles))
    } else if v.len() != n.len() || v.len() != uv.len() {
        Err(MeshTextError::InvalidMesh(MeshFault::AttributeLengthMismatch))
    } else if !indices_in_range(v.len() as int, idx) {
        Err(MeshTextError::InvalidMesh(MeshFault::IndexOutOfRange))
    } else {
        let tris = idx.len() / 3;
        let report = MeshValidation {
            vertex_count: v.len() as usize,
            triangle_count: tris as usize,
            degenerate_triangles: count_degenerate(v, idx, tris as int) as usize,
            invalid_normals: count_invalid_normals(n, n.len() as int) as usize,
            extreme_vertices: count_extreme(v, v.len() as int) as usize,
        };
        if report.degenerate_triangles > tris / 10 {
            Err(MeshTextError::InvalidMesh(MeshFault::TooManyDegenerateTriangles))
        } else if report.invalid_normals > v.len() / 10 {
            Err(MeshTextError::InvalidMesh(MeshFault::TooManyInvalidNormals))
        } else if report.extreme_vertices > v.len() / 20 {
            Err(MeshTextError::InvalidMesh(MeshFault::TooManyExtremeVertices))
        } else {
            Ok(report)
        }
    }
}

impl ExtrudedMeshGeometry {
    pub open spec fn verdict(&self) -> Result<MeshValidation, MeshTextError> {
        mesh_verdict(self.vertices@, self.indices@, self.normals@, self.uvs@)
    }
}

fn degenerate_exec(a: GridPoint3, b: GridPoint3, c: GridPoint3) -> (r: bool)
    ensures
        r == (sq_len(face_normal(a, b, c)) < 10_000),
{
    let f = face_normal_exec(a, b, c);
    if f.x >= 100 || f.x <= -100 || f.y >= 100 || f.y <= -100 || f.z >= 100 || f.z <= -100 {
        proof {
            let v = sum_view(f);
            assert(v.0 * v.0 >= 0 && v.1 * v.1 >= 0 && v.2 * v.2 >= 0) by (nonlinear_arith);
            if v.0 >= 100 || v.0 <= -100 {
                assert(v.0 * v.0 >= 10_000) by (nonlinear_arith)
                    requires
                        v.0 >= 100 || v.0 <= -100,
                ;
            } else if v.1 >= 100 || v.1 <= -100 {
                assert(v.1 * v.1 >= 10_000) by (nonlinear_arith)
                    requires
                        v.1 >= 100 || v.1 <= -100,
                ;
            } else {
                assert(v.2 * v.2 >= 10_000) by (nonlinear_arith)
                    requires
                        v.2 >= 100 || v.2 <= -100,
                ;
            }
        }
        false
    } else {
        assert(f.x * f.x < 10_000 && f.y * f.y < 10_000 && f.z * f.z < 10_000) by (nonlinear_arith)
            requires
                -100 < f.x < 100,
                -100 < f.y < 100,
                -100 < f.z < 100,
        ;
        assert(f.x * f.x >= 0 && f.y * f.y >= 0 && f.z * f.z >= 0) by (nonlinear_arith);
        f.x * f.x + f.y * f.y + f.z * f.z < 10_000
    }
}

/// Validates a mesh, reporting what it found.
pub fn check_mesh(geometry: &ExtrudedMeshGeometry) -> (r: Result<MeshValidation, MeshTextError>)
    ensures
        r == geometry.verdict(),
{
    let v = &geometry.vertices;
    let idx = &geometry.indices;
    let n = &geometry.normals;
    let nv = v.len();
    let len = idx.len();
    if len % 3 != 0 {
        return Err(MeshTextError::InvalidMesh(MeshFault::IndexCountNotTriangles));
    }
    if nv != n.len() || nv != geometry.uvs.len() {
        return Err(MeshTextError::InvalidMesh(MeshFault::AttributeLengthMismatch));
    }
    let mut k: usize = 0;
    while k < len
        invariant
            len == idx@.len(),
            nv == v@.len(),
            v@ == geometry.vertices@,
            idx@ == geometry.indices@,
            n@ == geometry.normals@,
            len % 3 == 0,
            nv == n@.len(),
            nv == geometry.uvs@.len(),
            k <= len,
            forall|j: int| 0 <= j < k ==> (#[trigger] idx@[j] as int) < nv,
        decreases len - k,
    {
        if idx[k] as usize >= nv {
            assert(!((idx@[k as int] as int) < nv));
            return Err(MeshTextError::InvalidMesh(MeshFault::IndexOutOfRange));
        }
        k += 1;
    }
    let tris = len / 3;
    let mut degenerate: usize = 0;
    let mut t: usize = 0;
    proof {
        vstd::arithmetic::div_mod::lemma_fundamental_div_mod(len as int, 3);
    }
    while t < tris
        invariant
            len == idx@.len(),
            nv == v@.len(),
            v@ == geometry.vertices@,
            idx@ == geometry.indices@,
            n@ == geometry.normals@,
            tris == len / 3,
            len == 3 * tris,
            nv == n@.len(),
            nv == geometry.uvs@.len(),
            indices_in_range(nv as int, idx@),
            t <= tris,
            degenerate == count_degenerate(v@, idx@, t as int),
            degenerate <= t,
        decreases tris - t,
    {
        let a = v[idx[3 * t] as usize];
        let b = v[idx[3 * t + 1] as usize];
        let c = v[idx[3 * t + 2] as usize];
        if degenerate_exec(a, b, c) {
            degenerate += 1;
        }
        t += 1;
    }
    let mut extreme: usize = 0;
    let mut i: usize = 0;
    while i < nv
        invariant
            nv == v@.len(),
            v@ == geometry.vertices@,
            i <= nv,
            extreme == count_extreme(v@, i as int),
            extreme <= i,
        decreases nv - i,
    {
        let p = v[i];
        if p.x > 10_000_000 || p.x < -10_000_000 || p.y > 10_000_000 || p.y < -10_000_000
            || p.z > 10_000_000 || p.z < -10_000_000 {
            extreme += 1;
        }
        i += 1;
    }
    let mut invalid: usize = 0;
    let mut i: usize = 0;
    while i < nv
        invariant
            nv == n@.len(),
            n@ == geometry.normals@,
            i <= nv,
            invalid == count_invalid_normals(n@, i as int),
            invalid <= i,
        decreases nv - i,
    {
        let q = n[i];
        if q.x == 0 && q.y == 0 && q.z == 0 {
            invalid += 1;
        }
        i += 1;
    }
    let report = MeshValidation {
        vertex_count: nv,
        triangle_count: tris,
        degenerate_triangles: degenerate,
        invalid_normals: invalid,
        extreme_vertices: extreme,
    };
    if degenerate > tris / 10 {
        Err(MeshTextError::InvalidMesh(MeshFault::TooManyDegenerateTriangles))
    } else if invalid > nv / 10 {
        Err(MeshTextError::InvalidMesh(MeshFault::TooManyInvalidNormals))
    } else if extreme > nv / 20 {
        Err(MeshTextError::InvalidMesh(MeshFault::TooManyExtremeVertices))
    } else {
        Ok(report)
    }
}

} // verus!
