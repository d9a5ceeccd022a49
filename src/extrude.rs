use vstd::prelude::*;

use crate::bevel::{contour_views, lemma_views_push, BevelRings};
use crate::contour::Contour;
use crate::error::{MeshFault, MeshTextError};
use crate::geometry::{round_div, round_div_wide, GridPoint, GridPoint3};
use crate::mesh::{
    generate_smooth_normals, generate_uvs_for_beveled_mesh, normal_sums, sum_view, uv_of,
    ExtrudedMeshGeometry, MeshValidation, NormalSum, Uv, add_back_cap_triangulation, indices_in_range, add_side_wall, determine_optimal_vertex_count, edge_count, fan,
    fan_count, optimal_count, vertex_counts, wall_corners,
};
use crate::resample::{resample_contour, resampled};

verus! {

/// The rings bridged for one bevel, front to back: the outer contour, the
/// intermediate rings, the inner contour, and the outer contour once more for
/// the back boundary.
pub open spec fn ring_list(b: BevelRings) -> Seq<(Seq<GridPoint>, bool)> {
    seq![b.outer_contour@] + contour_views(b.rings@) + seq![b.inner_contour@, b.outer_contour@]
}

/// Each ring of the list resampled to `t` vertices.
pub open spec fn ring_samples(list: Seq<(Seq<GridPoint>, bool)>, t: int) -> Seq<(Seq<GridPoint>, bool)> {
    list.map_values(|c: (Seq<GridPoint>, bool)| (resampled(c.0, c.1, t), c.1))
}

/// Depth of ring `r` of `count`: the last at `depth`, the others spread
/// evenly by index from the front (`0`) to `depth` at the last but one.
pub open spec fn layer_depth(r: int, count: int, depth: int) -> int {
    if r + 1 == count {
        depth
    } else {
        round_div(depth * r, count - 2)
    }
}

pub open spec fn lifted(s: Seq<GridPoint>, z: int) -> Seq<GridPoint3> {
    s.map_values(|p: GridPoint| GridPoint3 { x: p.x, y: p.y, z: z as i32 })
}

/// The vertices of the first `m` rings, each at its depth.
pub open spec fn layers(s: Seq<(Seq<GridPoint>, bool)>, depth: int, m: int) -> Seq<GridPoint3>
    decreases m,
{
    if m <= 0 {
        Seq::empty()
    } else {
        layers(s, depth, m - 1) + lifted(s[m - 1].0, layer_depth(m - 1, s.len() as int, depth))
    }
}

/// How many vertices the first `r` rings hold.
pub open spec fn count_before(s: Seq<(Seq<GridPoint>, bool)>, r: int) -> int
    decreases r,
{
    if r <= 0 {
        0
    } else {
        count_before(s, r - 1) + s[r - 1].0.len()
    }
}

/// The side walls between the first `m + 1` rings, whose vertices start at
/// `base`: consecutive rings of equal vertex count are bridged, one quad per
/// edge of the front one.
pub open spec fn bridges(s: Seq<(Seq<GridPoint>, bool)>, base: int, m: int) -> Seq<u32>
    decreases m,
{
    if m <= 0 {
        Seq::empty()
    } else {
        let a = s[m - 1];
        let b = s[m];
        bridges(s, base, m - 1) + if a.0.len() == b.0.len() {
            wall_corners(
                base + count_before(s, m - 1),
                base + count_before(s, m),
                a.0.len() as int,
                edge_count(a.0.len() as int, a.1),
            )
        } else {
            Seq::empty()
        }
    }
}

/// The triangles of a bevel whose ring vertices start at `base`: the bridges
/// between consecutive rings, then the back cap over the last ring.
pub open spec fn bevel_triangles(s: Seq<(Seq<GridPoint>, bool)>, base: int) -> Seq<u32> {
    let last = s.len() - 1;
    bridges(s, base, last) + fan(base + count_before(s, last), fan_count(s[last].0.len() as int))
}

/// The rings of a bevel as they are bridged: each resampled to the common
/// vertex count.
pub open spec fn samples_of(b: BevelRings) -> Seq<(Seq<GridPoint>, bool)> {
    let list = ring_list(b);
    ring_samples(list, optimal_count(list.map_values(|c: (Seq<GridPoint>, bool)| c.0.len() as int)))
}

/// The mesh after adding one bevel to vertices `v` and indices `i`; `None`
/// when its vertices would not all be reachable by 32-bit indices.
pub open spec fn bevel_step(v: Seq<GridPoint3>, i: Seq<u32>, b: BevelRings, depth: int) -> Option<
    (Seq<GridPoint3>, Seq<u32>),
> {
    let s = samples_of(b);
    if v.len() + count_before(s, s.len() as int) <= u32::MAX {
        Some((v + layers(s, depth, s.len() as int), i + bevel_triangles(s, v.len() as int)))
    } else {
        None
    }
}

/// The mesh after adding the first `m` bevels in turn.
pub open spec fn bevel_fold(
    v: Seq<GridPoint3>,
    i: Seq<u32>,
    rings: Seq<BevelRings>,
    depth: int,
    m: int,
) -> Option<(Seq<GridPoint3>, Seq<u32>)>
    decreases m,
{
    if m <= 0 {
        Some((v, i))
    } else {
        match bevel_fold(v, i, rings, depth, m - 1) {
            Some(p) => bevel_step(p.0, p.1, rings[m - 1], depth),
            None => None,
        }
    }
}

pub open spec fn small_rings(b: BevelRings) -> bool {
    forall|i: int| 0 <= i < ring_list(b).len() ==> (#[trigger] ring_list(b)[i]).0.len() <= 0xffff_ffff
}

proof fn lemma_layer_depth_range(r: int, count: int, d: int)
    requires
        0 <= r < count,
        count >= 3,
        i32::MIN <= d <= i32::MAX,
    ensures
        i32::MIN <= layer_depth(r, count, d) <= i32::MAX,
{
    if r + 1 != count {
        if d >= 0 {
            assert((count - 2) * 0 <= d * r <= (count - 2) * d) by (nonlinear_arith)
                requires
                    0 <= r <= count - 2,
                    d >= 0,
            ;
            crate::geometry::lemma_round_div_bounds(d * r, count - 2, 0, d);
        } else {
            assert((count - 2) * d <= d * r <= (count - 2) * 0) by (nonlinear_arith)
                requires
                    0 <= r <= count - 2,
                    d < 0,
            ;
            crate::geometry::lemma_round_div_bounds(d * r, count - 2, d, 0);
        }
    }
}

proof fn lemma_layers_len(s: Seq<(Seq<GridPoint>, bool)>, depth: int, m: int)
    requires
        0 <= m,
    ensures
        layers(s, depth, m).len() == count_before(s, m),
    decreases m,
{
    if m > 0 {
        lemma_layers_len(s, depth, m - 1);
    }
}

pub proof fn lemma_count_before_monotone(s: Seq<(Seq<GridPoint>, bool)>, i: int, j: int)
    requires
        0 <= i <= j,
    ensures
        count_before(s, i) <= count_before(s, j),
    decreases j - i,
{
    if i < j {
        lemma_count_before_monotone(s, i, j - 1);
    }
}

/// Appends the geometry of one bevel: every ring resampled to a common vertex
/// count and placed at its depth, the side walls between consecutive rings,
/// and the back cap. Fails with `InvalidInput`, changing nothing, when the new
/// vertices would not all be reachable by 32-bit indices.
pub fn build_improved_bevel_ring_geometry(
    vertices: &mut Vec<GridPoint3>,
    indices: &mut Vec<u32>,
    bevel_ring: &BevelRings,
    depth: i32,
) -> (r: Result<(), MeshTextError>)
    requires
        small_rings(*bevel_ring),
    ensures
        match bevel_step(old(vertices)@, old(indices)@, *bevel_ring, depth as int) {
            Some(p) => r is Ok && final(vertices)@ == p.0 && final(indices)@ == p.1,
            None => r == Err::<(), MeshTextError>(MeshTextError::InvalidInput)
                && final(vertices)@ == old(vertices)@ && final(indices)@ == old(indices)@,
        },
{
    let ghost list = ring_list(*bevel_ring);
    let mut rings: Vec<Contour> = Vec::new();
    rings.push(bevel_ring.outer_contour.duplicate());
    let mut i: usize = 0;
    while i < bevel_ring.rings.len()
        invariant
            i <= bevel_ring.rings@.len(),
            contour_views(rings@) == seq![bevel_ring.outer_contour@] + contour_views(bevel_ring.rings@).take(i as int),
        decreases bevel_ring.rings@.len() - i,
    {
        let c = bevel_ring.rings[i].duplicate();
        let ghost prior = rings@;
        rings.push(c);
        proof {
            lemma_views_push(prior, c);
            assert(contour_views(bevel_ring.rings@).take(i as int + 1) =~= contour_views(bevel_ring.rings@).take(i as int).push(c@));
        }
        i += 1;
    }
    let c = bevel_ring.inner_contour.duplicate();
    let ghost prior = rings@;
    rings.push(c);
    proof { lemma_views_push(prior, c); }
    let c = bevel_ring.outer_contour.duplicate();
    let ghost prior = rings@;
    rings.push(c);
    proof {
        lemma_views_push(prior, c);
        assert(contour_views(bevel_ring.rings@).take(bevel_ring.rings@.len() as int) =~= contour_views(bevel_ring.rings@));
        assert(contour_views(rings@) =~= list);
    }
    let count = rings.len();
    let t = determine_optimal_vertex_count(&rings);
    proof {
        assert(vertex_counts(rings@) =~= list.map_values(|c: (Seq<GridPoint>, bool)| c.0.len() as int));
    }
    let ghost s = ring_samples(list, t as int);
    // resample every ring
    let mut samples: Vec<Contour> = Vec::new();
    let mut total: u64 = 0;
    let mut i: usize = 0;
    while i < count
        invariant
            count == rings@.len(),
            contour_views(rings@) == list,
            list == ring_list(*bevel_ring),
            small_rings(*bevel_ring),
            4 <= t <= 256,
            s == ring_samples(list, t as int),
            s.len() == count,
            t == optimal_count(list.map_values(|c: (Seq<GridPoint>, bool)| c.0.len() as int)),
            i <= count,
            samples@.len() == i,
            forall|j: int| 0 <= j < i ==> (#[trigger] samples@[j])@ == s[j],
            total == count_before(s, i as int),
            total <= 0x1_0000_0000,
            vertices@ == old(vertices)@,
            indices@ == old(indices)@,
        decreases count - i,
    {
        assert(contour_views(rings@)[i as int] == rings@[i as int]@);
        assert(list[i as int].0.len() <= 0xffff_ffff);
        let c = resample_contour(&rings[i], t);
        proof {
            assert(s[i as int] == (resampled(list[i as int].0, list[i as int].1, t as int), list[i as int].1));
            assert(c.vertices@.len() <= 256);
        }
        total = total + c.vertices.len() as u64;
        samples.push(c);
        i += 1;
        if total > 0x1_0000_0000 {
            proof {
                lemma_count_before_monotone(s, i as int, count as int);
            }
            return Err(MeshTextError::InvalidInput);
        }
    }
    let base = vertices.len();
    proof {
        assert(s.len() == count);
    }
    if base as u64 > 0xffff_ffff || total > 0xffff_ffff - base as u64 {
        return Err(MeshTextError::InvalidInput);
    }
    let ghost v0 = vertices@;
    let ghost i0 = indices@;
    proof {
        assert(s.len() == count);
    }
    let mut offsets: Vec<u32> = Vec::new();
    let mut r: usize = 0;
    while r < count
        invariant
            count == s.len(),
            count >= 3,
            samples@.len() == count,
            forall|j: int| 0 <= j < count ==> (#[trigger] samples@[j])@ == s[j],
            total == count_before(s, count as int),
            base == v0.len(),
            base + total <= 0xffff_ffff,
            r <= count,
            vertices@ == v0 + layers(s, depth as int, r as int),
            offsets@.len() == r,
            forall|j: int| 0 <= j < r ==> #[trigger] offsets@[j] == base + count_before(s, j),
        decreases count - r,
    {
        proof {
            lemma_layer_depth_range(r as int, count as int, depth as int);
            lemma_layers_len(s, depth as int, r as int);
            lemma_count_before_monotone(s, r as int, count as int);
            lemma_count_before_monotone(s, r as int + 1, count as int);
        }
        assert(-0x8000_0000 * 0x1_0000_0000_0000_0000 <= depth * r <= 0x8000_0000 * 0x1_0000_0000_0000_0000) by (nonlinear_arith)
            requires
                -0x8000_0000 <= depth <= 0x7fff_ffff,
                0 <= r <= 0xffff_ffff_ffff_ffff,
        ;
        let z: i32 = if r + 1 == count {
            depth
        } else {
            round_div_wide(depth as i128 * r as i128, (count - 2) as i128) as i32
        };
        offsets.push(vertices.len() as u32);
        let ring = &samples[r];
        let ghost lifted_all = lifted(s[r as int].0, z as int);
        let ghost before = vertices@;
        let mut q: usize = 0;
        while q < ring.vertices.len()
            invariant
                ring@ == s[r as int],
                q <= ring.vertices@.len(),
                lifted_all == lifted(s[r as int].0, z as int),
                vertices@ == before + lifted_all.take(q as int),
            decreases ring.vertices@.len() - q,
        {
            let p = ring.vertices[q];
            vertices.push(GridPoint3 { x: p.x, y: p.y, z });
            assert(lifted_all.take(q as int + 1) =~= lifted_all.take(q as int).push(lifted_all[q as int]));
            q += 1;
        }
        assert(lifted_all.take(ring.vertices@.len() as int) =~= lifted_all);
        assert(vertices@ =~= v0 + layers(s, depth as int, r as int + 1));
        r += 1;
    }
    let mut r: usize = 0;
    while r + 1 < count
        invariant
            count == s.len(),
            count >= 3,
            samples@.len() == count,
            forall|j: int| 0 <= j < count ==> (#[trigger] samples@[j])@ == s[j],
            total == count_before(s, count as int),
            base + total <= 0xffff_ffff,
            offsets@.len() == count,
            forall|j: int| 0 <= j < count ==> #[trigger] offsets@[j] == base + count_before(s, j),
            r + 1 <= count,
            indices@ == i0 + bridges(s, base as int, r as int),
        decreases count - r,
    {
        proof {
            lemma_count_before_monotone(s, r as int + 1, count as int);
            lemma_count_before_monotone(s, r as int + 2, count as int);
        }
        let a = &samples[r];
        let b = &samples[r + 1];
        let ghost before = indices@;
        if a.vertices.len() == b.vertices.len() {
            add_side_wall(indices, offsets[r], offsets[r + 1], a.vertices.len(), a.is_closed);
        }
        assert(indices@ =~= i0 + bridges(s, base as int, r as int + 1));
        r += 1;
    }
    proof {
        lemma_count_before_monotone(s, count - 1, count as int);
    }
    let last = &samples[count - 1];
    add_back_cap_triangulation(indices, offsets[count - 1], last.vertices.len());
    assert(indices@ =~= i0 + bevel_triangles(s, base as int));
    Ok(())
}

/// Whether every ring of every bevel can be resampled.
pub open spec fn all_small(rings: Seq<BevelRings>) -> bool {
    forall|k: int| 0 <= k < rings.len() ==> small_rings(#[trigger] rings[k])
}

/// The largest index list whose normal sums are computed.
pub open spec fn index_limit() -> int {
    0x100_0000_0000_0000
}

/// The finished mesh over vertices and indices: normal sums and texture
/// coordinates follow from them.
pub open spec fn finished(v: Seq<GridPoint3>, i: Seq<u32>, depth: int) -> (
    Seq<GridPoint3>,
    Seq<u32>,
    Seq<(int, int, int)>,
    Seq<Uv>,
) {
    (
        v,
        i,
        normal_sums(v, i, (i.len() / 3) as int),
        v.map_values(|p: GridPoint3| uv_of(p, depth)),
    )
}

pub open spec fn geometry_view(g: ExtrudedMeshGeometry) -> (
    Seq<GridPoint3>,
    Seq<u32>,
    Seq<(int, int, int)>,
    Seq<Uv>,
) {
    (g.vertices@, g.indices@, g.normals@.map_values(|n: NormalSum| sum_view(n)), g.uvs@)
}

/// The beveled mesh of a glyph from its front cap and its bevels: the front
/// cap first, then each bevel's rings, walls and back cap in turn.
pub open spec fn beveled_mesh(
    front_v: Seq<GridPoint3>,
    front_i: Seq<u16>,
    rings: Seq<BevelRings>,
    depth: int,
) -> Option<(Seq<GridPoint3>, Seq<u32>)> {
    bevel_fold(front_v, front_i.map_values(|x: u16| x as u32), rings, depth, rings.len() as int)
}

/// Completes a mesh from its vertices and indices: normal sums and texture
/// coordinates follow from them.
pub fn finish_mesh(vertices: Vec<GridPoint3>, indices: Vec<u32>, depth: i32) -> (r: ExtrudedMeshGeometry)
    requires
        indices@.len() <= index_limit(),
    ensures
        geometry_view(r) == finished(vertices@, indices@, depth as int),
{
    let normals = generate_smooth_normals(&vertices, &indices);
    let uvs = generate_uvs_for_beveled_mesh(&vertices, depth);
    ExtrudedMeshGeometry { vertices, indices, normals, uvs }
}

/// Builds a beveled glyph mesh from a tessellated front cap and the bevels of
/// the glyph's contours. Fails with `InvalidInput` when the mesh outgrows
/// 32-bit indices or the index list outgrows the normal sums.
pub fn build_beveled_mesh(
    front_cap_vertices: &Vec<GridPoint3>,
    front_cap_indices: &Vec<u16>,
    bevel_rings: &Vec<BevelRings>,
    depth: i32,
) -> (r: Result<ExtrudedMeshGeometry, MeshTextError>)
    requires
        all_small(bevel_rings@),
    ensures
        match beveled_mesh(front_cap_vertices@, front_cap_indices@, bevel_rings@, depth as int) {
            Some(p) => if p.1.len() <= index_limit() {
                r matches Ok(g) && geometry_view(g) == finished(p.0, p.1, depth as int)
            } else {
                r == Err::<ExtrudedMeshGeometry, MeshTextError>(MeshTextError::InvalidInput)
            },
            None => r == Err::<ExtrudedMeshGeometry, MeshTextError>(MeshTextError::InvalidInput),
        },
{
    let mut vertices: Vec<GridPoint3> = Vec::new();
    let mut i: usize = 0;
    while i < front_cap_vertices.len()
        invariant
            i <= front_cap_vertices@.len(),
            vertices@ == front_cap_vertices@.take(i as int),
        decreases front_cap_vertices@.len() - i,
    {
        vertices.push(front_cap_vertices[i]);
        assert(front_cap_vertices@.take(i as int + 1) =~= front_cap_vertices@.take(i as int).push(front_cap_vertices@[i as int]));
        i += 1;
    }
    assert(front_cap_vertices@.take(front_cap_vertices@.len() as int) =~= front_cap_vertices@);
    let mut indices: Vec<u32> = Vec::new();
    let mut i: usize = 0;
    while i < front_cap_indices.len()
        invariant
            i <= front_cap_indices@.len(),
            indices@ == front_cap_indices@.take(i as int).map_values(|x: u16| x as u32),
        decreases front_cap_indices@.len() - i,
    {
        indices.push(front_cap_indices[i] as u32);
        assert(front_cap_indices@.take(i as int + 1).map_values(|x: u16| x as u32) =~= front_cap_indices@.take(i as int).map_values(|x: u16| x as u32).push(front_cap_indices@[i as int] as u32));
        i += 1;
    }
    assert(front_cap_indices@.take(front_cap_indices@.len() as int) =~= front_cap_indices@);
    let ghost fv = vertices@;
    let ghost fi = indices@;
    let mut k: usize = 0;
    while k < bevel_rings.len()
        invariant
            k <= bevel_rings@.len(),
            all_small(bevel_rings@),
            fv == front_cap_vertices@,
            fi == front_cap_indices@.map_values(|x: u16| x as u32),
            bevel_fold(fv, fi, bevel_rings@, depth as int, k as int) == Some((vertices@, indices@)),
        decreases bevel_rings@.len() - k,
    {
        assert(small_rings(bevel_rings@[k as int]));
        match build_improved_bevel_ring_geometry(&mut vertices, &mut indices, &bevel_rings[k], depth) {
            Ok(()) => {},
            Err(e) => {
                proof {
                    lemma_fold_stays_none(fv, fi, bevel_rings@, depth as int, k as int + 1, bevel_rings@.len() as int);
                }
                return Err(e);
            },
        }
        k += 1;
    }
    if indices.len() as u64 > 0x100_0000_0000_0000u64 {
        return Err(MeshTextError::InvalidInput);
    }
    Ok(finish_mesh(vertices, indices, depth))
}

pub proof fn lemma_fold_stays_none(
    v: Seq<GridPoint3>,
    i: Seq<u32>,
    rings: Seq<BevelRings>,
    depth: int,
    m: int,
    n: int,
)
    requires
        0 < m <= n,
        bevel_fold(v, i, rings, depth, m).is_none(),
    ensures
        bevel_fold(v, i, rings, depth, n).is_none(),
    decreases n - m,
{
    if m < n {
        lemma_fold_stays_none(v, i, rings, depth, m + 1, n);
    }
}

/// Rebuilding law: two builds of a beveled mesh from the same front cap,
/// bevels and depth give identical geometry, since the result is determined by
/// the arguments alone.
pub proof fn lemma_rebuild_identical(
    front_v: Seq<GridPoint3>,
    front_i: Seq<u16>,
    rings: Seq<BevelRings>,
    depth: int,
    g1: ExtrudedMeshGeometry,
    g2: ExtrudedMeshGeometry,
)
    requires
        beveled_mesh(front_v, front_i, rings, depth) matches Some(p) && geometry_view(g1) == finished(
            p.0,
            p.1,
            depth,
        ) && geometry_view(g2) == finished(p.0, p.1, depth),
    ensures
        g1.vertices@ == g2.vertices@,
        g1.indices@ == g2.indices@,
        g1.uvs@ == g2.uvs@,
        g1.normals@ == g2.normals@,
{
    let a = g1.normals@.map_values(|n: NormalSum| sum_view(n));
    let b = g2.normals@.map_values(|n: NormalSum| sum_view(n));
    assert(a.len() == b.len());
    assert forall|k: int| 0 <= k < g1.normals@.len() implies g1.normals@[k] == g2.normals@[k] by {
        assert(a[k] == b[k]);
    }
    assert(g1.normals@ =~= g2.normals@);
}

proof fn lemma_wall_in_range(cur: int, next: int, t: int, m: int, hi: int)
    requires
        0 <= m <= t,
        0 <= cur,
        0 <= next,
        cur + t <= hi,
        next + t <= hi,
        hi <= u32::MAX + 1,
    ensures
        indices_in_range(hi, wall_corners(cur, next, t, m)),
        wall_corners(cur, next, t, m).len() == 6 * m,
    decreases m,
{
    if m > 0 {
        lemma_wall_in_range(cur, next, t, m - 1, hi);
        let a = wall_corners(cur, next, t, m - 1);
        let w = wall_corners(cur, next, t, m);
        assert forall|k: int| 0 <= k < w.len() implies (#[trigger] w[k] as int) < hi by {
            if k < a.len() {
                assert(w[k] == a[k]);
            }
        }
    }
}

proof fn lemma_fan_in_range(o: int, t: int, m: int, hi: int)
    requires
        0 <= m <= fan_count(t),
        0 <= o,
        o + t <= hi,
        hi <= u32::MAX + 1,
    ensures
        indices_in_range(hi, fan(o, m)),
        fan(o, m).len() == 3 * m,
    decreases m,
{
    if m > 0 {
        lemma_fan_in_range(o, t, m - 1, hi);
        let a = fan(o, m - 1);
        let w = fan(o, m);
        assert forall|k: int| 0 <= k < w.len() implies (#[trigger] w[k] as int) < hi by {
            if k < a.len() {
                assert(w[k] == a[k]);
            }
        }
    }
}

proof fn lemma_bridges_in_range(s: Seq<(Seq<GridPoint>, bool)>, base: int, m: int)
    requires
        0 <= m < s.len(),
        0 <= base,
        base + count_before(s, s.len() as int) <= u32::MAX + 1,
    ensures
        indices_in_range(base + count_before(s, s.len() as int), bridges(s, base, m)),
        bridges(s, base, m).len() % 3 == 0,
    decreases m,
{
    let hi = base + count_before(s, s.len() as int);
    if m > 0 {
        lemma_bridges_in_range(s, base, m - 1);
        let a = s[m - 1];
        let prev = bridges(s, base, m - 1);
        let w = if a.0.len() == s[m].0.len() {
            let t = a.0.len() as int;
            lemma_count_before_monotone(s, 0, m - 1);
            lemma_count_before_monotone(s, m, s.len() as int);
            lemma_count_before_monotone(s, m + 1, s.len() as int);
            assert(count_before(s, m) == count_before(s, m - 1) + t);
            assert(count_before(s, m + 1) == count_before(s, m) + t);
            lemma_wall_in_range(base + count_before(s, m - 1), base + count_before(s, m), t, edge_count(t, a.1), hi);
            wall_corners(base + count_before(s, m - 1), base + count_before(s, m), t, edge_count(t, a.1))
        } else {
            Seq::empty()
        };
        assert(bridges(s, base, m) == prev + w);
        assert forall|k: int| 0 <= k < prev.len() + w.len() implies (#[trigger] (prev + w)[k] as int) < hi by {
            if k < prev.len() {
                assert((prev + w)[k] == prev[k]);
            } else {
                assert((prev + w)[k] == w[k - prev.len()]);
            }
        }
    }
}

/// Indices of one bevel land within the mesh once its rings are added.
proof fn lemma_step_well_formed(v: Seq<GridPoint3>, i: Seq<u32>, b: BevelRings, depth: int)
    requires
        indices_in_range(v.len() as int, i),
        i.len() % 3 == 0,
        bevel_step(v, i, b, depth) is Some,
    ensures
        indices_in_range(bevel_step(v, i, b, depth)->Some_0.0.len() as int, bevel_step(v, i, b, depth)->Some_0.1),
        bevel_step(v, i, b, depth)->Some_0.1.len() % 3 == 0,
{
    let s = samples_of(b);
    let base = v.len() as int;
    let n = s.len() as int;
    let hi = base + count_before(s, n);
    assert(n >= 3);
    lemma_layers_len(s, depth, n);
    lemma_bridges_in_range(s, base, n - 1);
    lemma_count_before_monotone(s, n - 1, n);
    lemma_count_before_monotone(s, 0, n - 1);
    assert(count_before(s, n) == count_before(s, n - 1) + s[n - 1].0.len());
    lemma_fan_in_range(base + count_before(s, n - 1), s[n - 1].0.len() as int, fan_count(s[n - 1].0.len() as int), hi);
    let br = bridges(s, base, n - 1);
    let f = fan(base + count_before(s, n - 1), fan_count(s[n - 1].0.len() as int));
    let t = br + f;
    assert(bevel_triangles(s, base) == t);
    let all = i + t;
    assert forall|k: int| 0 <= k < all.len() implies (#[trigger] all[k] as int) < hi by {
        if k < i.len() {
            assert(all[k] == i[k]);
        } else if k < i.len() + br.len() {
            assert(all[k] == br[k - i.len()]);
        } else {
            assert(all[k] == f[k - i.len() - br.len()]);
        }
    }
}

proof fn lemma_fold_well_formed(v: Seq<GridPoint3>, i: Seq<u32>, rings: Seq<BevelRings>, depth: int, m: int)
    requires
        0 <= m,
        indices_in_range(v.len() as int, i),
        i.len() % 3 == 0,
    ensures
        bevel_fold(v, i, rings, depth, m) matches Some(p) ==> indices_in_range(p.0.len() as int, p.1) && p.1.len()
            % 3 == 0,
    decreases m,
{
    if m > 0 {
        lemma_fold_well_formed(v, i, rings, depth, m - 1);
        match bevel_fold(v, i, rings, depth, m - 1) {
            Some(p) => {
                if bevel_step(p.0, p.1, rings[m - 1], depth) is Some {
                    lemma_step_well_formed(p.0, p.1, rings[m - 1], depth);
                }
            },
            None => {},
        }
    }
}

/// Well-formedness law: when the front cap is made of whole triangles over its
/// own vertices, the beveled mesh built from it is too (whole triangles, every
/// index naming a vertex, one normal and one texture coordinate per vertex),
/// so validation never refuses it for its structure.
pub proof fn lemma_beveled_mesh_well_formed(
    front_v: Seq<GridPoint3>,
    front_i: Seq<u16>,
    rings: Seq<BevelRings>,
    depth: int,
    g: ExtrudedMeshGeometry,
)
    requires
        front_i.len() % 3 == 0,
        forall|k: int| 0 <= k < front_i.len() ==> (#[trigger] front_i[k] as int) < front_v.len(),
        beveled_mesh(front_v, front_i, rings, depth) matches Some(p) && geometry_view(g) == finished(
            p.0,
            p.1,
            depth,
        ),
    ensures
        g.indices@.len() % 3 == 0,
        indices_in_range(g.vertices@.len() as int, g.indices@),
        g.normals@.len() == g.vertices@.len(),
        g.uvs@.len() == g.vertices@.len(),
        g.verdict() != Err::<MeshValidation, MeshTextError>(MeshTextError::InvalidMesh(MeshFault::IndexCountNotTriangles)),
        g.verdict() != Err::<MeshValidation, MeshTextError>(MeshTextError::InvalidMesh(MeshFault::AttributeLengthMismatch)),
        g.verdict() != Err::<MeshValidation, MeshTextError>(MeshTextError::InvalidMesh(MeshFault::IndexOutOfRange)),
{
    let fi = front_i.map_values(|x: u16| x as u32);
    assert forall|k: int| 0 <= k < fi.len() implies (#[trigger] fi[k] as int) < front_v.len() by {
        assert(fi[k] == front_i[k] as u32);
    }
    lemma_fold_well_formed(front_v, fi, rings, depth, rings.len() as int);
    let p = beveled_mesh(front_v, front_i, rings, depth)->Some_0;
    lemma_normal_sums_len(p.0, p.1, (p.1.len() / 3) as int);
    assert(g.normals@.map_values(|n: NormalSum| sum_view(n)).len() == g.normals@.len());
}

proof fn lemma_normal_sums_len(v: Seq<GridPoint3>, idx: Seq<u32>, m: int)
    ensures
        normal_sums(v, idx, m).len() == v.len(),
    decreases m,
{
    if m > 0 {
        lemma_normal_sums_len(v, idx, m - 1);
    }
}

} // verus!
