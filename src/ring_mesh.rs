use vstd::prelude::*;

use crate::bevel::{contour_views, lemma_views_push, BevelRings};
use crate::contour::Contour;
use crate::error::MeshTextError;
use crate::extrude::{bridges, count_before, lemma_count_before_monotone, lifted};
use crate::geometry::{round_div, round_div_wide, GridPoint, GridPoint3};
use crate::mesh::{add_side_wall, append_cap_indices, cap_corners, edge_count, wall_corners};

verus! {

/// The rings of a bevel front to back: outer contour, intermediate rings,
/// inner contour.
pub open spec fn plain_list(b: BevelRings) -> Seq<(Seq<GridPoint>, bool)> {
    seq![b.outer_contour@] + contour_views(b.rings@) + seq![b.inner_contour@]
}

/// Depth of ring `r` of `count`, spread evenly by index from the front (`0`)
/// to `depth` at the last.
pub open spec fn even_depth(r: int, count: int, depth: int) -> int {
    round_div(depth * r, count - 1)
}

/// The vertices of the first `m` rings, each at its depth.
pub open spec fn even_layers(s: Seq<(Seq<GridPoint>, bool)>, depth: int, m: int) -> Seq<GridPoint3>
    decreases m,
{
    if m <= 0 {
        Seq::empty()
    } else {
        even_layers(s, depth, m - 1) + lifted(s[m - 1].0, even_depth(m - 1, s.len() as int, depth))
    }
}

proof fn lemma_even_layers_len(s: Seq<(Seq<GridPoint>, bool)>, depth: int, m: int)
    requires
        0 <= m,
    ensures
        even_layers(s, depth, m).len() == count_before(s, m),
    decreases m,
{
    if m > 0 {
        lemma_even_layers_len(s, depth, m - 1);
    }
}

proof fn lemma_even_depth_range(r: int, count: int, d: int)
    requires
        0 <= r < count,
        count >= 2,
        i32::MIN <= d <= i32::MAX,
    ensures
        i32::MIN <= even_depth(r, count, d) <= i32::MAX,
{
    if d >= 0 {
        assert((count - 1) * 0 <= d * r <= (count - 1) * d) by (nonlinear_arith)
            requires
                0 <= r <= count - 1,
                d >= 0,
        ;
        crate::geometry::lemma_round_div_bounds(d * r, count - 1, 0, d);
    } else {
        assert((count - 1) * d <= d * r <= (count - 1) * 0) by (nonlinear_arith)
            requires
                0 <= r <= count - 1,
                d < 0,
        ;
        crate::geometry::lemma_round_div_bounds(d * r, count - 1, d, 0);
    }
}

/// The indices `from, from + 1, ..., from + n - 1`.
pub open spec fn index_range(from: int, n: int) -> Seq<u32> {
    Seq::new(n as nat, |k: int| (from + k) as u32)
}

fn index_run(from: u32, n: usize) -> (r: Vec<u32>)
    requires
        from + n <= u32::MAX + 1,
    ensures
        r@ == index_range(from as int, n as int),
{
    let mut out: Vec<u32> = Vec::new();
    let mut k: usize = 0;
    while k < n
        invariant
            k <= n,
            from + n <= u32::MAX + 1,
            out@ == index_range(from as int, k as int),
        decreases n - k,
    {
        out.push(from + k as u32);
        assert(out@ =~= index_range(from as int, k + 1));
        k += 1;
    }
    out
}

/// Appends the rings of one bevel as they are, each at its depth, and the side
/// walls between consecutive rings of equal vertex count. Returns the indices
/// of the front ring's and the back ring's vertices. Fails with
/// `InvalidInput`, changing nothing, when the new vertices would not all be
/// reachable by 32-bit indices.
pub fn build_bevel_ring_geometry_with_boundaries(
    vertices: &mut Vec<GridPoint3>,
    indices: &mut Vec<u32>,
    bevel_ring: &BevelRings,
    depth: i32,
) -> (r: Result<(Vec<u32>, Vec<u32>), MeshTextError>)
    ensures
        plain_list(*bevel_ring).len() >= 2,
        old(vertices)@.len() + count_before(plain_list(*bevel_ring), plain_list(*bevel_ring).len() as int)
            <= u32::MAX ==> {
            let s = plain_list(*bevel_ring);
            let base = old(vertices)@.len() as int;
            let last = s.len() - 1;
            &&& r is Ok
            &&& final(vertices)@ == old(vertices)@ + even_layers(s, depth as int, s.len() as int)
            &&& final(indices)@ == old(indices)@ + bridges(s, base, last)
            &&& r->Ok_0.0@ == index_range(base, s[0].0.len() as int)
            &&& r->Ok_0.1@ == index_range(base + count_before(s, last), s[last].0.len() as int)
        },
        old(vertices)@.len() + count_before(plain_list(*bevel_ring), plain_list(*bevel_ring).len() as int)
            > u32::MAX ==> {
            &&& r == Err::<(Vec<u32>, Vec<u32>), MeshTextError>(MeshTextError::InvalidInput)
            &&& final(vertices)@ == old(vertices)@
            &&& final(indices)@ == old(indices)@
        },
{
    let ghost s = plain_list(*bevel_ring);
    let mut rings: Vec<Contour> = Vec::new();
    rings.push(bevel_ring.outer_contour.duplicate());
    let mut i: usize = 0;
    while i < bevel_ring.rings.len()
        invariant
            i <= bevel_ring.rings@.len(),
            contour_views(rings@) == seq![bevel_ring.outer_contour@] + contour_views(bevel_ring.rings@).take(i as int),
        decreases bevel_ring.rings@.len() - i,
    {
        let c = bevel_ring.rings[i].duplicate();
        let ghost prior = rings@;
        rings.push(c);
        proof {
            lemma_views_push(prior, c);
            assert(contour_views(bevel_ring.rings@).take(i as int + 1) =~= contour_views(bevel_ring.rings@).take(i as int).push(c@));
        }
        i += 1;
    }
    let c = bevel_ring.inner_contour.duplicate();
    let ghost prior = rings@;
    rings.push(c);
    proof {
        lemma_views_push(prior, c);
        assert(contour_views(bevel_ring.rings@).take(bevel_ring.rings@.len() as int) =~= contour_views(bevel_ring.rings@));
        assert(contour_views(rings@) =~= s);
    }
    let count = rings.len();
    let mut total: u64 = 0;
    let mut i: usize = 0;
    while i < count
        invariant
            count == rings@.len(),
            contour_views(rings@) == s,
            s == plain_list(*bevel_ring),
            s.len() == count,
            i <= count,
            total == count_before(s, i as int),
            total <= 0x1_0000_0000,
            vertices@ == old(vertices)@,
            indices@ == old(indices)@,
        decreases count - i,
    {
        assert(contour_views(rings@)[i as int] == rings@[i as int]@);
        let n = rings[i].vertices.len();
        assert(count_before(s, i as int + 1) == count_before(s, i as int) + n);
        proof {
            lemma_count_before_monotone(s, 0, i as int);
        }
        if n as u64 > 0x1_0000_0000u64 {
            proof {
                lemma_count_before_monotone(s, i as int + 1, count as int);
            }
            return Err(MeshTextError::InvalidInput);
        }
        total = total + n as u64;
        i += 1;
        if total > 0x1_0000_0000 {
            proof {
                lemma_count_before_monotone(s, i as int, count as int);
            }
            return Err(MeshTextError::InvalidInput);
        }
    }
    let base = vertices.len();
    if base as u64 > 0xffff_ffff || total > 0xffff_ffff - base as u64 {
        return Err(MeshTextError::InvalidInput);
    }
    let ghost v0 = vertices@;
    let ghost i0 = indices@;
    let mut offsets: Vec<u32> = Vec::new();
    let mut r: usize = 0;
    while r < count
        invariant
            count == s.len(),
            count >= 2,
            count == rings@.len(),
            contour_views(rings@) == s,
            s == plain_list(*bevel_ring),
            total == count_before(s, count as int),
            base == v0.len(),
            base + total <= 0xffff_ffff,
            r <= count,
            vertices@ == v0 + even_layers(s, depth as int, r as int),
            offsets@.len() == r,
            forall|j: int| 0 <= j < r ==> #[trigger] offsets@[j] == base + count_before(s, j),
        decreases count - r,
    {
        proof {
            lemma_even_depth_range(r as int, count as int, depth as int);
            lemma_even_layers_len(s, depth as int, r as int);
            lemma_count_before_monotone(s, r as int, count as int);
            lemma_count_before_monotone(s, r as int + 1, count as int);
        }
        assert(-0x8000_0000 * 0x1_0000_0000_0000_0000 <= depth * r <= 0x8000_0000 * 0x1_0000_0000_0000_0000) by (nonlinear_arith)
            requires
                -0x8000_0000 <= depth <= 0x7fff_ffff,
                0 <= r <= 0xffff_ffff_ffff_ffff,
        ;
        let z: i32 = round_div_wide(depth as i128 * r as i128, (count - 1) as i128) as i32;
        offsets.push(vertices.len() as u32);
        let ring = &rings[r];
        assert(contour_views(rings@)[r as int] == rings@[r as int]@);
        let ghost lifted_all = lifted(s[r as int].0, z as int);
        let ghost before = vertices@;
        let mut q: usize = 0;
        while q < ring.vertices.len()
            invariant
                ring@ == s[r as int],
                q <= ring.vertices@.len(),
                lifted_all == lifted(s[r as int].0, z as int),
                vertices@ == before + lifted_all.take(q as int),
            decreases ring.vertices@.len() - q,
        {
            let p = ring.vertices[q];
            vertices.push(GridPoint3 { x: p.x, y: p.y, z });
            assert(lifted_all.take(q as int + 1) =~= lifted_all.take(q as int).push(lifted_all[q as int]));
            q += 1;
        }
        assert(lifted_all.take(ring.vertices@.len() as int) =~= lifted_all);
        assert(vertices@ =~= v0 + even_layers(s, depth as int, r as int + 1));
        r += 1;
    }
    let mut r: usize = 0;
    while r + 1 < count
        invariant
            count == s.len(),
            count >= 2,
            count == rings@.len(),
            contour_views(rings@) == s,
            s == plain_list(*bevel_ring),
            total == count_before(s, count as int),
            base + total <= 0xffff_ffff,
            offsets@.len() == count,
            forall|j: int| 0 <= j < count ==> #[trigger] offsets@[j] == base + count_before(s, j),
            r + 1 <= count,
            indices@ == i0 + bridges(s, base as int, r as int),
        decreases count - r,
    {
        proof {
            lemma_count_before_monotone(s, r as int + 1, count as int);
            lemma_count_before_monotone(s, r as int + 2, count as int);
        }
        let a = &rings[r];
        let b = &rings[r + 1];
        assert(contour_views(rings@)[r as int] == rings@[r as int]@);
        assert(contour_views(rings@)[r + 1] == rings@[r + 1]@);
        if a.vertices.len() == b.vertices.len() {
            add_side_wall(indices, offsets[r], offsets[r + 1], a.vertices.len(), a.is_closed);
        }
        assert(indices@ =~= i0 + bridges(s, base as int, r as int + 1));
        r += 1;
    }
    proof {
        lemma_count_before_monotone(s, 1, count as int);
        lemma_count_before_monotone(s, count - 1, count as int);
    }
    assert(contour_views(rings@)[0] == rings@[0]@);
    assert(contour_views(rings@)[count - 1] == rings@[count - 1]@);
    let front = index_run(offsets[0], rings[0].vertices.len());
    let back = index_run(offsets[count - 1], rings[count - 1].vertices.len());
    Ok((front, back))
}

// ---------------------------------------------------------------------------
// Caps

/// Twice the signed area of the first `m` edges of a closed loop (shoelace
/// terms), the last edge closing back to the first vertex.
pub open spec fn shoelace(pts: Seq<GridPoint>, m: int) -> int
    decreases m,
{
    if m <= 0 {
        0
    } else {
        let a = pts[m - 1];
        let b = pts[if m == pts.len() { 0 } else { m }];
        shoelace(pts, m - 1) + (a.x * b.y - b.x * a.y)
    }
}

/// Twice the signed area of a loop: positive when it turns counter-clockwise.
pub open spec fn area2(pts: Seq<GridPoint>) -> int {
    if pts.len() < 3 {
        0
    } else {
        shoelace(pts, pts.len() as int)
    }
}

/// Twice the signed area of a polygon (positive when counter-clockwise).
pub fn calculate_signed_area(vertices: &Vec<GridPoint>) -> (r: i128)
    requires
        vertices@.len() <= 0x1000_0000_0000_0000,
    ensures
        r == area2(vertices@),
{
    let n = vertices.len();
    if n < 3 {
        return 0;
    }
    let mut acc: i128 = 0;
    let mut i: usize = 0;
    while i < n
        invariant
            n == vertices@.len(),
            n <= 0x1000_0000_0000_0000,
            i <= n,
            acc == shoelace(vertices@, i as int),
            -i * 0x8000_0000_0000_0000 <= acc <= i * 0x8000_0000_0000_0000,
        decreases n - i,
    {
        let a = vertices[i];
        let b = vertices[if i + 1 == n { 0 } else { i + 1 }];
        assert(-0x4000_0000_0000_0000 <= (a.x as int) * (b.y as int) <= 0x4000_0000_0000_0000) by (nonlinear_arith)
            requires
                -0x8000_0000 <= a.x <= 0x7fff_ffff,
                -0x8000_0000 <= b.y <= 0x7fff_ffff,
        ;
        assert(-0x4000_0000_0000_0000 <= (b.x as int) * (a.y as int) <= 0x4000_0000_0000_0000) by (nonlinear_arith)
            requires
                -0x8000_0000 <= b.x <= 0x7fff_ffff,
                -0x8000_0000 <= a.y <= 0x7fff_ffff,
        ;
        let p: i128 = a.x as i128 * b.y as i128;
        let q: i128 = b.x as i128 * a.y as i128;
        acc = acc + (p - q);
        i += 1;
    }
    acc
}

/// Whether a contour bounds the cap from outside: at least three vertices and
/// a counter-clockwise turn.
pub open spec fn is_outer(c: (Seq<GridPoint>, bool)) -> bool {
    c.0.len() >= 3 && area2(c.0) > 0
}

/// Whether a contour is a hole of the cap: at least three vertices and no
/// counter-clockwise turn.
pub open spec fn is_hole(c: (Seq<GridPoint>, bool)) -> bool {
    c.0.len() >= 3 && area2(c.0) <= 0
}

pub open spec fn outers(cs: Seq<(Seq<GridPoint>, bool)>) -> Seq<(Seq<GridPoint>, bool)> {
    cs.filter(|c: (Seq<GridPoint>, bool)| is_outer(c))
}

pub open spec fn reversed(c: (Seq<GridPoint>, bool)) -> (Seq<GridPoint>, bool) {
    (Seq::new(c.0.len(), |i: int| c.0[c.0.len() - 1 - i]), c.1)
}

pub open spec fn holes(cs: Seq<(Seq<GridPoint>, bool)>) -> Seq<(Seq<GridPoint>, bool)> {
    cs.filter(|c: (Seq<GridPoint>, bool)| is_hole(c)).map_values(|c: (Seq<GridPoint>, bool)| reversed(c))
}

/// The loops that fill a cap, in order: the outer boundaries as they are,
/// then the holes with their winding reversed. With no outer boundary every
/// contour is taken as one, and then a contour of fewer than three vertices
/// cannot be filled. No contour at all is no cap.
pub open spec fn cap_plan(cs: Seq<(Seq<GridPoint>, bool)>) -> Result<Seq<(Seq<GridPoint>, bool)>, MeshTextError> {
    if cs.len() == 0 {
        Err(MeshTextError::InvalidInput)
    } else if outers(cs).len() > 0 {
        Ok(outers(cs) + holes(cs))
    } else if exists|k: int| 0 <= k < cs.len() && (#[trigger] cs[k]).0.len() < 3 {
        Err(MeshTextError::InvalidContour)
    } else {
        Ok(cs)
    }
}

fn reverse_contour(c: &Contour) -> (r: Contour)
    ensures
        r@ == reversed(c@),
{
    let n = c.vertices.len();
    let mut out: Vec<GridPoint> = Vec::new();
    let mut k: usize = 0;
    while k < n
        invariant
            n == c.vertices@.len(),
            k <= n,
            out@ == Seq::new(k as nat, |i: int| c.vertices@[n - 1 - i]),
        decreases n - k,
    {
        out.push(c.vertices[n - 1 - k]);
        assert(out@ =~= Seq::new((k + 1) as nat, |i: int| c.vertices@[n - 1 - i]));
        k += 1;
    }
    Contour { vertices: out, is_closed: c.is_closed }
}

pub open spec fn all_fit(cs: Seq<Contour>) -> bool {
    forall|k: int| 0 <= k < cs.len() ==> (#[trigger] cs[k]).vertices@.len() <= 0x1000_0000_0000_0000
}

/// Sorts the contours of a cap into outer boundaries and holes by the sign of
/// their area, and lists the loops to fill.
pub fn plan_cap(contours: &Vec<Contour>) -> (r: Result<Vec<Contour>, MeshTextError>)
    requires
        all_fit(contours@),
    ensures
        match cap_plan(contour_views(contours@)) {
            Ok(p) => r matches Ok(v) && contour_views(v@) == p,
            Err(e) => r == Err::<Vec<Contour>, MeshTextError>(e),
        },
{
    let ghost cs = contour_views(contours@);
    if contours.len() == 0 {
        return Err(MeshTextError::InvalidInput);
    }
    let mut outer: Vec<Contour> = Vec::new();
    let mut hole: Vec<Contour> = Vec::new();
    let mut short = false;
    let mut i: usize = 0;
    while i < contours.len()
        invariant
            i <= contours@.len(),
            cs == contour_views(contours@),
            all_fit(contours@),
            contour_views(outer@) == outers(cs.take(i as int)),
            contour_views(hole@) == holes(cs.take(i as int)),
            short == exists|k: int| 0 <= k < i && (#[trigger] cs[k]).0.len() < 3,
        decreases contours@.len() - i,
    {
        let c = &contours[i];
        assert(cs[i as int] == c@);
        proof {
            assert(cs.take(i as int + 1).drop_last() =~= cs.take(i as int));
            reveal(Seq::filter);
        }
        if c.vertices.len() < 3 {
            short = true;
        } else {
            let a = calculate_signed_area(&c.vertices);
            if a > 0 {
                let d = c.duplicate();
                let ghost prior = outer@;
                outer.push(d);
                proof {
                    lemma_views_push(prior, d);
                }
            } else {
                let d = reverse_contour(c);
                let ghost prior = hole@;
                hole.push(d);
                proof {
                    lemma_views_push(prior, d);
                    let f = |c: (Seq<GridPoint>, bool)| is_hole(c);
                    let g = |c: (Seq<GridPoint>, bool)| reversed(c);
                    assert(cs.take(i as int).filter(f).push(cs[i as int]).map_values(g) =~= cs.take(
                        i as int,
                    ).filter(f).map_values(g).push(reversed(cs[i as int])));
                }
            }
        }
        proof {
            if short {
                assert(exists|k: int| 0 <= k < i + 1 && (#[trigger] cs[k]).0.len() < 3) by {
                    if c.vertices@.len() < 3 {
                        assert(cs[i as int].0.len() < 3);
                    }
                }
            } else {
                assert(!(exists|k: int| 0 <= k < i + 1 && (#[trigger] cs[k]).0.len() < 3)) by {
                    assert(cs[i as int].0.len() >= 3);
                }
            }
        }
        i += 1;
    }
    proof {
        assert(cs.take(contours@.len() as int) =~= cs);
    }
    if outer.len() > 0 {
        let mut k: usize = 0;
        let ghost first = contour_views(outer@);
        while k < hole.len()
            invariant
                k <= hole@.len(),
                contour_views(outer@) == first + contour_views(hole@).take(k as int),
            decreases hole@.len() - k,
        {
            let d = hole[k].duplicate();
            let ghost prior = outer@;
            outer.push(d);
            proof {
                lemma_views_push(prior, d);
                assert(contour_views(hole@).take(k as int + 1) =~= contour_views(hole@).take(k as int).push(d@));
            }
            k += 1;
        }
        assert(contour_views(hole@).take(hole@.len() as int) =~= contour_views(hole@));
        return Ok(outer);
    }
    if short {
        return Err(MeshTextError::InvalidContour);
    }
    let mut all: Vec<Contour> = Vec::new();
    let mut k: usize = 0;
    while k < contours.len()
        invariant
            k <= contours@.len(),
            cs == contour_views(contours@),
            contour_views(all@) == cs.take(k as int),
        decreases contours@.len() - k,
    {
        let d = contours[k].duplicate();
        let ghost prior = all@;
        all.push(d);
        proof {
            lemma_views_push(prior, d);
            assert(cs.take(k as int + 1) =~= cs.take(k as int).push(d@));
        }
        k += 1;
    }
    assert(cs.take(contours@.len() as int) =~= cs);
    Ok(all)
}

/// Appends a tessellated cap at depth `z`: its vertices after the mesh's, its
/// triangles with reversed winding when asked. Fails with `InvalidInput`,
/// changing nothing, when the cap's indices could pass the 32-bit range.
pub fn append_cap(
    vertices: &mut Vec<GridPoint3>,
    indices: &mut Vec<u32>,
    cap_vertices: &Vec<GridPoint>,
    cap_indices: &Vec<u16>,
    z: i32,
    reverse: bool,
) -> (r: Result<(), MeshTextError>)
    ensures
        old(vertices)@.len() + 0x1_0000 <= u32::MAX + 1 ==> {
            &&& r is Ok
            &&& final(vertices)@ == old(vertices)@ + lifted(cap_vertices@, z as int)
            &&& final(indices)@ == old(indices)@ + cap_corners(
                old(vertices)@.len() as int,
                cap_indices@,
                reverse,
            )
        },
        old(vertices)@.len() + 0x1_0000 > u32::MAX + 1 ==> {
            &&& r == Err::<(), MeshTextError>(MeshTextError::InvalidInput)
            &&& final(vertices)@ == old(vertices)@
            &&& final(indices)@ == old(indices)@
        },
{
    let base = vertices.len();
    if base as u64 > 0xffff_0000u64 {
        return Err(MeshTextError::InvalidInput);
    }
    append_cap_indices(indices, base as u32, cap_indices, reverse);
    let ghost before = vertices@;
    let ghost all = lifted(cap_vertices@, z as int);
    let mut q: usize = 0;
    while q < cap_vertices.len()
        invariant
            q <= cap_vertices@.len(),
            all == lifted(cap_vertices@, z as int),
            vertices@ == before + all.take(q as int),
        decreases cap_vertices@.len() - q,
    {
        let p = cap_vertices[q];
        vertices.push(GridPoint3 { x: p.x, y: p.y, z });
        assert(all.take(q as int + 1) =~= all.take(q as int).push(all[q as int]));
        q += 1;
    }
    assert(all.take(cap_vertices@.len() as int) =~= all);
    Ok(())
}

proof fn lemma_wall_len(cur: int, next: int, t: int, m: int)
    requires
        m >= 0,
    ensures
        wall_corners(cur, next, t, m).len() == 6 * m,
    decreases m,
{
    if m > 0 {
        lemma_wall_len(cur, next, t, m - 1);
    }
}

/// Side-wall count law: between rings that all hold `t` vertices and share
/// their closedness, the first `m` ring pairs are bridged by two triangles per
/// edge each, so the walls hold `2 * edges * m` triangles.
pub proof fn lemma_bridge_triangles(s: Seq<(Seq<GridPoint>, bool)>, base: int, m: int, t: int, closed: bool)
    requires
        0 <= m < s.len(),
        forall|r: int| 0 <= r < s.len() ==> (#[trigger] s[r]).0.len() == t && s[r].1 == closed,
    ensures
        bridges(s, base, m).len() == 3 * (2 * edge_count(t, closed) * m),
    decreases m,
{
    if m > 0 {
        lemma_bridge_triangles(s, base, m - 1, t, closed);
        assert(s[m - 1].0.len() == t && s[m].0.len() == t);
        if t == 0 {
            lemma_wall_len(base + count_before(s, m - 1), base + count_before(s, m), t, 0);
        } else if closed {
            lemma_wall_len(base + count_before(s, m - 1), base + count_before(s, m), t, t);
        } else {
            lemma_wall_len(base + count_before(s, m - 1), base + count_before(s, m), t, t - 1);
        }
        let e = edge_count(t, closed);
        assert(bridges(s, base, m).len() == bridges(s, base, m - 1).len() + 6 * e);
        assert(3 * (2 * e * m) == 3 * (2 * e * (m - 1)) + 6 * e) by (nonlinear_arith);
    } else {
        let e = edge_count(t, closed);
        assert(3 * (2 * e * m) == 0) by (nonlinear_arith)
            requires
                m == 0,
        ;
    }
}

} // verus!
