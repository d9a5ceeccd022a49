use vstd::prelude::*;

use crate::contour::PathEvent;
use crate::error::MeshTextError;
use crate::extrude::lifted;
use crate::geometry::{GridPoint, GridPoint3};
use crate::mesh::{append_cap_indices, cap_corners, uv_of, ExtrudedMeshGeometry, NormalSum, Uv};
use crate::resample::{isqrt, root};

verus! {

/// A mesh under construction by the straight extrusion: positions, indices,
/// per-vertex normals and texture coordinates.
pub struct FlatMesh {
    pub v: Seq<GridPoint3>,
    pub i: Seq<u32>,
    pub n: Seq<NormalSum>,
    pub uv: Seq<Uv>,
}

/// Where the side walk stands: the mesh so far, the first point of the open
/// outline loop, its pen position if it has one, and how far along the loop
/// the pen is (in grid steps).
pub struct FlatWalk {
    pub mesh: FlatMesh,
    pub first: GridPoint,
    pub pen: Option<GridPoint>,
    pub along: int,
}

pub open spec fn length_of(a: GridPoint, b: GridPoint) -> int {
    root((b.x - a.x) * (b.x - a.x) + (b.y - a.y) * (b.y - a.y))
}

/// The side quad over the outline edge `a` to `b`: four vertices of its own
/// (front `a`, front `b`, back `a`, back `b`), two triangles, the edge's
/// outward normal, and texture coordinates running along the edge (`u`) and
/// from the loop position at the front to one further at the back (`v`).
pub open spec fn quad_step(m: FlatMesh, a: GridPoint, b: GridPoint, depth: int, along: int) -> FlatMesh {
    let base = m.v.len() as int;
    let len = length_of(a, b);
    let nrm = NormalSum { x: (b.y - a.y) as i128, y: (a.x - b.x) as i128, z: 0 };
    let v1 = (along * 100) as i64;
    let v2 = (along * 100 + 1_000_000) as i64;
    let u2 = (len * 100) as i64;
    FlatMesh {
        v: m.v + seq![
            GridPoint3 { x: a.x, y: a.y, z: 0 },
            GridPoint3 { x: b.x, y: b.y, z: 0 },
            GridPoint3 { x: a.x, y: a.y, z: depth as i32 },
            GridPoint3 { x: b.x, y: b.y, z: depth as i32 },
        ],
        i: m.i + seq![
            base as u32,
            (base + 1) as u32,
            (base + 3) as u32,
            base as u32,
            (base + 3) as u32,
            (base + 2) as u32,
        ],
        n: m.n + seq![nrm, nrm, nrm, nrm],
        uv: m.uv + seq![
            Uv { u: 0, v: v1 },
            Uv { u: u2, v: v1 },
            Uv { u: 0, v: v2 },
            Uv { u: u2, v: v2 },
        ],
    }
}

/// Whether a quad can still be added: its indices stay within 32 bits.
pub open spec fn room_for_quad(m: FlatMesh) -> bool {
    m.v.len() + 4 <= u32::MAX + 1
}

/// One event of the side walk; `None` when the mesh outgrows 32-bit indices.
pub open spec fn flat_step(w: FlatWalk, e: PathEvent, depth: int) -> Option<FlatWalk> {
    match e {
        PathEvent::Begin { at } => Some(FlatWalk { mesh: w.mesh, first: at, pen: Some(at), along: 0 }),
        PathEvent::Line { to } => match w.pen {
            Some(a) => if room_for_quad(w.mesh) {
                Some(
                    FlatWalk {
                        mesh: quad_step(w.mesh, a, to, depth, w.along),
                        first: w.first,
                        pen: Some(to),
                        along: w.along + length_of(a, to),
                    },
                )
            } else {
                None
            },
            None => Some(FlatWalk { pen: Some(to), ..w }),
        },
        PathEvent::End { close } => match w.pen {
            Some(a) => if close {
                if room_for_quad(w.mesh) {
                    Some(
                        FlatWalk {
                            mesh: quad_step(w.mesh, a, w.first, depth, w.along),
                            first: w.first,
                            pen: None,
                            along: 0,
                        },
                    )
                } else {
                    None
                }
            } else {
                Some(FlatWalk { pen: None, along: 0, ..w })
            },
            None => Some(FlatWalk { pen: None, along: 0, ..w }),
        },
        _ => Some(w),
    }
}

/// The side walk over the first `k` events, from a given start.
pub open spec fn flat_walk(start: FlatWalk, events: Seq<PathEvent>, depth: int, k: int) -> Option<FlatWalk>
    decreases k,
{
    if k <= 0 {
        Some(start)
    } else {
        match flat_walk(start, events, depth, k - 1) {
            Some(w) => flat_step(w, events[k - 1], depth),
            None => None,
        }
    }
}

/// Whether a path is flattened: it holds no curve.
pub open spec fn is_flat(events: Seq<PathEvent>) -> bool {
    forall|k: int|
        0 <= k < events.len() ==> (#[trigger] events[k] matches PathEvent::Begin { .. } || events[k] matches PathEvent::Line { .. } || events[k] matches PathEvent::End { .. })
}

/// The caps of the straight extrusion: the front cap at depth zero facing
/// forward, then the back cap at `depth` with reversed winding facing back;
/// texture coordinates of cap vertices are planar.
pub open spec fn flat_caps(cap: Seq<GridPoint>, cap_i: Seq<u16>, depth: int) -> FlatMesh {
    let fv = lifted(cap, 0);
    let bv = lifted(cap, depth);
    FlatMesh {
        v: fv + bv,
        i: cap_corners(0, cap_i, false) + cap_corners(fv.len() as int, cap_i, true),
        n: Seq::new(fv.len(), |k: int| front_normal()) + Seq::new(
            bv.len(),
            |k: int| NormalSum { x: 0, y: 0, z: 1 },
        ),
        uv: (fv + bv).map_values(|p: GridPoint3| uv_of(p, 0)),
    }
}

/// The normal of the front cap, toward the viewer.
pub open spec fn front_normal() -> NormalSum {
    NormalSum { x: 0, y: 0, z: (-1int) as i128 }
}

pub open spec fn origin() -> GridPoint {
    GridPoint { x: 0, y: 0 }
}

/// The straight extrusion of a flattened outline: both caps, then one side
/// quad per outline edge, closing edges of closed loops included; `None` when
/// the mesh outgrows 32-bit indices.
pub open spec fn flat_mesh(cap: Seq<GridPoint>, cap_i: Seq<u16>, events: Seq<PathEvent>, depth: int) -> Option<FlatMesh> {
    if cap.len() > 0x7fff_0000 {
        None
    } else {
        match flat_walk(
            FlatWalk { mesh: flat_caps(cap, cap_i, depth), first: origin(), pen: None, along: 0 },
            events,
            depth,
            events.len() as int,
        ) {
            Some(w) => Some(w.mesh),
            None => None,
        }
    }
}

pub open spec fn mesh_of(g: ExtrudedMeshGeometry) -> FlatMesh {
    FlatMesh { v: g.vertices@, i: g.indices@, n: g.normals@, uv: g.uvs@ }
}

fn push_quad(
    g: &mut ExtrudedMeshGeometry,
    a: GridPoint,
    b: GridPoint,
    depth: i32,
    along: i64,
) -> (len: u64)
    requires
        room_for_quad(mesh_of(*old(g))),
        0 <= along <= 0x40_0000_0000_0000,
    ensures
        mesh_of(*final(g)) == quad_step(mesh_of(*old(g)), a, b, depth as int, along as int),
        len == length_of(a, b),
        len <= 0x2_0000_0000,
{
    let base = g.vertices.len() as u32;
    let dx: i128 = b.x as i128 - a.x as i128;
    let dy: i128 = b.y as i128 - a.y as i128;
    assert(0 <= dx * dx <= 0x1_0000_0000_0000_0000) by (nonlinear_arith)
        requires
            -0x1_0000_0000 <= dx <= 0x1_0000_0000,
    ;
    assert(0 <= dy * dy <= 0x1_0000_0000_0000_0000) by (nonlinear_arith)
        requires
            -0x1_0000_0000 <= dy <= 0x1_0000_0000,
    ;
    let len = isqrt((dx * dx + dy * dy) as u128);
    assert(len <= 0x2_0000_0000) by (nonlinear_arith)
        requires
            (len as int) * (len as int) <= dx * dx + dy * dy,
            dx * dx + dy * dy <= 0x2_0000_0000_0000_0000,
            len >= 0,
    ;
    g.vertices.push(GridPoint3 { x: a.x, y: a.y, z: 0 });
    g.vertices.push(GridPoint3 { x: b.x, y: b.y, z: 0 });
    g.vertices.push(GridPoint3 { x: a.x, y: a.y, z: depth });
    g.vertices.push(GridPoint3 { x: b.x, y: b.y, z: depth });
    g.indices.push(base);
    g.indices.push(base + 1);
    g.indices.push(base + 3);
    g.indices.push(base);
    g.indices.push(base + 3);
    g.indices.push(base + 2);
    let nrm = NormalSum { x: dy, y: -dx, z: 0 };
    g.normals.push(nrm);
    g.normals.push(nrm);
    g.normals.push(nrm);
    g.normals.push(nrm);
    let v1: i64 = along * 100;
    let v2: i64 = along * 100 + 1_000_000;
    let u2: i64 = len as i64 * 100;
    g.uvs.push(Uv { u: 0, v: v1 });
    g.uvs.push(Uv { u: u2, v: v1 });
    g.uvs.push(Uv { u: 0, v: v2 });
    g.uvs.push(Uv { u: u2, v: v2 });
    proof {
        let m = mesh_of(*old(g));
        let r = quad_step(m, a, b, depth as int, along as int);
        assert(mesh_of(*g).v =~= r.v);
        assert(mesh_of(*g).i =~= r.i);
        assert(mesh_of(*g).n =~= r.n);
        assert(mesh_of(*g).uv =~= r.uv);
    }
    len
}

/// Extrudes a flattened outline straight back to `depth`: the tessellated
/// cap at the front and, reversed, at the back, and a side quad of its own
/// vertices for every edge of every loop. Fails with `InvalidInput` when the
/// mesh outgrows 32-bit indices.
pub fn tessalate_glyph(
    cap: &Vec<GridPoint>,
    cap_indices: &Vec<u16>,
    events: &Vec<PathEvent>,
    depth: i32,
) -> (r: Result<ExtrudedMeshGeometry, MeshTextError>)
    requires
        is_flat(events@),
        events@.len() <= 0x10_0000,
    ensures
        match flat_mesh(cap@, cap_indices@, events@, depth as int) {
            Some(m) => r matches Ok(g) && mesh_of(g) == m,
            None => r == Err::<ExtrudedMeshGeometry, MeshTextError>(MeshTextError::InvalidInput),
        },
{
    let n = cap.len();
    if n as u64 > 0x7fff_0000u64 {
        return Err(MeshTextError::InvalidInput);
    }
    let mut g = ExtrudedMeshGeometry {
        vertices: Vec::new(),
        indices: Vec::new(),
        normals: Vec::new(),
        uvs: Vec::new(),
    };
    let ghost fv = lifted(cap@, 0);
    let ghost bv = lifted(cap@, depth as int);
    let mut k: usize = 0;
    while k < n
        invariant
            n == cap@.len(),
            fv == lifted(cap@, 0),
            k <= n,
            g.vertices@ == fv.take(k as int),
            g.normals@ == Seq::new(k as nat, |j: int| front_normal()),
            g.indices@.len() == 0,
            g.uvs@ == fv.take(k as int).map_values(|p: GridPoint3| uv_of(p, 0)),
        decreases n - k,
    {
        let p = cap[k];
        let v = GridPoint3 { x: p.x, y: p.y, z: 0 };
        g.vertices.push(v);
        g.normals.push(NormalSum { x: 0, y: 0, z: -1 });
        g.uvs.push(Uv { u: p.x as i64 + 500_000, v: p.y as i64 + 500_000 });
        assert(fv.take(k as int + 1) =~= fv.take(k as int).push(v));
        assert(g.normals@ =~= Seq::new((k + 1) as nat, |j: int| front_normal()));
        assert(g.uvs@ =~= fv.take(k as int + 1).map_values(|p: GridPoint3| uv_of(p, 0)));
        k += 1;
    }
    assert(fv.take(n as int) =~= fv);
    let mut k: usize = 0;
    while k < n
        invariant
            n == cap@.len(),
            fv == lifted(cap@, 0),
            bv == lifted(cap@, depth as int),
            k <= n,
            g.vertices@ == fv + bv.take(k as int),
            g.normals@ == Seq::new(n as nat, |j: int| front_normal()) + Seq::new(
                k as nat,
                |j: int| NormalSum { x: 0, y: 0, z: 1 },
            ),
            g.indices@.len() == 0,
            g.uvs@ == (fv + bv.take(k as int)).map_values(|p: GridPoint3| uv_of(p, 0)),
        decreases n - k,
    {
        let p = cap[k];
        let v = GridPoint3 { x: p.x, y: p.y, z: depth };
        g.vertices.push(v);
        g.normals.push(NormalSum { x: 0, y: 0, z: 1 });
        g.uvs.push(Uv { u: p.x as i64 + 500_000, v: p.y as i64 + 500_000 });
        assert(bv.take(k as int + 1) =~= bv.take(k as int).push(v));
        assert(g.vertices@ =~= fv + bv.take(k as int + 1));
        assert(g.normals@ =~= Seq::new(n as nat, |j: int| front_normal()) + Seq::new(
            (k + 1) as nat,
            |j: int| NormalSum { x: 0, y: 0, z: 1 },
        ));
        assert(g.uvs@ =~= (fv + bv.take(k as int + 1)).map_values(|p: GridPoint3| uv_of(p, 0)));
        k += 1;
    }
    assert(bv.take(n as int) =~= bv);
    append_cap_indices(&mut g.indices, 0, cap_indices, false);
    append_cap_indices(&mut g.indices, n as u32, cap_indices, true);
    assert(g.indices@ =~= cap_corners(0, cap_indices@, false) + cap_corners(fv.len() as int, cap_indices@, true));
    let ghost start = FlatWalk { mesh: flat_caps(cap@, cap_indices@, depth as int), first: origin(), pen: None, along: 0 };
    assert(mesh_of(g) == start.mesh);
    let mut first = GridPoint { x: 0, y: 0 };
    let mut pen: Option<GridPoint> = None;
    let mut along: i64 = 0;
    let mut e: usize = 0;
    while e < events.len()
        invariant
            e <= events@.len(),
            events@.len() <= 0x10_0000,
            n == cap@.len(),
            n <= 0x7fff_0000,
            start == (FlatWalk { mesh: flat_caps(cap@, cap_indices@, depth as int), first: origin(), pen: None, along: 0 }),
            is_flat(events@),
            0 <= along <= e * 0x2_0000_0000,
            flat_walk(start, events@, depth as int, e as int) == Some(
                FlatWalk { mesh: mesh_of(g), first, pen, along: along as int },
            ),
        decreases events@.len() - e,
    {
        let ev = events[e];
        assert(is_flat(events@) ==> (events@[e as int] matches PathEvent::Begin { .. } || events@[e as int] matches PathEvent::Line { .. } || events@[e as int] matches PathEvent::End { .. }));
        match ev {
            PathEvent::Begin { at } => {
                first = at;
                pen = Some(at);
                along = 0;
            },
            PathEvent::Line { to } => {
                match pen {
                    Some(a) => {
                        if g.vertices.len() as u64 > 0xffff_fffcu64 {
                            proof {
                                lemma_walk_stays_none(start, events@, depth as int, e as int + 1, events@.len() as int);
                            }
                            return Err(MeshTextError::InvalidInput);
                        }
                        let len = push_quad(&mut g, a, to, depth, along);
                        along = along + len as i64;
                        pen = Some(to);
                    },
                    None => {
                        pen = Some(to);
                    },
                }
            },
            PathEvent::End { close } => {
                match pen {
                    Some(a) => {
                        if close {
                            if g.vertices.len() as u64 > 0xffff_fffcu64 {
                                proof {
                                    lemma_walk_stays_none(start, events@, depth as int, e as int + 1, events@.len() as int);
                                }
                                return Err(MeshTextError::InvalidInput);
                            }
                            push_quad(&mut g, a, first, depth, along);
                        }
                    },
                    None => {},
                }
                pen = None;
                along = 0;
            },
            _ => {},
        }
        e += 1;
    }
    Ok(g)
}

proof fn lemma_walk_stays_none(start: FlatWalk, events: Seq<PathEvent>, depth: int, m: int, n: int)
    requires
        0 < m <= n,
        flat_walk(start, events, depth, m).is_none(),
    ensures
        flat_walk(start, events, depth, n).is_none(),
    decreases n - m,
{
    if m < n {
        lemma_walk_stays_none(start, events, depth, m + 1, n);
    }
}

} // verus!
