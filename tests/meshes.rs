use bevy_mesh_text_3d::{
    add_back_cap_triangulation, add_side_wall, append_cap, append_cap_indices,
    build_bevel_ring_geometry_with_boundaries, build_beveled_mesh, calculate_signed_area,
    check_mesh, determine_optimal_vertex_count, face_attempt, finish_mesh, front_cap_attempt,
    generate_smooth_normals, generate_uvs_for_beveled_mesh, isqrt, plan_cap, resample_contour,
    BevelRings, Contour, ExtrudedMeshGeometry, FillRule, GridPoint, GridPoint3, MeshFault,
    MeshTextError, NormalSum, PathEvent, Uv,
};
use bevy_mesh_text_3d::tessalate_glyph;

fn p(x: i32, y: i32) -> GridPoint {
    GridPoint { x, y }
}

fn q(x: i32, y: i32, z: i32) -> GridPoint3 {
    GridPoint3 { x, y, z }
}

fn unit_cube() -> (Vec<GridPoint3>, Vec<u32>) {
    let s = 10_000;
    let v = vec![
        q(0, 0, 0),
        q(s, 0, 0),
        q(s, s, 0),
        q(0, s, 0),
        q(0, 0, s),
        q(s, 0, s),
        q(s, s, s),
        q(0, s, s),
    ];
    let i = vec![
        0, 2, 1, 0, 3, 2, // z = 0, facing -z
        4, 5, 6, 4, 6, 7, // z = s, facing +z
        0, 1, 5, 0, 5, 4, // y = 0, facing -y
        3, 7, 6, 3, 6, 2, // y = s, facing +y
        0, 4, 7, 0, 7, 3, // x = 0, facing -x
        1, 2, 6, 1, 6, 5, // x = s, facing +x
    ];
    (v, i)
}

#[test]
fn unit_cube_passes_validation() {
    let (v, i) = unit_cube();
    let g = finish_mesh(v, i, 10_000);
    let r = check_mesh(&g).unwrap();
    assert_eq!(r.vertex_count, 8);
    assert_eq!(r.triangle_count, 12);
    assert_eq!(r.degenerate_triangles, 0);
    assert_eq!(r.invalid_normals, 0);
    assert_eq!(r.extreme_vertices, 0);
    // every corner's normal points out of the cube, along its diagonal
    let n0 = g.normals[0];
    assert!(n0.x < 0 && n0.y < 0 && n0.z < 0);
    let n6 = g.normals[6];
    assert!(n6.x > 0 && n6.y > 0 && n6.z > 0);
}

fn geometry(v: Vec<GridPoint3>, i: Vec<u32>) -> ExtrudedMeshGeometry {
    finish_mesh(v, i, 10_000)
}

#[test]
fn index_count_must_be_whole_triangles() {
    let (v, mut i) = unit_cube();
    i.push(0);
    let g = geometry(v, i);
    assert_eq!(
        check_mesh(&g).unwrap_err(),
        MeshTextError::InvalidMesh(MeshFault::IndexCountNotTriangles)
    );
}

#[test]
fn attribute_lengths_must_match() {
    let (v, i) = unit_cube();
    let mut g = geometry(v, i);
    g.uvs.pop();
    assert_eq!(
        check_mesh(&g).unwrap_err(),
        MeshTextError::InvalidMesh(MeshFault::AttributeLengthMismatch)
    );
}

#[test]
fn indices_must_name_vertices() {
    let (v, mut i) = unit_cube();
    i[5] = 8;
    let g = geometry(v, i);
    assert_eq!(check_mesh(&g).unwrap_err(), MeshTextError::InvalidMesh(MeshFault::IndexOutOfRange));
}

#[test]
fn many_degenerate_triangles_are_rejected() {
    let (v, mut i) = unit_cube();
    // two of twelve triangles collapse to a point: more than a tenth
    for k in 0..6 {
        i[k] = 0;
    }
    let g = geometry(v, i);
    assert_eq!(
        check_mesh(&g).unwrap_err(),
        MeshTextError::InvalidMesh(MeshFault::TooManyDegenerateTriangles)
    );
}

#[test]
fn one_degenerate_triangle_is_tolerated() {
    let (v, mut i) = unit_cube();
    i[0] = 0;
    i[1] = 0;
    i[2] = 0;
    let g = geometry(v, i);
    let r = check_mesh(&g).unwrap();
    assert_eq!(r.degenerate_triangles, 1);
}

#[test]
fn zero_normals_are_rejected() {
    let (v, i) = unit_cube();
    let mut g = geometry(v, i);
    g.normals[0] = NormalSum { x: 0, y: 0, z: 0 };
    assert_eq!(
        check_mesh(&g).unwrap_err(),
        MeshTextError::InvalidMesh(MeshFault::TooManyInvalidNormals)
    );
}

#[test]
fn extreme_vertices_are_rejected() {
    let (mut v, i) = unit_cube();
    // beyond a thousand layout units, scaled so no triangle degenerates
    for p in v.iter_mut() {
        p.x *= 2_000;
    }
    let g = geometry(v, i);
    assert_eq!(
        check_mesh(&g).unwrap_err(),
        MeshTextError::InvalidMesh(MeshFault::TooManyExtremeVertices)
    );
}

#[test]
fn fault_messages_are_sentences() {
    assert_eq!(
        MeshTextError::InvalidMesh(MeshFault::IndexCountNotTriangles).message(),
        "Index count not divisible by 3"
    );
    assert_eq!(MeshTextError::InvalidContour.message(), "Invalid contour");
}

#[test]
fn triangle_normal_is_twice_its_area() {
    let v = vec![q(0, 0, 0), q(10, 0, 0), q(0, 10, 0)];
    let n = generate_smooth_normals(&v, &vec![0, 1, 2]);
    assert_eq!(n, vec![NormalSum { x: 0, y: 0, z: 100 }; 3]);
}

#[test]
fn texture_coordinates_follow_position_and_depth() {
    let v = vec![q(10_000, 20_000, 5_000)];
    assert_eq!(generate_uvs_for_beveled_mesh(&v, 10_000), vec![Uv { u: 510_000, v: 500_000 }]);
    assert_eq!(generate_uvs_for_beveled_mesh(&v, 0), vec![Uv { u: 510_000, v: 520_000 }]);
}

#[test]
fn side_wall_indices_bridge_two_rings() {
    let mut i = Vec::new();
    add_side_wall(&mut i, 0, 3, 3, true);
    assert_eq!(
        i,
        vec![0, 1, 4, 0, 4, 3, 1, 2, 5, 1, 5, 4, 2, 0, 3, 2, 3, 5]
    );
    let mut j = Vec::new();
    add_side_wall(&mut j, 0, 3, 3, false);
    assert_eq!(j.len(), 12);
}

#[test]
fn back_cap_is_a_reversed_fan() {
    let mut i = Vec::new();
    add_back_cap_triangulation(&mut i, 10, 4);
    assert_eq!(i, vec![10, 12, 11, 10, 13, 12]);
    let mut j = Vec::new();
    add_back_cap_triangulation(&mut j, 10, 2);
    assert!(j.is_empty());
}

#[test]
fn cap_indices_are_offset_and_reversed() {
    let mut i = vec![7];
    append_cap_indices(&mut i, 100, &vec![0, 1, 2, 2, 3, 0, 9], true);
    assert_eq!(i, vec![7, 100, 102, 101, 102, 100, 103]);
}

#[test]
fn optimal_vertex_count_is_clamped() {
    assert_eq!(determine_optimal_vertex_count(&Vec::new()), 4);
    let big = Contour { vertices: vec![p(0, 0); 300], is_closed: true };
    let small = Contour { vertices: vec![p(0, 0); 7], is_closed: true };
    assert_eq!(determine_optimal_vertex_count(&vec![small.clone()]), 7);
    assert_eq!(determine_optimal_vertex_count(&vec![small, big]), 256);
}

#[test]
fn integer_square_roots() {
    assert_eq!(isqrt(0), 0);
    assert_eq!(isqrt(15), 3);
    assert_eq!(isqrt(16), 4);
    assert_eq!(isqrt(0x2_0000_0000_0000_0000), 0x1_6a09_e667);
}

#[test]
fn square_is_resampled_at_equal_steps() {
    let c = Contour { vertices: vec![p(0, 0), p(4, 0), p(4, 4), p(0, 4)], is_closed: true };
    let r = resample_contour(&c, 8);
    assert_eq!(
        r.vertices,
        vec![p(0, 0), p(2, 0), p(4, 0), p(4, 2), p(4, 4), p(2, 4), p(0, 4), p(0, 2)]
    );
    assert!(r.is_closed);
}

#[test]
fn zero_length_ring_resamples_to_copies() {
    let c = Contour { vertices: vec![p(1, 1), p(1, 1), p(1, 1)], is_closed: true };
    assert_eq!(resample_contour(&c, 5).vertices, vec![p(1, 1); 5]);
}

#[test]
fn ring_with_target_count_is_unchanged() {
    let c = Contour { vertices: vec![p(0, 0), p(9, 0), p(9, 1), p(0, 7)], is_closed: false };
    assert_eq!(resample_contour(&c, 4).vertices, c.vertices);
}

#[test]
fn counter_clockwise_area_is_positive() {
    let ccw = vec![p(0, 0), p(10, 0), p(10, 10), p(0, 10)];
    assert_eq!(calculate_signed_area(&ccw), 200);
    let cw: Vec<GridPoint> = ccw.iter().rev().copied().collect();
    assert_eq!(calculate_signed_area(&cw), -200);
    assert_eq!(calculate_signed_area(&vec![p(0, 0), p(1, 1)]), 0);
}

#[test]
fn cap_plan_reverses_holes() {
    let outer = Contour { vertices: vec![p(0, 0), p(10, 0), p(10, 10), p(0, 10)], is_closed: true };
    let hole = Contour { vertices: vec![p(2, 2), p(2, 8), p(8, 8), p(8, 2)], is_closed: true };
    let plan = plan_cap(&vec![hole.clone(), outer.clone()]).unwrap();
    assert_eq!(plan.len(), 2);
    assert_eq!(plan[0].vertices, outer.vertices);
    assert_eq!(plan[1].vertices, vec![p(8, 2), p(8, 8), p(2, 8), p(2, 2)]);
}

#[test]
fn cap_plan_errors() {
    assert_eq!(plan_cap(&Vec::new()).unwrap_err(), MeshTextError::InvalidInput);
    let cw = Contour { vertices: vec![p(0, 0), p(0, 10), p(10, 10)], is_closed: true };
    let short = Contour { vertices: vec![p(0, 0), p(1, 0)], is_closed: false };
    assert_eq!(plan_cap(&vec![cw.clone(), short]).unwrap_err(), MeshTextError::InvalidContour);
    // with no outer boundary every contour counts as one
    assert_eq!(plan_cap(&vec![cw.clone()]).unwrap()[0].vertices, cw.vertices);
}

#[test]
fn fill_attempts_escalate() {
    let a = front_cap_attempt(0).unwrap();
    assert!(!a.doubled_tolerance && a.rule == FillRule::EvenOdd);
    let b = front_cap_attempt(1).unwrap();
    assert!(b.doubled_tolerance && b.rule == FillRule::EvenOdd);
    let c = front_cap_attempt(2).unwrap();
    assert!(!c.doubled_tolerance && c.rule == FillRule::NonZero);
    assert!(front_cap_attempt(3).is_none());
    assert!(face_attempt(1).unwrap().doubled_tolerance);
    assert!(face_attempt(2).is_none());
}

fn triangle() -> Contour {
    Contour { vertices: vec![p(0, 0), p(10_000, 0), p(0, 10_000)], is_closed: true }
}

#[test]
fn straight_extrusion_of_a_triangle() {
    let ring = BevelRings { outer_contour: triangle(), inner_contour: triangle(), rings: Vec::new() };
    let mut v = Vec::new();
    let mut i = Vec::new();
    let (front, back) = build_bevel_ring_geometry_with_boundaries(&mut v, &mut i, &ring, 5_000).unwrap();
    assert_eq!(v.len(), 6);
    assert_eq!(front, vec![0, 1, 2]);
    assert_eq!(back, vec![3, 4, 5]);
    assert_eq!(v[3], q(0, 0, 5_000));
    assert_eq!(i.len() / 3, 2 * 3);
    let cap_v = triangle().vertices;
    append_cap(&mut v, &mut i, &cap_v, &vec![0, 1, 2], 0, false).unwrap();
    append_cap(&mut v, &mut i, &cap_v, &vec![0, 1, 2], 5_000, true).unwrap();
    // front cap + back cap + two triangles per edge
    assert_eq!(i.len() / 3, 1 + 1 + 2 * 3);
    assert_eq!(&i[18..], &[6, 7, 8, 9, 11, 10]);
    let g = finish_mesh(v, i, 5_000);
    assert_eq!(check_mesh(&g).unwrap().triangle_count, 8);
}

#[test]
fn beveled_mesh_of_a_triangle() {
    let front_v = vec![q(0, 0, 0), q(10_000, 0, 0), q(0, 10_000, 0)];
    let front_i: Vec<u16> = vec![0, 1, 2];
    let inner = Contour { vertices: vec![p(1_000, 1_000), p(7_000, 1_000), p(1_000, 7_000)], is_closed: true };
    let rings = vec![BevelRings { outer_contour: triangle(), inner_contour: inner, rings: Vec::new() }];
    let g = build_beveled_mesh(&front_v, &front_i, &rings, 2_000).unwrap();
    // front cap, then three rings of four resampled vertices
    assert_eq!(g.vertices.len(), 3 + 3 * 4);
    // front triangle, two bridged ring pairs of four quads, back fan of two
    assert_eq!(g.indices.len(), 3 + 2 * 4 * 6 + 2 * 3);
    assert_eq!(g.vertices[3].z, 0);
    assert_eq!(g.vertices[7].z, 2_000);
    assert_eq!(g.vertices[11].z, 2_000);
    assert_eq!(g.normals.len(), g.vertices.len());
    assert_eq!(g.uvs.len(), g.vertices.len());
    // built meshes are structurally sound
    let verdict = check_mesh(&g);
    assert!(!matches!(
        verdict,
        Err(MeshTextError::InvalidMesh(
            MeshFault::IndexCountNotTriangles | MeshFault::AttributeLengthMismatch | MeshFault::IndexOutOfRange
        ))
    ));
    // building again gives the same mesh
    let h = build_beveled_mesh(&front_v, &front_i, &rings, 2_000).unwrap();
    assert_eq!(g.vertices, h.vertices);
    assert_eq!(g.indices, h.indices);
    assert_eq!(g.normals, h.normals);
    assert_eq!(g.uvs, h.uvs);
}

#[test]
fn flat_extrusion_of_a_triangle() {
    let cap = vec![p(0, 0), p(30_000, 0), p(0, 40_000)];
    let events = vec![
        PathEvent::Begin { at: p(0, 0) },
        PathEvent::Line { to: p(30_000, 0) },
        PathEvent::Line { to: p(0, 40_000) },
        PathEvent::End { close: true },
    ];
    let g = tessalate_glyph(&cap, &vec![0, 1, 2], &events, 10_000).unwrap();
    // both caps, then four vertices per side quad
    assert_eq!(g.vertices.len(), 3 + 3 + 4 * 3);
    // front cap + back cap + two triangles per edge
    assert_eq!(g.indices.len() / 3, 1 + 1 + 2 * 3);
    assert_eq!(&g.indices[..6], &[0, 1, 2, 3, 5, 4]);
    assert_eq!(&g.indices[6..12], &[6, 7, 9, 6, 9, 8]);
    assert_eq!(g.normals[0], NormalSum { x: 0, y: 0, z: -1 });
    assert_eq!(g.normals[3], NormalSum { x: 0, y: 0, z: 1 });
    // the first edge runs along +x: its outward normal points to -y
    assert_eq!(g.normals[6], NormalSum { x: 0, y: -30_000, z: 0 });
    // the second edge has length 50000 grid steps (5 layout units) and starts
    // three layout units along the loop
    assert_eq!(g.uvs[11], Uv { u: 5_000_000, v: 3_000_000 });
    assert_eq!(g.uvs[12], Uv { u: 0, v: 4_000_000 });
    assert_eq!(check_mesh(&g).unwrap().triangle_count, 8);
}
