use bevy_mesh_text_3d::{
    extract_contours, offset_sources, BevelRings, Contour, GridPoint, PathEvent, RingBuilder,
};
use cavalier_contours::polyline::{PlineSource, PlineSourceMut, PlineVertex, Polyline};
use cavalier_contours::shape_algorithms::{Shape, ShapeOffsetOptions};

fn p(x: i32, y: i32) -> GridPoint {
    GridPoint { x, y }
}

fn square(x0: i32, y0: i32, side: i32) -> Contour {
    Contour {
        vertices: vec![p(x0, y0), p(x0 + side, y0), p(x0 + side, y0 + side), p(x0, y0 + side)],
        is_closed: true,
    }
}

fn to_polyline(c: &Contour) -> Polyline<f64> {
    let mut pl = Polyline::new();
    for v in &c.vertices {
        pl.add_vertex(PlineVertex::new(v.x as f64 * 1e-4, v.y as f64 * 1e-4, 0.0));
    }
    pl.set_is_closed(c.is_closed);
    pl
}

fn from_polyline(pl: &Polyline<f64>) -> Contour {
    Contour {
        vertices: (0..pl.vertex_count())
            .map(|i| {
                let v = pl.at(i);
                p((v.x * 1e4).round() as i32, (v.y * 1e4).round() as i32)
            })
            .collect(),
        is_closed: pl.is_closed(),
    }
}

/// Drives a ring builder with real polygon offsets of `width` layout units.
fn bevel_of(c: &Contour, width: f64, segments: usize) -> BevelRings {
    let shape = Shape::from_plines(std::iter::once(to_polyline(c)));
    let mut b = RingBuilder::new(c.clone(), segments);
    while let Some(k) = b.pending_step() {
        let off = shape.parallel_offset(k as f64 * width / segments as f64, ShapeOffsetOptions::default());
        let loops: Vec<Contour> = off
            .ccw_plines
            .iter()
            .chain(off.cw_plines.iter())
            .map(|ip| from_polyline(&ip.polyline))
            .collect();
        b.accept(loops);
    }
    b.finish()
}

fn tri(n: i32) -> Contour {
    Contour { vertices: vec![p(0, 0), p(n, 0), p(0, n)], is_closed: true }
}

#[test]
fn full_bevel_has_segments_plus_one_rings() {
    let mut b = RingBuilder::new(tri(100), 3);
    for k in 1..=3 {
        assert_eq!(b.pending_step(), Some(k));
        b.accept(vec![tri(100 - 10 * k as i32)]);
    }
    assert_eq!(b.pending_step(), None);
    assert!(!b.vanished);
    let r = b.finish();
    assert_eq!(r.rings.len() + 2, 3 + 1);
    assert_eq!(r.outer_contour.vertices, tri(100).vertices);
    assert_eq!(r.inner_contour.vertices, tri(70).vertices);
    assert_eq!(r.rings[0].vertices, tri(90).vertices);
}

#[test]
fn vanishing_offset_ends_bevel_early() {
    let mut b = RingBuilder::new(tri(100), 4);
    b.accept(vec![tri(50)]);
    assert_eq!(b.pending_step(), Some(2));
    b.accept(Vec::new());
    assert_eq!(b.pending_step(), None);
    assert!(b.vanished);
    assert_eq!(b.collected.len(), 2);
    let r = b.finish();
    assert!(r.rings.is_empty());
    assert_eq!(r.inner_contour.vertices, tri(50).vertices);
}

#[test]
fn vanishing_first_offset_leaves_outer_only() {
    let mut b = RingBuilder::new(tri(100), 2);
    b.accept(Vec::new());
    let r = b.finish();
    assert!(r.rings.is_empty());
    assert_eq!(r.outer_contour.vertices, r.inner_contour.vertices);
}

#[test]
fn split_offset_never_exceeds_capacity() {
    let mut b = RingBuilder::new(tri(100), 2);
    b.accept(vec![tri(40), tri(30), tri(20)]);
    assert_eq!(b.pending_step(), None);
    assert_eq!(b.collected.len(), 3);
    let r = b.finish();
    assert_eq!(r.rings.len(), 1);
    assert_eq!(r.inner_contour.vertices, tri(30).vertices);
}

#[test]
fn single_segment_has_no_intermediate_rings() {
    let c = square(0, 0, 200_000);
    let r = bevel_of(&c, 2.0, 1);
    assert!(r.rings.is_empty());
    assert_ne!(r.outer_contour.vertices, r.inner_contour.vertices);
}

#[test]
fn o_shape_yields_two_bevels_of_three_rings() {
    // An "o": an outer square of 40 layout units and a hole of 20 inside it,
    // as a font would wind them (outer counter-clockwise, hole clockwise).
    let events = vec![
        PathEvent::Begin { at: p(0, 0) },
        PathEvent::Line { to: p(0, 400_000) },
        PathEvent::Line { to: p(400_000, 400_000) },
        PathEvent::Line { to: p(400_000, 0) },
        PathEvent::End { close: true },
        PathEvent::Begin { at: p(100_000, 100_000) },
        PathEvent::Line { to: p(300_000, 100_000) },
        PathEvent::Line { to: p(300_000, 300_000) },
        PathEvent::Line { to: p(100_000, 300_000) },
        PathEvent::End { close: true },
    ];
    let contours = extract_contours(&events);
    let sources = offset_sources(&contours);
    assert_eq!(sources.len(), 2);
    let bevels: Vec<BevelRings> = sources.iter().map(|c| bevel_of(c, 2.0, 4)).collect();
    assert_eq!(bevels.len(), 2);
    for b in &bevels {
        assert_eq!(b.rings.len(), 3);
    }
}

#[test]
fn offset_sources_skip_degenerate_contours() {
    let cs = vec![
        square(0, 0, 10),
        Contour { vertices: vec![p(1, 1), p(1, 1), p(1, 1)], is_closed: true },
        Contour { vertices: vec![p(0, 0), p(5, 0), p(5, 5), p(0, 0)], is_closed: true },
    ];
    let r = offset_sources(&cs);
    assert_eq!(r.len(), 2);
    assert_eq!(r[1].vertices, vec![p(0, 0), p(5, 0), p(5, 5)]);
}

#[test]
fn degenerate_offset_loops_are_dropped() {
    let mut b = RingBuilder::new(tri(100), 3);
    let sliver = Contour { vertices: vec![p(5, 5), p(6, 6), p(5, 5)], is_closed: true };
    b.accept(vec![sliver.clone()]);
    assert!(b.vanished);
    assert_eq!(b.collected.len(), 1);
    let mut c = RingBuilder::new(tri(100), 3);
    c.accept(vec![sliver, tri(80)]);
    assert_eq!(c.collected.len(), 2);
    assert_eq!(c.collected[1].vertices, tri(80).vertices);
}
