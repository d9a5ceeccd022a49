use cavalier_contours::polyline::{PlineSource, PlineSourceMut, PlineVertex, Polyline};

use bevy_mesh_text_3d::{
    cubic_at, deduplicate_vertices, deduplicated, extract_contours, prepare_offset_contour,
    quad_at, Contour, GridPoint, MeshTextError, PathEvent,
};

fn p(x: i32, y: i32) -> GridPoint {
    GridPoint { x, y }
}

#[test]
fn quad_point_at_midpoint() {
    // t = 4/8: (16*a + 32*b + 16*c) / 64
    let r = quad_at(p(0, 0), p(64, 128), p(128, 0), 4);
    assert_eq!(r, p(64, 64));
}

#[test]
fn quad_point_rounds_to_nearest() {
    // t = 1/8 on x: (49*0 + 14*10 + 1*0) / 64 = 140/64 = 2.1875 -> 2
    let r = quad_at(p(0, 0), p(10, 0), p(0, 0), 1);
    assert_eq!(r, p(2, 0));
}

#[test]
fn cubic_point_at_end_is_end() {
    let r = cubic_at(p(1, 2), p(30, -40), p(-50, 60), p(7, 9), 10);
    assert_eq!(r, p(7, 9));
}

#[test]
fn cubic_point_at_half() {
    // t = 5/10: (125*0 + 375*0 + 375*1000 + 125*1000) / 1000 = 500
    let r = cubic_at(p(0, 0), p(0, 0), p(1000, 0), p(1000, 0), 5);
    assert_eq!(r, p(500, 0));
}

#[test]
fn dedup_keeps_first_occurrences() {
    let mut v = vec![p(0, 0), p(0, 0), p(1, 0), p(0, 0), p(1, 1), p(1, 0)];
    deduplicate_vertices(&mut v);
    assert_eq!(v, vec![p(0, 0), p(1, 0), p(1, 1)]);
}

#[test]
fn dedup_of_empty_is_empty() {
    assert_eq!(deduplicated(&Vec::new()), Vec::<GridPoint>::new());
}

#[test]
fn closed_square_is_extracted_flipped_and_closed() {
    let events = vec![
        PathEvent::Begin { at: p(0, 0) },
        PathEvent::Line { to: p(10, 0) },
        PathEvent::Line { to: p(10, 10) },
        PathEvent::Line { to: p(0, 10) },
        PathEvent::End { close: true },
    ];
    let cs = extract_contours(&events);
    assert_eq!(cs.len(), 1);
    assert!(cs[0].is_closed);
    assert_eq!(
        cs[0].vertices,
        vec![p(0, 0), p(10, 0), p(10, -10), p(0, -10), p(0, 0)]
    );
}

#[test]
fn quadratic_segment_adds_eight_points() {
    let events = vec![
        PathEvent::Begin { at: p(0, 0) },
        PathEvent::Quadratic { ctrl: p(64, 128), to: p(128, 0) },
        PathEvent::End { close: false },
    ];
    let cs = extract_contours(&events);
    assert_eq!(cs.len(), 1);
    assert!(!cs[0].is_closed);
    assert_eq!(cs[0].vertices.len(), 9);
    // the midpoint of the curve, mirrored
    assert_eq!(cs[0].vertices[4], p(64, -64));
    assert_eq!(cs[0].vertices[8], p(128, 0));
}

#[test]
fn cubic_segment_adds_ten_points() {
    let events = vec![
        PathEvent::Begin { at: p(0, 0) },
        PathEvent::Cubic { ctrl1: p(0, 1000), ctrl2: p(1000, 1000), to: p(1000, 0) },
    ];
    // no End: the loop left open at the end of the path becomes an open contour
    let cs = extract_contours(&events);
    assert_eq!(cs.len(), 1);
    assert!(!cs[0].is_closed);
    assert_eq!(cs[0].vertices.len(), 11);
    assert_eq!(cs[0].vertices[10], p(1000, 0));
}

#[test]
fn point_contour_is_dropped_by_extraction() {
    let events = vec![
        PathEvent::Begin { at: p(5, 5) },
        PathEvent::Line { to: p(5, 5) },
        PathEvent::Line { to: p(5, 5) },
        PathEvent::Line { to: p(5, 5) },
        PathEvent::End { close: true },
    ];
    assert!(extract_contours(&events).is_empty());
}

#[test]
fn point_contour_is_refused_for_offsetting() {
    let c = Contour { vertices: vec![p(3, 3); 5], is_closed: true };
    assert_eq!(prepare_offset_contour(&c).unwrap_err(), MeshTextError::InvalidContour);
}

#[test]
fn two_contours_are_extracted() {
    let events = vec![
        PathEvent::Begin { at: p(0, 0) },
        PathEvent::Line { to: p(100, 0) },
        PathEvent::Line { to: p(100, 100) },
        PathEvent::End { close: true },
        PathEvent::Begin { at: p(10, 10) },
        PathEvent::Line { to: p(20, 10) },
        PathEvent::Line { to: p(20, 20) },
        PathEvent::End { close: true },
    ];
    let cs = extract_contours(&events);
    assert_eq!(cs.len(), 2);
    assert_eq!(cs[1].vertices[0], p(10, -10));
}

#[test]
fn prepared_contour_drops_closing_repeat() {
    let c = Contour {
        vertices: vec![p(0, 0), p(10, 0), p(10, 10), p(0, 0)],
        is_closed: true,
    };
    let r = prepare_offset_contour(&c).unwrap();
    assert_eq!(r.vertices, vec![p(0, 0), p(10, 0), p(10, 10)]);
    assert!(r.is_closed);
}

#[test]
fn offset_round_trip_through_polyline() {
    let c = Contour {
        vertices: vec![p(0, 0), p(12345, 0), p(12345, 6789), p(-4, 6789)],
        is_closed: true,
    };
    let prepared = prepare_offset_contour(&c).unwrap();
    let mut pl: Polyline<f64> = Polyline::new();
    for v in &prepared.vertices {
        pl.add_vertex(PlineVertex::new(v.x as f64 * 1e-4, v.y as f64 * 1e-4, 0.0));
    }
    pl.set_is_closed(prepared.is_closed);
    let back: Vec<GridPoint> = (0..pl.vertex_count())
        .map(|i| {
            let v = pl.at(i);
            p((v.x * 1e4).round() as i32, (v.y * 1e4).round() as i32)
        })
        .collect();
    assert_eq!(back, c.vertices);
    assert_eq!(pl.is_closed(), c.is_closed);
}
