//! Exact-arithmetic core of a text extrusion pipeline: glyph contours on a fixed
//! grid, inward bevel rings, extruded and beveled triangle meshes, and their
//! validation.
//!
//! Every coordinate is an integer on a grid whose step is the vertex tolerance
//! (one ten-thousandth of a layout unit), so that near-coincident vertices are
//! exactly the equal ones and every predicate is decided without rounding.
//! Curve outlines, polygon offsetting and fill tessellation are performed by the
//! host around this library, which hands their results over on the same grid.

pub mod error;
pub mod geometry;
pub mod contour;
pub mod bevel;
pub mod mesh;
pub mod resample;
pub mod extrude;
pub mod ring_mesh;
pub mod fill;
pub mod flat;

pub use error::{MeshFault, MeshTextError};
pub use geometry::{cubic_at, flip, quad_at, GridPoint, GridPoint3};
pub use contour::{
    deduplicate_vertices, deduplicated, extract_contours, prepare_offset_contour, Contour,
    PathEvent,
};
pub use bevel::{offset_sources, BevelRings, RingBuilder};
pub use mesh::{
    add_back_cap_triangulation, add_side_wall, append_cap_indices, check_mesh,
    determine_optimal_vertex_count, generate_smooth_normals, generate_uvs_for_beveled_mesh,
    ExtrudedMeshGeometry, MeshValidation, NormalSum, Uv,
};
pub use resample::{isqrt, resample_contour};
pub use extrude::{build_beveled_mesh, build_improved_bevel_ring_geometry, finish_mesh};
pub use ring_mesh::{
    append_cap, build_bevel_ring_geometry_with_boundaries, calculate_signed_area, plan_cap,
};
pub use fill::{face_attempt, front_cap_attempt, FillRule, FillStrategy};
pub use flat::tessalate_glyph;
