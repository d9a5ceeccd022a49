use vstd::prelude::*;

verus! {

/// Why a mesh failed validation. A non-finite value is refused where
/// floating-point coordinates are brought onto the grid, since the grid holds
/// none.
#[derive(Debug, Clone, Copy, PartialEq, Eq, Structural)]
pub enum MeshFault {
    IndexCountNotTriangles,
    AttributeLengthMismatch,
    IndexOutOfRange,
    TooManyDegenerateTriangles,
    TooManyInvalidNormals,
    TooManyExtremeVertices,
    NonFiniteValue,
}

impl MeshFault {
    /// A sentence describing the fault.
    pub fn message(&self) -> (r: String) {
        match self {
            MeshFault::IndexCountNotTriangles => "Index count not divisible by 3".to_string(),
            MeshFault::AttributeLengthMismatch => "Vertex attribute arrays have different lengths".to_string(),
            MeshFault::IndexOutOfRange => "Index refers to a missing vertex".to_string(),
            MeshFault::TooManyDegenerateTriangles => "Too many degenerate triangles".to_string(),
            MeshFault::TooManyInvalidNormals => "Too many invalid normals".to_string(),
            MeshFault::TooManyExtremeVertices => "Too many extreme vertex coordinates".to_string(),
            MeshFault::NonFiniteValue => "Vertex contains NaN or infinite values".to_string(),
        }
    }
}

/// Errors of the text mesh pipeline.
#[derive(Debug, Clone, Copy, PartialEq, Eq, Structural)]
pub enum MeshTextError {
    TessellationFailed,
    PathBuildingFailed,
    InvalidInput,
    FontParseFailed,
    GlyphNotFound,
    InvalidContour,
    InvalidMesh(MeshFault),
}

impl MeshTextError {
    /// A sentence describing the error.
    pub fn message(&self) -> (r: String) {
        match self {
            MeshTextError::TessellationFailed => "Tessellation process failed".to_string(),
            MeshTextError::PathBuildingFailed => "Path Building Failed".to_string(),
            MeshTextError::InvalidInput => "The input provided was invalid".to_string(),
            MeshTextError::FontParseFailed => "Font parsing failed".to_string(),
            MeshTextError::GlyphNotFound => "Glyph not found".to_string(),
            MeshTextError::InvalidContour => "Invalid contour".to_string(),
            MeshTextError::InvalidMesh(fault) => fault.message(),
        }
    }
}

} // verus!
