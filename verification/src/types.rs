//! Data model for the triangle mesh and the parser's error taxonomy.
//!
//! Every coordinate is kept as the raw bit pattern of an IEEE 754
//! single-precision value, stored in a `u32`.  The binary mesh layout
//! stores exactly these bits little-endian, and the text grammar's
//! decimal tokens are converted to and from the same bit patterns, so
//! the whole library speaks one numeric currency and never needs a
//! machine float of its own.

use vstd::prelude::*;

verus! {

/// One corner of a triangle: three coordinate bit patterns.
#[derive(Clone, Copy, Debug, PartialEq, Eq, Structural)]
pub struct Vertex {
    pub x: u32,
    pub y: u32,
    pub z: u32,
}

/// One triangular face: the stored normal and the three vertices,
/// in the order they stand in the source bytes or text.
#[derive(Clone, Copy, Debug, PartialEq, Eq, Structural)]
pub struct Triangle {
    pub normal: Vertex,
    pub v1: Vertex,
    pub v2: Vertex,
    pub v3: Vertex,
}

/// The parsed mesh: an ordered sequence of triangles.
pub type Solid = Vec<Triangle>;

/// Everything that can go wrong in this library.
#[derive(Clone, Copy, Debug, PartialEq, Eq, Structural)]
pub enum StlError {
    /// The bytes do not conform to the tagged text grammar.
    MalformedText,
    /// The declared binary triangle count implies more bytes than are present.
    TruncatedBinary,
    /// The declared binary triangle count does not fit the addressable length type.
    CountOverflow,
    /// Both the text and the binary attempt failed.
    UnrecognizedFormat,
    /// A recomputed face normal is ill-defined: the cross product's
    /// squared length is not a positive value.
    DegenerateNormal,
}

} // verus!
