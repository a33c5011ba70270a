//! A dual-format parser for triangle-mesh files: a tagged ASCII
//! grammar and a fixed-layout little-endian binary layout that share
//! no reliable magic number.  The dispatcher tries the text grammar
//! first and falls back to binary — that attempt-then-fallback order
//! is the dispatch mechanism, because neither format can be sniffed
//! from its leading bytes.  A normal utility recomputes a unit face
//! normal when a stored one is absent or distrusted.
//!
//! Coordinates are carried as the bit patterns of IEEE 754
//! single-precision values (`u32`), so the library's contracts pin
//! every parse down to the bit.

use vstd::prelude::*;

pub mod binary;
pub mod normal;
pub mod numbits;
pub mod text;
pub mod types;

pub use binary::from_bin;
pub use binary::to_bin;
pub use normal::compute_normal;
pub use text::from_ascii;
pub use text::to_ascii;
pub use text::try_to_ascii;
pub use types::{Solid, StlError, Triangle, Vertex};

use binary::spec_parse_bin;
use text::spec_parse_text;

verus! {

/// Parse a mesh of either format: first the text grammar, on any
/// failure the binary layout, and `UnrecognizedFormat` when both
/// refuse.  The text-first order is a deliberate policy, not a
/// heuristic, and is pinned by the contract.
pub fn read_stl(data: &[u8]) -> (r: Result<Solid, StlError>)
    ensures
        ({
            match spec_parse_text(data@) {
                Ok(ts) => r matches Ok(solid) && solid@ == ts,
                Err(_) => match spec_parse_bin(data@) {
                    Ok(ts) => r matches Ok(solid) && solid@ == ts,
                    Err(_) => r == Err::<Solid, StlError>(StlError::UnrecognizedFormat),
                },
            }
        }),
{
    match text::from_ascii(data) {
        Ok(solid) => Ok(solid),
        Err(_) => match binary::from_bin(data) {
            Ok(solid) => Ok(solid),
            Err(_) => Err(StlError::UnrecognizedFormat),
        },
    }
}

} // verus!
