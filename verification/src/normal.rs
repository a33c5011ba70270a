//! The normal utility: recompute a unit face normal from a
//! triangle's three vertices.
//!
//! The edge vectors are `e1 = v2 - v1` and `e2 = v3 - v1`; their
//! cross product is taken component-wise by the right-hand rule and
//! then divided by its own Euclidean length.  All arithmetic is IEEE
//! 754 single precision, reached through the named operations of
//! `numbits`, so the contract states the exact bit-level result.
//! When the computed length is not a positive value — the vertices
//! coincident or colinear, or so close that the squared length
//! underflows to zero — the caller gets `DegenerateNormal` instead of
//! a silent NaN.

use vstd::prelude::*;

use crate::numbits::{
    add_bits, div_bits, f32_add, f32_div, f32_mul, f32_sqrt, f32_sub, is_pos_bits, mul_bits,
    pos_bits, sqrt_bits, sub_bits,
};
use crate::types::{StlError, Triangle, Vertex};

verus! {

/// One cross-product component: `p * q - r * s`.
pub open spec fn spec_cross_term(p: u32, q: u32, r: u32, s: u32) -> u32 {
    f32_sub(f32_mul(p, q), f32_mul(r, s))
}

pub open spec fn spec_cross_x(t: Triangle) -> u32 {
    spec_cross_term(
        f32_sub(t.v2.y, t.v1.y),
        f32_sub(t.v3.z, t.v1.z),
        f32_sub(t.v2.z, t.v1.z),
        f32_sub(t.v3.y, t.v1.y),
    )
}

pub open spec fn spec_cross_y(t: Triangle) -> u32 {
    spec_cross_term(
        f32_sub(t.v2.z, t.v1.z),
        f32_sub(t.v3.x, t.v1.x),
        f32_sub(t.v2.x, t.v1.x),
        f32_sub(t.v3.z, t.v1.z),
    )
}

pub open spec fn spec_cross_z(t: Triangle) -> u32 {
    spec_cross_term(
        f32_sub(t.v2.x, t.v1.x),
        f32_sub(t.v3.y, t.v1.y),
        f32_sub(t.v2.y, t.v1.y),
        f32_sub(t.v3.x, t.v1.x),
    )
}

/// The Euclidean length of the cross product, as computed in single
/// precision: the square root of the sum of the squared components.
pub open spec fn spec_cross_len(t: Triangle) -> u32 {
    f32_sqrt(
        f32_add(
            f32_add(
                f32_mul(spec_cross_x(t), spec_cross_x(t)),
                f32_mul(spec_cross_y(t), spec_cross_y(t)),
            ),
            f32_mul(spec_cross_z(t), spec_cross_z(t)),
        ),
    )
}

/// The unit normal the utility owes: each cross-product component
/// divided by the computed length.
pub open spec fn spec_unit_normal(t: Triangle) -> Vertex {
    Vertex {
        x: f32_div(spec_cross_x(t), spec_cross_len(t)),
        y: f32_div(spec_cross_y(t), spec_cross_len(t)),
        z: f32_div(spec_cross_z(t), spec_cross_len(t)),
    }
}

/// Compute the face normal of `face` from its three vertices, in
/// declared order, ignoring the stored normal.  Succeeds exactly when
/// the computed cross-product length is a positive value, and then
/// returns the normalized cross product bit for bit.
pub fn compute_normal(face: &Triangle) -> (r: Result<Vertex, StlError>)
    ensures
        is_pos_bits(spec_cross_len(*face)) ==> r == Ok::<Vertex, StlError>(
            spec_unit_normal(*face),
        ),
        !is_pos_bits(spec_cross_len(*face)) ==> r == Err::<Vertex, StlError>(
            StlError::DegenerateNormal,
        ),
{
    let e1x = sub_bits(face.v2.x, face.v1.x);
    let e1y = sub_bits(face.v2.y, face.v1.y);
    let e1z = sub_bits(face.v2.z, face.v1.z);
    let e2x = sub_bits(face.v3.x, face.v1.x);
    let e2y = sub_bits(face.v3.y, face.v1.y);
    let e2z = sub_bits(face.v3.z, face.v1.z);
    let cx = sub_bits(mul_bits(e1y, e2z), mul_bits(e1z, e2y));
    let cy = sub_bits(mul_bits(e1z, e2x), mul_bits(e1x, e2z));
    let cz = sub_bits(mul_bits(e1x, e2y), mul_bits(e1y, e2x));
    let len_sq = add_bits(add_bits(mul_bits(cx, cx), mul_bits(cy, cy)), mul_bits(cz, cz));
    let len = sqrt_bits(len_sq);
    if pos_bits(len) {
        Ok(Vertex { x: div_bits(cx, len), y: div_bits(cy, len), z: div_bits(cz, len) })
    } else {
        Err(StlError::DegenerateNormal)
    }
}

} // verus!
