//! The fixed-layout little-endian binary mesh format.
//!
//! Layout: an 80-byte header that is ignored, a little-endian `u32`
//! triangle count, then one 50-byte record per triangle: the stored
//! normal (three little-endian 32-bit values), the three vertices
//! (nine more), and two trailing attribute bytes that are ignored.
//! Surplus bytes after the last record are tolerated.

use vstd::prelude::*;

use crate::types::{Solid, StlError, Triangle, Vertex};

verus! {

/// The little-endian 32-bit value stored at offset `off`.
pub open spec fn le32_at(s: Seq<u8>, off: int) -> u32
    recommends
        0 <= off,
        off + 4 <= s.len(),
{
    (s[off] + s[off + 1] * 0x100 + s[off + 2] * 0x10000 + s[off + 3] * 0x1000000) as u32
}

pub open spec fn spec_vert_at(s: Seq<u8>, off: int) -> Vertex {
    Vertex { x: le32_at(s, off), y: le32_at(s, off + 4), z: le32_at(s, off + 8) }
}

pub open spec fn spec_tri_at(s: Seq<u8>, off: int) -> Triangle {
    Triangle {
        normal: spec_vert_at(s, off),
        v1: spec_vert_at(s, off + 12),
        v2: spec_vert_at(s, off + 24),
        v3: spec_vert_at(s, off + 36),
    }
}

/// What the binary parser returns on every input, byte for byte.
pub open spec fn spec_parse_bin(s: Seq<u8>) -> Result<Seq<Triangle>, StlError> {
    if s.len() < 84 {
        Err(StlError::TruncatedBinary)
    } else {
        let n = le32_at(s, 80) as int;
        if 84 + 50 * n > usize::MAX {
            Err(StlError::CountOverflow)
        } else if s.len() < 84 + 50 * n {
            Err(StlError::TruncatedBinary)
        } else {
            Ok(Seq::new(n as nat, |i: int| spec_tri_at(s, 84 + 50 * i)))
        }
    }
}

fn read_u32_le(data: &[u8], off: usize) -> (r: u32)
    requires
        off + 4 <= data@.len(),
        data@.len() <= usize::MAX,
    ensures
        r == le32_at(data@, off as int),
{
    let b0 = data[off] as u32;
    let b1 = data[off + 1] as u32;
    let b2 = data[off + 2] as u32;
    let b3 = data[off + 3] as u32;
    b0 + b1 * 0x100 + b2 * 0x10000 + b3 * 0x1000000
}

fn read_vert(data: &[u8], off: usize) -> (r: Vertex)
    requires
        off + 12 <= data@.len(),
        data@.len() <= usize::MAX,
    ensures
        r == spec_vert_at(data@, off as int),
{
    Vertex {
        x: read_u32_le(data, off),
        y: read_u32_le(data, off + 4),
        z: read_u32_le(data, off + 8),
    }
}

/// Parse the binary layout.  The result is exactly `spec_parse_bin`
/// on the input bytes: the triangles in record order on success,
/// `CountOverflow` when the declared count does not fit the
/// addressable length type, and `TruncatedBinary` when the buffer is
/// shorter than the count demands.
pub fn from_bin(data: &[u8]) -> (r: Result<Solid, StlError>)
    ensures
        r matches Ok(solid) ==> spec_parse_bin(data@) == Ok::<Seq<Triangle>, StlError>(solid@),
        r matches Err(e) ==> spec_parse_bin(data@) == Err::<Seq<Triangle>, StlError>(e),
{
    if data.len() < 84 {
        return Err(StlError::TruncatedBinary);
    }
    let n = read_u32_le(data, 80);
    let needed: u64 = 84u64 + 50u64 * (n as u64);
    if needed > usize::MAX as u64 {
        return Err(StlError::CountOverflow);
    }
    if (data.len() as u64) < needed {
        return Err(StlError::TruncatedBinary);
    }
    let count = n as usize;
    let mut out: Vec<Triangle> = Vec::new();
    let mut i: usize = 0;
    while i < count
        invariant
            0 <= i <= count,
            count == le32_at(data@, 80),
            data@.len() <= usize::MAX,
            84 + 50 * count <= data@.len(),
            out@ =~= Seq::new(i as nat, |k: int| spec_tri_at(data@, 84 + 50 * k)),
        decreases count - i,
    {
        let off = 84 + 50 * i;
        let tri = Triangle {
            normal: read_vert(data, off),
            v1: read_vert(data, off + 12),
            v2: read_vert(data, off + 24),
            v3: read_vert(data, off + 36),
        };
        out.push(tri);
        i = i + 1;
    }
    assert(out@ =~= Seq::new(count as nat, |k: int| spec_tri_at(data@, 84 + 50 * k)));
    Ok(out)
}

/// Byte `k` (0 = least significant) of `v` in its little-endian encoding.
pub open spec fn b0(v: u32) -> u8 {
    (v % 0x100) as u8
}

pub open spec fn b1(v: u32) -> u8 {
    ((v / 0x100) % 0x100) as u8
}

pub open spec fn b2(v: u32) -> u8 {
    ((v / 0x10000) % 0x100) as u8
}

pub open spec fn b3(v: u32) -> u8 {
    ((v / 0x1000000) % 0x100) as u8
}

pub open spec fn le32_bytes(v: u32) -> Seq<u8> {
    seq![b0(v), b1(v), b2(v), b3(v)]
}

pub open spec fn spec_render_vert(v: Vertex) -> Seq<u8> {
    le32_bytes(v.x) + le32_bytes(v.y) + le32_bytes(v.z)
}

pub open spec fn spec_render_tri(t: Triangle) -> Seq<u8> {
    spec_render_vert(t.normal) + spec_render_vert(t.v1) + spec_render_vert(t.v2)
        + spec_render_vert(t.v3) + seq![0u8, 0u8]
}

pub open spec fn spec_render_tris(ts: Seq<Triangle>) -> Seq<u8>
    decreases ts.len(),
{
    if ts.len() == 0 {
        Seq::empty()
    } else {
        spec_render_tri(ts[0]) + spec_render_tris(ts.drop_first())
    }
}

/// The full binary rendering: a zeroed 80-byte header, the count,
/// then the 50-byte records in order.
pub open spec fn spec_render_bin(ts: Seq<Triangle>) -> Seq<u8> {
    Seq::new(80, |i: int| 0u8) + le32_bytes(ts.len() as u32) + spec_render_tris(ts)
}

proof fn lemma_render_vert_len(v: Vertex)
    ensures
        spec_render_vert(v).len() == 12,
{
    assert(le32_bytes(v.x).len() == 4);
    assert(le32_bytes(v.y).len() == 4);
    assert(le32_bytes(v.z).len() == 4);
}

proof fn lemma_render_tri_len(t: Triangle)
    ensures
        spec_render_tri(t).len() == 50,
{
    lemma_render_vert_len(t.normal);
    lemma_render_vert_len(t.v1);
    lemma_render_vert_len(t.v2);
    lemma_render_vert_len(t.v3);
}

#[verifier::rlimit(60)]
proof fn lemma_render_tris_len(ts: Seq<Triangle>)
    ensures
        spec_render_tris(ts).len() == 50 * ts.len(),
    decreases ts.len(),
{
    if ts.len() > 0 {
        lemma_render_tri_len(ts[0]);
        lemma_render_tris_len(ts.drop_first());
    }
}

/// Each record stands at offset `50 * i` of the rendered records and
/// is the rendering of the triangle at index `i`.
proof fn lemma_render_tris_index(ts: Seq<Triangle>, i: int, j: int)
    requires
        0 <= i < ts.len(),
        0 <= j < 50,
    ensures
        spec_render_tris(ts).len() == 50 * ts.len(),
        spec_render_tris(ts)[50 * i + j] == spec_render_tri(ts[i])[j],
    decreases i,
{
    lemma_render_tris_len(ts);
    lemma_render_tris_len(ts.drop_first());
    assert(spec_render_tri(ts[0]).len() == 50);
    if i == 0 {
        assert(spec_render_tris(ts)[j] == spec_render_tri(ts[0])[j]);
    } else {
        lemma_render_tris_index(ts.drop_first(), i - 1, j);
        assert(spec_render_tris(ts)[50 * i + j] == spec_render_tris(ts.drop_first())[50 * (i - 1)
            + j]);
        assert(ts.drop_first()[i - 1] == ts[i]);
    }
}

/// Recomposing a `u32` from its four little-endian bytes gives the
/// value back.
proof fn lemma_le32_decompose(v: u32)
    ensures
        b0(v) + b1(v) * 0x100 + b2(v) * 0x10000 + b3(v) * 0x1000000 == v,
{
    assert(b0(v) + b1(v) * 0x100 + b2(v) * 0x10000 + b3(v) * 0x1000000 == v) by (bit_vector);
}

/// Reading four bytes that equal `le32_bytes(v)` yields `v`.
proof fn lemma_le32_at_bytes(s: Seq<u8>, off: int, v: u32)
    requires
        0 <= off,
        off + 4 <= s.len(),
        s[off] == b0(v),
        s[off + 1] == b1(v),
        s[off + 2] == b2(v),
        s[off + 3] == b3(v),
    ensures
        le32_at(s, off) == v,
{
    lemma_le32_decompose(v);
}

proof fn lemma_vert_at_render(s: Seq<u8>, off: int, v: Vertex)
    requires
        0 <= off,
        off + 12 <= s.len(),
        forall|j: int| 0 <= j < 12 ==> s[off + j] == spec_render_vert(v)[j],
    ensures
        spec_vert_at(s, off) == v,
{
    let r = spec_render_vert(v);
    assert(r[0] == b0(v.x) && r[1] == b1(v.x) && r[2] == b2(v.x) && r[3] == b3(v.x));
    assert(r[4] == b0(v.y) && r[5] == b1(v.y) && r[6] == b2(v.y) && r[7] == b3(v.y));
    assert(r[8] == b0(v.z) && r[9] == b1(v.z) && r[10] == b2(v.z) && r[11] == b3(v.z));
    lemma_le32_at_bytes(s, off, v.x);
    lemma_le32_at_bytes(s, off + 4, v.y);
    lemma_le32_at_bytes(s, off + 8, v.z);
}

#[verifier::rlimit(60)]
proof fn lemma_tri_at_render(s: Seq<u8>, off: int, t: Triangle)
    requires
        0 <= off,
        off + 50 <= s.len(),
        forall|j: int| 0 <= j < 50 ==> s[off + j] == spec_render_tri(t)[j],
    ensures
        spec_tri_at(s, off) == t,
{
    assert forall|j: int| 0 <= j < 12 implies s[off + j] == spec_render_vert(t.normal)[j] by {
        assert(spec_render_tri(t)[j] == spec_render_vert(t.normal)[j]);
    }
    assert forall|j: int| 0 <= j < 12 implies s[off + 12 + j] == spec_render_vert(t.v1)[j] by {
        assert(spec_render_tri(t)[12 + j] == spec_render_vert(t.v1)[j]);
    }
    assert forall|j: int| 0 <= j < 12 implies s[off + 24 + j] == spec_render_vert(t.v2)[j] by {
        assert(spec_render_tri(t)[24 + j] == spec_render_vert(t.v2)[j]);
    }
    assert forall|j: int| 0 <= j < 12 implies s[off + 36 + j] == spec_render_vert(t.v3)[j] by {
        assert(spec_render_tri(t)[36 + j] == spec_render_vert(t.v3)[j]);
    }
    lemma_vert_at_render(s, off, t.normal);
    lemma_vert_at_render(s, off + 12, t.v1);
    lemma_vert_at_render(s, off + 24, t.v2);
    lemma_vert_at_render(s, off + 36, t.v3);
}

/// Rendering a mesh into the binary layout and parsing it back
/// yields the very same triangles, bit for bit.
pub proof fn lemma_bin_round_trip(ts: Seq<Triangle>)
    requires
        ts.len() <= u32::MAX,
        84 + 50 * ts.len() <= usize::MAX,
    ensures
        spec_parse_bin(spec_render_bin(ts)) == Ok::<Seq<Triangle>, StlError>(ts),
{
    let s = spec_render_bin(ts);
    lemma_render_tris_len(ts);
    assert(s.len() == 84 + 50 * ts.len());
    let n = ts.len() as u32;
    assert(s[80] == b0(n) && s[81] == b1(n) && s[82] == b2(n) && s[83] == b3(n));
    lemma_le32_at_bytes(s, 80, n);
    assert(le32_at(s, 80) == ts.len());
    assert forall|i: int| 0 <= i < ts.len() implies spec_tri_at(s, 84 + 50 * i) == ts[i] by {
        assert forall|j: int| 0 <= j < 50 implies s[84 + 50 * i + j] == spec_render_tri(ts[i])[j]
            by {
            lemma_render_tris_index(ts, i, j);
            assert(s[84 + 50 * i + j] == spec_render_tris(ts)[50 * i + j]);
        }
        lemma_tri_at_render(s, 84 + 50 * i, ts[i]);
    }
    let parsed = spec_parse_bin(s);
    assert(parsed matches Ok(r) && r =~= ts);
}

fn push_u32_le(out: &mut Vec<u8>, v: u32)
    ensures
        final(out)@ == old(out)@ + le32_bytes(v),
{
    out.push((v % 0x100) as u8);
    out.push(((v / 0x100) % 0x100) as u8);
    out.push(((v / 0x10000) % 0x100) as u8);
    out.push(((v / 0x1000000) % 0x100) as u8);
    assert(final(out)@ =~= old(out)@ + le32_bytes(v));
}

fn push_vert(out: &mut Vec<u8>, v: &Vertex)
    ensures
        final(out)@ == old(out)@ + spec_render_vert(*v),
{
    push_u32_le(out, v.x);
    push_u32_le(out, v.y);
    push_u32_le(out, v.z);
    assert(final(out)@ =~= old(out)@ + spec_render_vert(*v));
}

/// Render a mesh into the binary layout, zeroed header included.
#[verifier::rlimit(60)]
pub fn to_bin(solid: &Solid) -> (r: Vec<u8>)
    requires
        solid@.len() <= u32::MAX,
    ensures
        r@ == spec_render_bin(solid@),
        spec_parse_bin(r@) == Ok::<Seq<Triangle>, StlError>(solid@),
{
    let mut out: Vec<u8> = Vec::new();
    let mut i: usize = 0;
    while i < 80
        invariant
            0 <= i <= 80,
            out@ =~= Seq::new(i as nat, |k: int| 0u8),
        decreases 80 - i,
    {
        out.push(0u8);
        i = i + 1;
    }
    push_u32_le(&mut out, solid.len() as u32);
    let ghost header = out@;
    let mut t: usize = 0;
    while t < solid.len()
        invariant
            0 <= t <= solid@.len(),
            solid@.len() <= u32::MAX,
            header == Seq::new(80, |k: int| 0u8) + le32_bytes(solid@.len() as u32),
            out@ =~= header + spec_render_tris(solid@.take(t as int)),
        decreases solid@.len() - t,
    {
        let tri = &solid[t];
        push_vert(&mut out, &tri.normal);
        push_vert(&mut out, &tri.v1);
        push_vert(&mut out, &tri.v2);
        push_vert(&mut out, &tri.v3);
        out.push(0u8);
        out.push(0u8);
        proof {
            lemma_render_tris_take_snoc(solid@, t as int);
            assert(out@ =~= header + spec_render_tris(solid@.take(t as int)) + spec_render_tri(
                solid@[t as int],
            ));
        }
        t = t + 1;
    }
    assert(solid@.take(solid@.len() as int) =~= solid@);
    let total = out.len();
    proof {
        lemma_render_tris_len(solid@);
        assert(total == 84 + 50 * solid@.len());
        lemma_bin_round_trip(solid@);
    }
    out
}

/// Rendering one more triangle appends its record.
#[verifier::rlimit(100)]
proof fn lemma_render_tris_take_snoc(ts: Seq<Triangle>, i: int)
    requires
        0 <= i < ts.len(),
    ensures
        spec_render_tris(ts.take(i + 1)) == spec_render_tris(ts.take(i)) + spec_render_tri(ts[i]),
    decreases i,
{
    let a = ts.take(i + 1);
    if i == 0 {
        assert(a.drop_first() =~= Seq::empty());
        assert(spec_render_tris(ts.take(0)) =~= Seq::<u8>::empty());
        assert(spec_render_tris(a) == spec_render_tri(a[0]) + spec_render_tris(Seq::empty()));
        assert(spec_render_tri(ts[0]) + Seq::<u8>::empty() =~= spec_render_tri(ts[0]));
        assert(Seq::<u8>::empty() + spec_render_tri(ts[0]) =~= spec_render_tri(ts[0]));
    } else {
        let t0 = spec_render_tri(ts[0]);
        let x = spec_render_tris(ts.drop_first().take(i - 1));
        let ti = spec_render_tri(ts[i]);
        lemma_render_tris_take_snoc(ts.drop_first(), i - 1);
        assert(a[0] == ts[0]);
        assert(a.drop_first() =~= ts.drop_first().take(i));
        assert(ts.take(i).drop_first() =~= ts.drop_first().take(i - 1));
        assert(ts.drop_first()[i - 1] == ts[i]);
        assert(spec_render_tris(a) == t0 + (x + ti));
        assert(spec_render_tris(ts.take(i)) == t0 + x);
        assert(t0 + (x + ti) =~= (t0 + x) + ti);
    }
}

} // verus!
