use stl::{compute_normal, from_ascii, from_bin, read_stl, to_ascii, to_bin, try_to_ascii, StlError, Triangle, Vertex};

fn vert(x: f32, y: f32, z: f32) -> Vertex {
    Vertex { x: x.to_bits(), y: y.to_bits(), z: z.to_bits() }
}

fn tri(n: [f32; 3], a: [f32; 3], b: [f32; 3], c: [f32; 3]) -> Triangle {
    Triangle {
        normal: vert(n[0], n[1], n[2]),
        v1: vert(a[0], a[1], a[2]),
        v2: vert(b[0], b[1], b[2]),
        v3: vert(c[0], c[1], c[2]),
    }
}

fn push_f32(out: &mut Vec<u8>, v: f32) {
    out.extend_from_slice(&v.to_bits().to_le_bytes());
}

fn bin_record(out: &mut Vec<u8>, t: &Triangle) {
    for v in [&t.normal, &t.v1, &t.v2, &t.v3] {
        out.extend_from_slice(&v.x.to_le_bytes());
        out.extend_from_slice(&v.y.to_le_bytes());
        out.extend_from_slice(&v.z.to_le_bytes());
    }
    out.push(0);
    out.push(0);
}

fn bin_buffer(count: u32, tris: &[Triangle]) -> Vec<u8> {
    let mut out = vec![0u8; 80];
    out.extend_from_slice(&count.to_le_bytes());
    for t in tris {
        bin_record(&mut out, t);
    }
    out
}

#[test]
fn it_works() {
}

#[test]
fn empty_solid_parses_to_zero_triangles() {
    let mesh = from_ascii(b"solid\nendsolid\n").unwrap();
    assert_eq!(mesh.len(), 0);
    let mesh = read_stl(b"solid\nendsolid\n").unwrap();
    assert_eq!(mesh.len(), 0);
}

#[test]
fn named_solid_matching_name_parses() {
    let mesh = from_ascii(b"solid widget\nendsolid widget\n").unwrap();
    assert_eq!(mesh.len(), 0);
}

#[test]
fn named_solid_mismatch_is_malformed() {
    assert_eq!(from_ascii(b"solid foo\nendsolid bar\n"), Err(StlError::MalformedText));
}

#[test]
fn missing_endsolid_is_malformed() {
    assert_eq!(from_ascii(b"solid foo\n"), Err(StlError::MalformedText));
}

#[test]
fn trailing_tokens_after_endsolid_are_malformed() {
    assert_eq!(from_ascii(b"solid\nendsolid\nextra"), Err(StlError::MalformedText));
}

#[test]
fn one_facet_text_parses_exact_values() {
    let text = b"solid\n facet normal 0 0 1\n  outer loop\n   vertex 1.5 0 0\n   vertex 0 2.5 0\n   vertex 0 0 3.25\n  endloop\n endfacet\nendsolid\n";
    let mesh = from_ascii(text).unwrap();
    assert_eq!(mesh.len(), 1);
    let t = &mesh[0];
    assert_eq!(t.normal.z, 1.0f32.to_bits());
    assert_eq!(t.v1.x, 1.5f32.to_bits());
    assert_eq!(t.v2.y, 2.5f32.to_bits());
    assert_eq!(t.v3.z, 3.25f32.to_bits());
    assert_eq!(t.v1.y, 0.0f32.to_bits());
}

#[test]
fn scientific_notation_and_signs_parse() {
    let text = b"solid s facet normal -1e0 0 0 outer loop vertex 2.5e-1 0 0 vertex 0 1E2 0 vertex 0 0 -0.5 endloop endfacet endsolid s";
    let mesh = from_ascii(text).unwrap();
    assert_eq!(mesh.len(), 1);
    assert_eq!(mesh[0].normal.x, (-1.0f32).to_bits());
    assert_eq!(mesh[0].v1.x, 0.25f32.to_bits());
    assert_eq!(mesh[0].v2.y, 100.0f32.to_bits());
    assert_eq!(mesh[0].v3.z, (-0.5f32).to_bits());
}

#[test]
fn unparseable_float_token_is_malformed() {
    let text = b"solid facet normal 0 0 abc outer loop vertex 0 0 0 vertex 1 0 0 vertex 0 1 0 endloop endfacet endsolid";
    assert_eq!(from_ascii(text), Err(StlError::MalformedText));
}

#[test]
fn insufficient_vertices_is_malformed() {
    let text = b"solid facet normal 0 0 1 outer loop vertex 0 0 0 vertex 1 0 0 endloop endfacet endsolid";
    assert_eq!(from_ascii(text), Err(StlError::MalformedText));
}

#[test]
fn text_round_trip_preserves_bits() {
    let mesh = vec![
        tri([0.0, 0.0, 1.0], [1.5, -2.25, 0.0], [3.14159274, 1e-7, -0.0], [1e20, -1e-20, 42.0]),
        tri([-0.5, 0.25, 0.125], [0.1, 0.2, 0.3], [-7.0, 8.5, -9.75], [1234.5678, -0.001, 2.0]),
    ];
    let text = to_ascii(&mesh);
    let back = from_ascii(&text).unwrap();
    assert_eq!(back, mesh);
}

#[test]
fn text_round_trip_empty_mesh() {
    let mesh: Vec<Triangle> = Vec::new();
    let text = to_ascii(&mesh);
    let back = from_ascii(&text).unwrap();
    assert_eq!(back.len(), 0);
}

#[test]
fn rendered_text_reads_as_the_grammar() {
    let mesh = vec![tri([0.0, 0.0, 1.0], [0.0, 0.0, 0.0], [1.0, 0.0, 0.0], [0.0, 1.0, 0.0])];
    let text = to_ascii(&mesh);
    let s = String::from_utf8(text).unwrap();
    assert!(s.starts_with("solid"));
    assert!(s.contains("facet"));
    assert!(s.contains("vertex"));
    assert!(s.contains("endsolid"));
}

#[test]
fn binary_round_trip_preserves_bits() {
    let mesh = vec![
        tri([0.0, 0.0, 1.0], [1.5, -2.25, 0.0], [f32::NAN, f32::INFINITY, -0.0], [1e20, -1e-20, 42.0]),
        tri([-0.5, 0.25, 0.125], [0.1, 0.2, 0.3], [-7.0, 8.5, -9.75], [1234.5678, -0.001, 2.0]),
    ];
    let buf = to_bin(&mesh);
    assert_eq!(buf.len(), 84 + 50 * mesh.len());
    assert_eq!(&buf[80..84], &2u32.to_le_bytes());
    let back = from_bin(&buf).unwrap();
    // NaN bits survive the binary layout untouched
    assert_eq!(back, mesh);
}

#[test]
fn binary_zero_count_is_empty_mesh() {
    let buf = bin_buffer(0, &[]);
    let mesh = from_bin(&buf).unwrap();
    assert_eq!(mesh.len(), 0);
}

#[test]
fn binary_surplus_bytes_are_tolerated() {
    let t = tri([0.0, 0.0, 1.0], [0.0, 0.0, 0.0], [1.0, 0.0, 0.0], [0.0, 1.0, 0.0]);
    let mut buf = bin_buffer(1, &[t]);
    buf.extend_from_slice(b"junk trailing bytes");
    let mesh = from_bin(&buf).unwrap();
    assert_eq!(mesh, vec![t]);
}

#[test]
fn truncated_binary_fails() {
    let t = tri([0.0, 0.0, 1.0], [0.0, 0.0, 0.0], [1.0, 0.0, 0.0], [0.0, 1.0, 0.0]);
    // declares five records but holds only two
    let buf = bin_buffer(5, &[t, t]);
    assert_eq!(from_bin(&buf), Err(StlError::TruncatedBinary));
}

#[test]
fn binary_shorter_than_header_fails() {
    assert_eq!(from_bin(&[0u8; 40]), Err(StlError::TruncatedBinary));
    assert_eq!(from_bin(b""), Err(StlError::TruncatedBinary));
}

#[test]
fn binary_values_read_little_endian() {
    let mut buf = vec![0u8; 80];
    buf.extend_from_slice(&1u32.to_le_bytes());
    // normal (0,0,1), vertices (1,2,3) (4,5,6) (7,8,9)
    for v in [[0.0f32, 0.0, 1.0], [1.0, 2.0, 3.0], [4.0, 5.0, 6.0], [7.0, 8.0, 9.0]] {
        for c in v {
            push_f32(&mut buf, c);
        }
    }
    buf.push(0);
    buf.push(0);
    let mesh = from_bin(&buf).unwrap();
    assert_eq!(mesh.len(), 1);
    assert_eq!(mesh[0].normal.z, 1.0f32.to_bits());
    assert_eq!(mesh[0].v1.x, 1.0f32.to_bits());
    assert_eq!(mesh[0].v2.y, 5.0f32.to_bits());
    assert_eq!(mesh[0].v3.z, 9.0f32.to_bits());
}

#[test]
fn dispatcher_falls_back_to_binary() {
    // all-zero header: fails the text grammar, is a valid empty binary mesh
    let buf = bin_buffer(0, &[]);
    assert_eq!(from_ascii(&buf), Err(StlError::MalformedText));
    let mesh = read_stl(&buf).unwrap();
    assert_eq!(mesh.len(), 0);
}

#[test]
fn dispatcher_tries_text_first() {
    let text = b"solid facet normal 0 0 1 outer loop vertex 0 0 0 vertex 1 0 0 vertex 0 1 0 endloop endfacet endsolid";
    let mesh = read_stl(text).unwrap();
    assert_eq!(mesh.len(), 1);
    assert_eq!(mesh[0].v2.x, 1.0f32.to_bits());
}

#[test]
fn dispatcher_rejects_garbage() {
    assert_eq!(read_stl(b"neither format at all"), Err(StlError::UnrecognizedFormat));
    assert_eq!(read_stl(b""), Err(StlError::UnrecognizedFormat));
}

#[test]
fn normal_of_right_triangle_is_unit_z() {
    let t = tri([0.0, 0.0, 0.0], [0.0, 0.0, 0.0], [1.0, 0.0, 0.0], [0.0, 1.0, 0.0]);
    let n = compute_normal(&t).unwrap();
    let (nx, ny, nz) = (f32::from_bits(n.x), f32::from_bits(n.y), f32::from_bits(n.z));
    assert!(nx.abs() < 1e-5);
    assert!(ny.abs() < 1e-5);
    assert!((nz - 1.0).abs() < 1e-5);
    let len = (nx * nx + ny * ny + nz * nz).sqrt();
    assert!((len - 1.0).abs() < 1e-5);
}

#[test]
fn normal_follows_right_hand_rule() {
    // swapping two vertices flips the normal's sign
    let t = tri([0.0, 0.0, 0.0], [0.0, 0.0, 0.0], [0.0, 1.0, 0.0], [1.0, 0.0, 0.0]);
    let n = compute_normal(&t).unwrap();
    assert!((f32::from_bits(n.z) + 1.0).abs() < 1e-5);
}

#[test]
fn degenerate_normal_of_colinear_vertices() {
    let t = tri([0.0, 0.0, 0.0], [0.0, 0.0, 0.0], [1.0, 1.0, 1.0], [2.0, 2.0, 2.0]);
    assert_eq!(compute_normal(&t), Err(StlError::DegenerateNormal));
}

#[test]
fn degenerate_normal_of_coincident_vertices() {
    let t = tri([0.0, 0.0, 0.0], [3.0, 4.0, 5.0], [3.0, 4.0, 5.0], [3.0, 4.0, 5.0]);
    assert_eq!(compute_normal(&t), Err(StlError::DegenerateNormal));
}

#[test]
fn whitespace_between_tokens_is_free() {
    let text = b"  solid\r\n\tfacet\t normal  0   0  1\nouter \t loop\nvertex 1 2 3 vertex 4 5 6 vertex 7 8 9\nendloop endfacet\r\nendsolid  \r\n";
    let mesh = from_ascii(text).unwrap();
    assert_eq!(mesh.len(), 1);
    assert_eq!(mesh[0].v1.y, 2.0f32.to_bits());
}

#[test]
fn try_to_ascii_rejects_non_finite_coordinates() {
    let good = tri([0.0, 0.0, 1.0], [0.0, 0.0, 0.0], [1.0, 0.0, 0.0], [0.0, 1.0, 0.0]);
    let bad = tri([0.0, 0.0, f32::NAN], [0.0, 0.0, 0.0], [1.0, 0.0, 0.0], [0.0, 1.0, 0.0]);
    assert!(try_to_ascii(&vec![good, bad]).is_none());
    let inf = tri([0.0, 0.0, f32::INFINITY], [0.0, 0.0, 0.0], [1.0, 0.0, 0.0], [0.0, 1.0, 0.0]);
    assert!(try_to_ascii(&vec![inf]).is_none());
    let text = try_to_ascii(&vec![good]).unwrap();
    assert_eq!(from_ascii(&text).unwrap(), vec![good]);
}
