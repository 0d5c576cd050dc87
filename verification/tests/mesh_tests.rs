use model_browser::mesh::{default_color, Mesh, MESH_MAGIC, MESH_VERSION};
use model_browser::stl::{self, parse_stl_vertices, weld_vertices, StlError, VertexKey, MAX_STL_TRIANGLES};

/// Weld key of a coordinate: the value rounded to 0.0001 mm.
fn quantize(bits: u32) -> i64 {
    (f32::from_bits(bits) * 10000.0).round() as i64
}

fn read_binary_stl(data: &[u8]) -> Result<Mesh, StlError> {
    stl::read_binary_stl(data, quantize)
}

fn push_vertex(data: &mut Vec<u8>, v: (f32, f32, f32)) {
    data.extend_from_slice(&v.0.to_le_bytes());
    data.extend_from_slice(&v.1.to_le_bytes());
    data.extend_from_slice(&v.2.to_le_bytes());
}

/// A minimal binary STL with one triangle.
fn make_test_stl() -> Vec<u8> {
    let mut data = Vec::new();
    data.extend_from_slice(&[0u8; 80]);
    data.extend_from_slice(&1u32.to_le_bytes());
    push_vertex(&mut data, (0.0, 0.0, 1.0));
    push_vertex(&mut data, (0.0, 0.0, 0.0));
    push_vertex(&mut data, (1.0, 0.0, 0.0));
    push_vertex(&mut data, (0.0, 1.0, 0.0));
    data.extend_from_slice(&0u16.to_le_bytes());
    data
}

fn word(wire: &[u8], at: usize) -> u32 {
    u32::from_le_bytes([wire[at], wire[at + 1], wire[at + 2], wire[at + 3]])
}

#[test]
fn test_read_single_triangle_stl() {
    let mesh = read_binary_stl(&make_test_stl()).unwrap();
    assert_eq!(mesh.vertex_count(), 3);
    assert_eq!(mesh.triangle_count(), 1);
    assert_eq!(mesh.indices, vec![0, 1, 2]);
}

#[test]
fn test_vertex_deduplication() {
    let mut data = Vec::new();
    data.extend_from_slice(&[0u8; 80]);
    data.extend_from_slice(&2u32.to_le_bytes());
    data.extend_from_slice(&[0u8; 12]);
    for v in [(0.0f32, 0.0f32, 0.0f32), (1.0, 0.0, 0.0), (0.0, 1.0, 0.0)] {
        push_vertex(&mut data, v);
    }
    data.extend_from_slice(&0u16.to_le_bytes());
    data.extend_from_slice(&[0u8; 12]);
    for v in [(1.0f32, 0.0f32, 0.0f32), (1.0, 1.0, 0.0), (0.0, 1.0, 0.0)] {
        push_vertex(&mut data, v);
    }
    data.extend_from_slice(&0u16.to_le_bytes());

    let mesh = read_binary_stl(&data).unwrap();
    assert_eq!(mesh.vertex_count(), 4);
    assert_eq!(mesh.triangle_count(), 2);
}

#[test]
fn test_wire_format_roundtrip() {
    let mesh = read_binary_stl(&make_test_stl()).unwrap();
    let wire = mesh.to_wire_format();
    assert_eq!(word(&wire, 0), MESH_MAGIC);
    assert_eq!(word(&wire, 4), MESH_VERSION);
    assert_eq!(word(&wire, 8), 3);
    assert_eq!(word(&wire, 12), 1);
    assert_eq!(wire.len(), 100);
}

#[test]
fn test_stl_gets_default_color() {
    let mesh = read_binary_stl(&make_test_stl()).unwrap();
    assert_eq!(mesh.colors.len(), mesh.vertex_count() as usize * 3);
    for chunk in mesh.colors.chunks_exact(3) {
        assert_eq!(chunk, default_color());
    }
}

#[test]
fn test_rejects_truncated_stl() {
    let mut data = Vec::new();
    data.extend_from_slice(&[0u8; 80]);
    data.extend_from_slice(&5u32.to_le_bytes());
    data.extend_from_slice(&[0u8; 50]);
    let result = read_binary_stl(&data);
    assert!(result.is_err());
}

#[test]
fn default_color_is_linear_light_blue() {
    let c = default_color();
    assert_eq!(f32::from_bits(c[0]), 0.254_152_1);
    assert_eq!(f32::from_bits(c[1]), 0.456_411_02);
    assert_eq!(f32::from_bits(c[2]), 0.938_685_7);
}

#[test]
fn stl_too_short_is_refused() {
    assert_eq!(parse_stl_vertices(&[0u8; 83]), Err(StlError::TooShort));
}

#[test]
fn stl_absurd_triangle_count_is_refused() {
    let mut data = vec![0u8; 80];
    data.extend_from_slice(&(MAX_STL_TRIANGLES + 1).to_le_bytes());
    assert_eq!(
        parse_stl_vertices(&data),
        Err(StlError::TooManyTriangles { count: 50_000_001 })
    );
}

#[test]
fn stl_truncated_error_reports_sizes() {
    let mut data = vec![0u8; 80];
    data.extend_from_slice(&5u32.to_le_bytes());
    data.extend_from_slice(&[0u8; 50]);
    assert_eq!(
        parse_stl_vertices(&data),
        Err(StlError::Truncated { expected: 334, triangles: 5, actual: 134 })
    );
}

#[test]
fn stl_vertex_words_skip_normal_and_attribute() {
    let words = parse_stl_vertices(&make_test_stl()).unwrap();
    let expected: Vec<u32> = [0.0f32, 0.0, 0.0, 1.0, 0.0, 0.0, 0.0, 1.0, 0.0]
        .iter()
        .map(|f| f.to_bits())
        .collect();
    assert_eq!(words, expected);
}

#[test]
fn stl_empty_file_gives_empty_mesh() {
    let mut data = vec![0u8; 80];
    data.extend_from_slice(&0u32.to_le_bytes());
    let mesh = read_binary_stl(&data).unwrap();
    assert_eq!(mesh.vertex_count(), 0);
    assert_eq!(mesh.triangle_count(), 0);
    assert!(mesh.colors.is_empty());
}

#[test]
fn weld_keeps_first_position_and_indices_in_range() {
    // Two vertices share a key though their coordinates differ: the first one is kept.
    let words = vec![1, 2, 3, 4, 5, 6, 7, 8, 9];
    let keys: Vec<VertexKey> = vec![(0, 0, 0), (1, 1, 1), (0, 0, 0)];
    let mesh = weld_vertices(&words, &keys);
    assert_eq!(mesh.positions, vec![1, 2, 3, 4, 5, 6]);
    assert_eq!(mesh.indices, vec![0, 1, 0]);
    assert!(mesh.indices.iter().all(|&i| i < mesh.vertex_count()));
}

#[test]
fn append_offsets_indices() {
    let mut a = Mesh::new();
    a.positions = vec![0; 6];
    a.indices = vec![0, 1, 1];
    a.colors = vec![7; 6];
    let mut b = Mesh::new();
    b.positions = vec![1; 9];
    b.indices = vec![0, 1, 2];
    b.colors = vec![8; 9];
    a.append(&b);
    assert_eq!(a.vertex_count(), 5);
    assert_eq!(a.indices, vec![0, 1, 1, 2, 3, 4]);
    assert_eq!(a.colors.len(), 15);
    assert_eq!(a.positions.len(), 15);
}

#[test]
fn fill_color_repeats_per_vertex() {
    let mut m = Mesh::new();
    m.positions = vec![0; 6];
    m.colors = vec![9; 3];
    m.fill_color([1, 2, 3]);
    assert_eq!(m.colors, vec![1, 2, 3, 1, 2, 3]);
}

#[test]
fn wire_format_is_little_endian_payload() {
    let mut m = Mesh::new();
    m.positions = vec![0x0102_0304, 5, 6];
    m.indices = vec![0, 0, 0];
    m.colors = vec![0xAABB_CCDD, 0, 0];
    let wire = m.to_wire_format();
    assert_eq!(wire.len(), 16 + 4 * 9);
    assert_eq!(&wire[16..20], &[4, 3, 2, 1]);
    assert_eq!(word(&wire, 16 + 4 * 6), 0xAABB_CCDD);
    assert_eq!(word(&wire, 8), 1);
    assert_eq!(word(&wire, 12), 1);
}
