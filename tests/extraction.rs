use mesh_colliders::geometry::{
    decode_indices, extract_geometry, group_points, group_triangles, group_triangles_u16, Indices,
    MeshData, Point, Positions, Triangle,
};

fn bits(v: &[f32]) -> Vec<u32> {
    v.iter().map(|f| f.to_bits()).collect()
}

fn pt(x: f32, y: f32, z: f32) -> Point {
    Point { x: x.to_bits(), y: y.to_bits(), z: z.to_bits() }
}

#[test]
fn flat_positions_drop_trailing_component() {
    let flat = bits(&[0.0, 1.0, 2.0, 3.0, 4.0, 5.0, 6.0, 7.0, 8.0, 9.0]);
    let mesh = MeshData {
        positions: Some(Positions::Flat(flat)),
        indices: Some(Indices::U32(vec![0, 1, 2])),
    };
    let g = extract_geometry(&mesh).expect("geometry");
    assert_eq!(g.vertices.len(), 3);
    assert_eq!(g.vertices, vec![pt(0.0, 1.0, 2.0), pt(3.0, 4.0, 5.0), pt(6.0, 7.0, 8.0)]);
    assert_eq!(g.triangles, vec![Triangle { a: 0, b: 1, c: 2 }]);
}

#[test]
fn flat_positions_two_extra_components() {
    let flat = bits(&[1.5, -2.5, 3.25, 4.0, 5.0]);
    assert_eq!(group_points(&flat), vec![pt(1.5, -2.5, 3.25)]);
}

#[test]
fn flat_positions_empty_and_short() {
    assert!(group_points(&Vec::new()).is_empty());
    assert!(group_points(&bits(&[1.0, 2.0])).is_empty());
}

#[test]
fn triple_positions_keep_order() {
    let pts = vec![pt(3.0, 2.0, 1.0), pt(-1.0, 0.5, 9.0), pt(0.0, 0.0, 0.0), pt(3.0, 2.0, 1.0)];
    let mesh = MeshData {
        positions: Some(Positions::Triples(pts.clone())),
        indices: Some(Indices::U16(vec![0, 1, 2, 1, 2, 3])),
    };
    let g = extract_geometry(&mesh).expect("geometry");
    assert_eq!(g.vertices, pts);
    assert_eq!(g.triangles, vec![Triangle { a: 0, b: 1, c: 2 }, Triangle { a: 1, b: 2, c: 3 }]);
}

#[test]
fn missing_positions_give_nothing() {
    let mesh = MeshData { positions: None, indices: Some(Indices::U32(vec![0, 1, 2])) };
    assert!(extract_geometry(&mesh).is_none());
}

#[test]
fn missing_indices_give_nothing() {
    let mesh = MeshData { positions: Some(Positions::Flat(bits(&[0.0, 0.0, 0.0]))), indices: None };
    assert!(extract_geometry(&mesh).is_none());
}

#[test]
fn unsupported_positions_give_nothing() {
    let mesh = MeshData {
        positions: Some(Positions::Unsupported),
        indices: Some(Indices::U32(vec![0, 1, 2])),
    };
    assert!(extract_geometry(&mesh).is_none());
}

#[test]
fn u16_indices_drop_partial_group_and_widen() {
    let idx: Vec<u16> = vec![0, 1, 65535, 3, 4, 5, 6];
    let tris = group_triangles_u16(&idx);
    assert_eq!(tris, vec![Triangle { a: 0, b: 1, c: 65535 }, Triangle { a: 3, b: 4, c: 5 }]);
    assert_eq!(decode_indices(&Indices::U16(idx)), tris);
}

#[test]
fn u32_indices_drop_partial_group() {
    let idx: Vec<u32> = vec![7, 8, 70000, 1];
    assert_eq!(group_triangles(&idx), vec![Triangle { a: 7, b: 8, c: 70000 }]);
    assert!(group_triangles(&vec![1, 2]).is_empty());
}

#[test]
fn tetrahedron_geometry_passes_through() {
    let flat = bits(&[0.0, 0.0, 0.0, 1.0, 0.0, 0.0, 0.0, 1.0, 0.0, 0.0, 0.0, 1.0]);
    let mesh = MeshData {
        positions: Some(Positions::Flat(flat)),
        indices: Some(Indices::U16(vec![0, 2, 1, 0, 1, 3, 0, 3, 2, 1, 2, 3])),
    };
    let g = extract_geometry(&mesh).expect("geometry");
    assert_eq!(g.vertices.len(), 4);
    assert_eq!(g.triangles.len(), 4);
    assert_eq!(g.vertices[3], pt(0.0, 0.0, 1.0));
    assert_eq!(g.triangles[3], Triangle { a: 1, b: 2, c: 3 });
}
