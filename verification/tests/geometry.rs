use gl_renderer::arena::PackedVertex;
use gl_renderer::geometry::{generate_cube, generate_sphere};
use glam::Vec3;
use half::f16;

fn unpack(word: u32) -> (f32, f32) {
    (
        f16::from_bits(word as u16).to_f32(),
        f16::from_bits((word >> 16) as u16).to_f32(),
    )
}

fn position(v: &PackedVertex) -> Vec3 {
    let (x, y) = unpack(v.pos_xy);
    Vec3::new(x, y, unpack(v.pos_z).0)
}

fn normal(v: &PackedVertex) -> Vec3 {
    let (x, y) = unpack(v.norm_xy);
    Vec3::new(x, y, unpack(v.norm_z).0)
}

fn bits(v: Vec3) -> [u16; 3] {
    [f16::from_f32(v.x).to_bits(), f16::from_f32(v.y).to_bits(), f16::from_f32(v.z).to_bits()]
}

#[test]
fn cube_has_24_vertices_and_36_indices() {
    let (vertices, indices) = generate_cube();
    assert_eq!(vertices.len(), 24);
    assert_eq!(indices.len(), 36);
    assert_eq!(indices[..6], [0, 1, 2, 0, 2, 3]);
    assert_eq!(indices[30..], [20, 21, 22, 20, 22, 23]);
}

#[test]
fn cube_is_that_of_vector_arithmetic() {
    let normals = [
        Vec3::Z,
        Vec3::new(0.0, 0.0, -1.0),
        Vec3::X,
        Vec3::new(-1.0, 0.0, 0.0),
        Vec3::Y,
        Vec3::new(0.0, -1.0, 0.0),
    ];
    let corners = [[-0.5, -0.5], [0.5, -0.5], [0.5, 0.5], [-0.5, 0.5]];
    let uvs = [[0.0, 0.0], [1.0, 0.0], [1.0, 1.0], [0.0, 1.0]];
    let (vertices, _) = generate_cube();
    for face in 0..6 {
        let n = normals[face];
        let up = if n.y.abs() < 0.9 { Vec3::Y } else { Vec3::X };
        let t = up.cross(n).normalize();
        let b = n.cross(t);
        for corner in 0..4 {
            let pos = n * 0.5 + t * corners[corner][0] + b * corners[corner][1];
            let uv = [
                f16::from_f32(uvs[corner][0]).to_bits(),
                f16::from_f32(uvs[corner][1]).to_bits(),
            ];
            let expected = PackedVertex::new(bits(pos), bits(n), uv);
            let v = vertices[face * 4 + corner];
            assert_eq!(v.pos_xy, expected.pos_xy);
            assert_eq!(v.pos_z, expected.pos_z);
            assert_eq!(v.norm_xy, expected.norm_xy);
            assert_eq!(v.norm_z, expected.norm_z);
            assert_eq!(v.uv_xy, expected.uv_xy);
        }
    }
}

#[test]
fn cube_faces_look_outward() {
    let (vertices, indices) = generate_cube();
    for triangle in indices.chunks(3) {
        let a = position(&vertices[triangle[0] as usize]);
        let b = position(&vertices[triangle[1] as usize]);
        let c = position(&vertices[triangle[2] as usize]);
        let n = normal(&vertices[triangle[0] as usize]);
        assert_eq!((b - a).cross(c - a), n);
        assert_eq!(a.abs(), Vec3::splat(0.5));
    }
}

fn marked(stack: u32, slice: u32) -> PackedVertex {
    PackedVertex::new([stack as u16, slice as u16, 0], [0; 3], [0; 2])
}

#[test]
fn sphere_is_a_grid() {
    let (vertices, indices) = generate_sphere(2, 3, marked);
    assert_eq!(vertices.len(), 12);
    assert_eq!(vertices[0].pos_xy, 0);
    assert_eq!(vertices[6].pos_xy, 0x0002_0001);
    assert_eq!(vertices[11].pos_xy, 0x0003_0002);
    assert_eq!(indices.len(), 36);
    assert_eq!(indices[..6], [0, 4, 1, 1, 4, 5]);
    assert_eq!(indices[30..], [6, 10, 7, 7, 10, 11]);
    assert!(indices.iter().all(|&i| i < 12));
}

#[test]
fn sphere_without_bands_is_a_line() {
    let (vertices, indices) = generate_sphere(0, 3, marked);
    assert_eq!(vertices.len(), 4);
    assert_eq!(indices.len(), 0);
}

#[test]
fn editor_sphere_has_its_size() {
    let (vertices, indices) = generate_sphere(24, 32, marked);
    assert_eq!(vertices.len(), 825);
    assert_eq!(indices.len(), 4608);
}
