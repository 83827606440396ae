use gl_renderer::arena::{BoundingSphere, MeshAlloc};
use gl_renderer::bounds::MeshBounds;
use gl_renderer::components::{Mesh, Transform};
use gl_renderer::drawables::assemble;
use gl_renderer::gl_init::more_samples;
use gl_renderer::scene::Scene;

fn mesh_at(vertex_offset: u32, index_offset: u32) -> MeshAlloc {
    MeshAlloc { vertex_offset, vertex_count: 4, index_offset, index_count: 6 }
}

fn sphere(mark: u32) -> BoundingSphere {
    BoundingSphere { x: mark, y: mark, z: mark, radius: mark }
}

#[test]
fn bounds_follow_the_mesh() {
    let mut bounds = MeshBounds::new();
    bounds.register(mesh_at(0, 0), sphere(1));
    bounds.register(mesh_at(0, 6), sphere(2));
    bounds.register(mesh_at(4, 0), sphere(3));
    bounds.register(mesh_at(4, 0), sphere(4));
    let mut scene = Scene::new();
    let placed = Transform {
        position: [0; 3],
        rotation_axis: [0; 3],
        rotation_speed: 0,
        scale: 0,
    };
    for mesh in [mesh_at(4, 0), mesh_at(0, 0), mesh_at(0, 6), mesh_at(0, 0)] {
        scene.spawn(placed, Mesh(mesh));
    }
    let renderables = scene.renderables();
    let all = bounds.bounds(&renderables).unwrap();
    let drawables = assemble(&renderables, &vec![[0; 16]; 4], &all);
    assert_eq!(drawables.len(), 4);
    for d in drawables {
        let mark = match (d.mesh.vertex_offset, d.mesh.index_offset) {
            (0, 0) => 1,
            (0, 6) => 2,
            _ => 4,
        };
        assert_eq!((d.bounds.x, d.bounds.radius), (mark, mark));
    }
}

#[test]
fn unknown_meshes_have_no_bounds() {
    let mut bounds = MeshBounds::new();
    bounds.register(mesh_at(0, 0), sphere(1));
    assert!(bounds.get(mesh_at(0, 1)).is_none());
    assert_eq!(bounds.get(mesh_at(0, 0)).unwrap().radius, 1);
    let mut scene = Scene::new();
    assert_eq!(bounds.bounds(&scene.renderables()).unwrap().len(), 0);
    let placed = Transform {
        position: [0; 3],
        rotation_axis: [0; 3],
        rotation_speed: 0,
        scale: 0,
    };
    scene.spawn(placed, Mesh(mesh_at(1, 0)));
    assert!(bounds.bounds(&scene.renderables()).is_none());
}

#[test]
fn only_more_samples_are_better() {
    assert!(more_samples(0, 4));
    assert!(!more_samples(4, 4));
    assert!(!more_samples(8, 4));
}
