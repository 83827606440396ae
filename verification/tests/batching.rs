use gl_renderer::arena::{BoundingSphere, MeshAlloc};
use gl_renderer::batching::{Batches, Drawable, MeshKey};

fn mesh(offset: u32) -> MeshAlloc {
    MeshAlloc { vertex_offset: offset, vertex_count: 24, index_offset: offset, index_count: 36 }
}

fn drawable(offset: u32, mark: u32, material: Option<u32>) -> Drawable {
    Drawable {
        mesh: mesh(offset),
        bounds: BoundingSphere { x: mark, y: 0, z: 0, radius: 1 },
        material,
        model: [mark; 16],
    }
}

#[test]
fn objects_are_grouped_by_mesh_in_order_of_first_use() {
    let mut batches = Batches::new();
    batches.group(&[
        drawable(50, 1, None),
        drawable(0, 2, Some(4)),
        drawable(50, 3, None),
        drawable(0, 4, None),
        drawable(9, 5, None),
    ]);
    let offsets: Vec<u32> = batches.meshes.iter().map(|m| m.vertex_offset).collect();
    assert_eq!(offsets, vec![50, 0, 9]);
    assert_eq!(batches.indices, vec![0, 1, 0, 1, 2]);
    let materials: Vec<u32> = batches.instances.iter().map(|i| i.material_index).collect();
    assert_eq!(materials, vec![0, 4, 0, 0, 0]);
    assert_eq!(batches.instances[2].model, [3; 16]);
    assert_eq!(batches.instances[2].normal, [3; 16]);
    assert_eq!(batches.bounds[4].x, 5);
}

#[test]
fn batches_share_out_the_instances() {
    let mut batches = Batches::new();
    batches.group(&[
        drawable(50, 1, None),
        drawable(0, 2, None),
        drawable(50, 3, None),
        drawable(50, 4, None),
        drawable(9, 5, None),
    ]);
    batches.lay_out();
    assert_eq!(batches.sizes, vec![3, 1, 1]);
    assert_eq!(batches.base, vec![0, 3, 4]);
    assert_eq!(batches.sizes.iter().sum::<u32>(), 5);
    let c = batches.commands[1];
    assert_eq!((c.count, c.instance_count, c.base_instance), (36, 0, 3));
}

#[test]
fn grouping_forgets_the_last_frame() {
    let mut batches = Batches::new();
    batches.group(&[drawable(1, 1, None), drawable(2, 2, None)]);
    batches.group(&[drawable(2, 3, None)]);
    assert_eq!(batches.meshes.len(), 1);
    assert_eq!(batches.indices, vec![0]);
    batches.group(&[]);
    batches.lay_out();
    assert_eq!(batches.instances.len(), 0);
    assert_eq!(batches.commands.len(), 0);
}

#[test]
fn keys_tell_meshes_apart() {
    let a = MeshAlloc { vertex_offset: 1, vertex_count: 2, index_offset: 3, index_count: 4 };
    let b = MeshAlloc { vertex_offset: 1, vertex_count: 2, index_offset: 3, index_count: 5 };
    assert_eq!(MeshKey::from(a).bits, 0x0000_0004_0000_0003_0000_0002_0000_0001);
    assert!(MeshKey::from(a) != MeshKey::from(b));
    assert!(MeshKey::from(a) == MeshKey::from(a));
}
