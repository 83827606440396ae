use gl_renderer::arena::{BoundingSphere, MeshAlloc};
use gl_renderer::components::{Mesh, Transform};
use gl_renderer::drawables::assemble;
use gl_renderer::scene::{entity_index, Scene};

fn transform(mark: u32) -> Transform {
    Transform { position: [mark; 3], rotation_axis: [0; 3], rotation_speed: 0, scale: mark }
}

fn mesh(offset: u32) -> Mesh {
    Mesh(MeshAlloc { vertex_offset: offset, vertex_count: 1, index_offset: 0, index_count: 3 })
}

#[test]
fn spawned_entities_have_their_components() {
    let mut scene = Scene::new();
    assert_eq!(scene.len(), 0);
    let a = scene.spawn(transform(1), mesh(10));
    let b = scene.spawn(transform(2), mesh(20));
    assert_ne!(a, b);
    assert_eq!(scene.len(), 2);
    let row = scene.row(b).unwrap();
    assert_eq!(row.id, b);
    assert_eq!(row.transform, Some(transform(2)));
    assert_eq!(row.mesh, Some(mesh(20)));
    assert_eq!((row.name, row.script, row.material), (None, None, None));
}

#[test]
fn despawned_entities_are_gone() {
    let mut scene = Scene::new();
    let a = scene.spawn(transform(1), mesh(1));
    let b = scene.spawn(transform(2), mesh(1));
    assert!(scene.despawn(a));
    assert!(!scene.despawn(a));
    assert!(scene.row(a).is_none());
    assert!(scene.row(b).is_some());
    assert_eq!(scene.len(), 1);
    let c = scene.spawn(transform(3), mesh(1));
    assert_ne!(c, a);
    assert!(scene.row(a).is_none());
}

#[test]
fn bits_that_are_no_entity_are_refused() {
    let mut scene = Scene::new();
    scene.spawn(transform(1), mesh(1));
    for id in [0, 1, 77, u64::MAX] {
        assert!(!scene.despawn(id));
        assert!(scene.row(id).is_none());
        assert!(!scene.set_name(id, String::from("x")));
        assert!(!scene.set_script(id, String::from("x")));
        assert!(!scene.set_material(id, 1));
        assert!(!scene.remove_script(id));
        assert!(!scene.remove_material(id));
        assert!(!scene.set_transform(id, transform(9)));
    }
    assert_eq!(scene.len(), 1);
}

#[test]
fn components_are_added_replaced_and_removed() {
    let mut scene = Scene::new();
    let a = scene.spawn(transform(1), mesh(1));
    assert!(scene.set_name(a, String::from("one")));
    assert!(scene.set_name(a, String::from("two")));
    assert!(scene.set_script(a, String::from("s.py")));
    assert!(scene.set_material(a, 7));
    assert!(scene.set_transform(a, transform(5)));
    let row = scene.row(a).unwrap();
    assert_eq!(row.name.as_deref(), Some("two"));
    assert_eq!(row.script.as_deref(), Some("s.py"));
    assert_eq!(row.material, Some(7));
    assert_eq!(row.transform, Some(transform(5)));
    assert_eq!(row.mesh, Some(mesh(1)));
    assert!(scene.remove_script(a));
    assert!(!scene.remove_script(a));
    assert!(scene.remove_material(a));
    assert!(!scene.remove_material(a));
    let row = scene.row(a).unwrap();
    assert_eq!((row.script, row.material), (None, None));
    assert_eq!(row.name.as_deref(), Some("two"));
}

#[test]
fn rows_list_every_entity_once() {
    let mut scene = Scene::new();
    let mut ids: Vec<u64> = (0..20).map(|i| scene.spawn(transform(i), mesh(i))).collect();
    for (i, &id) in ids.iter().enumerate() {
        if i % 2 == 0 {
            scene.set_name(id, format!("n{i}"));
        }
        if i % 3 == 0 {
            scene.set_material(id, i as u32);
        }
    }
    scene.despawn(ids[4]);
    ids.remove(4);
    let rows = scene.rows();
    let mut listed: Vec<u64> = rows.iter().map(|r| r.id).collect();
    listed.sort();
    ids.sort();
    assert_eq!(listed, ids);
    for r in &rows {
        let mark = r.transform.unwrap().scale;
        assert_eq!(r.mesh.unwrap().0.vertex_offset, mark);
        assert_eq!(r.name.is_some(), mark % 2 == 0);
        assert_eq!(r.material.is_some(), mark % 3 == 0);
    }
}

#[test]
fn indices_are_the_low_halves() {
    let mut scene = Scene::new();
    let a = scene.spawn(transform(1), mesh(1));
    let b = scene.spawn(transform(1), mesh(1));
    assert_eq!(entity_index(a), Some(0));
    assert_eq!(entity_index(b), Some(1));
    assert_eq!(entity_index(5), None);
    scene.despawn(a);
    let c = scene.spawn(transform(1), mesh(1));
    assert_eq!(entity_index(c), Some(0));
    assert_ne!(a, c);
}

#[test]
fn renderables_become_drawables() {
    let mut scene = Scene::new();
    let a = scene.spawn(transform(1), mesh(10));
    let b = scene.spawn(transform(2), mesh(20));
    scene.set_material(b, 3);
    let mut rs = scene.renderables();
    rs.sort_by_key(|r| r.mesh.0.vertex_offset);
    assert_eq!(rs.len(), 2);
    assert_eq!((rs[0].id, rs[1].id), (a, b));
    assert_eq!((rs[0].material, rs[1].material), (None, Some(3)));
    let bounds = |r: u32| BoundingSphere { x: 0, y: 0, z: 0, radius: r };
    let ds = assemble(&rs, &vec![[7; 16], [8; 16]], &vec![bounds(1), bounds(2)]);
    assert_eq!(ds[1].mesh.vertex_offset, 20);
    assert_eq!(ds[1].material, Some(3));
    assert_eq!(ds[1].model, [8; 16]);
    assert_eq!(ds[0].bounds.radius, 1);
}
