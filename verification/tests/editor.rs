use gl_renderer::arena::MeshAlloc;
use gl_renderer::components::{Mesh, Transform};
use gl_renderer::editor::{
    count_meshes, count_unit, delete_selected, despawn_all, despawn_scripted, edit_script,
    fake_alloc, hierarchy_line, hierarchy_rows, material_panel, override_material, spawn_bulk, spawn_cube,
    spawn_scripted, CountUnit,
};
use gl_renderer::gl::{CommandList, ObjectKind};
use gl_renderer::materials::GpuMaterial;
use gl_renderer::renderer::Renderer;
use gl_renderer::scene::{Row, Scene};
use gl_renderer::shader::Shader;

fn transforms(n: u32) -> Vec<Transform> {
    (0..n)
        .map(|i| Transform {
            position: [i; 3],
            rotation_axis: [0; 3],
            rotation_speed: 0,
            scale: 0,
        })
        .collect()
}

fn cube() -> MeshAlloc {
    fake_alloc(0)
}

fn sphere() -> MeshAlloc {
    fake_alloc(1_000)
}

#[test]
fn made_up_allocations_differ() {
    assert_eq!(
        fake_alloc(1_000),
        MeshAlloc { vertex_offset: 1_000, vertex_count: 24, index_offset: 3_000, index_count: 36 }
    );
    assert!(fake_alloc(0) != fake_alloc(1));
}

#[test]
fn bulk_entities_are_numbered_on() {
    let mut scene = Scene::new();
    spawn_cube(&mut scene, cube(), "Cube");
    spawn_cube(&mut scene, sphere(), "Sphere");
    assert_eq!(count_meshes(&mut scene), 2);
    let ids = spawn_bulk(&mut scene, cube(), sphere(), &transforms(5));
    assert_eq!(count_meshes(&mut scene), 7);
    let mut names: Vec<String> = Vec::new();
    let mut cubes: Vec<bool> = Vec::new();
    for (i, &id) in ids.iter().enumerate() {
        let row = scene.row(id).unwrap();
        assert_eq!(row.transform.unwrap().position, [i as u32; 3]);
        assert_eq!(row.script, None);
        names.push(row.name.unwrap());
        cubes.push(row.mesh == Some(Mesh(cube())));
    }
    assert_eq!(names, vec!["bulk_2", "bulk_3", "bulk_4", "bulk_5", "bulk_6"]);
    assert_eq!(cubes, vec![true, false, false, true, false]);
}

#[test]
fn swarm_has_scripts() {
    let mut scene = Scene::new();
    let ids = spawn_scripted(&mut scene, cube(), sphere(), &transforms(3));
    let row = scene.row(ids[1]).unwrap();
    assert_eq!(row.name.as_deref(), Some("swarm_1"));
    assert_eq!(row.script.as_deref(), Some("scripts/swarm.py"));
    assert_eq!(row.mesh, Some(Mesh(sphere())));
    assert_eq!(scene.row(ids[2]).unwrap().mesh, Some(Mesh(cube())));
}

#[test]
fn default_place_of_a_cube() {
    let mut scene = Scene::new();
    let id = spawn_cube(&mut scene, cube(), "Cube");
    let row = scene.row(id).unwrap();
    let t = row.transform.unwrap();
    assert_eq!(t.position, [0; 3]);
    assert_eq!(t.rotation_axis, [0, 1.0f32.to_bits(), 0]);
    assert_eq!(t.rotation_speed, 0.5f32.to_bits());
    assert_eq!(t.scale, 1.0f32.to_bits());
    assert_eq!(row.name.as_deref(), Some("Cube"));
}

#[test]
fn despawning_the_swarm_keeps_the_rest() {
    let mut scene = Scene::new();
    let kept = spawn_cube(&mut scene, cube(), "Cube");
    let swarm = spawn_scripted(&mut scene, cube(), sphere(), &transforms(4));
    assert_eq!(despawn_scripted(&mut scene, Some(kept)), Some(kept));
    assert_eq!(scene.len(), 1);
    assert!(scene.row(kept).is_some());
    assert!(scene.row(swarm[0]).is_none());
}

#[test]
fn a_despawned_selection_is_lost() {
    let mut scene = Scene::new();
    let swarm = spawn_scripted(&mut scene, cube(), sphere(), &transforms(4));
    assert_eq!(despawn_scripted(&mut scene, Some(swarm[2])), None);
    assert_eq!(despawn_scripted(&mut scene, None), None);
    let id = spawn_cube(&mut scene, cube(), "Cube");
    assert_eq!(despawn_all(&mut scene, Some(id)), None);
    assert_eq!(scene.len(), 0);
    assert_eq!(despawn_all(&mut scene, Some(id)), Some(id));
}

#[test]
fn deleting_the_selection() {
    let mut scene = Scene::new();
    let id = spawn_cube(&mut scene, cube(), "Cube");
    assert_eq!(delete_selected(&mut scene, None), None);
    assert_eq!(scene.len(), 1);
    assert_eq!(delete_selected(&mut scene, Some(id)), None);
    assert_eq!(scene.len(), 0);
}

#[test]
fn lines_of_the_hierarchy() {
    let mut scene = Scene::new();
    let a = spawn_cube(&mut scene, cube(), "Cube");
    let b = spawn_bulk(&mut scene, cube(), sphere(), &transforms(1))[0];
    assert_eq!(hierarchy_line(&scene.row(a).unwrap()).unwrap(), "Cube##0");
    assert_eq!(hierarchy_line(&scene.row(b).unwrap()).unwrap(), "bulk_1##1");
    let c = scene.spawn(transforms(1)[0], Mesh(cube()));
    assert_eq!(hierarchy_line(&scene.row(c).unwrap()).unwrap(), "Entity 2##2");
}

#[test]
fn editing_a_script() {
    let mut scene = Scene::new();
    let id = spawn_cube(&mut scene, cube(), "Cube");
    edit_script(&mut scene, id, String::from("a.py"));
    assert_eq!(scene.row(id).unwrap().script.as_deref(), Some("a.py"));
    edit_script(&mut scene, id, String::from("a.py"));
    assert_eq!(scene.row(id).unwrap().script.as_deref(), Some("a.py"));
    edit_script(&mut scene, id, String::new());
    assert_eq!(scene.row(id).unwrap().script, None);
    edit_script(&mut scene, 12, String::from("a.py"));
    assert_eq!(scene.len(), 1);
}

#[test]
fn overriding_a_material() {
    let mut gl = CommandList::new();
    let mut shader = || {
        let program = gl.create(ObjectKind::Program);
        Shader::new_compute(program, String::from("x.comp"), 0)
    };
    let (main, cull, hzb) = (shader(), shader(), shader());
    let plain = GpuMaterial { base_color: [1, 2, 3, 4], roughness: 5, metallic: 6 };
    let mut renderer = Renderer::new(&mut gl, main, cull, hzb, plain);
    renderer.seal_static_materials();
    let mut scene = Scene::new();
    let id = spawn_cube(&mut scene, cube(), "Cube");
    let before = material_panel(&renderer, &mut scene, id);
    assert_eq!((before.index, before.is_override), (0, false));
    assert_eq!(before.material.unwrap().metallic, 6);
    let index = override_material(&mut renderer, &mut gl, &mut scene, id, plain);
    assert_eq!(index, 1);
    assert_eq!(scene.row(id).unwrap().material, Some(1));
    let after = material_panel(&renderer, &mut scene, id);
    assert_eq!((after.index, after.is_override), (1, true));
    assert_eq!(after.material.unwrap().base_color, [1, 2, 3, 4]);
    let other = GpuMaterial { base_color: [0; 4], roughness: 0, metallic: 0 };
    scene.set_material(id, 99);
    assert!(material_panel(&renderer, &mut scene, id).material.is_none());
    assert_eq!(override_material(&mut renderer, &mut gl, &mut scene, id, other), 2);
    assert_eq!(renderer.material(2).unwrap().roughness, 0);
}

#[test]
fn units_of_counts() {
    assert_eq!(count_unit(0), CountUnit::Plain);
    assert_eq!(count_unit(999), CountUnit::Plain);
    assert_eq!(count_unit(1_000), CountUnit::Thousands);
    assert_eq!(count_unit(999_999), CountUnit::Thousands);
    assert_eq!(count_unit(1_000_000), CountUnit::Millions);
}

#[test]
fn hierarchy_lists_what_has_a_mesh() {
    let row = |id: u64, mesh: Option<Mesh>| Row {
        id,
        transform: None,
        mesh,
        name: None,
        script: None,
        material: None,
    };
    let rows = vec![
        row(10, Some(Mesh(cube()))),
        row(11, None),
        row(12, Some(Mesh(sphere()))),
        row(13, Some(Mesh(cube()))),
        row(14, None),
    ];
    assert_eq!(hierarchy_rows(&rows), vec![0, 2, 3]);
    assert_eq!(hierarchy_rows(&vec![]), vec![]);
}
