use gl_renderer::arena::MeshAlloc;
use gl_renderer::components::{Mesh, Transform};
use gl_renderer::scene::Scene;
use gl_renderer::scripting::{
    chunk_size, dispatches, find_name, new_spawn, write_back, EntityProxy, SceneProxy, ScriptHost,
    Scripted,
};

fn mesh_at(offset: u32) -> MeshAlloc {
    MeshAlloc { vertex_offset: offset, vertex_count: 24, index_offset: 3 * offset, index_count: 36 }
}

fn transform(mark: u32) -> Transform {
    Transform { position: [mark; 3], rotation_axis: [1; 3], rotation_speed: 2, scale: 3 }
}

fn host() -> ScriptHost {
    let mut host = ScriptHost::new();
    host.register_mesh(String::from("cube"), mesh_at(0));
    host.register_mesh(String::from("sphere"), mesh_at(1_000));
    host
}

fn spawn(mesh: &str, name: Option<&str>) -> EntityProxy {
    new_spawn(
        String::from(mesh),
        name.map(String::from),
        None,
        None,
        None,
        None,
        None,
    )
}

#[test]
fn meshes_are_found_by_name() {
    let mut host = host();
    assert_eq!(host.mesh_named(&String::from("sphere")), Some(mesh_at(1_000)));
    assert_eq!(host.mesh_named(&String::from("torus")), None);
    host.register_mesh(String::from("cube"), mesh_at(7));
    assert_eq!(host.mesh_named(&String::from("cube")), Some(mesh_at(7)));
    let mut names = host.mesh_names();
    names.sort();
    assert_eq!(names, vec!["cube", "sphere"]);
}

#[test]
fn defaults_of_a_spawn() {
    let p = spawn("cube", None);
    assert_eq!(p.entity, None);
    assert_eq!(p.name, "");
    assert_eq!(p.position, [0; 3]);
    assert_eq!(p.rotation_axis, [0, 1.0f32.to_bits(), 0]);
    assert_eq!(p.rotation_speed, 0.5f32.to_bits());
    assert_eq!(p.scale, 1.0f32.to_bits());
    assert_eq!(p.script, None);
    assert!(!p.despawn_flag);
}

#[test]
fn what_is_given_is_taken_over() {
    let mut scene = SceneProxy {
        entities: vec![],
        spawns: vec![],
        mesh_names: vec![String::from("cube")],
    };
    scene.spawn(
        String::from("cube"),
        Some(String::from("n")),
        Some([1, 2, 3]),
        Some([4, 5, 6]),
        Some(7),
        Some(8),
        Some(String::from("s.py")),
    );
    let p = &scene.spawns[0];
    assert_eq!((p.position, p.rotation_axis), ([1, 2, 3], [4, 5, 6]));
    assert_eq!((p.rotation_speed, p.scale), (7, 8));
    assert_eq!(p.name, "n");
    assert_eq!(p.script.as_deref(), Some("s.py"));
    assert_eq!(scene.available_meshes(), vec!["cube"]);
}

#[test]
fn first_entity_with_a_name_is_found() {
    let scene = SceneProxy {
        entities: vec![spawn("cube", Some("a")), spawn("cube", Some("b")), spawn("cube", Some("b"))],
        spawns: vec![],
        mesh_names: vec![],
    };
    assert_eq!(scene.find(&String::from("b")), Some(1));
    assert_eq!(scene.find(&String::from("c")), None);
    assert!(scene.has(&String::from("a")));
    assert!(!scene.has(&String::from("")));
    let names = vec![String::from("x"), String::from("y"), String::from("y")];
    assert_eq!(find_name(&names, &String::from("y")), Some(1));
    assert_eq!(find_name(&names, &String::from("z")), None);
}

#[test]
fn scene_without_scripts_has_no_tick() {
    let mut scene = Scene::new();
    let id = scene.spawn(transform(1), Mesh(mesh_at(0)));
    assert!(host().begin_tick(&mut scene).is_none());
    scene.set_script(id, String::from("s.py"));
    assert!(host().begin_tick(&mut scene).is_some());
}

#[test]
fn snapshot_shows_the_scene() {
    let mut scene = Scene::new();
    let a = scene.spawn(transform(1), Mesh(mesh_at(1_000)));
    let b = scene.spawn(transform(2), Mesh(mesh_at(5)));
    scene.set_name(a, String::from("ball"));
    scene.set_script(b, String::from("s.py"));
    let s = host().begin_tick(&mut scene).unwrap();
    assert_eq!(s.proxies.len(), 2);
    let pa = s.proxies.iter().find(|p| p.entity == Some(a)).unwrap();
    assert_eq!((pa.name.as_str(), pa.mesh_name.as_str()), ("ball", "sphere"));
    assert_eq!((pa.position, pa.rotation_axis), ([1; 3], [1; 3]));
    assert_eq!((pa.rotation_speed, pa.scale), (2, 3));
    assert_eq!(pa.script, None);
    let pb = s.proxies.iter().find(|p| p.entity == Some(b)).unwrap();
    assert_eq!((pb.name.as_str(), pb.mesh_name.as_str()), ("", ""));
    assert_eq!(pb.script.as_deref(), Some("s.py"));
    assert_eq!(s.scripted.len(), 1);
    assert_eq!((s.scripted[0].entity, s.scripted[0].path.as_str()), (b, "s.py"));
    assert_eq!(s.mesh_names.len(), 2);
}

#[test]
fn calls_reach_the_right_proxies() {
    let proxy = |id: u64| {
        let mut p = spawn("cube", None);
        p.entity = Some(id);
        p
    };
    let proxies = vec![proxy(30), proxy(10), proxy(20)];
    let scripted: Vec<Scripted> = [10, 20, 30, 40]
        .iter()
        .map(|&entity| Scripted::new(entity, String::from("s.py")))
        .collect();
    let items = dispatches(&proxies, &scripted, &vec![Some(7), None, Some(8), Some(9)]);
    let pairs: Vec<(usize, u64)> = items.iter().map(|d| (d.proxy_idx, d.on_update)).collect();
    assert_eq!(pairs, vec![(1, 7), (0, 8)]);
}

#[test]
fn shares_are_at_most_one_per_thread() {
    assert_eq!(chunk_size(0, 8), 1);
    assert_eq!(chunk_size(8, 8), 1);
    assert_eq!(chunk_size(9, 8), 2);
    assert_eq!(chunk_size(200, 16), 13);
    for calls in 1..50 {
        for threads in 1..9 {
            let size = chunk_size(calls, threads);
            assert!((calls + size - 1) / size <= threads);
        }
    }
}

#[test]
fn changes_are_written_back() {
    let mut scene = Scene::new();
    let a = scene.spawn(transform(1), Mesh(mesh_at(0)));
    let b = scene.spawn(transform(2), Mesh(mesh_at(0)));
    let c = scene.spawn(transform(3), Mesh(mesh_at(0)));
    scene.set_script(a, String::from("s.py"));
    scene.set_name(b, String::from("b"));
    scene.set_material(b, 4);
    let mut s = host().begin_tick(&mut scene).unwrap();
    for p in s.proxies.iter_mut() {
        if p.entity == Some(a) {
            p.script = None;
            p.position = [9; 3];
            p.name = String::from("named");
        } else if p.entity == Some(b) {
            p.name = String::new();
            p.script = Some(String::from("t.py"));
            p.scale = 77;
        } else {
            p.despawn();
        }
    }
    write_back(&mut scene, &s.proxies);
    assert!(scene.row(c).is_none());
    let ra = scene.row(a).unwrap();
    assert_eq!(ra.transform.unwrap().position, [9; 3]);
    assert_eq!(ra.name.as_deref(), Some("named"));
    assert_eq!(ra.script, None);
    let rb = scene.row(b).unwrap();
    assert_eq!(rb.name.as_deref(), Some(""));
    assert_eq!(rb.script.as_deref(), Some("t.py"));
    assert_eq!(rb.transform.unwrap().scale, 77);
    assert_eq!(rb.material, Some(4));
    assert_eq!(rb.mesh, Some(Mesh(mesh_at(0))));
}

#[test]
fn untouched_snapshot_changes_nothing() {
    let mut scene = Scene::new();
    let a = scene.spawn(transform(1), Mesh(mesh_at(0)));
    let b = scene.spawn(transform(2), Mesh(mesh_at(3)));
    scene.set_script(a, String::from("s.py"));
    scene.set_name(b, String::from("b"));
    let s = host().begin_tick(&mut scene).unwrap();
    write_back(&mut scene, &s.proxies);
    let ra = scene.row(a).unwrap();
    assert_eq!((ra.name, ra.script.as_deref()), (None, Some("s.py")));
    assert_eq!(ra.transform, Some(transform(1)));
    let rb = scene.row(b).unwrap();
    assert_eq!((rb.name.as_deref(), rb.script), (Some("b"), None));
    assert_eq!(rb.mesh, Some(Mesh(mesh_at(3))));
}

#[test]
fn entities_that_are_gone_stay_gone() {
    let mut scene = Scene::new();
    let a = scene.spawn(transform(1), Mesh(mesh_at(0)));
    scene.set_script(a, String::from("s.py"));
    let s = host().begin_tick(&mut scene).unwrap();
    scene.despawn(a);
    write_back(&mut scene, &s.proxies);
    assert_eq!(scene.len(), 0);
}

#[test]
fn spawns_join_the_scene() {
    let host = host();
    let mut scene = Scene::new();
    let mut taken_back = spawn("cube", None);
    taken_back.despawn();
    let mut scripted = spawn("sphere", Some("ball"));
    scripted.script = Some(String::from("s.py"));
    let spawns = vec![taken_back, spawn("torus", None), scripted, spawn("cube", None)];
    let ids = host.add_spawns(&mut scene, &spawns);
    assert_eq!(ids.len(), 2);
    assert_eq!(scene.len(), 2);
    let ball = scene.row(ids[0]).unwrap();
    assert_eq!(ball.mesh, Some(Mesh(mesh_at(1_000))));
    assert_eq!(ball.name.as_deref(), Some("ball"));
    assert_eq!(ball.script.as_deref(), Some("s.py"));
    let cube = scene.row(ids[1]).unwrap();
    assert_eq!((cube.name, cube.script), (None, None));
    assert_eq!(cube.transform.unwrap().scale, 1.0f32.to_bits());
}

#[test]
fn tick_ends_with_changes_before_spawns() {
    let host = host();
    let mut scene = Scene::new();
    let a = scene.spawn(transform(1), Mesh(mesh_at(0)));
    scene.set_script(a, String::from("s.py"));
    let mut s = host.begin_tick(&mut scene).unwrap();
    s.proxies[0].despawn();
    let ids = host.finish_tick(&mut scene, &s.proxies, &vec![spawn("cube", Some("new"))]);
    assert_eq!(scene.len(), 1);
    assert!(scene.row(a).is_none());
    assert_eq!(scene.row(ids[0]).unwrap().name.as_deref(), Some("new"));
}
