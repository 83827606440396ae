//! What the editor's panels do to the scene.

use crate::arena::{room_exists, MeshAlloc};
use crate::components::{Mesh, Transform};
use crate::gl::CommandList;
use crate::materials::GpuMaterial;
use crate::renderer::Renderer;
use crate::scene::{
    add_all, added, adding_keeps_the_rest, entity_index, fresh_ids, lemma_add_one, lists,
    with_data, EntityData, Row, Scene,
};
use crate::scripting::{HALF, ONE};
use crate::text::{decimal, decimal_reads_back, numbered, to_decimal};
use vstd::prelude::*;
use vstd::string::StringExecFns;

verus! {

/// How many entities have a mesh.
pub open spec fn mesh_count(scene: Map<u64, EntityData>) -> nat {
    scene.dom().filter(|id: u64| scene[id].mesh is Some).len()
}

spec fn rows_with_mesh(rows: Seq<Row>) -> Set<u64>
    decreases rows.len(),
{
    if rows.len() == 0 {
        Set::empty()
    } else {
        let before = rows_with_mesh(rows.drop_last());
        if rows.last().mesh is Some {
            before.insert(rows.last().id)
        } else {
            before
        }
    }
}

proof fn lemma_rows_with_mesh(rows: Seq<Row>)
    ensures
        rows_with_mesh(rows).finite(),
        rows_with_mesh(rows).len() <= rows.len(),
        forall|id: u64| #[trigger]
            rows_with_mesh(rows).contains(id) <==> exists|i: int|
                0 <= i < rows.len() && (#[trigger] rows[i]).id == id && rows[i].mesh is Some,
    decreases rows.len(),
{
    if rows.len() != 0 {
        let shorter = rows.drop_last();
        lemma_rows_with_mesh(shorter);
        let last = rows[rows.len() - 1];
        assert(last == rows.last());
        assert forall|id: u64| #[trigger] rows_with_mesh(rows).contains(id) <==> exists|i: int|
            0 <= i < rows.len() && (#[trigger] rows[i]).id == id && rows[i].mesh is Some by {
            if rows_with_mesh(shorter).contains(id) {
                let i = choose|i: int|
                    0 <= i < shorter.len() && (#[trigger] shorter[i]).id == id
                        && shorter[i].mesh is Some;
                assert(rows[i] == shorter[i]);
            }
            if exists|i: int|
                0 <= i < rows.len() && (#[trigger] rows[i]).id == id && rows[i].mesh is Some {
                let i = choose|i: int|
                    0 <= i < rows.len() && (#[trigger] rows[i]).id == id && rows[i].mesh is Some;
                if i < shorter.len() {
                    assert(shorter[i] == rows[i]);
                }
            }
        }
    }
}

/// Count the entities that have a mesh.
pub fn count_meshes(scene: &mut Scene) -> (n: usize)
    requires
        old(scene).wf(),
    ensures
        final(scene).wf(),
        final(scene)@ == old(scene)@,
        n == mesh_count(old(scene)@),
        n <= old(scene)@.dom().len(),
{
    let rows = scene.rows();
    let mut n: usize = 0;
    let mut i: usize = 0;
    while i < rows.len()
        invariant
            i <= rows@.len(),
            n <= i,
            n == rows_with_mesh(rows@.take(i as int)).len(),
            rows_with_mesh(rows@.take(i as int)).finite(),
            lists(rows@, scene@),
        decreases rows@.len() - i,
    {
        let ghost before = rows@.take(i as int);
        assert(rows@.take(i + 1).drop_last() =~= before);
        proof {
            lemma_rows_with_mesh(before);
            assert forall|j: int| 0 <= j < i implies rows@[j].id != rows@[i as int].id by {}
            if rows_with_mesh(before).contains(rows@[i as int].id) {
                let j = choose|j: int|
                    0 <= j < before.len() && (#[trigger] before[j]).id == rows@[i as int].id
                        && before[j].mesh is Some;
                assert(rows@[j] == before[j]);
            }
        }
        if rows[i].mesh.is_some() {
            n = n + 1;
        }
        i = i + 1;
    }
    proof {
        assert(rows@.take(rows@.len() as int) =~= rows@);
        lemma_rows_with_mesh(rows@);
        let map = scene@;
        let wanted = map.dom().filter(|id: u64| map[id].mesh is Some);
        assert forall|id: u64| rows_with_mesh(rows@).contains(id) <==> wanted.contains(id) by {
            if wanted.contains(id) {
                let j = choose|j: int| 0 <= j < rows@.len() && (#[trigger] rows@[j]).id == id;
                assert(rows@[j].data().mesh is Some);
            }
            if rows_with_mesh(rows@).contains(id) {
                let j = choose|j: int|
                    0 <= j < rows@.len() && (#[trigger] rows@[j]).id == id
                        && rows@[j].mesh is Some;
                assert(map[rows@[j].id] == rows@[j].data());
            }
        }
        assert(rows_with_mesh(rows@) =~= wanted);
        scene.finite();
        vstd::set_lib::lemma_len_subset(wanted, map.dom());
    }
    n
}

/// The entities of a series: every `every`-th is a cube, the others are spheres,
/// and their names are numbered from `base` on.
pub open spec fn series(
    transforms: Seq<Transform>,
    cube: MeshAlloc,
    sphere: MeshAlloc,
    every: int,
    prefix: Seq<char>,
    base: int,
    script: Option<Seq<char>>,
) -> Seq<EntityData> {
    Seq::new(
        transforms.len(),
        |i: int|
            EntityData {
                transform: Some(transforms[i]),
                mesh: Some(
                    Mesh(
                        if i % every == 0 {
                            cube
                        } else {
                            sphere
                        },
                    ),
                ),
                name: Some(prefix + decimal((base + i) as nat)),
                script,
                material: None,
            },
    )
}

/// The text of an optional string slice.
pub open spec fn slice_text(s: Option<&str>) -> Option<Seq<char>> {
    match s {
        Some(s) => Some(s@),
        None => None,
    }
}

fn spawn_series(
    scene: &mut Scene,
    cube: MeshAlloc,
    sphere: MeshAlloc,
    transforms: &Vec<Transform>,
    every: usize,
    prefix: &str,
    script: Option<&str>,
) -> (ids: Vec<u64>)
    requires
        old(scene).wf(),
        old(scene)@.dom().len() + transforms@.len() <= u32::MAX,
        every >= 1,
    ensures
        final(scene).wf(),
        added(
            old(scene)@,
            ids@,
            series(
                transforms@,
                cube,
                sphere,
                every as int,
                prefix@,
                mesh_count(old(scene)@) as int,
                slice_text(script),
            ),
            final(scene)@,
        ),
{
    let ghost start = scene@;
    let base = count_meshes(scene);
    let ghost wanted = series(
        transforms@,
        cube,
        sphere,
        every as int,
        prefix@,
        base as int,
        slice_text(script),
    );
    let mut ids: Vec<u64> = Vec::new();
    let mut i: usize = 0;
    assert(scene@ == add_all(start, ids@, wanted.take(0)));
    while i < transforms.len()
        invariant
            i <= transforms@.len() == wanted.len(),
            every >= 1,
            scene.wf(),
            start == old(scene)@,
            old(scene).wf(),
            start.dom().len() + transforms@.len() <= u32::MAX,
            base <= start.dom().len(),
            wanted == series(
                transforms@,
                cube,
                sphere,
                every as int,
                prefix@,
                base as int,
                slice_text(script),
            ),
            ids@.len() == i,
            fresh_ids(start, ids@),
            scene@ == add_all(start, ids@, wanted.take(i as int)),
        decreases transforms@.len() - i,
    {
        proof {
            old(scene).finite();
            adding_keeps_the_rest(start, ids@, wanted.take(i as int));
        }
        let ghost before = scene@;
        let mesh = if i % every == 0 {
            cube
        } else {
            sphere
        };
        let id = scene.spawn(transforms[i], Mesh(mesh));
        scene.set_name(id, numbered(prefix, (base + i) as u64));
        if let Some(path) = script {
            scene.set_script(id, path.to_string());
        }
        assert(scene@[id] == wanted[i as int]);
        assert(scene@ =~= before.insert(id, wanted[i as int]));
        proof {
            lemma_add_one(start, ids@, wanted.take(i as int), id, wanted[i as int]);
            assert(wanted.take(i + 1) =~= wanted.take(i as int).push(wanted[i as int]));
        }
        ids.push(id);
        i = i + 1;
    }
    assert(wanted.take(wanted.len() as int) =~= wanted);
    ids
}

/// Spawn one entity for each transform: every third is a cube, the others are
/// spheres. They are called `bulk_` and a number, counted on from the entities
/// that have a mesh already.
pub fn spawn_bulk(
    scene: &mut Scene,
    cube: MeshAlloc,
    sphere: MeshAlloc,
    transforms: &Vec<Transform>,
) -> (ids: Vec<u64>)
    requires
        old(scene).wf(),
        old(scene)@.dom().len() + transforms@.len() <= u32::MAX,
    ensures
        final(scene).wf(),
        added(
            old(scene)@,
            ids@,
            series(
                transforms@,
                cube,
                sphere,
                3,
                "bulk_"@,
                mesh_count(old(scene)@) as int,
                None,
            ),
            final(scene)@,
        ),
{
    spawn_series(scene, cube, sphere, transforms, 3, "bulk_", None)
}

/// Spawn one entity with a script for each transform, cubes and spheres in turn.
/// They are called `swarm_` and a number, counted on from the entities that have
/// a mesh already.
pub fn spawn_scripted(
    scene: &mut Scene,
    cube: MeshAlloc,
    sphere: MeshAlloc,
    transforms: &Vec<Transform>,
) -> (ids: Vec<u64>)
    requires
        old(scene).wf(),
        old(scene)@.dom().len() + transforms@.len() <= u32::MAX,
    ensures
        final(scene).wf(),
        added(
            old(scene)@,
            ids@,
            series(
                transforms@,
                cube,
                sphere,
                2,
                "swarm_"@,
                mesh_count(old(scene)@) as int,
                Some("scripts/swarm.py"@),
            ),
            final(scene)@,
        ),
{
    spawn_series(scene, cube, sphere, transforms, 2, "swarm_", Some("scripts/swarm.py"))
}

/// Spawn a named entity in the default place.
pub fn spawn_cube(scene: &mut Scene, mesh: MeshAlloc, name: &str) -> (id: u64)
    requires
        old(scene).wf(),
        old(scene)@.dom().len() < u32::MAX,
    ensures
        final(scene).wf(),
        !old(scene)@.contains_key(id),
        final(scene)@.remove(id) == old(scene)@,
        final(scene)@.contains_key(id),
        ({
            let d = final(scene)@[id];
            &&& d.transform matches Some(t) && t.position@ == seq![0u32, 0, 0]
                && t.rotation_axis@ == seq![0u32, ONE, 0] && t.rotation_speed == HALF && t.scale
                == ONE
            &&& d.mesh == Some(Mesh(mesh))
            &&& d.name == Some(name@)
            &&& d.script is None
            &&& d.material is None
        }),
{
    let transform = Transform {
        position: [0, 0, 0],
        rotation_axis: [0, ONE, 0],
        rotation_speed: HALF,
        scale: ONE,
    };
    assert(transform.position@ =~= seq![0u32, 0, 0]);
    assert(transform.rotation_axis@ =~= seq![0u32, ONE, 0]);
    let id = scene.spawn(transform, Mesh(mesh));
    scene.set_name(id, name.to_string());
    assert(scene@.remove(id) =~= old(scene)@);
    id
}

/// The scene without the entities that have scripts.
pub open spec fn without_scripted(scene: Map<u64, EntityData>) -> Map<u64, EntityData> {
    Map::new(
        |id: u64| scene.contains_key(id) && scene[id].script is None,
        |id: u64| scene[id],
    )
}

/// The scene without the entities that have meshes.
pub open spec fn without_meshes(scene: Map<u64, EntityData>) -> Map<u64, EntityData> {
    Map::new(|id: u64| scene.contains_key(id) && scene[id].mesh is None, |id: u64| scene[id])
}

/// Whether an entity is meant to go.
spec fn goes(d: EntityData, scripted: bool) -> bool {
    if scripted {
        d.script is Some
    } else {
        d.mesh is Some
    }
}

fn despawn_some(scene: &mut Scene, selected: Option<u64>, scripted: bool) -> (still: Option<u64>)
    requires
        old(scene).wf(),
    ensures
        final(scene).wf(),
        forall|id: u64| #[trigger]
            final(scene)@.contains_key(id) <==> old(scene)@.contains_key(id) && !goes(
                old(scene)@[id],
                scripted,
            ),
        forall|id: u64| #[trigger]
            final(scene)@.contains_key(id) ==> final(scene)@[id] == old(scene)@[id],
        still == (match selected {
            Some(e) => if old(scene)@.contains_key(e) && goes(old(scene)@[e], scripted) {
                None
            } else {
                Some(e)
            },
            None => None,
        }),
{
    let ghost start = scene@;
    let rows = scene.rows();
    let mut still = selected;
    let mut i: usize = 0;
    while i < rows.len()
        invariant
            i <= rows@.len(),
            scene.wf(),
            start == old(scene)@,
            lists(rows@, start),
            forall|id: u64| #[trigger]
                scene@.contains_key(id) <==> start.contains_key(id) && !exists|j: int|
                    0 <= j < i && (#[trigger] rows@[j]).id == id && goes(rows@[j].data(), scripted),
            forall|id: u64| #[trigger] scene@.contains_key(id) ==> scene@[id] == start[id],
            still == (match selected {
                Some(e) => if exists|j: int|
                    0 <= j < i && (#[trigger] rows@[j]).id == e && goes(rows@[j].data(), scripted) {
                    None
                } else {
                    Some(e)
                },
                None => None,
            }),
        decreases rows@.len() - i,
    {
        let row = &rows[i];
        let gone = if scripted {
            row.script.is_some()
        } else {
            row.mesh.is_some()
        };
        let ghost before = scene@;
        if gone {
            scene.despawn(row.id);
            if let Some(e) = still {
                if e == row.id {
                    still = None;
                }
            }
        }
        proof {
            assert(gone == goes(rows@[i as int].data(), scripted));
            assert forall|id: u64| #[trigger] scene@.contains_key(id) <==> start.contains_key(id)
                && !exists|j: int|
                0 <= j < i + 1 && (#[trigger] rows@[j]).id == id && goes(
                    rows@[j].data(),
                    scripted,
                ) by {
                assert(before.contains_key(id) <==> start.contains_key(id) && !exists|j: int|
                    0 <= j < i && (#[trigger] rows@[j]).id == id && goes(
                        rows@[j].data(),
                        scripted,
                    ));
            }
        }
        i = i + 1;
    }
    proof {
        assert forall|id: u64| start.contains_key(id) implies goes(start[id], scripted) == exists|
            j: int,
        |
            0 <= j < i && (#[trigger] rows@[j]).id == id && goes(rows@[j].data(), scripted) by {
            let j = choose|j: int| 0 <= j < rows@.len() && (#[trigger] rows@[j]).id == id;
            assert(start[rows@[j].id] == rows@[j].data());
        }
        if let Some(e) = selected {
            if exists|j: int|
                0 <= j < i && (#[trigger] rows@[j]).id == e && goes(rows@[j].data(), scripted) {
                let j = choose|j: int|
                    0 <= j < i && (#[trigger] rows@[j]).id == e && goes(rows@[j].data(), scripted);
                assert(start.contains_key(rows@[j].id));
            }
        }
    }
    still
}

/// Remove all entities that have scripts. Returns the selection, which is lost
/// if it was one of them.
pub fn despawn_scripted(scene: &mut Scene, selected: Option<u64>) -> (still: Option<u64>)
    requires
        old(scene).wf(),
    ensures
        final(scene).wf(),
        final(scene)@ == without_scripted(old(scene)@),
        still == (match selected {
            Some(e) => if old(scene)@.contains_key(e) && old(scene)@[e].script is Some {
                None
            } else {
                Some(e)
            },
            None => None,
        }),
{
    let still = despawn_some(scene, selected, true);
    assert(scene@ =~= without_scripted(old(scene)@));
    still
}

/// Remove all entities that have meshes. Returns the selection, which is lost if
/// it was one of them.
pub fn despawn_all(scene: &mut Scene, selected: Option<u64>) -> (still: Option<u64>)
    requires
        old(scene).wf(),
    ensures
        final(scene).wf(),
        final(scene)@ == without_meshes(old(scene)@),
        still == (match selected {
            Some(e) => if old(scene)@.contains_key(e) && old(scene)@[e].mesh is Some {
                None
            } else {
                Some(e)
            },
            None => None,
        }),
{
    let still = despawn_some(scene, selected, false);
    assert(scene@ =~= without_meshes(old(scene)@));
    still
}

/// Delete the selected entity. Nothing is selected afterwards.
pub fn delete_selected(scene: &mut Scene, selected: Option<u64>) -> (still: Option<u64>)
    requires
        old(scene).wf(),
    ensures
        final(scene).wf(),
        still is None,
        final(scene)@ == (match selected {
            Some(id) => old(scene)@.remove(id),
            None => old(scene)@,
        }),
{
    if let Some(id) = selected {
        scene.despawn(id);
    }
    None
}

/// Whether `places` are those of the rows that have a mesh, each once and in
/// order.
pub open spec fn lists_meshes(places: Seq<usize>, rows: Seq<Row>) -> bool {
    &&& forall|k: int|
        0 <= k < places.len() ==> 0 <= #[trigger] places[k] < rows.len()
            && rows[places[k] as int].mesh is Some
    &&& forall|j: int, k: int|
        0 <= j < k < places.len() ==> #[trigger] places[j] < #[trigger] places[k]
    &&& forall|i: int|
        0 <= i < rows.len() && (#[trigger] rows[i]).mesh is Some ==> places.contains(i as usize)
}

/// The rows that the hierarchy lists, by their places: those of the entities that
/// have a mesh.
pub fn hierarchy_rows(rows: &Vec<Row>) -> (places: Vec<usize>)
    ensures
        lists_meshes(places@, rows@),
{
    let mut places: Vec<usize> = Vec::new();
    let mut i: usize = 0;
    while i < rows.len()
        invariant
            i <= rows@.len(),
            forall|k: int|
                0 <= k < places@.len() ==> 0 <= #[trigger] places@[k] < i
                    && rows@[places@[k] as int].mesh is Some,
            forall|j: int, k: int|
                0 <= j < k < places@.len() ==> #[trigger] places@[j] < #[trigger] places@[k],
            forall|j: int|
                0 <= j < i && (#[trigger] rows@[j]).mesh is Some ==> places@.contains(j as usize),
        decreases rows@.len() - i,
    {
        let ghost before = places@;
        if rows[i].mesh.is_some() {
            places.push(i);
        }
        proof {
            assert forall|j: int|
                0 <= j < i + 1 && (#[trigger] rows@[j]).mesh is Some implies places@.contains(
                j as usize,
            ) by {
                if j < i {
                    let k = before.index_of(j as usize);
                    assert(places@[k] == j);
                } else {
                    assert(places@[before.len() as int] == j);
                }
            }
        }
        i = i + 1;
    }
    places
}

/// What an entity is called in the hierarchy: its name, or else its index.
pub open spec fn label(name: Option<Seq<char>>, index: nat) -> Seq<char> {
    match name {
        Some(name) => name,
        None => "Entity "@ + decimal(index),
    }
}

/// The text of an entity's line in the hierarchy. What stands behind `##` is not
/// shown; it tells lines with the same label apart.
pub fn hierarchy_line(row: &Row) -> (line: Option<String>)
    ensures
        line is Some <==> row.id >= 0x1_0000_0000,
        line matches Some(text) ==> text@ == label(
            row.data().name,
            (row.id % 0x1_0000_0000) as nat,
        ) + "##"@ + decimal((row.id % 0x1_0000_0000) as nat),
{
    let index = entity_index(row.id)?;
    let mut text = match &row.name {
        Some(name) => name.clone(),
        None => numbered("Entity ", index as u64),
    };
    text.append("##");
    text.append(to_decimal(index as u64).as_str());
    Some(text)
}

/// Take over what was typed as the path of an entity's script: nothing takes the
/// script away.
pub fn edit_script(scene: &mut Scene, id: u64, typed: String)
    requires
        old(scene).wf(),
    ensures
        final(scene).wf(),
        final(scene)@ == with_data(
            old(scene)@,
            id,
            (EntityData {
                script: if typed@.len() == 0 {
                    None
                } else {
                    Some(typed@)
                },
                ..old(scene)@[id]
            }),
        ),
{
    let ghost before = scene@;
    if typed.as_str().is_empty() {
        scene.remove_script(id);
    } else {
        let same = match scene.row(id) {
            Some(row) => match row.script {
                Some(path) => path == typed,
                None => false,
            },
            None => false,
        };
        if !same {
            scene.set_script(id, typed);
        }
    }
    assert(scene@ =~= with_data(
        before,
        id,
        (EntityData {
            script: if typed@.len() == 0 {
                None
            } else {
                Some(typed@)
            },
            ..before[id]
        }),
    ));
}

/// The index of the material that an entity is drawn with.
pub open spec fn effective_material(scene: Map<u64, EntityData>, id: u64) -> u32 {
    if scene.contains_key(id) && scene[id].material is Some {
        scene[id].material->0
    } else {
        0
    }
}

/// What the inspector shows of an entity's material.
pub struct MaterialPanel {
    pub index: u32,
    pub is_override: bool,
    pub material: Option<GpuMaterial>,
}

/// What the inspector shows of an entity's material.
pub fn material_panel(renderer: &Renderer, scene: &mut Scene, id: u64) -> (panel: MaterialPanel)
    requires
        old(scene).wf(),
    ensures
        final(scene).wf(),
        final(scene)@ == old(scene)@,
        panel.index == effective_material(old(scene)@, id),
        panel.is_override == renderer.registry@.is_override(panel.index as int),
        panel.material is Some <==> panel.index < renderer.registry@.all.len(),
        panel.material matches Some(m) ==> m == renderer.registry@.all[panel.index as int],
{
    let index = match scene.row(id) {
        Some(row) => match row.material {
            Some(index) => index,
            None => 0,
        },
        None => 0,
    };
    let is_override = renderer.is_override_material(index);
    let material = match renderer.material(index) {
        Some(m) => Some(*m),
        None => None,
    };
    MaterialPanel { index, is_override, material }
}

/// Give an entity a material of its own, which starts out as a copy of the one
/// it has, or of `default` if it has an index without a material. Returns the
/// index of the new material.
pub fn override_material(
    renderer: &mut Renderer,
    gl: &mut CommandList,
    scene: &mut Scene,
    id: u64,
    default: GpuMaterial,
) -> (index: u32)
    requires
        old(scene).wf(),
        old(renderer).wf(),
        old(renderer).registry@.static_end is Some,
        old(renderer).registry@.all.len() < u32::MAX,
        room_exists(old(renderer).gpu.material_buf, old(renderer).registry@.all.len() + 1int),
        old(gl)@.next_id < u32::MAX,
    ensures
        final(scene).wf(),
        final(renderer).wf(),
        index == old(renderer).registry@.all.len(),
        ({
            let now = effective_material(old(scene)@, id);
            let mat = if now < old(renderer).registry@.all.len() {
                old(renderer).registry@.all[now as int]
            } else {
                default
            };
            &&& old(renderer).with_materials(
                old(gl)@,
                old(renderer).registry@.with(mat),
                *final(renderer),
            )
            &&& final(gl)@ == old(renderer).rec_material(
                old(gl)@,
                old(renderer).registry@.all.len() + 1int,
                index as int,
                mat,
            )
        }),
        final(scene)@ == with_data(
            old(scene)@,
            id,
            (EntityData { material: Some(index), ..old(scene)@[id] }),
        ),
{
    let panel = material_panel(renderer, scene, id);
    let base = match panel.material {
        Some(m) => m,
        None => default,
    };
    let index = renderer.add_override_material(gl, base);
    scene.set_material(id, index);
    index
}

/// How a large count is shown.
#[derive(Clone, Copy, Debug, PartialEq, Eq, Structural)]
pub enum CountUnit {
    Plain,
    Thousands,
    Millions,
}

/// In which unit a count is shown.
pub fn count_unit(n: u64) -> (unit: CountUnit)
    ensures
        unit == (if n >= 1_000_000 {
            CountUnit::Millions
        } else if n >= 1_000 {
            CountUnit::Thousands
        } else {
            CountUnit::Plain
        }),
{
    if n >= 1_000_000 {
        CountUnit::Millions
    } else if n >= 1_000 {
        CountUnit::Thousands
    } else {
        CountUnit::Plain
    }
}

/// A made-up arena allocation, different for each offset.
pub fn fake_alloc(vertex_offset: u32) -> (alloc: MeshAlloc)
    requires
        vertex_offset * 3 <= u32::MAX,
    ensures
        alloc == (MeshAlloc {
            vertex_offset,
            vertex_count: 24,
            index_offset: (vertex_offset * 3) as u32,
            index_count: 36,
        }),
{
    MeshAlloc { vertex_offset, vertex_count: 24, index_offset: vertex_offset * 3, index_count: 36 }
}

/// The entities of a series have different names.
pub proof fn series_names_differ(
    transforms: Seq<Transform>,
    cube: MeshAlloc,
    sphere: MeshAlloc,
    every: int,
    prefix: Seq<char>,
    base: nat,
    script: Option<Seq<char>>,
    i: int,
    j: int,
)
    requires
        0 <= i < j < transforms.len(),
    ensures
        series(transforms, cube, sphere, every, prefix, base as int, script)[i].name != series(
            transforms,
            cube,
            sphere,
            every,
            prefix,
            base as int,
            script,
        )[j].name,
{
    let a = decimal((base + i) as nat);
    let b = decimal((base + j) as nat);
    decimal_reads_back((base + i) as nat);
    decimal_reads_back((base + j) as nat);
    assert((prefix + a).skip(prefix.len() as int) =~= a);
    assert((prefix + b).skip(prefix.len() as int) =~= b);
}

/// Removing the scripted entities undoes spawning scripted ones.
pub proof fn despawning_undoes_scripted_spawns(
    scene: Map<u64, EntityData>,
    ids: Seq<u64>,
    data: Seq<EntityData>,
)
    requires
        ids.len() == data.len(),
        fresh_ids(scene, ids),
        forall|i: int| 0 <= i < data.len() ==> (#[trigger] data[i]).script is Some,
    ensures
        without_scripted(add_all(scene, ids, data)) == without_scripted(scene),
{
    adding_keeps_the_rest(scene, ids, data);
    let after = add_all(scene, ids, data);
    assert forall|id: u64| without_scripted(after).contains_key(id) <==> without_scripted(
        scene,
    ).contains_key(id) by {
        if ids.contains(id) {
            let i = ids.index_of(id);
            assert(after[ids[i]] == data[i]);
            assert(!scene.contains_key(ids[i]));
        }
    }
    assert(without_scripted(after) =~= without_scripted(scene));
}

/// Removing the entities that have meshes undoes a bulk spawn.
pub proof fn despawning_undoes_bulk_spawns(
    scene: Map<u64, EntityData>,
    ids: Seq<u64>,
    data: Seq<EntityData>,
)
    requires
        ids.len() == data.len(),
        fresh_ids(scene, ids),
        forall|i: int| 0 <= i < data.len() ==> (#[trigger] data[i]).mesh is Some,
    ensures
        without_meshes(add_all(scene, ids, data)) == without_meshes(scene),
{
    adding_keeps_the_rest(scene, ids, data);
    let after = add_all(scene, ids, data);
    assert forall|id: u64| without_meshes(after).contains_key(id) <==> without_meshes(
        scene,
    ).contains_key(id) by {
        if ids.contains(id) {
            let i = ids.index_of(id);
            assert(after[ids[i]] == data[i]);
            assert(!scene.contains_key(ids[i]));
        }
    }
    assert(without_meshes(after) =~= without_meshes(scene));
}

} // verus!
