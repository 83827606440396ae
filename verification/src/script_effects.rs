//! What scripts see and what comes of what they do, field by field.

use crate::components::{Mesh, Transform};
use crate::scene::{lists, text_of, EntityData, Row};
use crate::scripting::{
    all_written, calls_of, changes_are_separate, distinct_entities, proxies_of, scripted_of,
    scripted_views, spawns_of, stands_for, views, EntityProxy, MeshTable, ProxyData, Scripted,
};
use vstd::prelude::*;

verus! {

/// Whether a placement is the one that a proxy has.
pub open spec fn placed_like(t: Transform, p: EntityProxy) -> bool {
    &&& t.position == p.position
    &&& t.rotation_axis == p.rotation_axis
    &&& t.rotation_speed == p.rotation_speed
    &&& t.scale == p.scale
}

proof fn lemma_view(proxies: Seq<EntityProxy>, at: int)
    requires
        0 <= at < proxies.len(),
    ensures
        views(proxies)[at] == proxies[at]@,
        views(proxies).len() == proxies.len(),
{
}

/// An entity that has a proxy gets what its script has written to it: position,
/// axis and speed of its rotation, scale, name and script. Its mesh and its
/// material stay. It goes exactly if the script has despawned it.
pub proof fn proxies_are_written_back(
    scene: Map<u64, EntityData>,
    proxies: Seq<EntityProxy>,
    at: int,
    id: u64,
)
    requires
        distinct_entities(views(proxies)),
        0 <= at < proxies.len(),
        proxies[at].entity == Some(id),
        scene.contains_key(id),
    ensures
        ({
            let p = proxies[at];
            let after = all_written(scene, views(proxies));
            let d = after[id];
            &&& after.contains_key(id) <==> !p.despawn_flag
            &&& !p.despawn_flag ==> {
                &&& scene[id].transform is Some ==> d.transform is Some && placed_like(
                    d.transform->0,
                    p,
                )
                &&& scene[id].transform is None ==> d.transform is None
                &&& d.script == text_of(p.script)
                &&& p.name@.len() > 0 ==> d.name == Some(p.name@)
                &&& p.name@.len() == 0 ==> d.name == (if scene[id].name is Some {
                    Some(p.name@)
                } else {
                    None
                })
                &&& d.mesh == scene[id].mesh
                &&& d.material == scene[id].material
            }
        }),
{
    lemma_view(proxies, at);
    assert(stands_for(views(proxies), at, id));
    changes_are_separate(scene, views(proxies), id, at);
}

/// Writing back touches nobody else, and brings nobody back who is gone.
pub proof fn others_are_left_alone(
    scene: Map<u64, EntityData>,
    proxies: Seq<EntityProxy>,
    id: u64,
)
    requires
        distinct_entities(views(proxies)),
        forall|i: int| 0 <= i < proxies.len() ==> (#[trigger] proxies[i]).entity != Some(id),
    ensures
        all_written(scene, views(proxies)).contains_key(id) <==> scene.contains_key(id),
        all_written(scene, views(proxies))[id] == scene[id],
{
    assert forall|k: int| !stands_for(views(proxies), k, id) by {
        if 0 <= k < proxies.len() {
            lemma_view(proxies, k);
            assert(proxies[k].entity != Some(id));
        }
    }
    changes_are_separate(scene, views(proxies), id, 0);
}

/// Whether a proxy shows an entity as it is.
pub open spec fn shows(p: EntityProxy, id: u64, d: EntityData, meshes: MeshTable) -> bool {
    &&& p.entity == Some(id)
    &&& d.transform is Some && placed_like(d.transform->0, p)
    &&& d.mesh is Some
    &&& meshes.by_offset.contains_key((d.mesh->0).0.vertex_offset) ==> p.mesh_name@
        == meshes.by_offset[(d.mesh->0).0.vertex_offset]
    &&& d.name matches Some(name) ==> p.name@ == name
    &&& d.name is None ==> p.name@.len() == 0
    &&& text_of(p.script) == d.script
    &&& !p.despawn_flag
}

proof fn lemma_shown(rows: Seq<Row>, meshes: MeshTable)
    ensures
        forall|j: int|
            0 <= j < rows.len() && (#[trigger] rows[j]).data().transform is Some
                && rows[j].data().mesh is Some ==> exists|i: int|
                0 <= i < proxies_of(rows, meshes).len() && (#[trigger] proxies_of(
                    rows,
                    meshes,
                )[i]).entity == Some(rows[j].id),
        forall|i: int|
            0 <= i < proxies_of(rows, meshes).len() ==> exists|j: int|
                0 <= j < rows.len() && is_source(
                    #[trigger] rows[j],
                    meshes,
                    #[trigger] proxies_of(rows, meshes)[i],
                ),
    decreases rows.len(),
{
    if rows.len() > 0 {
        let shorter = rows.drop_last();
        lemma_shown(shorter, meshes);
        let before = proxies_of(shorter, meshes);
        let after = proxies_of(rows, meshes);
        let last = rows[rows.len() - 1];
        assert(last == rows.last());
        assert forall|j: int|
            0 <= j < rows.len() && (#[trigger] rows[j]).data().transform is Some
                && rows[j].data().mesh is Some implies exists|i: int|
            0 <= i < after.len() && (#[trigger] after[i]).entity == Some(rows[j].id) by {
            if j < shorter.len() {
                assert(shorter[j] == rows[j]);
                let i = choose|i: int|
                    0 <= i < before.len() && (#[trigger] before[i]).entity == Some(shorter[j].id);
                assert(after[i] == before[i]);
            } else {
                assert(after[before.len() as int].entity == Some(last.id));
            }
        }
        assert forall|i: int| 0 <= i < after.len() implies exists|j: int|
            0 <= j < rows.len() && is_source(
                #[trigger] rows[j],
                meshes,
                #[trigger] after[i],
            ) by {
            if i < before.len() {
                assert(after[i] == before[i]);
                let j = choose|j: int|
                    0 <= j < shorter.len() && is_source(
                        #[trigger] shorter[j],
                        meshes,
                        before[i],
                    );
                assert(rows[j] == shorter[j]);
            } else {
                assert(is_source(last, meshes, after[i]));
            }
        }
    }
}

/// Whether a proxy is that of a row.
spec fn is_source(row: Row, meshes: MeshTable, p: ProxyData) -> bool {
    let d = row.data();
    &&& p.entity == Some(row.id)
    &&& d.transform == Some(p.transform)
    &&& d.mesh is Some
    &&& meshes.by_offset.contains_key((d.mesh->0).0.vertex_offset) ==> p.mesh_name
        == meshes.by_offset[(d.mesh->0).0.vertex_offset]
    &&& d.name matches Some(name) ==> p.name == name
    &&& d.name is None ==> p.name.len() == 0
    &&& p.script == d.script
    &&& !p.despawn
}

/// Scripts see the scene as it is: every object with a placement and a mesh has a
/// proxy, and every proxy shows such an object, with its placement, its name, its
/// script and the name of its mesh.
pub proof fn snapshots_show_the_scene(
    scene: Map<u64, EntityData>,
    rows: Seq<Row>,
    meshes: MeshTable,
    proxies: Seq<EntityProxy>,
)
    requires
        lists(rows, scene),
        views(proxies) == proxies_of(rows, meshes),
    ensures
        forall|id: u64| #[trigger]
            scene.contains_key(id) && scene[id].transform is Some && scene[id].mesh is Some
                ==> exists|i: int|
                0 <= i < proxies.len() && (#[trigger] proxies[i]).entity == Some(id),
        forall|i: int|
            0 <= i < proxies.len() ==> {
                let p = #[trigger] proxies[i];
                &&& p.entity is Some
                &&& scene.contains_key(p.entity->0)
                &&& shows(p, p.entity->0, scene[p.entity->0], meshes)
            },
{
    lemma_shown(rows, meshes);
    assert forall|id: u64| #[trigger]
        scene.contains_key(id) && scene[id].transform is Some
            && scene[id].mesh is Some implies exists|i: int|
        0 <= i < proxies.len() && (#[trigger] proxies[i]).entity == Some(id) by {
        let j = choose|j: int| 0 <= j < rows.len() && (#[trigger] rows[j]).id == id;
        assert(rows[j].data() == scene[id]);
        let i = choose|i: int|
            0 <= i < proxies_of(rows, meshes).len() && (#[trigger] proxies_of(
                rows,
                meshes,
            )[i]).entity == Some(rows[j].id);
        assert(views(proxies)[i] == proxies[i]@);
    }
    assert forall|i: int| 0 <= i < proxies.len() implies {
        let p = #[trigger] proxies[i];
        &&& p.entity is Some
        &&& scene.contains_key(p.entity->0)
        &&& shows(p, p.entity->0, scene[p.entity->0], meshes)
    } by {
        assert(views(proxies)[i] == proxies[i]@);
        let q = proxies_of(rows, meshes)[i];
        let j = choose|j: int| 0 <= j < rows.len() && is_source(#[trigger] rows[j], meshes, q);
        assert(scene.contains_key(rows[j].id));
    }
}

/// Every entity that has a script is listed with the path of its script, and
/// nobody else is.
pub proof fn scripted_entities_are_listed(
    scene: Map<u64, EntityData>,
    rows: Seq<Row>,
    scripted: Seq<Scripted>,
)
    requires
        lists(rows, scene),
        scripted_views(scripted) == scripted_of(rows),
    ensures
        forall|id: u64| #[trigger]
            scene.contains_key(id) && scene[id].script is Some ==> exists|i: int|
                0 <= i < scripted.len() && (#[trigger] scripted[i]).entity == id,
        forall|i: int|
            0 <= i < scripted.len() ==> {
                &&& scene.contains_key((#[trigger] scripted[i]).entity)
                &&& scene[scripted[i].entity].script == Some(scripted[i].path@)
            },
        forall|i: int, j: int|
            0 <= i < j < scripted.len() ==> (#[trigger] scripted[i]).entity
                != (#[trigger] scripted[j]).entity,
{
    lemma_scripted(rows);
    let all = scripted_of(rows);
    assert forall|i: int| 0 <= i < scripted.len() implies all[i] == (
        (#[trigger] scripted[i]).entity,
        scripted[i].path@,
    ) by {
        assert(scripted_views(scripted)[i] == (scripted[i].entity, scripted[i].path@));
    }
    assert(scripted_views(scripted).len() == scripted.len());
    assert forall|id: u64| #[trigger]
        scene.contains_key(id) && scene[id].script is Some implies exists|i: int|
        0 <= i < scripted.len() && (#[trigger] scripted[i]).entity == id by {
        let j = choose|j: int| 0 <= j < rows.len() && (#[trigger] rows[j]).id == id;
        assert(rows[j].data() == scene[id]);
        let i = choose|i: int| 0 <= i < all.len() && (#[trigger] all[i]).0 == rows[j].id;
        assert(scripted[i].entity == id);
    }
    assert forall|i: int| 0 <= i < scripted.len() implies {
        &&& scene.contains_key((#[trigger] scripted[i]).entity)
        &&& scene[scripted[i].entity].script == Some(scripted[i].path@)
    } by {
        let j = choose|j: int|
            0 <= j < rows.len() && (#[trigger] rows[j]).id == all[i].0 && rows[j].data().script
                == Some(all[i].1);
        assert(scene.contains_key(rows[j].id));
    }
    lemma_scripted_once(rows);
    assert forall|i: int, j: int| 0 <= i < j < scripted.len() implies (
    #[trigger] scripted[i]).entity != (#[trigger] scripted[j]).entity by {
        assert(all[i].0 != all[j].0);
    }
}

proof fn lemma_scripted(rows: Seq<Row>)
    ensures
        forall|j: int|
            0 <= j < rows.len() && (#[trigger] rows[j]).data().script is Some ==> exists|i: int|
                0 <= i < scripted_of(rows).len() && (#[trigger] scripted_of(rows)[i]).0
                    == rows[j].id,
        forall|i: int|
            0 <= i < scripted_of(rows).len() ==> exists|j: int|
                0 <= j < rows.len() && (#[trigger] rows[j]).id == (#[trigger] scripted_of(
                    rows,
                )[i]).0 && rows[j].data().script == Some(scripted_of(rows)[i].1),
    decreases rows.len(),
{
    if rows.len() > 0 {
        let shorter = rows.drop_last();
        lemma_scripted(shorter);
        let before = scripted_of(shorter);
        let after = scripted_of(rows);
        let last = rows[rows.len() - 1];
        assert(last == rows.last());
        assert forall|j: int|
            0 <= j < rows.len() && (#[trigger] rows[j]).data().script is Some implies exists|i: int|
            0 <= i < after.len() && (#[trigger] after[i]).0 == rows[j].id by {
            if j < shorter.len() {
                assert(shorter[j] == rows[j]);
                let i = choose|i: int|
                    0 <= i < before.len() && (#[trigger] before[i]).0 == shorter[j].id;
                assert(after[i] == before[i]);
            } else {
                assert(after[before.len() as int].0 == last.id);
            }
        }
        assert forall|i: int| 0 <= i < after.len() implies exists|j: int|
            0 <= j < rows.len() && (#[trigger] rows[j]).id == (#[trigger] after[i]).0
                && rows[j].data().script == Some(after[i].1) by {
            if i < before.len() {
                assert(after[i] == before[i]);
                let j = choose|j: int|
                    0 <= j < shorter.len() && (#[trigger] shorter[j]).id == before[i].0
                        && shorter[j].data().script == Some(before[i].1);
                assert(rows[j] == shorter[j]);
            } else {
                assert(last.id == after[i].0);
            }
        }
    }
}

proof fn lemma_scripted_once(rows: Seq<Row>)
    requires
        forall|i: int, j: int|
            0 <= i < j < rows.len() ==> (#[trigger] rows[i]).id != (#[trigger] rows[j]).id,
    ensures
        forall|i: int, j: int|
            0 <= i < j < scripted_of(rows).len() ==> (#[trigger] scripted_of(rows)[i]).0
                != (#[trigger] scripted_of(rows)[j]).0,
    decreases rows.len(),
{
    if rows.len() > 0 {
        let shorter = rows.drop_last();
        assert forall|i: int, j: int| 0 <= i < j < shorter.len() implies (#[trigger] shorter[i]).id
            != (#[trigger] shorter[j]).id by {
            assert(rows[i] == shorter[i] && rows[j] == shorter[j]);
        }
        lemma_scripted_once(shorter);
        lemma_scripted(shorter);
        let before = scripted_of(shorter);
        let after = scripted_of(rows);
        let last = rows[rows.len() - 1];
        assert forall|i: int, j: int| 0 <= i < j < after.len() implies (#[trigger] after[i]).0 != (
        #[trigger] after[j]).0 by {
            assert(after[i] == before[i]);
            if j < before.len() {
                assert(after[j] == before[j]);
            } else {
                let k = choose|k: int|
                    0 <= k < shorter.len() && (#[trigger] shorter[k]).id == before[i].0;
                assert(rows[k] == shorter[k]);
                assert(rows[k].id != last.id);
            }
        }
    }
}

/// Every scripted entity whose script is loaded and that has a proxy is called in
/// each tick: with its own script's `on_update`, on its own proxy.
pub proof fn every_loaded_script_is_called(
    proxies: Seq<ProxyData>,
    scripted: Seq<(u64, Seq<char>)>,
    callables: Seq<Option<u64>>,
    k: int,
    at: int,
)
    requires
        distinct_entities(proxies),
        callables.len() == scripted.len(),
        0 <= k < scripted.len(),
        callables[k] is Some,
        stands_for(proxies, at, scripted[k].0),
    ensures
        exists|i: int|
            0 <= i < calls_of(proxies, scripted, callables).len() && #[trigger] calls_of(
                proxies,
                scripted,
                callables,
            )[i] == (at, callables[k]->0),
    decreases scripted.len(),
{
    let calls = calls_of(proxies, scripted, callables);
    let before = calls_of(proxies, scripted.drop_last(), callables.drop_last());
    if k < scripted.len() - 1 {
        every_loaded_script_is_called(
            proxies,
            scripted.drop_last(),
            callables.drop_last(),
            k,
            at,
        );
        let i = choose|i: int|
            0 <= i < before.len() && #[trigger] before[i] == (at, callables[k]->0);
        assert(calls[i] == before[i]);
    } else {
        let id = scripted[k].0;
        assert(scripted.last() == scripted[k]);
        assert(callables.last() == callables[k]);
        let found = choose|found: int| stands_for(proxies, found, id);
        assert(stands_for(proxies, found, id));
        if found < at {
            assert(proxies[found].entity != proxies[at].entity);
        }
        if at < found {
            assert(proxies[at].entity != proxies[found].entity);
        }
        assert(calls[before.len() as int] == (at, callables[k]->0));
    }
}

/// What scripts spawn comes into being in the order in which it was spawned, each
/// with the placement, the name, the script and the mesh that were asked for. An
/// object that was taken back, or whose mesh nobody knows, does not.
pub proof fn spawns_are_as_asked(
    spawns: Seq<EntityProxy>,
    p: EntityProxy,
    meshes: MeshTable,
)
    ensures
        spawns_of(views(Seq::empty()), meshes).len() == 0,
        ({
            let before = spawns_of(views(spawns), meshes);
            let after = spawns_of(views(spawns.push(p)), meshes);
            if p.despawn_flag || !meshes.by_name.contains_key(p.mesh_name@) {
                after == before
            } else {
                let d = after.last();
                &&& after.len() == before.len() + 1
                &&& after.drop_last() == before
                &&& d.transform is Some && placed_like(d.transform->0, p)
                &&& d.mesh == Some(Mesh(meshes.by_name[p.mesh_name@]))
                &&& p.name@.len() > 0 ==> d.name == Some(p.name@)
                &&& p.name@.len() == 0 ==> d.name is None
                &&& d.script == text_of(p.script)
                &&& d.material is None
            }
        }),
{
    assert(views(spawns.push(p)).drop_last() =~= views(spawns));
    assert(views(spawns.push(p)).last() == p@);
    let before = spawns_of(views(spawns), meshes);
    let after = spawns_of(views(spawns.push(p)), meshes);
    if !(p.despawn_flag || !meshes.by_name.contains_key(p.mesh_name@)) {
        assert(after.drop_last() =~= before);
    }
}

} // verus!
