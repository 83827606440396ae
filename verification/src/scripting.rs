//! Per-entity scripting: what scripts see of the scene, whose `on_update` is
//! called, and what becomes of their changes.
//!
//! A tick goes through these steps. The scene is photographed
//! ([`ScriptHost::begin_tick`]); the scripts of the scripted entities are looked
//! up, and loaded where that has to be ([`crate::script_pass`]); the calls are
//! listed ([`dispatches`]) and split among threads ([`chunk_size`]); once the
//! scripts have run, their changes are written back and what they spawned is
//! added ([`ScriptHost::finish_tick`]).

use crate::arena::MeshAlloc;
use crate::components::{Mesh, Transform};
use crate::paths::{components, path_components, portable, PathKey};
use crate::scene::{
    add_all, added, adding_keeps_the_rest, fresh_ids, lemma_add_one, lists, text_of, EntityData,
    Row, Scene,
};
use crate::script_cache::ScriptCache;
use crate::text::texts;
use std::collections::HashMap;
use vstd::prelude::*;

verus! {

broadcast use vstd::std_specs::hash::group_hash_axioms;

/// The bit pattern of 0.5.
pub const HALF: u32 = 0x3F00_0000;

/// The bit pattern of 1.0.
pub const ONE: u32 = 0x3F80_0000;

/// One scene object, as a script sees it. Floats are bit patterns.
pub struct EntityProxy {
    /// The entity, or none for one that a script has spawned.
    pub entity: Option<u64>,
    pub mesh_name: String,
    pub name: String,
    pub position: [u32; 3],
    pub rotation_axis: [u32; 3],
    pub rotation_speed: u32,
    pub scale: u32,
    /// Path to the attached script, or none.
    pub script: Option<String>,
    pub despawn_flag: bool,
}

/// What an [`EntityProxy`] says.
#[verifier::ext_equal]
pub struct ProxyData {
    pub entity: Option<u64>,
    pub mesh_name: Seq<char>,
    pub name: Seq<char>,
    pub transform: Transform,
    pub script: Option<Seq<char>>,
    pub despawn: bool,
}

impl View for EntityProxy {
    type V = ProxyData;

    open spec fn view(&self) -> ProxyData {
        ProxyData {
            entity: self.entity,
            mesh_name: self.mesh_name@,
            name: self.name@,
            transform: Transform {
                position: self.position,
                rotation_axis: self.rotation_axis,
                rotation_speed: self.rotation_speed,
                scale: self.scale,
            },
            script: text_of(self.script),
            despawn: self.despawn_flag,
        }
    }
}

pub open spec fn views(proxies: Seq<EntityProxy>) -> Seq<ProxyData> {
    proxies.map_values(|p: EntityProxy| p@)
}

impl EntityProxy {
    /// Mark this entity for removal after `on_update` returns.
    pub fn despawn(&mut self)
        ensures
            final(self)@ == (ProxyData { despawn: true, ..old(self)@ }),
    {
        self.despawn_flag = true;
    }

    /// The placement that the script has asked for.
    pub fn transform(&self) -> (transform: Transform)
        ensures
            transform == self@.transform,
    {
        Transform {
            position: self.position,
            rotation_axis: self.rotation_axis,
            rotation_speed: self.rotation_speed,
            scale: self.scale,
        }
    }
}

pub open spec fn or<T>(given: Option<T>, default: T) -> T {
    match given {
        Some(v) => v,
        None => default,
    }
}

/// What a script spawns, with defaults for what it leaves out.
pub open spec fn spawned(
    mesh: Seq<char>,
    name: Option<Seq<char>>,
    position: Option<[u32; 3]>,
    rotation_axis: Option<[u32; 3]>,
    rotation_speed: Option<u32>,
    scale: Option<u32>,
    script: Option<Seq<char>>,
    p: ProxyData,
) -> bool {
    &&& p.entity is None
    &&& p.mesh_name == mesh
    &&& p.name == or(name, Seq::empty())
    &&& match position {
        Some(v) => p.transform.position == v,
        None => p.transform.position@ == seq![0u32, 0, 0],
    }
    &&& match rotation_axis {
        Some(v) => p.transform.rotation_axis == v,
        None => p.transform.rotation_axis@ == seq![0u32, ONE, 0],
    }
    &&& p.transform.rotation_speed == or(rotation_speed, HALF)
    &&& p.transform.scale == or(scale, ONE)
    &&& p.script == script
    &&& !p.despawn
}

/// The place of the first name that is `name`.
pub open spec fn first_named(names: Seq<Seq<char>>, name: Seq<char>, at: int) -> bool {
    &&& 0 <= at < names.len()
    &&& names[at] == name
    &&& forall|i: int| 0 <= i < at ==> #[trigger] names[i] != name
}

/// The place of the first name that is `name`, if any is.
pub fn find_name(names: &Vec<String>, name: &String) -> (at: Option<usize>)
    ensures
        at matches Some(i) ==> first_named(texts(names@), name@, i as int),
        at is None ==> !texts(names@).contains(name@),
{
    let mut i: usize = 0;
    while i < names.len()
        invariant
            i <= names@.len(),
            forall|j: int| 0 <= j < i ==> #[trigger] names@[j]@ != name@,
        decreases names@.len() - i,
    {
        if names[i] == *name {
            return Some(i);
        }
        i = i + 1;
    }
    None
}

/// The scene, as scripts see it.
pub struct SceneProxy {
    pub entities: Vec<EntityProxy>,
    pub spawns: Vec<EntityProxy>,
    pub mesh_names: Vec<String>,
}

impl SceneProxy {
    /// Spawn a new entity. `mesh` should be one of the available meshes.
    pub fn spawn(
        &mut self,
        mesh: String,
        name: Option<String>,
        position: Option<[u32; 3]>,
        rotation_axis: Option<[u32; 3]>,
        rotation_speed: Option<u32>,
        scale: Option<u32>,
        script: Option<String>,
    )
        ensures
            final(self).entities == old(self).entities,
            final(self).mesh_names == old(self).mesh_names,
            final(self).spawns@.len() == old(self).spawns@.len() + 1,
            final(self).spawns@.drop_last() == old(self).spawns@,
            spawned(
                mesh@,
                text_of(name),
                position,
                rotation_axis,
                rotation_speed,
                scale,
                text_of(script),
                final(self).spawns@.last()@,
            ),
    {
        let proxy = new_spawn(mesh, name, position, rotation_axis, rotation_speed, scale, script);
        self.spawns.push(proxy);
        assert(self.spawns@.drop_last() =~= old(self).spawns@);
    }

    /// The place of the first entity with the given name, if there is one.
    pub fn find(&self, name: &String) -> (at: Option<usize>)
        ensures
            at matches Some(i) ==> {
                &&& i < self.entities@.len()
                &&& self.entities@[i as int]@.name == name@
                &&& forall|j: int| 0 <= j < i ==> (#[trigger] self.entities@[j])@.name != name@
            },
            at is None ==> forall|j: int|
                0 <= j < self.entities@.len() ==> (#[trigger] self.entities@[j])@.name != name@,
    {
        let mut i: usize = 0;
        while i < self.entities.len()
            invariant
                i <= self.entities@.len(),
                forall|j: int| 0 <= j < i ==> (#[trigger] self.entities@[j])@.name != name@,
            decreases self.entities@.len() - i,
        {
            if self.entities[i].name == *name {
                return Some(i);
            }
            i = i + 1;
        }
        None
    }

    /// Whether any entity has the given name.
    pub fn has(&self, name: &String) -> (found: bool)
        ensures
            found == exists|j: int|
                0 <= j < self.entities@.len() && (#[trigger] self.entities@[j])@.name == name@,
    {
        self.find(name).is_some()
    }

    /// Mesh names that can be passed to `spawn`.
    pub fn available_meshes(&self) -> (names: Vec<String>)
        ensures
            names@ == self.mesh_names@,
    {
        clone_all(&self.mesh_names)
    }
}

fn clone_all(names: &Vec<String>) -> (copy: Vec<String>)
    ensures
        copy@ == names@,
{
    let mut copy: Vec<String> = Vec::new();
    let mut i: usize = 0;
    while i < names.len()
        invariant
            i <= names@.len(),
            copy@ == names@.take(i as int),
        decreases names@.len() - i,
    {
        copy.push(names[i].clone());
        assert(copy@ =~= names@.take(i + 1));
        i = i + 1;
    }
    assert(names@.take(names@.len() as int) =~= names@);
    copy
}

/// What a script spawns, with defaults for what it leaves out: no name, at the
/// origin, upright, turning at half speed, in full size.
pub fn new_spawn(
    mesh: String,
    name: Option<String>,
    position: Option<[u32; 3]>,
    rotation_axis: Option<[u32; 3]>,
    rotation_speed: Option<u32>,
    scale: Option<u32>,
    script: Option<String>,
) -> (proxy: EntityProxy)
    ensures
        spawned(
            mesh@,
            text_of(name),
            position,
            rotation_axis,
            rotation_speed,
            scale,
            text_of(script),
            proxy@,
        ),
{
    let name = match name {
        Some(name) => name,
        None => String::new(),
    };
    let position = match position {
        Some(v) => v,
        None => [0, 0, 0],
    };
    let rotation_axis = match rotation_axis {
        Some(v) => v,
        None => [0, ONE, 0],
    };
    let rotation_speed = match rotation_speed {
        Some(v) => v,
        None => HALF,
    };
    let scale = match scale {
        Some(v) => v,
        None => ONE,
    };
    EntityProxy {
        entity: None,
        mesh_name: mesh,
        name,
        position,
        rotation_axis,
        rotation_speed,
        scale,
        script,
        despawn_flag: false,
    }
}

/// The meshes that scripts know by name.
#[verifier::ext_equal]
pub struct MeshTable {
    pub by_name: Map<Seq<char>, MeshAlloc>,
    /// The name of the mesh whose vertices start at an offset.
    pub by_offset: Map<u32, Seq<char>>,
}

impl MeshTable {
    pub open spec fn register(self, name: Seq<char>, alloc: MeshAlloc) -> MeshTable {
        MeshTable {
            by_name: self.by_name.insert(name, alloc),
            by_offset: self.by_offset.insert(alloc.vertex_offset, name),
        }
    }

    /// The name of a mesh, or nothing.
    pub open spec fn name_of(self, mesh: Mesh) -> Seq<char> {
        if self.by_offset.contains_key(mesh.0.vertex_offset) {
            self.by_offset[mesh.0.vertex_offset]
        } else {
            Seq::empty()
        }
    }
}

/// A mesh that was registered is found by its name, and its name is found by its
/// place in the arena; registering another mesh elsewhere, under another name,
/// does not change that.
pub proof fn registered_meshes_are_found(
    table: MeshTable,
    name: Seq<char>,
    alloc: MeshAlloc,
    other: Seq<char>,
    elsewhere: MeshAlloc,
)
    requires
        other != name,
        elsewhere.vertex_offset != alloc.vertex_offset,
    ensures
        table.register(name, alloc).by_name[name] == alloc,
        table.register(name, alloc).name_of(Mesh(alloc)) == name,
        table.register(name, alloc).register(other, elsewhere).by_name[name] == alloc,
        table.register(name, alloc).register(other, elsewhere).name_of(Mesh(alloc)) == name,
{
}

/// The scripting host: the scripts in memory, and the meshes scripts can spawn.
pub struct ScriptHost {
    pub cache: ScriptCache,
    pub mesh_map: Vec<(String, MeshAlloc)>,
    pub mesh_reverse: HashMap<u32, String>,
}

spec fn named(map: Seq<(String, MeshAlloc)>, name: Seq<char>, i: int) -> bool {
    0 <= i < map.len() && map[i].0@ == name
}

spec fn table_of(map: Seq<(String, MeshAlloc)>) -> Map<Seq<char>, MeshAlloc> {
    Map::new(
        |name: Seq<char>| exists|i: int| named(map, name, i),
        |name: Seq<char>| map[choose|i: int| named(map, name, i)].1,
    )
}

spec fn distinct_names(map: Seq<(String, MeshAlloc)>) -> bool {
    forall|i: int, j: int|
        0 <= i < j < map.len() ==> (#[trigger] map[i]).0@ != (#[trigger] map[j]).0@
}

impl ScriptHost {
    /// The meshes that scripts know.
    pub closed spec fn meshes(self) -> MeshTable {
        MeshTable {
            by_name: table_of(self.mesh_map@),
            by_offset: self.mesh_reverse@.map_values(|s: String| s@),
        }
    }

    /// No name is listed twice, and the cache is in order.
    pub closed spec fn wf(self) -> bool {
        &&& self.cache.wf()
        &&& distinct_names(self.mesh_map@)
    }

    /// No scripts, no meshes.
    pub fn new() -> (host: ScriptHost)
        ensures
            host.wf(),
            host.cache@.len() == 0,
            host.meshes() == (MeshTable { by_name: Map::empty(), by_offset: Map::empty() }),
    {
        let host = ScriptHost {
            cache: ScriptCache::new(),
            mesh_map: Vec::new(),
            mesh_reverse: HashMap::new(),
        };
        assert(host.meshes().by_name =~= Map::empty());
        assert(host.meshes().by_offset =~= Map::empty());
        host
    }

    /// Register a named mesh so that scripts can spawn it by name.
    pub fn register_mesh(&mut self, name: String, alloc: MeshAlloc)
        requires
            old(self).wf(),
        ensures
            final(self).wf(),
            final(self).cache == old(self).cache,
            final(self).meshes() == old(self).meshes().register(name@, alloc),
    {
        self.mesh_reverse.insert(alloc.vertex_offset, name.clone());
        let ghost before = self.mesh_map@;
        let mut i: usize = 0;
        while i < self.mesh_map.len() && self.mesh_map[i].0 != name
            invariant
                i <= self.mesh_map@.len(),
                self.mesh_map@ == before,
                forall|j: int| 0 <= j < i ==> (#[trigger] before[j]).0@ != name@,
                self.cache == old(self).cache,
                self.mesh_reverse@ == old(self).mesh_reverse@.insert(alloc.vertex_offset, name),
            decreases self.mesh_map@.len() - i,
        {
            i = i + 1;
        }
        let ghost key = name@;
        if i < self.mesh_map.len() {
            self.mesh_map.set(i, (name, alloc));
        } else {
            self.mesh_map.push((name, alloc));
        }
        proof {
            let after = self.mesh_map@;
            assert(named(after, key, i as int));
            assert forall|k: Seq<char>|
                table_of(after).contains_key(k) <==> table_of(before).insert(
                    key,
                    alloc,
                ).contains_key(k) by {
                if k != key {
                    if exists|j: int| named(before, k, j) {
                        let j = choose|j: int| named(before, k, j);
                        assert(named(after, k, j));
                    }
                    if exists|j: int| named(after, k, j) {
                        let j = choose|j: int| named(after, k, j);
                        assert(named(before, k, j));
                    }
                }
            }
            assert forall|k: Seq<char>| table_of(after).contains_key(k) implies #[trigger] table_of(
                after,
            )[k] == table_of(before).insert(key, alloc)[k] by {
                let j = choose|j: int| named(after, k, j);
                assert(named(after, k, j));
                if k == key {
                    assert(j == i);
                } else {
                    assert(named(before, k, j));
                    let j0 = choose|j0: int| named(before, k, j0);
                    assert(named(before, k, j0));
                    assert(j == j0);
                }
            }
            assert(table_of(after) =~= table_of(before).insert(key, alloc));
            assert(self.mesh_reverse@.map_values(|s: String| s@) =~= old(
                self,
            ).mesh_reverse@.map_values(|s: String| s@).insert(alloc.vertex_offset, key));
        }
    }

    /// The mesh with the given name, if there is one.
    pub fn mesh_named(&self, name: &String) -> (alloc: Option<MeshAlloc>)
        requires
            self.wf(),
        ensures
            alloc is Some <==> self.meshes().by_name.contains_key(name@),
            alloc matches Some(a) ==> a == self.meshes().by_name[name@],
    {
        let ghost map = self.mesh_map@;
        let mut i: usize = 0;
        while i < self.mesh_map.len()
            invariant
                i <= self.mesh_map@.len(),
                self.wf(),
                map == self.mesh_map@,
                forall|j: int| 0 <= j < i ==> (#[trigger] map[j]).0@ != name@,
            decreases self.mesh_map@.len() - i,
        {
            if self.mesh_map[i].0 == *name {
                proof {
                    assert(named(map, name@, i as int));
                    let j = choose|j: int| named(map, name@, j);
                    assert(named(map, name@, j));
                    assert(i == j);
                }
                return Some(self.mesh_map[i].1);
            }
            i = i + 1;
        }
        assert(!(exists|j: int| named(map, name@, j)));
        None
    }

    /// The names of all meshes, each of them once.
    pub fn mesh_names(&self) -> (names: Vec<String>)
        requires
            self.wf(),
        ensures
            forall|k: Seq<char>|
                self.meshes().by_name.contains_key(k) <==> #[trigger] texts(names@).contains(k),
            texts(names@).no_duplicates(),
    {
        let ghost map = self.mesh_map@;
        let mut names: Vec<String> = Vec::new();
        let mut i: usize = 0;
        while i < self.mesh_map.len()
            invariant
                i <= map.len(),
                map == self.mesh_map@,
                names@.len() == i,
                forall|j: int| 0 <= j < i ==> (#[trigger] names@[j])@ == map[j].0@,
            decreases self.mesh_map@.len() - i,
        {
            names.push(self.mesh_map[i].0.clone());
            i = i + 1;
        }
        proof {
            let texts = texts(names@);
            assert forall|k: Seq<char>|
                self.meshes().by_name.contains_key(k) <==> #[trigger] texts.contains(k) by {
                if exists|j: int| named(map, k, j) {
                    let j = choose|j: int| named(map, k, j);
                    assert(texts[j] == k);
                }
                if texts.contains(k) {
                    let j = texts.index_of(k);
                    assert(names@[j]@ == k);
                    assert(named(map, k, j));
                }
            }
            assert forall|a: int, b: int|
                0 <= a < texts.len() && 0 <= b < texts.len() && a != b implies texts[a]
                != texts[b] by {
                assert(names@[a]@ == map[a].0@);
                assert(names@[b]@ == map[b].0@);
            }
        }
        names
    }

    /// The name of a mesh, or nothing.
    fn name_of(&self, mesh: Mesh) -> (name: String)
        ensures
            name@ == self.meshes().name_of(mesh),
    {
        match self.mesh_reverse.get(&mesh.0.vertex_offset) {
            Some(name) => name.clone(),
            None => String::new(),
        }
    }
}

/// Whether scripts see an entity.
pub open spec fn is_visible(d: EntityData) -> bool {
    d.transform is Some && d.mesh is Some
}

/// What scripts see of an entity.
pub open spec fn proxy_of(id: u64, d: EntityData, meshes: MeshTable) -> ProxyData {
    ProxyData {
        entity: Some(id),
        mesh_name: meshes.name_of(d.mesh->0),
        name: or(d.name, Seq::empty()),
        transform: d.transform->0,
        script: d.script,
        despawn: false,
    }
}

/// What scripts see of the scene.
pub open spec fn proxies_of(rows: Seq<Row>, meshes: MeshTable) -> Seq<ProxyData>
    decreases rows.len(),
{
    if rows.len() == 0 {
        Seq::empty()
    } else {
        let before = proxies_of(rows.drop_last(), meshes);
        if is_visible(rows.last().data()) {
            before.push(proxy_of(rows.last().id, rows.last().data(), meshes))
        } else {
            before
        }
    }
}

/// The entities that have a script, with its path.
pub open spec fn scripted_of(rows: Seq<Row>) -> Seq<(u64, Seq<char>)>
    decreases rows.len(),
{
    if rows.len() == 0 {
        Seq::empty()
    } else {
        let before = scripted_of(rows.drop_last());
        match rows.last().data().script {
            Some(path) => before.push((rows.last().id, path)),
            None => before,
        }
    }
}

/// An entity with a script.
pub struct Scripted {
    pub entity: u64,
    pub path: String,
    /// The components of the path, by which its script is known.
    pub parts: Vec<String>,
}

impl Scripted {
    /// What the script is known by.
    pub open spec fn key(self) -> PathKey {
        texts(self.parts@)
    }

    /// The script of a portable path is known by the components of the path.
    pub open spec fn keyed(self) -> bool {
        portable(self.path@) ==> self.key() == components(self.path@)
    }

    /// An entity whose script is at `path`.
    pub fn new(entity: u64, path: String) -> (scripted: Scripted)
        ensures
            scripted.entity == entity,
            scripted.path == path,
            scripted.keyed(),
    {
        let parts = path_components(&path);
        Scripted { entity, path, parts }
    }
}

pub open spec fn scripted_views(scripted: Seq<Scripted>) -> Seq<(u64, Seq<char>)> {
    scripted.map_values(|s: Scripted| (s.entity, s.path@))
}

/// Each proxy stands for an entity, and no two for the same.
pub open spec fn distinct_entities(proxies: Seq<ProxyData>) -> bool {
    &&& forall|i: int| 0 <= i < proxies.len() ==> (#[trigger] proxies[i]).entity is Some
    &&& forall|i: int, j: int|
        0 <= i < j < proxies.len() ==> (#[trigger] proxies[i]).entity
            != (#[trigger] proxies[j]).entity
}

/// Whether a proxy is that of an entity of the list.
spec fn comes_from(rows: Seq<Row>, meshes: MeshTable, p: ProxyData) -> bool {
    exists|j: int|
        0 <= j < rows.len() && is_visible((#[trigger] rows[j]).data()) && p == proxy_of(
            rows[j].id,
            rows[j].data(),
            meshes,
        )
}

/// The proxies of a list are those of its entities.
proof fn lemma_proxies_from_rows(rows: Seq<Row>, meshes: MeshTable)
    ensures
        proxies_of(rows, meshes).len() <= rows.len(),
        forall|i: int|
            0 <= i < proxies_of(rows, meshes).len() ==> comes_from(
                rows,
                meshes,
                #[trigger] proxies_of(rows, meshes)[i],
            ),
    decreases rows.len(),
{
    if rows.len() != 0 {
        let shorter = rows.drop_last();
        lemma_proxies_from_rows(shorter, meshes);
        let before = proxies_of(shorter, meshes);
        let after = proxies_of(rows, meshes);
        assert forall|i: int| 0 <= i < after.len() implies comes_from(
            rows,
            meshes,
            #[trigger] after[i],
        ) by {
            if i < before.len() {
                assert(after[i] == before[i]);
                assert(comes_from(shorter, meshes, before[i]));
                let j = choose|j: int|
                    0 <= j < shorter.len() && is_visible((#[trigger] shorter[j]).data())
                        && before[i] == proxy_of(shorter[j].id, shorter[j].data(), meshes);
                assert(rows[j] == shorter[j]);
            } else {
                assert(rows[rows.len() - 1] == rows.last());
            }
        }
    }
}

proof fn lemma_proxies_distinct(rows: Seq<Row>, meshes: MeshTable)
    requires
        forall|i: int, j: int|
            0 <= i < j < rows.len() ==> (#[trigger] rows[i]).id != (#[trigger] rows[j]).id,
    ensures
        distinct_entities(proxies_of(rows, meshes)),
    decreases rows.len(),
{
    if rows.len() != 0 {
        let shorter = rows.drop_last();
        assert forall|i: int, j: int| 0 <= i < j < shorter.len() implies (#[trigger] shorter[i]).id
            != (#[trigger] shorter[j]).id by {
            assert(rows[i] == shorter[i] && rows[j] == shorter[j]);
        }
        lemma_proxies_distinct(shorter, meshes);
        lemma_proxies_from_rows(shorter, meshes);
        let before = proxies_of(shorter, meshes);
        let after = proxies_of(rows, meshes);
        assert forall|i: int, j: int| 0 <= i < j < after.len() implies (#[trigger] after[i]).entity
            != (#[trigger] after[j]).entity by {
            if j == before.len() {
                assert(after[i] == before[i]);
                assert(comes_from(shorter, meshes, before[i]));
                let k = choose|k: int|
                    0 <= k < shorter.len() && is_visible((#[trigger] shorter[k]).data())
                        && before[i] == proxy_of(shorter[k].id, shorter[k].data(), meshes);
                assert(rows[k] == shorter[k]);
                assert(rows[k].id != rows[rows.len() - 1].id);
            } else {
                assert(after[i] == before[i] && after[j] == before[j]);
            }
        }
    }
}

impl ScriptHost {
    /// Photograph the scene for the scripts: every entity that can be seen, and
    /// those that have scripts.
    pub fn snapshot(&self, rows: &Vec<Row>) -> (result: (Vec<EntityProxy>, Vec<Scripted>))
        requires
            self.wf(),
        ensures
            views(result.0@) == proxies_of(rows@, self.meshes()),
            scripted_views(result.1@) == scripted_of(rows@),
            forall|i: int| 0 <= i < result.1@.len() ==> (#[trigger] result.1@[i]).keyed(),
    {
        let mut proxies: Vec<EntityProxy> = Vec::new();
        let mut scripted: Vec<Scripted> = Vec::new();
        let mut i: usize = 0;
        assert(views(proxies@) =~= proxies_of(rows@.take(0), self.meshes()));
        assert(scripted_views(scripted@) =~= scripted_of(rows@.take(0)));
        while i < rows.len()
            invariant
                self.wf(),
                i <= rows@.len(),
                views(proxies@) == proxies_of(rows@.take(i as int), self.meshes()),
                scripted_views(scripted@) == scripted_of(rows@.take(i as int)),
                forall|j: int| 0 <= j < scripted@.len() ==> (#[trigger] scripted@[j]).keyed(),
            decreases rows@.len() - i,
        {
            let row = &rows[i];
            let ghost before = proxies@;
            let ghost scripted_before = scripted@;
            assert(rows@.take(i + 1).drop_last() =~= rows@.take(i as int));
            if let (Some(transform), Some(mesh)) = (row.transform, row.mesh) {
                let name = match &row.name {
                    Some(name) => name.clone(),
                    None => String::new(),
                };
                proxies.push(
                    EntityProxy {
                        entity: Some(row.id),
                        mesh_name: self.name_of(mesh),
                        name,
                        position: transform.position,
                        rotation_axis: transform.rotation_axis,
                        rotation_speed: transform.rotation_speed,
                        scale: transform.scale,
                        script: clone_text(&row.script),
                        despawn_flag: false,
                    },
                );
                assert(views(proxies@) =~= views(before).push(proxies@.last()@));
            }
            if let Some(path) = &row.script {
                scripted.push(Scripted::new(row.id, path.clone()));
                assert(scripted_views(scripted@) =~= scripted_views(scripted_before).push(
                    (row.id, path@),
                ));
            }
            i = i + 1;
        }
        assert(rows@.take(rows@.len() as int) =~= rows@);
        (proxies, scripted)
    }
}

fn clone_text(text: &Option<String>) -> (copy: Option<String>)
    ensures
        text_of(copy) == text_of(*text),
{
    match text {
        Some(text) => Some(text.clone()),
        None => None,
    }
}

/// What a tick starts from.
pub struct Snapshot {
    pub proxies: Vec<EntityProxy>,
    pub scripted: Vec<Scripted>,
    pub mesh_names: Vec<String>,
}

/// Whether any entity of the scene has a script.
pub open spec fn has_scripts(scene: Map<u64, EntityData>) -> bool {
    exists|id: u64| #[trigger] scene.contains_key(id) && scene[id].script is Some
}

proof fn lemma_scripted(rows: Seq<Row>)
    ensures
        scripted_of(rows).len() > 0 <==> exists|i: int|
            0 <= i < rows.len() && (#[trigger] rows[i]).data().script is Some,
    decreases rows.len(),
{
    if rows.len() != 0 {
        let shorter = rows.drop_last();
        lemma_scripted(shorter);
        assert(rows[rows.len() - 1] == rows.last());
        if scripted_of(shorter).len() > 0 {
            let i = choose|i: int|
                0 <= i < shorter.len() && (#[trigger] shorter[i]).data().script is Some;
            assert(rows[i] == shorter[i]);
        }
        if exists|i: int| 0 <= i < rows.len() && (#[trigger] rows[i]).data().script is Some {
            let i = choose|i: int|
                0 <= i < rows.len() && (#[trigger] rows[i]).data().script is Some;
            if i < shorter.len() {
                assert(shorter[i] == rows[i]);
            }
        }
    }
}

impl ScriptHost {
    /// Start a tick: photograph the scene, unless no entity has a script.
    pub fn begin_tick(&self, scene: &mut Scene) -> (snapshot: Option<Snapshot>)
        requires
            self.wf(),
            old(scene).wf(),
        ensures
            final(scene).wf(),
            final(scene)@ == old(scene)@,
            snapshot is Some <==> has_scripts(old(scene)@),
            snapshot matches Some(s) ==> {
                &&& exists|rows: Seq<Row>|
                    {
                        &&& #[trigger] lists(rows, old(scene)@)
                        &&& views(s.proxies@) == proxies_of(rows, self.meshes())
                        &&& scripted_views(s.scripted@) == scripted_of(rows)
                    }
                &&& forall|i: int|
                    0 <= i < s.scripted@.len() ==> (#[trigger] s.scripted@[i]).keyed()
                &&& distinct_entities(views(s.proxies@))
                &&& forall|k: Seq<char>|
                    self.meshes().by_name.contains_key(k) <==> #[trigger] texts(
                        s.mesh_names@,
                    ).contains(k)
                &&& texts(s.mesh_names@).no_duplicates()
            },
    {
        let rows = scene.rows();
        let (proxies, scripted) = self.snapshot(&rows);
        proof {
            lemma_scripted(rows@);
            lemma_proxies_distinct(rows@, self.meshes());
            assert(scripted_views(scripted@).len() == scripted@.len());
            if has_scripts(scene@) {
                let id = choose|id: u64| #[trigger]
                    scene@.contains_key(id) && scene@[id].script is Some;
                let i = choose|i: int| 0 <= i < rows@.len() && (#[trigger] rows@[i]).id == id;
                assert(rows@[i].data().script is Some);
            }
            if scripted@.len() > 0 {
                let i = choose|i: int|
                    0 <= i < rows@.len() && (#[trigger] rows@[i]).data().script is Some;
                assert(scene@.contains_key(rows@[i].id));
            }
        }
        if scripted.len() == 0 {
            return None;
        }
        let mesh_names = self.mesh_names();
        Some(Snapshot { proxies, scripted, mesh_names })
    }
}

/// One call to be made: the `on_update` with the given number, on the proxy at
/// the given place.
#[derive(Clone, Copy, Debug, PartialEq, Eq, Structural)]
pub struct DispatchItem {
    pub proxy_idx: usize,
    pub on_update: u64,
}

/// Whether the proxy at a place is that of an entity.
pub open spec fn stands_for(proxies: Seq<ProxyData>, at: int, id: u64) -> bool {
    0 <= at < proxies.len() && proxies[at].entity == Some(id)
}

/// The calls to be made: for each scripted entity whose script is loaded and
/// that has a proxy.
pub open spec fn calls_of(
    proxies: Seq<ProxyData>,
    scripted: Seq<(u64, Seq<char>)>,
    callables: Seq<Option<u64>>,
) -> Seq<(int, u64)>
    decreases scripted.len(),
{
    if scripted.len() == 0 {
        Seq::empty()
    } else {
        let before = calls_of(proxies, scripted.drop_last(), callables.drop_last());
        let id = scripted.last().0;
        match callables.last() {
            Some(f) => if exists|at: int| stands_for(proxies, at, id) {
                before.push((choose|at: int| stands_for(proxies, at, id), f))
            } else {
                before
            },
            None => before,
        }
    }
}

/// List the calls to be made. `callables` has, for each scripted entity, the
/// `on_update` of its script if that is loaded.
pub fn dispatches(
    proxies: &Vec<EntityProxy>,
    scripted: &Vec<Scripted>,
    callables: &Vec<Option<u64>>,
) -> (items: Vec<DispatchItem>)
    requires
        distinct_entities(views(proxies@)),
        callables@.len() == scripted@.len(),
    ensures
        items@.map_values(|d: DispatchItem| (d.proxy_idx as int, d.on_update)) == calls_of(
            views(proxies@),
            scripted_views(scripted@),
            callables@,
        ),
{
    let mut index: HashMap<u64, usize> = HashMap::new();
    let ghost seen = views(proxies@);
    let mut i: usize = 0;
    while i < proxies.len()
        invariant
            i <= proxies@.len(),
            seen == views(proxies@),
            distinct_entities(seen),
            forall|id: u64| #[trigger]
                index@.contains_key(id) ==> stands_for(seen, index@[id] as int, id) && index@[id]
                    < i,
            forall|j: int|
                0 <= j < i ==> index@.contains_key((#[trigger] seen[j]).entity->0),
        decreases proxies@.len() - i,
    {
        assert(seen[i as int] == proxies@[i as int]@);
        if let Some(id) = proxies[i].entity {
            index.insert(id, i);
        }
        i = i + 1;
    }
    let mut items: Vec<DispatchItem> = Vec::new();
    let mut k: usize = 0;
    let ghost wanted = scripted_views(scripted@);
    assert(items@.map_values(|d: DispatchItem| (d.proxy_idx as int, d.on_update)) =~= calls_of(
        seen,
        wanted.take(0),
        callables@.take(0),
    ));
    while k < scripted.len()
        invariant
            k <= scripted@.len() == callables@.len(),
            i == proxies@.len(),
            seen == views(proxies@),
            wanted == scripted_views(scripted@),
            distinct_entities(seen),
            forall|id: u64| #[trigger]
                index@.contains_key(id) ==> stands_for(seen, index@[id] as int, id),
            forall|j: int|
                0 <= j < i ==> index@.contains_key((#[trigger] seen[j]).entity->0),
            items@.map_values(|d: DispatchItem| (d.proxy_idx as int, d.on_update)) == calls_of(
                seen,
                wanted.take(k as int),
                callables@.take(k as int),
            ),
        decreases scripted@.len() - k,
    {
        let id = scripted[k].entity;
        let ghost before = items@;
        assert(wanted.take(k + 1).drop_last() =~= wanted.take(k as int));
        assert(callables@.take(k + 1).drop_last() =~= callables@.take(k as int));
        assert(wanted.take(k + 1).last().0 == id);
        if let Some(f) = callables[k] {
            match index.get(&id) {
                Some(at) => {
                    items.push(DispatchItem { proxy_idx: *at, on_update: f });
                    proof {
                        let at1 = choose|at1: int| stands_for(seen, at1, id);
                        assert(stands_for(seen, *at as int, id));
                        assert(stands_for(seen, at1, id));
                        if at1 < *at {
                            assert(seen[at1].entity != seen[*at as int].entity);
                        }
                        if at1 > *at {
                            assert(seen[*at as int].entity != seen[at1].entity);
                        }
                        assert(items@.map_values(
                            |d: DispatchItem| (d.proxy_idx as int, d.on_update),
                        ) =~= before.map_values(
                            |d: DispatchItem| (d.proxy_idx as int, d.on_update),
                        ).push((*at as int, f)));
                    }
                },
                None => {
                    proof {
                        if exists|at: int| stands_for(seen, at, id) {
                            let at = choose|at: int| stands_for(seen, at, id);
                            assert(index@.contains_key(seen[at].entity->0));
                        }
                    }
                },
            }
        }
        k = k + 1;
    }
    assert(wanted.take(wanted.len() as int) =~= wanted);
    assert(callables@.take(callables@.len() as int) =~= callables@);
    items
}

/// A call is made on the proxy of the very entity that has the script.
pub proof fn calls_reach_their_entities(
    proxies: Seq<ProxyData>,
    scripted: Seq<(u64, Seq<char>)>,
    callables: Seq<Option<u64>>,
    i: int,
)
    requires
        callables.len() == scripted.len(),
        0 <= i < calls_of(proxies, scripted, callables).len(),
    ensures
        exists|k: int|
            {
                &&& 0 <= k < scripted.len()
                &&& stands_for(
                    proxies,
                    calls_of(proxies, scripted, callables)[i].0,
                    (#[trigger] scripted[k]).0,
                )
                &&& callables[k] == Some(calls_of(proxies, scripted, callables)[i].1)
            },
    decreases scripted.len(),
{
    let calls = calls_of(proxies, scripted, callables);
    let before = calls_of(proxies, scripted.drop_last(), callables.drop_last());
    if i < before.len() {
        calls_reach_their_entities(proxies, scripted.drop_last(), callables.drop_last(), i);
        let k = choose|k: int|
            {
                &&& 0 <= k < scripted.drop_last().len()
                &&& stands_for(proxies, before[i].0, (#[trigger] scripted.drop_last()[k]).0)
                &&& callables.drop_last()[k] == Some(before[i].1)
            };
        assert(scripted[k] == scripted.drop_last()[k]);
        assert(callables[k] == callables.drop_last()[k]);
        assert(calls[i] == before[i]);
    } else {
        let k = scripted.len() - 1;
        assert(scripted[k] == scripted.last());
        assert(callables[k] == callables.last());
    }
}

/// How many calls each thread gets.
pub open spec fn share(calls: nat, threads: nat) -> int {
    let n = (calls + threads - 1) / (threads as int);
    if n > 1 {
        n
    } else {
        1
    }
}

/// How many calls each thread gets, so that every thread gets one share at most.
pub fn chunk_size(calls: usize, threads: usize) -> (size: usize)
    requires
        threads >= 1,
        calls + threads <= usize::MAX,
    ensures
        size == share(calls as nat, threads as nat),
{
    let n = (calls + threads - 1) / threads;
    if n > 1 {
        n
    } else {
        1
    }
}

/// There are never more shares than threads: a thread never has to run twice.
pub proof fn shares_fit_threads(calls: nat, threads: nat)
    requires
        threads >= 1,
    ensures
        share(calls, threads) >= 1,
        share(calls, threads) * threads >= calls,
        (calls + share(calls, threads) - 1) / share(calls, threads) <= threads,
{
    let n = (calls + threads - 1) / (threads as int);
    let size = share(calls, threads);
    assert(n * threads >= calls) by (nonlinear_arith)
        requires
            n == (calls + threads - 1) / (threads as int),
            threads >= 1,
    ;
    assert(size * threads >= calls) by (nonlinear_arith)
        requires
            n * threads >= calls,
            size >= n,
            threads >= 1,
    ;
    assert((calls + size - 1) / size <= threads) by (nonlinear_arith)
        requires
            size * threads >= calls,
            size >= 1,
    ;
}

/// An entity's components after a script has changed its proxy.
pub open spec fn changed(d: EntityData, p: ProxyData) -> EntityData {
    EntityData {
        transform: if d.transform is Some {
            Some(p.transform)
        } else {
            None
        },
        name: if d.name is Some || p.name.len() > 0 {
            Some(p.name)
        } else {
            None
        },
        script: p.script,
        ..d
    }
}

/// The scene after the changes to one proxy.
pub open spec fn written(scene: Map<u64, EntityData>, p: ProxyData) -> Map<u64, EntityData> {
    let id = p.entity->0;
    if !scene.contains_key(id) {
        scene
    } else if p.despawn {
        scene.remove(id)
    } else {
        scene.insert(id, changed(scene[id], p))
    }
}

/// The scene after the changes to all proxies.
pub open spec fn all_written(scene: Map<u64, EntityData>, proxies: Seq<ProxyData>) -> Map<
    u64,
    EntityData,
>
    decreases proxies.len(),
{
    if proxies.len() == 0 {
        scene
    } else {
        written(all_written(scene, proxies.drop_last()), proxies.last())
    }
}

fn same_text(a: &Option<String>, b: &Option<String>) -> (same: bool)
    ensures
        same == (text_of(*a) == text_of(*b)),
{
    match (a, b) {
        (Some(a), Some(b)) => *a == *b,
        (None, None) => true,
        _ => false,
    }
}

fn write_one(scene: &mut Scene, proxy: &EntityProxy)
    requires
        old(scene).wf(),
        proxy@.entity is Some,
    ensures
        final(scene).wf(),
        final(scene)@ == written(old(scene)@, proxy@),
{
    let ghost before = scene@;
    let id = match proxy.entity {
        Some(id) => id,
        None => 0,
    };
    if proxy.despawn_flag {
        scene.despawn(id);
        assert(before.remove(id) =~= written(before, proxy@));
        return;
    }
    scene.set_transform(id, proxy.transform());
    if let Some(row) = scene.row(id) {
        if row.name.is_some() || !proxy.name.as_str().is_empty() {
            scene.set_name(id, proxy.name.clone());
        }
        match &proxy.script {
            Some(path) => {
                if !same_text(&proxy.script, &row.script) {
                    scene.set_script(id, path.clone());
                }
            },
            None => {
                if row.script.is_some() {
                    scene.remove_script(id);
                }
            },
        }
        assert(scene@[id] == changed(before[id], proxy@));
        assert(scene@ =~= written(before, proxy@));
    }
}

/// Write the changes that scripts have made back to the scene, one proxy after
/// another. An entity that is gone stays gone.
pub fn write_back(scene: &mut Scene, proxies: &Vec<EntityProxy>)
    requires
        old(scene).wf(),
        forall|i: int| 0 <= i < proxies@.len() ==> (#[trigger] proxies@[i])@.entity is Some,
    ensures
        final(scene).wf(),
        final(scene)@ == all_written(old(scene)@, views(proxies@)),
{
    let ghost all = views(proxies@);
    let mut i: usize = 0;
    assert(all.take(0) =~= Seq::empty());
    while i < proxies.len()
        invariant
            i <= proxies@.len(),
            all == views(proxies@),
            scene.wf(),
            forall|i: int| 0 <= i < proxies@.len() ==> (#[trigger] proxies@[i])@.entity is Some,
            scene@ == all_written(old(scene)@, all.take(i as int)),
        decreases proxies@.len() - i,
    {
        assert(all.take(i + 1).drop_last() =~= all.take(i as int));
        assert(all.take(i + 1).last() == proxies@[i as int]@);
        write_one(scene, &proxies[i]);
        i = i + 1;
    }
    assert(all.take(all.len() as int) =~= all);
}

proof fn lemma_all_written_elsewhere(
    scene: Map<u64, EntityData>,
    proxies: Seq<ProxyData>,
    id: u64,
)
    requires
        forall|i: int| 0 <= i < proxies.len() ==> (#[trigger] proxies[i]).entity is Some,
        forall|i: int| 0 <= i < proxies.len() ==> (#[trigger] proxies[i]).entity != Some(id),
    ensures
        all_written(scene, proxies).contains_key(id) <==> scene.contains_key(id),
        all_written(scene, proxies)[id] == scene[id],
    decreases proxies.len(),
{
    if proxies.len() != 0 {
        let shorter = proxies.drop_last();
        assert forall|i: int| 0 <= i < shorter.len() implies (#[trigger] shorter[i]).entity is Some
            && shorter[i].entity != Some(id) by {
            assert(shorter[i] == proxies[i]);
        }
        lemma_all_written_elsewhere(scene, shorter, id);
        let last = proxies[proxies.len() - 1];
        assert(last.entity is Some && last.entity != Some(id));
    }
}

/// Each entity gets the changes to its own proxy, whatever the order of the
/// proxies, and an entity without a proxy keeps its components.
pub proof fn changes_are_separate(
    scene: Map<u64, EntityData>,
    proxies: Seq<ProxyData>,
    id: u64,
    at: int,
)
    requires
        distinct_entities(proxies),
    ensures
        stands_for(proxies, at, id) && scene.contains_key(id) ==> {
            &&& all_written(scene, proxies).contains_key(id) <==> !proxies[at].despawn
            &&& !proxies[at].despawn ==> all_written(scene, proxies)[id] == changed(
                scene[id],
                proxies[at],
            )
        },
        (forall|k: int| !stands_for(proxies, k, id)) ==> {
            &&& all_written(scene, proxies).contains_key(id) <==> scene.contains_key(id)
            &&& all_written(scene, proxies)[id] == scene[id]
        },
        all_written(scene, proxies).contains_key(id) ==> scene.contains_key(id),
    decreases proxies.len(),
{
    if proxies.len() != 0 {
        let shorter = proxies.drop_last();
        let last = proxies[proxies.len() - 1];
        assert(last.entity is Some);
        assert forall|i: int, j: int| 0 <= i < j < shorter.len() implies (
        #[trigger] shorter[i]).entity != (#[trigger] shorter[j]).entity by {
            assert(shorter[i] == proxies[i] && shorter[j] == proxies[j]);
        }
        assert forall|i: int| 0 <= i < shorter.len() implies (
        #[trigger] shorter[i]).entity is Some by {
            assert(shorter[i] == proxies[i]);
        }
        changes_are_separate(scene, shorter, id, at);
        if last.entity == Some(id) {
            assert forall|i: int| 0 <= i < shorter.len() implies (#[trigger] shorter[i]).entity
                != Some(id) by {
                assert(shorter[i] == proxies[i]);
                assert(proxies[i].entity != last.entity);
            }
            lemma_all_written_elsewhere(scene, shorter, id);
            assert(stands_for(proxies, proxies.len() - 1, id));
            if stands_for(proxies, at, id) && at < shorter.len() {
                assert(shorter[at] == proxies[at]);
            }
        } else {
            assert(stands_for(proxies, at, id) <==> stands_for(shorter, at, id));
            if forall|k: int| !stands_for(proxies, k, id) {
                assert forall|k: int| !stands_for(shorter, k, id) by {
                    assert(!stands_for(proxies, k, id));
                }
            }
        }
    }
}

/// Scripts that despawn nothing keep every entity, and no change brings a new
/// one.
pub proof fn changes_keep_the_entities(scene: Map<u64, EntityData>, proxies: Seq<ProxyData>)
    requires
        distinct_entities(proxies),
        forall|i: int| 0 <= i < proxies.len() ==> !(#[trigger] proxies[i]).despawn,
    ensures
        all_written(scene, proxies).dom() == scene.dom(),
{
    assert forall|id: u64| all_written(scene, proxies).contains_key(id) <==> scene.contains_key(
        id,
    ) by {
        if exists|at: int| stands_for(proxies, at, id) {
            let at = choose|at: int| stands_for(proxies, at, id);
            changes_are_separate(scene, proxies, id, at);
        } else {
            changes_are_separate(scene, proxies, id, 0);
        }
    }
    assert(all_written(scene, proxies).dom() =~= scene.dom());
}

/// Scripts that change nothing leave the scene as it is: writing a snapshot back
/// untouched changes no component of any entity.
pub proof fn untouched_snapshots_change_nothing(
    scene: Map<u64, EntityData>,
    rows: Seq<Row>,
    meshes: MeshTable,
)
    requires
        lists(rows, scene),
    ensures
        all_written(scene, proxies_of(rows, meshes)) == scene,
{
    lemma_untouched(scene, rows, rows, meshes);
}

proof fn lemma_untouched(
    scene: Map<u64, EntityData>,
    rows: Seq<Row>,
    part: Seq<Row>,
    meshes: MeshTable,
)
    requires
        lists(rows, scene),
        part.is_prefix_of(rows),
    ensures
        all_written(scene, proxies_of(part, meshes)) == scene,
    decreases part.len(),
{
    if part.len() != 0 {
        let shorter = part.drop_last();
        lemma_untouched(scene, rows, shorter, meshes);
        let row = part.last();
        assert(rows[part.len() - 1] == row);
        let before = proxies_of(shorter, meshes);
        if is_visible(row.data()) {
            let p = proxy_of(row.id, row.data(), meshes);
            assert(before.push(p).drop_last() =~= before);
            assert(changed(row.data(), p) =~= row.data());
            assert(written(scene, p) =~= scene);
        }
    }
}

/// The components of what a script has spawned, unless it was taken back or has
/// a mesh that nobody knows.
pub open spec fn spawn_data(p: ProxyData, meshes: MeshTable) -> Option<EntityData> {
    if p.despawn || !meshes.by_name.contains_key(p.mesh_name) {
        None
    } else {
        Some(
            EntityData {
                transform: Some(p.transform),
                mesh: Some(Mesh(meshes.by_name[p.mesh_name])),
                name: if p.name.len() > 0 {
                    Some(p.name)
                } else {
                    None
                },
                script: p.script,
                material: None,
            },
        )
    }
}

/// The entities that come of what scripts have spawned.
pub open spec fn spawns_of(proxies: Seq<ProxyData>, meshes: MeshTable) -> Seq<EntityData>
    decreases proxies.len(),
{
    if proxies.len() == 0 {
        Seq::empty()
    } else {
        let before = spawns_of(proxies.drop_last(), meshes);
        match spawn_data(proxies.last(), meshes) {
            Some(d) => before.push(d),
            None => before,
        }
    }
}

impl ScriptHost {
    /// Add what scripts have spawned to the scene; returns the new entities.
    pub fn add_spawns(&self, scene: &mut Scene, spawns: &Vec<EntityProxy>) -> (ids: Vec<u64>)
        requires
            self.wf(),
            old(scene).wf(),
            old(scene)@.dom().len() + spawns@.len() <= u32::MAX,
        ensures
            final(scene).wf(),
            added(
                old(scene)@,
                ids@,
                spawns_of(views(spawns@), self.meshes()),
                final(scene)@,
            ),
    {
        let ghost start = scene@;
        let ghost all = views(spawns@);
        let mut ids: Vec<u64> = Vec::new();
        let ghost mut data: Seq<EntityData> = Seq::empty();
        let mut i: usize = 0;
        assert(data =~= spawns_of(all.take(0), self.meshes()));
        while i < spawns.len()
            invariant
                self.wf(),
                i <= spawns@.len(),
                all == views(spawns@),
                scene.wf(),
                start == old(scene)@,
                old(scene).wf(),
                start.dom().len() + spawns@.len() <= u32::MAX,
                ids@.len() == data.len() <= i,
                data == spawns_of(all.take(i as int), self.meshes()),
                fresh_ids(start, ids@),
                scene@ == add_all(start, ids@, data),
            decreases spawns@.len() - i,
        {
            let proxy = &spawns[i];
            assert(all.take(i + 1).drop_last() =~= all.take(i as int));
            assert(all.take(i + 1).last() == proxy@);
            proof {
                old(scene).finite();
                adding_keeps_the_rest(start, ids@, data);
            }
            if !proxy.despawn_flag {
                if let Some(alloc) = self.mesh_named(&proxy.mesh_name) {
                    let ghost before = scene@;
                    let id = scene.spawn(proxy.transform(), Mesh(alloc));
                    if !proxy.name.as_str().is_empty() {
                        scene.set_name(id, proxy.name.clone());
                    }
                    if let Some(path) = &proxy.script {
                        scene.set_script(id, path.clone());
                    }
                    let ghost wanted = spawn_data(proxy@, self.meshes())->0;
                    assert(scene@[id] == wanted);
                    assert(scene@ =~= before.insert(id, wanted));
                    proof {
                        lemma_add_one(start, ids@, data, id, wanted);
                        data = data.push(wanted);
                    }
                    ids.push(id);
                }
            }
            i = i + 1;
        }
        assert(all.take(all.len() as int) =~= all);
        ids
    }
}

proof fn lemma_no_more(scene: Map<u64, EntityData>, proxies: Seq<ProxyData>)
    requires
        scene.dom().finite(),
    ensures
        all_written(scene, proxies).dom().finite(),
        all_written(scene, proxies).dom().len() <= scene.dom().len(),
        all_written(scene, proxies).dom().subset_of(scene.dom()),
    decreases proxies.len(),
{
    if proxies.len() != 0 {
        lemma_no_more(scene, proxies.drop_last());
    }
    vstd::set_lib::lemma_len_subset(all_written(scene, proxies).dom(), scene.dom());
}

impl ScriptHost {
    /// End a tick: write the changes that scripts have made back to the scene,
    /// then add what they have spawned. Returns the new entities.
    pub fn finish_tick(
        &self,
        scene: &mut Scene,
        proxies: &Vec<EntityProxy>,
        spawns: &Vec<EntityProxy>,
    ) -> (ids: Vec<u64>)
        requires
            self.wf(),
            old(scene).wf(),
            forall|i: int| 0 <= i < proxies@.len() ==> (#[trigger] proxies@[i])@.entity is Some,
            old(scene)@.dom().len() + spawns@.len() <= u32::MAX,
        ensures
            final(scene).wf(),
            added(
                all_written(old(scene)@, views(proxies@)),
                ids@,
                spawns_of(views(spawns@), self.meshes()),
                final(scene)@,
            ),
    {
        proof {
            scene.finite();
            lemma_no_more(scene@, views(proxies@));
        }
        write_back(scene, proxies);
        self.add_spawns(scene, spawns)
    }
}

} // verus!
