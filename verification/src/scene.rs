//! The scene: entities with their components, kept in a `hecs` world.

use crate::components::{Material, Mesh, Name, Script, Transform};
use vstd::prelude::*;

verus! {

/// A `hecs` world, seen from outside.
#[verifier::external_type_specification]
#[verifier::external_body]
pub struct ExWorld(hecs::World);

/// The components of an entity.
#[verifier::ext_equal]
pub struct EntityData {
    pub transform: Option<Transform>,
    pub mesh: Option<Mesh>,
    pub name: Option<Seq<char>>,
    pub script: Option<Seq<char>>,
    pub material: Option<u32>,
}

/// The entities of a world that can be iterated, each with those of its
/// components that are transforms, meshes, names, scripts and materials. An
/// entity is known by its bits.
pub uninterp spec fn scene_of(w: hecs::World) -> Map<u64, EntityData>;

/// The number of entities of a world that have been reserved and not yet
/// created.
pub uninterp spec fn reserved_in(w: hecs::World) -> nat;

/// An entity and its components.
pub struct Row {
    pub id: u64,
    pub transform: Option<Transform>,
    pub mesh: Option<Mesh>,
    pub name: Option<String>,
    pub script: Option<String>,
    pub material: Option<u32>,
}

/// The text of an optional string.
pub open spec fn text_of(s: Option<String>) -> Option<Seq<char>> {
    match s {
        Some(s) => Some(s@),
        None => None,
    }
}

impl Row {
    pub open spec fn data(self) -> EntityData {
        EntityData {
            transform: self.transform,
            mesh: self.mesh,
            name: text_of(self.name),
            script: text_of(self.script),
            material: self.material,
        }
    }
}

/// Whether the rows are the entities of the scene, each of them once.
pub open spec fn lists(rows: Seq<Row>, scene: Map<u64, EntityData>) -> bool {
    &&& forall|i: int|
        0 <= i < rows.len() ==> {
            &&& scene.contains_key((#[trigger] rows[i]).id)
            &&& scene[rows[i].id] == rows[i].data()
        }
    &&& forall|i: int, j: int|
        0 <= i < j < rows.len() ==> (#[trigger] rows[i]).id != (#[trigger] rows[j]).id
    &&& forall|id: u64| #[trigger]
        scene.contains_key(id) ==> exists|i: int|
            0 <= i < rows.len() && (#[trigger] rows[i]).id == id
}

/// The empty scene.
pub open spec fn no_entities() -> Map<u64, EntityData> {
    Map::empty()
}

/// Calls `hecs::World::new`. The contract claims that the world is empty.
#[verifier::external_body]
fn world_new() -> (w: hecs::World)
    ensures
        scene_of(w) == no_entities(),
        reserved_in(w) == 0,
{
    hecs::World::new()
}

/// Calls `hecs::World::spawn` with a transform and a mesh. The contract claims
/// that an entity that did not exist before now has these two components, and
/// that no other entity has changed; it says nothing of how the number is
/// chosen. The call fails when there are too many entities.
#[verifier::external_body]
fn world_spawn(w: &mut hecs::World, transform: Transform, mesh: Mesh) -> (id: u64)
    requires
        reserved_in(*old(w)) == 0,
        scene_of(*old(w)).dom().len() < u32::MAX,
    ensures
        !scene_of(*old(w)).contains_key(id),
        scene_of(*final(w)) == scene_of(*old(w)).insert(
            id,
            (EntityData {
                transform: Some(transform),
                mesh: Some(mesh),
                name: None,
                script: None,
                material: None,
            }),
        ),
        reserved_in(*final(w)) == 0,
{
    w.spawn((transform, mesh)).to_bits().get()
}

/// Calls `hecs::World::despawn`. The contract claims that the entity is gone if
/// it existed, which is what the result tells, and that no other entity has
/// changed. Bits that `hecs::Entity::from_bits` rejects belong to no entity.
#[verifier::external_body]
fn world_despawn(w: &mut hecs::World, id: u64) -> (existed: bool)
    requires
        reserved_in(*old(w)) == 0,
    ensures
        existed == scene_of(*old(w)).contains_key(id),
        scene_of(*final(w)) == scene_of(*old(w)).remove(id),
        reserved_in(*final(w)) == 0,
{
    match hecs::Entity::from_bits(id) {
        Some(entity) => w.despawn(entity).is_ok(),
        None => false,
    }
}

/// The scene after an entity's components have been replaced, if it exists.
pub open spec fn with_data(
    scene: Map<u64, EntityData>,
    id: u64,
    data: EntityData,
) -> Map<u64, EntityData> {
    if scene.contains_key(id) {
        scene.insert(id, data)
    } else {
        scene
    }
}

/// Calls `hecs::World::insert` with a name. The contract claims that an entity
/// that exists has that name afterwards, in place of one it may have had, that
/// nothing else changes, and that the result tells whether it exists.
#[verifier::external_body]
fn world_insert_name(w: &mut hecs::World, id: u64, name: String) -> (found: bool)
    requires
        reserved_in(*old(w)) == 0,
    ensures
        found == scene_of(*old(w)).contains_key(id),
        scene_of(*final(w)) == with_data(
            scene_of(*old(w)),
            id,
            (EntityData { name: Some(name@), ..scene_of(*old(w))[id] }),
        ),
        reserved_in(*final(w)) == 0,
{
    match hecs::Entity::from_bits(id) {
        Some(entity) => w.insert(entity, (Name(name),)).is_ok(),
        None => false,
    }
}

/// Calls `hecs::World::insert` with a script; the contract claims of the script
/// what [`world_insert_name`] claims of the name.
#[verifier::external_body]
fn world_insert_script(w: &mut hecs::World, id: u64, path: String) -> (found: bool)
    requires
        reserved_in(*old(w)) == 0,
    ensures
        found == scene_of(*old(w)).contains_key(id),
        scene_of(*final(w)) == with_data(
            scene_of(*old(w)),
            id,
            (EntityData { script: Some(path@), ..scene_of(*old(w))[id] }),
        ),
        reserved_in(*final(w)) == 0,
{
    match hecs::Entity::from_bits(id) {
        Some(entity) => w.insert(entity, (Script(path),)).is_ok(),
        None => false,
    }
}

/// Calls `hecs::World::insert` with a material; the contract claims of the
/// material what [`world_insert_name`] claims of the name.
#[verifier::external_body]
fn world_insert_material(w: &mut hecs::World, id: u64, index: u32) -> (found: bool)
    requires
        reserved_in(*old(w)) == 0,
    ensures
        found == scene_of(*old(w)).contains_key(id),
        scene_of(*final(w)) == with_data(
            scene_of(*old(w)),
            id,
            (EntityData { material: Some(index), ..scene_of(*old(w))[id] }),
        ),
        reserved_in(*final(w)) == 0,
{
    match hecs::Entity::from_bits(id) {
        Some(entity) => w.insert(entity, (Material(index),)).is_ok(),
        None => false,
    }
}

/// Calls `hecs::World::remove` for the script. The contract claims that the
/// entity has no script afterwards, that nothing else changes, and that the
/// result tells whether it had one.
#[verifier::external_body]
fn world_remove_script(w: &mut hecs::World, id: u64) -> (had: bool)
    requires
        reserved_in(*old(w)) == 0,
    ensures
        had == (scene_of(*old(w)).contains_key(id) && scene_of(*old(w))[id].script is Some),
        scene_of(*final(w)) == with_data(
            scene_of(*old(w)),
            id,
            (EntityData { script: None, ..scene_of(*old(w))[id] }),
        ),
        reserved_in(*final(w)) == 0,
{
    match hecs::Entity::from_bits(id) {
        Some(entity) => w.remove::<(Script,)>(entity).is_ok(),
        None => false,
    }
}

/// Calls `hecs::World::remove` for the material; the contract claims of the
/// material what [`world_remove_script`] claims of the script.
#[verifier::external_body]
fn world_remove_material(w: &mut hecs::World, id: u64) -> (had: bool)
    requires
        reserved_in(*old(w)) == 0,
    ensures
        had == (scene_of(*old(w)).contains_key(id) && scene_of(*old(w))[id].material is Some),
        scene_of(*final(w)) == with_data(
            scene_of(*old(w)),
            id,
            (EntityData { material: None, ..scene_of(*old(w))[id] }),
        ),
        reserved_in(*final(w)) == 0,
{
    match hecs::Entity::from_bits(id) {
        Some(entity) => w.remove::<(Material,)>(entity).is_ok(),
        None => false,
    }
}

/// Calls `hecs::World::query_one_mut` for the transform and writes to it. The
/// contract claims that an entity with a transform has the new one afterwards,
/// that nothing else changes, and that the result tells whether it had one.
#[verifier::external_body]
fn world_set_transform(w: &mut hecs::World, id: u64, transform: Transform) -> (had: bool)
    requires
        reserved_in(*old(w)) == 0,
    ensures
        had == (scene_of(*old(w)).contains_key(id) && scene_of(*old(w))[id].transform is Some),
        scene_of(*final(w)) == (if had {
            scene_of(*old(w)).insert(
                id,
                (EntityData { transform: Some(transform), ..scene_of(*old(w))[id] }),
            )
        } else {
            scene_of(*old(w))
        }),
        reserved_in(*final(w)) == 0,
{
    match hecs::Entity::from_bits(id).map(|e| w.query_one_mut::<&mut Transform>(e)) {
        Some(Ok(stored)) => {
            *stored = transform;
            true
        },
        _ => false,
    }
}

/// All components of an entity, none of them required.
type AllComponents<'a> = (
    Option<&'a Transform>,
    Option<&'a Mesh>,
    Option<&'a Name>,
    Option<&'a Script>,
    Option<&'a Material>,
);

/// Calls `hecs::World::query_mut` for all five components, none of them
/// required. The contract claims that every entity comes out once, with its
/// components, in an order that is left open, and that the world does not
/// change.
#[verifier::external_body]
fn world_rows(w: &mut hecs::World) -> (rows: Vec<Row>)
    requires
        reserved_in(*old(w)) == 0,
    ensures
        lists(rows@, scene_of(*old(w))),
        scene_of(*final(w)) == scene_of(*old(w)),
        reserved_in(*final(w)) == 0,
{
    w.query_mut::<AllComponents<'_>>()
        .into_iter()
        .map(|(e, (t, m, n, s, x))| Row {
            id: e.to_bits().get(),
            transform: t.copied(),
            mesh: m.copied(),
            name: n.map(|n| n.0.clone()),
            script: s.map(|s| s.0.clone()),
            material: x.map(|x| x.0),
        })
        .collect()
}

/// Calls `hecs::World::query_one_mut` for all five components, none of them
/// required. The contract claims that an entity that exists comes out with its
/// components, and that the world does not change.
#[verifier::external_body]
fn world_row(w: &mut hecs::World, id: u64) -> (row: Option<Row>)
    requires
        reserved_in(*old(w)) == 0,
    ensures
        row is Some <==> scene_of(*old(w)).contains_key(id),
        row matches Some(r) ==> r.id == id && r.data() == scene_of(*old(w))[id],
        scene_of(*final(w)) == scene_of(*old(w)),
        reserved_in(*final(w)) == 0,
{
    let e = hecs::Entity::from_bits(id)?;
    let (t, m, n, s, x) = w.query_one_mut::<AllComponents<'_>>(e).ok()?;
    Some(Row {
        id,
        transform: t.copied(),
        mesh: m.copied(),
        name: n.map(|n| n.0.clone()),
        script: s.map(|s| s.0.clone()),
        material: x.map(|x| x.0),
    })
}

/// Calls `hecs::World::len`. The contract claims that it counts the entities.
#[verifier::external_body]
fn world_len(w: &hecs::World) -> (n: u32)
    requires
        reserved_in(*w) == 0,
    ensures
        n == scene_of(*w).dom().len(),
{
    w.len()
}

/// Calls `hecs::Entity::from_bits` and `hecs::Entity::id`. The contract claims
/// that the low half of an entity's bits is its index, and that bits without a
/// high half belong to no entity.
#[verifier::external_body]
fn bits_index(id: u64) -> (index: Option<u32>)
    ensures
        index is Some <==> id >= 0x1_0000_0000,
        index matches Some(n) ==> n == id % 0x1_0000_0000,
{
    hecs::Entity::from_bits(id).map(|e| e.id())
}

/// A scene: entities with their components.
pub struct Scene {
    world: hecs::World,
}

impl View for Scene {
    type V = Map<u64, EntityData>;

    closed spec fn view(&self) -> Map<u64, EntityData> {
        scene_of(self.world)
    }
}

impl Scene {
    /// Every entity has been created.
    pub closed spec fn wf(self) -> bool {
        &&& reserved_in(self.world) == 0
        &&& self@.dom().finite()
    }

    /// A scene has finitely many entities.
    pub proof fn finite(self)
        requires
            self.wf(),
        ensures
            self@.dom().finite(),
    {
    }

    /// An empty scene.
    pub fn new() -> (scene: Scene)
        ensures
            scene.wf(),
            scene@ == no_entities(),
    {
        Scene { world: world_new() }
    }

    /// The number of entities.
    pub fn len(&self) -> (n: u32)
        requires
            self.wf(),
        ensures
            n == self@.dom().len(),
    {
        world_len(&self.world)
    }

    /// Add an entity; returns what it is known by.
    pub fn spawn(&mut self, transform: Transform, mesh: Mesh) -> (id: u64)
        requires
            old(self).wf(),
            old(self)@.dom().len() < u32::MAX,
        ensures
            final(self).wf(),
            !old(self)@.contains_key(id),
            final(self)@ == old(self)@.insert(
                id,
                (EntityData {
                    transform: Some(transform),
                    mesh: Some(mesh),
                    name: None,
                    script: None,
                    material: None,
                }),
            ),
    {
        world_spawn(&mut self.world, transform, mesh)
    }

    /// Remove an entity; returns whether it existed.
    pub fn despawn(&mut self, id: u64) -> (existed: bool)
        requires
            old(self).wf(),
        ensures
            final(self).wf(),
            existed == old(self)@.contains_key(id),
            final(self)@ == old(self)@.remove(id),
    {
        world_despawn(&mut self.world, id)
    }

    /// Give an entity a name; returns whether it exists.
    pub fn set_name(&mut self, id: u64, name: String) -> (found: bool)
        requires
            old(self).wf(),
        ensures
            final(self).wf(),
            found == old(self)@.contains_key(id),
            final(self)@ == with_data(
                old(self)@,
                id,
                (EntityData { name: Some(name@), ..old(self)@[id] }),
            ),
    {
        world_insert_name(&mut self.world, id, name)
    }

    /// Give an entity a script; returns whether it exists.
    pub fn set_script(&mut self, id: u64, path: String) -> (found: bool)
        requires
            old(self).wf(),
        ensures
            final(self).wf(),
            found == old(self)@.contains_key(id),
            final(self)@ == with_data(
                old(self)@,
                id,
                (EntityData { script: Some(path@), ..old(self)@[id] }),
            ),
    {
        world_insert_script(&mut self.world, id, path)
    }

    /// Give an entity a material; returns whether it exists.
    pub fn set_material(&mut self, id: u64, index: u32) -> (found: bool)
        requires
            old(self).wf(),
        ensures
            final(self).wf(),
            found == old(self)@.contains_key(id),
            final(self)@ == with_data(
                old(self)@,
                id,
                (EntityData { material: Some(index), ..old(self)@[id] }),
            ),
    {
        world_insert_material(&mut self.world, id, index)
    }

    /// Take an entity's script away; returns whether it had one.
    pub fn remove_script(&mut self, id: u64) -> (had: bool)
        requires
            old(self).wf(),
        ensures
            final(self).wf(),
            had == (old(self)@.contains_key(id) && old(self)@[id].script is Some),
            final(self)@ == with_data(
                old(self)@,
                id,
                (EntityData { script: None, ..old(self)@[id] }),
            ),
    {
        world_remove_script(&mut self.world, id)
    }

    /// Take an entity's material away, so that it has the default; returns
    /// whether it had one.
    pub fn remove_material(&mut self, id: u64) -> (had: bool)
        requires
            old(self).wf(),
        ensures
            final(self).wf(),
            had == (old(self)@.contains_key(id) && old(self)@[id].material is Some),
            final(self)@ == with_data(
                old(self)@,
                id,
                (EntityData { material: None, ..old(self)@[id] }),
            ),
    {
        world_remove_material(&mut self.world, id)
    }

    /// Move an entity; returns whether it has a transform.
    pub fn set_transform(&mut self, id: u64, transform: Transform) -> (had: bool)
        requires
            old(self).wf(),
        ensures
            final(self).wf(),
            had == (old(self)@.contains_key(id) && old(self)@[id].transform is Some),
            final(self)@ == (if had {
                old(self)@.insert(
                    id,
                    (EntityData { transform: Some(transform), ..old(self)@[id] }),
                )
            } else {
                old(self)@
            }),
    {
        world_set_transform(&mut self.world, id, transform)
    }

    /// All entities with their components, in some order.
    pub fn rows(&mut self) -> (rows: Vec<Row>)
        requires
            old(self).wf(),
        ensures
            final(self).wf(),
            final(self)@ == old(self)@,
            lists(rows@, old(self)@),
    {
        world_rows(&mut self.world)
    }

    /// An entity with its components, if it exists.
    pub fn row(&mut self, id: u64) -> (row: Option<Row>)
        requires
            old(self).wf(),
        ensures
            final(self).wf(),
            final(self)@ == old(self)@,
            row is Some <==> old(self)@.contains_key(id),
            row matches Some(r) ==> r.id == id && r.data() == old(self)@[id],
    {
        world_row(&mut self.world, id)
    }
}

/// The scene with more entities.
pub open spec fn add_all(
    scene: Map<u64, EntityData>,
    ids: Seq<u64>,
    data: Seq<EntityData>,
) -> Map<u64, EntityData>
    decreases ids.len(),
{
    if ids.len() == 0 {
        scene
    } else {
        add_all(scene, ids.drop_last(), data.drop_last()).insert(ids.last(), data.last())
    }
}

/// Whether `ids` are different, and not yet those of entities of the scene.
pub open spec fn fresh_ids(scene: Map<u64, EntityData>, ids: Seq<u64>) -> bool {
    &&& ids.no_duplicates()
    &&& forall|i: int| 0 <= i < ids.len() ==> !scene.contains_key(#[trigger] ids[i])
}

/// Whether `after` is `scene` with entities of the given components added, known
/// by `ids`.
pub open spec fn added(
    scene: Map<u64, EntityData>,
    ids: Seq<u64>,
    data: Seq<EntityData>,
    after: Map<u64, EntityData>,
) -> bool {
    &&& ids.len() == data.len()
    &&& fresh_ids(scene, ids)
    &&& after == add_all(scene, ids, data)
}

/// Adding entities leaves those that were there as they were, and gives each new
/// one its components.
pub proof fn adding_keeps_the_rest(
    scene: Map<u64, EntityData>,
    ids: Seq<u64>,
    data: Seq<EntityData>,
)
    requires
        ids.len() == data.len(),
        fresh_ids(scene, ids),
    ensures
        forall|id: u64| #[trigger]
            add_all(scene, ids, data).contains_key(id) <==> scene.contains_key(id) || ids.contains(
                id,
            ),
        forall|id: u64|
            scene.contains_key(id) ==> #[trigger] add_all(scene, ids, data)[id] == scene[id],
        forall|i: int|
            0 <= i < ids.len() ==> add_all(scene, ids, data)[#[trigger] ids[i]] == data[i],
        scene.dom().finite() ==> {
            &&& add_all(scene, ids, data).dom().finite()
            &&& add_all(scene, ids, data).dom().len() == scene.dom().len() + ids.len()
        },
    decreases ids.len(),
{
    if ids.len() != 0 {
        let ids1 = ids.drop_last();
        let data1 = data.drop_last();
        let last = ids.last();
        assert forall|i: int| 0 <= i < ids1.len() implies !scene.contains_key(
            #[trigger] ids1[i],
        ) by {
            assert(ids1[i] == ids[i]);
        }
        adding_keeps_the_rest(scene, ids1, data1);
        let before = add_all(scene, ids1, data1);
        assert(!ids1.contains(last));
        assert(!scene.contains_key(ids[ids.len() - 1]));
        assert(!before.contains_key(last));
        assert forall|id: u64| ids.contains(id) <==> (ids1.contains(id) || id == last) by {
            if ids.contains(id) {
                let k = ids.index_of(id);
                if k < ids1.len() {
                    assert(ids1[k] == id);
                }
            }
            if ids1.contains(id) {
                assert(ids[ids1.index_of(id)] == id);
            }
            assert(ids[ids.len() - 1] == last);
        }
        assert(add_all(scene, ids, data).dom() =~= before.dom().insert(last));
        assert forall|i: int| 0 <= i < ids.len() implies add_all(scene, ids, data)[
            #[trigger] ids[i]
        ] == data[i] by {
            if i < ids1.len() {
                assert(ids1[i] == ids[i]);
                assert(ids[i] != ids[ids.len() - 1]);
            }
        }
    } else {
        assert(add_all(scene, ids, data).dom() =~= scene.dom());
    }
}

/// One more entity after the others.
pub proof fn lemma_add_one(
    scene: Map<u64, EntityData>,
    ids: Seq<u64>,
    data: Seq<EntityData>,
    id: u64,
    last: EntityData,
)
    requires
        ids.len() == data.len(),
        fresh_ids(scene, ids),
        !add_all(scene, ids, data).contains_key(id),
    ensures
        fresh_ids(scene, ids.push(id)),
        add_all(scene, ids.push(id), data.push(last)) == add_all(scene, ids, data).insert(id, last),
{
    adding_keeps_the_rest(scene, ids, data);
    assert(ids.push(id).drop_last() =~= ids);
    assert(data.push(last).drop_last() =~= data);
    assert(!ids.contains(id));
    assert forall|i: int| 0 <= i < ids.push(id).len() implies !scene.contains_key(
        #[trigger] ids.push(id)[i],
    ) by {
        if i < ids.len() {
            assert(ids.push(id)[i] == ids[i]);
        }
    }
}

/// The index of an entity: the low half of its number.
pub fn entity_index(id: u64) -> (index: Option<u32>)
    ensures
        index is Some <==> id >= 0x1_0000_0000,
        index matches Some(n) ==> n == id % 0x1_0000_0000,
{
    bits_index(id)
}

} // verus!
