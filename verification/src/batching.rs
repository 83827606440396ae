//! Grouping of the frame's objects into batches, one for each mesh.

use crate::arena::{BoundingSphere, DrawCommand, InstanceData, MeshAlloc};
use std::collections::HashMap;
use vstd::prelude::*;

verus! {

broadcast use vstd::std_specs::hash::group_hash_axioms;

/// Identifies a mesh: two allocations have the same key exactly when they are
/// the same ranges.
#[derive(Clone, Copy, Debug, PartialEq, Eq, Structural)]
pub struct MeshKey {
    pub bits: u128,
}

/// The key of an allocation: its four numbers, side by side.
pub open spec fn key_bits(alloc: MeshAlloc) -> int {
    alloc.vertex_offset + 0x1_0000_0000 * alloc.vertex_count + 0x1_0000_0000_0000_0000
        * alloc.index_offset + 0x1_0000_0000_0000_0000_0000_0000 * alloc.index_count
}

/// Different allocations have different keys.
pub proof fn keys_are_unique(a: MeshAlloc, b: MeshAlloc)
    requires
        key_bits(a) == key_bits(b),
    ensures
        a == b,
{
}

impl MeshKey {
    /// The key of an allocation.
    pub fn from(alloc: MeshAlloc) -> (key: MeshKey)
        ensures
            key.bits == key_bits(alloc),
    {
        MeshKey {
            bits: alloc.vertex_offset as u128 + 0x1_0000_0000 * alloc.vertex_count as u128
                + 0x1_0000_0000_0000_0000 * alloc.index_offset as u128
                + 0x1_0000_0000_0000_0000_0000_0000 * alloc.index_count as u128,
        }
    }
}

/// One object to be drawn.
#[derive(Clone, Copy, Debug)]
pub struct Drawable {
    pub mesh: MeshAlloc,
    pub bounds: BoundingSphere,
    /// The material index, or the default.
    pub material: Option<u32>,
    /// Column-major model matrix, as float bit patterns.
    pub model: [u32; 16],
}

impl Drawable {
    pub open spec fn instance(self) -> InstanceData {
        InstanceData {
            model: self.model,
            normal: self.model,
            material_index: match self.material {
                Some(i) => i,
                None => 0,
            },
        }
    }
}

/// The meshes of the drawables, without repetition, in order of first use.
pub open spec fn batch_meshes(drawables: Seq<Drawable>) -> Seq<MeshAlloc>
    decreases drawables.len(),
{
    if drawables.len() == 0 {
        Seq::empty()
    } else {
        let before = batch_meshes(drawables.drop_last());
        if before.contains(drawables.last().mesh) {
            before
        } else {
            before.push(drawables.last().mesh)
        }
    }
}

/// For each drawable, the batch of its mesh.
pub open spec fn batch_indices(drawables: Seq<Drawable>) -> Seq<u32> {
    drawables.map_values(|d: Drawable| batch_meshes(drawables).index_of(d.mesh) as u32)
}

/// The instances of the drawables.
pub open spec fn instances_of(drawables: Seq<Drawable>) -> Seq<InstanceData> {
    drawables.map_values(|d: Drawable| d.instance())
}

/// The bounds of the drawables.
pub open spec fn bounds_of(drawables: Seq<Drawable>) -> Seq<BoundingSphere> {
    drawables.map_values(|d: Drawable| d.bounds)
}

/// For each batch, the number of its instances.
pub open spec fn batch_sizes(indices: Seq<u32>, batches: nat) -> Seq<u32> {
    Seq::new(batches, |b: int| occurrences(indices, b) as u32)
}

/// For each batch, where its instances start.
pub open spec fn batch_bases(indices: Seq<u32>, batches: nat) -> Seq<u32> {
    Seq::new(batches, |b: int| occurrences_below(indices, b) as u32)
}

/// For each batch, a draw command without instances.
pub open spec fn batch_commands(meshes: Seq<MeshAlloc>, bases: Seq<u32>) -> Seq<DrawCommand> {
    Seq::new(meshes.len(), |b: int| meshes[b].command(0, bases[b]))
}

/// How often `x` occurs in `s`.
pub open spec fn occurrences(s: Seq<u32>, x: int) -> int
    decreases s.len(),
{
    if s.len() == 0 {
        0
    } else {
        occurrences(s.drop_last(), x) + if s.last() == x {
            1int
        } else {
            0int
        }
    }
}

/// How many elements of `s` are below `x`: where the instances of batch `x`
/// start.
pub open spec fn occurrences_below(s: Seq<u32>, x: int) -> int
    decreases x,
{
    if x <= 0 {
        0
    } else {
        occurrences_below(s, x - 1) + occurrences(s, x - 1)
    }
}

proof fn lemma_occurrences_bound(s: Seq<u32>, x: int)
    ensures
        0 <= occurrences(s, x) <= s.len(),
    decreases s.len(),
{
    if s.len() != 0 {
        lemma_occurrences_bound(s.drop_last(), x);
    }
}

proof fn lemma_below_step(s: Seq<u32>, x: int)
    requires
        s.len() > 0,
        0 <= x,
    ensures
        occurrences_below(s, x) == occurrences_below(s.drop_last(), x) + if s.last() < x {
            1int
        } else {
            0int
        },
    decreases x,
{
    if x > 0 {
        lemma_below_step(s, x - 1);
    }
}

/// No more elements are below than there are.
pub proof fn lemma_below_bound(s: Seq<u32>, x: int)
    requires
        0 <= x,
    ensures
        0 <= occurrences_below(s, x) <= s.len(),
    decreases s.len(),
{
    if s.len() != 0 {
        lemma_below_bound(s.drop_last(), x);
        lemma_below_step(s, x);
    } else {
        lemma_below_empty(s, x);
    }
}

proof fn lemma_below_empty(s: Seq<u32>, x: int)
    requires
        s.len() == 0,
    ensures
        occurrences_below(s, x) == 0,
    decreases x,
{
    if x > 0 {
        lemma_below_empty(s, x - 1);
    }
}

/// The batches share the instance buffer out among themselves: the range of each
/// batch starts where the one before it ends, and together they are exactly as
/// long as there are instances.
pub proof fn batches_partition_instances(indices: Seq<u32>, batches: int)
    requires
        0 <= batches,
        forall|i: int| 0 <= i < indices.len() ==> #[trigger] indices[i] < batches,
    ensures
        occurrences_below(indices, 0) == 0,
        forall|b: int|
            0 <= b < batches ==> #[trigger] occurrences_below(indices, b + 1) == occurrences_below(
                indices,
                b,
            ) + occurrences(indices, b),
        occurrences_below(indices, batches) == indices.len(),
    decreases indices.len(),
{
    if indices.len() == 0 {
        lemma_below_empty(indices, batches);
    } else {
        let shorter = indices.drop_last();
        assert forall|i: int| 0 <= i < shorter.len() implies #[trigger] shorter[i] < batches by {
            assert(indices[i] < batches);
        }
        batches_partition_instances(shorter, batches);
        lemma_below_step(indices, batches);
        assert(indices[indices.len() - 1] < batches);
    }
}

/// Each mesh has one batch, and each batch is used.
pub proof fn lemma_batch_meshes(drawables: Seq<Drawable>)
    ensures
        batch_meshes(drawables).no_duplicates(),
        batch_meshes(drawables).len() <= drawables.len(),
        drawables.len() > 0 ==> batch_meshes(drawables).len() > 0,
        forall|i: int|
            0 <= i < drawables.len() ==> batch_meshes(drawables).contains(
                (#[trigger] drawables[i]).mesh,
            ),
        forall|b: int|
            0 <= b < batch_meshes(drawables).len() ==> exists|i: int|
                0 <= i < drawables.len() && (#[trigger] drawables[i]).mesh
                    == #[trigger] batch_meshes(drawables)[b],
    decreases drawables.len(),
{
    if drawables.len() != 0 {
        let shorter = drawables.drop_last();
        let before = batch_meshes(shorter);
        let last = drawables.last().mesh;
        lemma_batch_meshes(shorter);
        if !before.contains(last) {
            assert(before.push(last)[before.len() as int] == last);
        }
        assert forall|i: int| 0 <= i < drawables.len() implies batch_meshes(drawables).contains(
            (#[trigger] drawables[i]).mesh,
        ) by {
            if i < shorter.len() {
                assert(before.contains(shorter[i].mesh));
                let b = before.index_of(shorter[i].mesh);
                assert(batch_meshes(drawables)[b] == shorter[i].mesh);
            }
        }
        assert forall|b: int| 0 <= b < batch_meshes(drawables).len() implies exists|i: int|
            0 <= i < drawables.len() && (#[trigger] drawables[i]).mesh == #[trigger] batch_meshes(
                drawables,
            )[b] by {
            if b < before.len() {
                let i = choose|i: int|
                    0 <= i < shorter.len() && (#[trigger] shorter[i]).mesh == before[b];
                assert(drawables[i].mesh == before[b]);
            } else {
                assert(drawables[drawables.len() - 1].mesh == last);
            }
        }
    }
}

/// Two drawables are in one batch exactly when they draw the same mesh, and the
/// batch is the one of that mesh.
pub proof fn same_batch_iff_same_mesh(drawables: Seq<Drawable>, i: int, j: int)
    requires
        drawables.len() <= u32::MAX,
        0 <= i < drawables.len(),
        0 <= j < drawables.len(),
    ensures
        0 <= batch_indices(drawables)[i] < batch_meshes(drawables).len(),
        batch_meshes(drawables)[batch_indices(drawables)[i] as int] == drawables[i].mesh,
        batch_indices(drawables)[i] == batch_indices(drawables)[j] <==> drawables[i].mesh
            == drawables[j].mesh,
{
    lemma_batch_meshes(drawables);
    let meshes = batch_meshes(drawables);
    assert(meshes.contains(drawables[i].mesh));
    assert(meshes.contains(drawables[j].mesh));
}

/// No batch is empty: every batch has at least one instance.
pub proof fn batches_are_not_empty(drawables: Seq<Drawable>, b: int)
    requires
        drawables.len() <= u32::MAX,
        0 <= b < batch_meshes(drawables).len(),
    ensures
        occurrences(batch_indices(drawables), b) >= 1,
{
    lemma_batch_meshes(drawables);
    let meshes = batch_meshes(drawables);
    let i = choose|i: int| 0 <= i < drawables.len() && (#[trigger] drawables[i]).mesh == meshes[b];
    same_batch_iff_same_mesh(drawables, i, i);
    lemma_occurs(batch_indices(drawables), i);
}

proof fn lemma_occurs(s: Seq<u32>, i: int)
    requires
        0 <= i < s.len(),
    ensures
        occurrences(s, s[i] as int) >= 1,
    decreases s.len(),
{
    lemma_occurrences_bound(s.drop_last(), s[i] as int);
    if i < s.len() - 1 {
        lemma_occurs(s.drop_last(), i);
    }
}

/// The drawables of a frame, grouped by mesh.
pub struct Batches {
    pub map: HashMap<u128, u32>,
    pub meshes: Vec<MeshAlloc>,
    pub instances: Vec<InstanceData>,
    pub bounds: Vec<BoundingSphere>,
    pub indices: Vec<u32>,
    pub sizes: Vec<u32>,
    pub base: Vec<u32>,
    pub commands: Vec<DrawCommand>,
    pub zeros: Vec<u32>,
}

impl Batches {
    /// Whether the lists describe `drawables`: the distinct meshes in order of
    /// first use, and for each drawable its instance, its bounds and the batch of
    /// its mesh.
    pub open spec fn groups(self, drawables: Seq<Drawable>) -> bool {
        &&& self.meshes@ == batch_meshes(drawables)
        &&& self.instances@ == instances_of(drawables)
        &&& self.bounds@ == bounds_of(drawables)
        &&& self.indices@ == batch_indices(drawables)
    }

    /// Whether every batch has its size, its place in the instance buffer, and a
    /// draw command that draws no instance yet.
    pub open spec fn laid_out(self) -> bool {
        &&& self.sizes@ == batch_sizes(self.indices@, self.meshes@.len())
        &&& self.base@ == batch_bases(self.indices@, self.meshes@.len())
        &&& self.commands@ == batch_commands(self.meshes@, self.base@)
    }

    /// Nothing to draw.
    pub fn new() -> (batches: Batches)
        ensures
            batches.groups(Seq::empty()),
            batches.laid_out(),
            batches.zeros@.len() == 0,
    {
        let batches = Batches {
            map: HashMap::new(),
            meshes: Vec::new(),
            instances: Vec::new(),
            bounds: Vec::new(),
            indices: Vec::new(),
            sizes: Vec::new(),
            base: Vec::new(),
            commands: Vec::new(),
            zeros: Vec::new(),
        };
        assert(batches.groups(Seq::empty())) by {
            let none = Seq::<Drawable>::empty();
            assert(batches.meshes@ =~= batch_meshes(none));
            assert(batches.instances@ =~= instances_of(none));
            assert(batches.bounds@ =~= bounds_of(none));
            assert(batches.indices@ =~= batch_indices(none));
        }
        assert(batches.sizes@ =~= batch_sizes(batches.indices@, 0));
        assert(batches.base@ =~= batch_bases(batches.indices@, 0));
        assert(batches.commands@ =~= batch_commands(batches.meshes@, batches.base@));
        batches
    }

    /// Group the drawables by mesh.
    pub fn group(&mut self, drawables: &[Drawable])
        requires
            drawables@.len() <= u32::MAX,
        ensures
            final(self).groups(drawables@),
    {
        self.map.clear();
        self.meshes.clear();
        self.instances.clear();
        self.bounds.clear();
        self.indices.clear();

        let ghost none = drawables@.take(0);
        assert(self.meshes@ =~= batch_meshes(none));
        assert(self.instances@ =~= instances_of(none));
        assert(self.bounds@ =~= bounds_of(none));

        let mut i: usize = 0;
        while i < drawables.len()
            invariant
                i <= drawables@.len() <= u32::MAX,
                self.meshes@ == batch_meshes(drawables@.take(i as int)),
                self.instances@ == instances_of(drawables@.take(i as int)),
                self.bounds@ == bounds_of(drawables@.take(i as int)),
                self.indices@.len() == i,
                self.meshes@.len() <= i,
                forall|j: int|
                    0 <= j < i ==> {
                        &&& 0 <= #[trigger] self.indices@[j] < self.meshes@.len()
                        &&& self.meshes@[self.indices@[j] as int] == drawables@[j].mesh
                    },
                forall|alloc: MeshAlloc|
                    self.meshes@.contains(alloc) <==> #[trigger] self.map@.contains_key(
                        key_bits(alloc) as u128,
                    ),
                forall|b: int|
                    0 <= b < self.meshes@.len() ==> self.map@[key_bits(
                        #[trigger] self.meshes@[b],
                    ) as u128] == b,
            decreases drawables@.len() - i,
        {
            let d = drawables[i];
            let ghost done = drawables@.take(i as int);
            let ghost next = drawables@.take(i + 1);
            assert(next.drop_last() =~= done);
            let ghost old_meshes = self.meshes@;
            let ghost old_map = self.map@;
            let key = MeshKey::from(d.mesh);
            let batch_id = match self.map.get(&key.bits) {
                Some(id) => *id,
                None => {
                    let id = self.meshes.len() as u32;
                    self.meshes.push(d.mesh);
                    self.map.insert(key.bits, id);
                    id
                },
            };
            proof {
                assert(key.bits == key_bits(d.mesh) as u128);
                assert(old_meshes.contains(d.mesh) <==> old_map.contains_key(
                    key_bits(d.mesh) as u128,
                ));
                if old_map.contains_key(key.bits) {
                    assert(old_meshes.contains(d.mesh));
                    let b = choose|b: int| 0 <= b < old_meshes.len() && old_meshes[b] == d.mesh;
                    assert(self.meshes@[b] == d.mesh);
                } else {
                    assert(!old_meshes.contains(d.mesh));
                    assert(self.meshes@[old_meshes.len() as int] == d.mesh);
                    assert forall|alloc: MeshAlloc|
                        self.meshes@.contains(alloc) <==> #[trigger] self.map@.contains_key(
                            key_bits(alloc) as u128,
                        ) by {
                        if key_bits(alloc) as u128 == key.bits {
                            keys_are_unique(alloc, d.mesh);
                        }
                        if old_meshes.contains(alloc) {
                            let b = choose|b: int|
                                0 <= b < old_meshes.len() && old_meshes[b] == alloc;
                            assert(self.meshes@[b] == alloc);
                        }
                    }
                    assert forall|b: int|
                        0 <= b < self.meshes@.len() implies self.map@[key_bits(
                        #[trigger] self.meshes@[b],
                    ) as u128] == b by {
                        if b < old_meshes.len() {
                            assert(self.meshes@[b] == old_meshes[b]);
                            assert(old_meshes.contains(old_meshes[b]));
                            if key_bits(old_meshes[b]) as u128 == key.bits {
                                keys_are_unique(old_meshes[b], d.mesh);
                            }
                        }
                    }
                }
            }
            let material_index = match d.material {
                Some(index) => index,
                None => 0,
            };
            // A uniform scale leaves the directions that the model matrix gives to
            // normals as they are, and the shader normalizes them.
            self.instances.push(InstanceData { model: d.model, normal: d.model, material_index });
            self.bounds.push(d.bounds);
            self.indices.push(batch_id);
            proof {
                assert(self.meshes@ =~= batch_meshes(next));
                assert(self.instances@ =~= instances_of(next));
                assert(self.bounds@ =~= bounds_of(next));
                assert forall|j: int| 0 <= j < i + 1 implies {
                    &&& 0 <= #[trigger] self.indices@[j] < self.meshes@.len()
                    &&& self.meshes@[self.indices@[j] as int] == drawables@[j].mesh
                } by {
                    if j < i {
                        assert(self.meshes@[self.indices@[j] as int]
                            == old_meshes[self.indices@[j] as int]);
                    }
                }
            }
            i = i + 1;
        }
        assert(drawables@.take(drawables@.len() as int) =~= drawables@);
        proof {
            lemma_batch_meshes(drawables@);
            assert forall|j: int| 0 <= j < i implies self.indices@[j] == #[trigger] batch_indices(
                drawables@,
            )[j] by {
                let mesh = drawables@[j].mesh;
                assert(self.meshes@[self.indices@[j] as int] == mesh);
                let k = self.meshes@.index_of(mesh);
                assert(self.meshes@[k] == mesh);
            }
            assert(self.indices@ =~= batch_indices(drawables@));
        }
    }

    /// Give every batch its size, its place in the instance buffer, and a draw
    /// command without instances: culling counts them in.
    pub fn lay_out(&mut self)
        requires
            old(self).indices@.len() <= u32::MAX,
            forall|i: int|
                0 <= i < old(self).indices@.len() ==> #[trigger] old(self).indices@[i] < old(
                    self,
                ).meshes@.len(),
        ensures
            final(self).laid_out(),
            final(self).meshes@ == old(self).meshes@,
            final(self).instances@ == old(self).instances@,
            final(self).bounds@ == old(self).bounds@,
            final(self).indices@ == old(self).indices@,
    {
        let m = self.meshes.len();
        let n = self.indices.len();

        self.sizes.clear();
        self.sizes.resize(m, 0);
        let mut i: usize = 0;
        assert forall|b: int| 0 <= b < m implies #[trigger] self.sizes@[b] == occurrences(
            self.indices@.take(0),
            b,
        ) by {}
        while i < n
            invariant
                i <= n == self.indices@.len() <= u32::MAX,
                m == self.meshes@.len() == self.sizes@.len(),
                self.meshes@ == old(self).meshes@,
                self.instances@ == old(self).instances@,
                self.bounds@ == old(self).bounds@,
                self.indices@ == old(self).indices@,
                forall|j: int| 0 <= j < n ==> #[trigger] self.indices@[j] < m,
                forall|b: int|
                    0 <= b < m ==> #[trigger] self.sizes@[b] == occurrences(
                        self.indices@.take(i as int),
                        b,
                    ),
            decreases n - i,
        {
            let id = self.indices[i];
            let ghost before = self.indices@.take(i as int);
            let ghost after = self.indices@.take(i + 1);
            assert(after.drop_last() =~= before);
            proof {
                lemma_occurrences_bound(before, id as int);
            }
            let size = self.sizes[id as usize];
            self.sizes.set(id as usize, size + 1);
            i = i + 1;
        }
        assert(self.indices@.take(n as int) =~= self.indices@);

        self.base.clear();
        self.commands.clear();
        let mut next: u32 = 0;
        let mut b: usize = 0;
        while b < m
            invariant
                b <= m == self.meshes@.len() == self.sizes@.len(),
                self.indices@.len() <= u32::MAX,
                self.meshes@ == old(self).meshes@,
                self.instances@ == old(self).instances@,
                self.bounds@ == old(self).bounds@,
                self.indices@ == old(self).indices@,
                self.base@.len() == b,
                self.commands@.len() == b,
                next == occurrences_below(self.indices@, b as int),
                forall|c: int|
                    0 <= c < m ==> #[trigger] self.sizes@[c] == occurrences(self.indices@, c),
                forall|c: int|
                    0 <= c < b ==> #[trigger] self.base@[c] == occurrences_below(self.indices@, c),
                forall|c: int|
                    0 <= c < b ==> #[trigger] self.commands@[c] == self.meshes@[c].command(
                        0,
                        self.base@[c],
                    ),
            decreases m - b,
        {
            self.base.push(next);
            self.commands.push(self.meshes[b].draw_command_instanced(0, next));
            proof {
                lemma_below_bound(self.indices@, b + 1);
            }
            next = next + self.sizes[b];
            b = b + 1;
        }
        proof {
            assert(self.sizes@ =~= batch_sizes(self.indices@, m as nat));
            assert(self.base@ =~= batch_bases(self.indices@, m as nat));
            assert(self.commands@ =~= batch_commands(self.meshes@, self.base@));
        }
    }
}

} // verus!
