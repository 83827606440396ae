//! Any number of meshes in one arena.

use crate::arena::{grown, GpuArena, MeshAlloc, PackedVertex};
use crate::element::{all_words, GpuElement};
use crate::gl::Recording;
use crate::gl_buffer::{BufferUsage, GlBuffer};
use crate::gpu_model::{
    allocated_in, arena_backed, mesh_indices, mesh_vertices, new_buffer_is_backed,
    push_mesh_appends, pushed_mesh_reads_back, replayable, GpuMemory,
};
use vstd::prelude::*;

verus! {

/// What is pushed at once.
pub struct MeshData {
    pub vertices: Seq<PackedVertex>,
    pub indices: Seq<u32>,
}

/// An arena, and what has been recorded for it.
pub struct ArenaState {
    pub arena: GpuArena,
    pub recording: Recording,
}

impl ArenaState {
    /// Whether a mesh can be pushed, and the sizes are such that GL can measure
    /// them.
    #[verifier::opaque]
    pub open spec fn can_push(self, mesh: MeshData) -> bool {
        let a = self.arena;
        let nv = mesh.vertices.len();
        let ni = mesh.indices.len();
        &&& a.has_room(nv, ni)
        &&& self.recording.next_id + 1 < u32::MAX
        &&& self.recording.payload.len() + 5 * nv + ni <= usize::MAX
        &&& grown(a.vertex_buf.capacity as int, a.next_vertex + nv) * 20 <= i32::MAX
        &&& grown(a.index_buf.capacity as int, a.next_index + ni) * 4 <= i32::MAX
    }

    /// What [`GpuArena::push_mesh`] makes of it.
    #[verifier::opaque]
    pub open spec fn push(self, mesh: MeshData) -> ArenaState {
        ArenaState {
            arena: self.arena.pushed(self.recording, mesh.vertices.len(), mesh.indices.len()),
            recording: self.arena.rec_push(self.recording, mesh.vertices, mesh.indices),
        }
    }

    /// After all of the meshes.
    pub open spec fn push_all(self, meshes: Seq<MeshData>) -> ArenaState
        decreases meshes.len(),
    {
        if meshes.len() == 0 {
            self
        } else {
            self.push_all(meshes.drop_last()).push(meshes.last())
        }
    }

    /// Whether all of the meshes can be pushed, one after another.
    pub open spec fn can_push_all(self, meshes: Seq<MeshData>) -> bool {
        forall|k: int|
            0 <= k < meshes.len() ==> self.push_all(meshes.take(k)).can_push(#[trigger] meshes[k])
    }

    /// The allocation that the `k`-th of the meshes gets.
    pub open spec fn place_of(self, meshes: Seq<MeshData>, k: int) -> MeshAlloc {
        self.push_all(meshes.take(k)).arena.next_alloc(
            meshes[k].vertices.len(),
            meshes[k].indices.len(),
        )
    }

    /// The arena's buffers exist, and everything can be replayed.
    #[verifier::opaque]
    pub open spec fn sound(self, m: GpuMemory) -> bool {
        &&& replayable(self.recording)
        &&& arena_backed(self.arena, m.replay(self.recording))
        &&& self.arena.vertex_buf.handle < self.recording.next_id
        &&& self.arena.index_buf.handle < self.recording.next_id
    }

    /// Whether a mesh reads back from the ranges of its allocation.
    #[verifier::opaque]
    pub open spec fn holds(self, m: GpuMemory, alloc: MeshAlloc, mesh: MeshData) -> bool {
        let now = m.replay(self.recording);
        &&& alloc.vertex_count == mesh.vertices.len()
        &&& alloc.index_count == mesh.indices.len()
        &&& allocated_in(alloc, self.arena)
        &&& mesh_vertices(alloc, self.arena, now) == all_words(mesh.vertices)
        &&& mesh_indices(alloc, self.arena, now) == mesh.indices
    }
}

/// Indices are words.
proof fn lemma_index_words(s: Seq<u32>)
    ensures
        all_words(s) == s,
    decreases s.len(),
{
    if s.len() > 0 {
        lemma_index_words(s.drop_last());
        assert(s.last().words() =~= seq![s.last()]);
        assert(all_words(s) =~= s);
    } else {
        assert(all_words(s) =~= s);
    }
}

/// One more mesh: it reads back, and the others still do.
proof fn lemma_push(m: GpuMemory, s: ArenaState, mesh: MeshData)
    requires
        s.sound(m),
        s.can_push(mesh),
    ensures
        s.push(mesh).sound(m),
        s.push(mesh).holds(
            m,
            s.arena.next_alloc(mesh.vertices.len(), mesh.indices.len()),
            mesh,
        ),
{
    reveal(ArenaState::push);
    reveal(ArenaState::sound);
    reveal(ArenaState::holds);
    reveal(ArenaState::can_push);
    let a = s.arena;
    let none = MeshAlloc {
        vertex_offset: 0,
        vertex_count: 0,
        index_offset: 0,
        index_count: 0,
    };
    push_mesh_appends(m, s.recording, a, mesh.vertices, mesh.indices);
    pushed_mesh_reads_back(m, s.recording, a, mesh.vertices, mesh.indices, none);
    lemma_index_words(mesh.indices);
}

proof fn lemma_push_keeps(
    m: GpuMemory,
    s: ArenaState,
    mesh: MeshData,
    alloc: MeshAlloc,
    earlier: MeshData,
)
    requires
        s.sound(m),
        s.can_push(mesh),
        s.holds(m, alloc, earlier),
    ensures
        s.push(mesh).holds(m, alloc, earlier),
{
    reveal(ArenaState::push);
    reveal(ArenaState::sound);
    reveal(ArenaState::holds);
    reveal(ArenaState::can_push);
    pushed_mesh_reads_back(m, s.recording, s.arena, mesh.vertices, mesh.indices, alloc);
}

proof fn lemma_fewer(s: ArenaState, meshes: Seq<MeshData>)
    requires
        s.can_push_all(meshes),
        meshes.len() > 0,
    ensures
        s.can_push_all(meshes.drop_last()),
        s.push_all(meshes.drop_last()).can_push(meshes.last()),
{
    let n = meshes.len() - 1;
    let before = meshes.drop_last();
    assert(before =~= meshes.take(n));
    assert forall|k: int| 0 <= k < n implies s.push_all(before.take(k)).can_push(
        #[trigger] before[k],
    ) by {
        assert(before.take(k) =~= meshes.take(k));
        assert(meshes[k] == before[k]);
    }
    assert(s.push_all(meshes.take(n)).can_push(meshes[n]));
}

proof fn lemma_pushes_sound(m: GpuMemory, s: ArenaState, meshes: Seq<MeshData>)
    requires
        s.sound(m),
        s.can_push_all(meshes),
    ensures
        s.push_all(meshes).sound(m),
    decreases meshes.len(),
{
    if meshes.len() > 0 {
        lemma_fewer(s, meshes);
        lemma_pushes_sound(m, s, meshes.drop_last());
        lemma_push(m, s.push_all(meshes.drop_last()), meshes.last());
    }
}

proof fn lemma_pushes_hold(m: GpuMemory, s: ArenaState, meshes: Seq<MeshData>, k: int)
    requires
        s.sound(m),
        s.can_push_all(meshes),
        0 <= k < meshes.len(),
    ensures
        s.push_all(meshes).holds(m, s.place_of(meshes, k), meshes[k]),
    decreases meshes.len(),
{
    let n = meshes.len() - 1;
    let before = meshes.drop_last();
    let mid = s.push_all(before);
    lemma_fewer(s, meshes);
    lemma_pushes_sound(m, s, before);
    if k < n {
        lemma_pushes_hold(m, s, before, k);
        assert(before.take(k) =~= meshes.take(k));
        assert(s.place_of(before, k) == s.place_of(meshes, k));
        lemma_push_keeps(m, mid, meshes.last(), s.place_of(meshes, k), meshes[k]);
    } else {
        assert(before =~= meshes.take(n));
        lemma_push(m, mid, meshes.last());
    }
}

/// The next mesh starts where the last one ends.
proof fn lemma_adjacent(s: ArenaState, meshes: Seq<MeshData>, k: int)
    requires
        s.can_push_all(meshes),
        0 <= k,
        k + 1 < meshes.len(),
    ensures
        ({
            let a = s.place_of(meshes, k);
            let b = s.place_of(meshes, k + 1);
            &&& b.vertex_offset == a.vertex_offset + a.vertex_count
            &&& b.index_offset == a.index_offset + a.index_count
        }),
{
    reveal(ArenaState::push);
    reveal(ArenaState::can_push);
    assert(meshes.take(k + 1).drop_last() =~= meshes.take(k));
    assert(meshes.take(k + 1).last() == meshes[k]);
    assert(s.push_all(meshes.take(k)).can_push(meshes[k]));
}

/// After any number of pushes into a new arena, every mesh still reads back from
/// its ranges as it was pushed, indices included, though the buffers may have
/// grown on the way. The first mesh starts at the beginning, and each of the
/// others where the one before it ends: there are no gaps, and nothing overlaps.
///
/// The arena was created after `r`, with room for some vertices and indices.
pub proof fn every_mesh_reads_back(
    m: GpuMemory,
    r: Recording,
    arena: GpuArena,
    meshes: Seq<MeshData>,
)
    requires
        replayable(r),
        0 <= r.next_id,
        r.next_id + 1 < u32::MAX,
        arena.wf(),
        arena.vertex_buf.handle == r.next_id,
        arena.index_buf.handle == r.next_id + 1,
        arena.next_vertex == 0,
        arena.next_index == 0,
        arena.vertex_buf.byte_size() <= i32::MAX,
        arena.index_buf.byte_size() <= i32::MAX,
        (ArenaState {
            arena,
            recording: GpuArena::rec_new(
                r,
                arena.vertex_buf.capacity as int,
                arena.index_buf.capacity as int,
            ),
        }).can_push_all(meshes),
    ensures
        ({
            let start = ArenaState {
                arena,
                recording: GpuArena::rec_new(
                    r,
                    arena.vertex_buf.capacity as int,
                    arena.index_buf.capacity as int,
                ),
            };
            &&& forall|k: int|
                0 <= k < meshes.len() ==> start.push_all(meshes).holds(
                    m,
                    start.place_of(meshes, k),
                    #[trigger] meshes[k],
                )
            &&& meshes.len() > 0 ==> start.place_of(meshes, 0).vertex_offset == 0 && start.place_of(
                meshes,
                0,
            ).index_offset == 0
            &&& forall|k: int|
                0 <= k && k + 1 < meshes.len() ==> {
                    let a = #[trigger] start.place_of(meshes, k);
                    let b = start.place_of(meshes, k + 1);
                    &&& b.vertex_offset == a.vertex_offset + a.vertex_count
                    &&& b.index_offset == a.index_offset + a.index_count
                }
        }),
{
    let usage = BufferUsage::DynamicDraw;
    let v = arena.vertex_buf;
    let x = arena.index_buf;
    new_buffer_is_backed(m, r, v, usage);
    let r1 = GlBuffer::<PackedVertex>::rec_new(r, v.capacity as int, usage);
    new_buffer_is_backed(m, r1, x, usage);
    let start = ArenaState {
        arena,
        recording: GpuArena::rec_new(r, v.capacity as int, x.capacity as int),
    };
    let after = m.replay(start.recording);
    assert(after.buffers.contains_key(v.handle));
    assert(after.buffers[v.handle] == m.replay(r1).buffers[v.handle]);
    assert(start.sound(m)) by {
        reveal(ArenaState::sound);
    }
    assert forall|k: int| 0 <= k < meshes.len() implies start.push_all(meshes).holds(
        m,
        start.place_of(meshes, k),
        #[trigger] meshes[k],
    ) by {
        lemma_pushes_hold(m, start, meshes, k);
    }
    if meshes.len() > 0 {
        assert(meshes.take(0) =~= Seq::empty());
    }
    assert forall|k: int| 0 <= k && k + 1 < meshes.len() implies {
        let a = #[trigger] start.place_of(meshes, k);
        let b = start.place_of(meshes, k + 1);
        &&& b.vertex_offset == a.vertex_offset + a.vertex_count
        &&& b.index_offset == a.index_offset + a.index_count
    } by {
        lemma_adjacent(start, meshes, k);
    }
}

} // verus!
