//! What the GPU is given of each object, word by word, and what its draw commands
//! fetch.

use crate::arena::{grown, BoundingSphere, MeshAlloc, PackedVertex};
use crate::arena_runs::{ArenaState, MeshData};
use crate::batching::{
    batch_bases, batch_commands, batch_indices, batch_meshes, batches_are_not_empty,
    batches_partition_instances, bounds_of, instances_of, lemma_batch_meshes, lemma_below_bound,
    occurrences, occurrences_below, same_batch_iff_same_mesh, Drawable,
};
use crate::bounds::MeshBounds;
use crate::components::Mesh;
use crate::drawables::{covers, drawables_of, is_drawn, renderable, Renderable};
use crate::element::{all_words, lemma_all_words_len, GpuElement};
use crate::frame_memory::{held, prepared_frames_read_back, shape};
use crate::frame_model::starts_with;
use crate::gl::Recording;
use crate::gl_buffer::element_size;
use crate::gpu_model::{mesh_indices, mesh_vertices, replayable, GpuMemory};
use crate::material_model::mirrors;
use crate::materials::GpuMaterial;
use crate::renderer::{zeros, Renderer};
use crate::scene::EntityData;
use vstd::prelude::*;

verus! {

/// Where the words of an element stand among those of all.
pub proof fn lemma_word<T: GpuElement>(data: Seq<T>, i: int, k: int)
    requires
        0 <= i < data.len(),
        0 <= k < T::words_each(),
    ensures
        0 <= i * T::words_each() + k < all_words(data).len(),
        all_words(data)[i * T::words_each() + k] == data[i].words()[k],
    decreases data.len(),
{
    let each = T::words_each() as int;
    let before = data.drop_last();
    lemma_all_words_len(data);
    lemma_all_words_len(before);
    data.last().words_len();
    assert(0 <= i * each && i * each + each <= data.len() * each) by (nonlinear_arith)
        requires
            0 <= i < data.len(),
            each >= 0,
    ;
    assert((data.len() - 1) * each + each == data.len() * each) by (nonlinear_arith);
    if i < data.len() - 1 {
        lemma_word(before, i, k);
        assert(i * each + each <= (data.len() - 1) * each) by (nonlinear_arith)
            requires
                0 <= i < data.len() - 1,
                each >= 0,
        ;
    }
}

/// The words of a buffer.
pub open spec fn words_in(m: GpuMemory, handle: u32) -> Seq<u32> {
    m.buffers[handle]
}

/// A word that a buffer starts with.
proof fn lemma_read<T: GpuElement>(m: GpuMemory, handle: u32, data: Seq<T>, i: int, k: int)
    requires
        starts_with(m, handle, all_words(data)),
        0 <= i < data.len(),
        0 <= k < T::words_each(),
    ensures
        words_in(m, handle)[i * T::words_each() + k] == data[i].words()[k],
{
    lemma_word(data, i, k);
}

/// Whether GPU memory has an object's matrices and its material.
pub open spec fn has_instance(words: Seq<u32>, i: int, d: Drawable) -> bool {
    &&& forall|k: int| 0 <= k < 16 ==> words[36 * i + k] == #[trigger] d.model@[k]
    &&& forall|k: int| 0 <= k < 16 ==> words[36 * i + 16 + k] == #[trigger] d.model@[k]
    &&& words[36 * i + 32] == (match d.material {
        Some(index) => index,
        None => 0,
    })
}

/// Whether GPU memory has an object's bounds.
pub open spec fn has_bounds(words: Seq<u32>, i: int, d: Drawable) -> bool {
    &&& words[4 * i] == d.bounds.x
    &&& words[4 * i + 1] == d.bounds.y
    &&& words[4 * i + 2] == d.bounds.z
    &&& words[4 * i + 3] == d.bounds.radius
}

/// Whether a command draws a mesh: all of its indices, from where they start,
/// counted from its first vertex. There are no instances yet, and they will be
/// those behind `base`.
pub open spec fn draws_mesh(words: Seq<u32>, b: int, mesh: MeshAlloc, base: u32) -> bool {
    &&& words[5 * b] == mesh.index_count
    &&& words[5 * b + 1] == 0
    &&& words[5 * b + 2] == mesh.index_offset
    &&& words[5 * b + 3] == mesh.vertex_offset
    &&& words[5 * b + 4] == base
}

proof fn lemma_instance(
    words: Seq<u32>,
    m: GpuMemory,
    handle: u32,
    drawables: Seq<Drawable>,
    i: int,
)
    requires
        starts_with(m, handle, all_words(instances_of(drawables))),
        words == words_in(m, handle),
        0 <= i < drawables.len(),
    ensures
        has_instance(words, i, drawables[i]),
{
    let all = instances_of(drawables);
    let d = drawables[i];
    let w = all[i].words();
    assert forall|k: int| 0 <= k < 16 implies words[36 * i + k] == #[trigger] d.model@[k] by {
        lemma_read(m, handle, all, i, k);
        assert(w[k] == d.model@[k]);
    }
    assert forall|k: int| 0 <= k < 16 implies words[36 * i + 16 + k]
        == #[trigger] d.model@[k] by {
        lemma_read(m, handle, all, i, 16 + k);
        assert(w[16 + k] == d.model@[k]);
    }
    lemma_read(m, handle, all, i, 32);
}

proof fn lemma_bounds(words: Seq<u32>, m: GpuMemory, handle: u32, drawables: Seq<Drawable>, i: int)
    requires
        starts_with(m, handle, all_words(bounds_of(drawables))),
        words == words_in(m, handle),
        0 <= i < drawables.len(),
    ensures
        has_bounds(words, i, drawables[i]),
{
    let all = bounds_of(drawables);
    lemma_read(m, handle, all, i, 0);
    lemma_read(m, handle, all, i, 1);
    lemma_read(m, handle, all, i, 2);
    lemma_read(m, handle, all, i, 3);
}

proof fn lemma_command(
    m: GpuMemory,
    handle: u32,
    meshes: Seq<MeshAlloc>,
    bases: Seq<u32>,
    b: int,
)
    requires
        starts_with(m, handle, all_words(batch_commands(meshes, bases))),
        0 <= b < meshes.len(),
    ensures
        draws_mesh(words_in(m, handle), b, meshes[b], bases[b]),
{
    let all = batch_commands(meshes, bases);
    lemma_read(m, handle, all, b, 0);
    lemma_read(m, handle, all, b, 1);
    lemma_read(m, handle, all, b, 2);
    lemma_read(m, handle, all, b, 3);
    lemma_read(m, handle, all, b, 4);
}

/// When the culling of a frame begins, GPU memory has everything of each object:
/// its matrices, its material, its bounds, and the number of its batch. The
/// commands of that batch, in either phase, draw the object's own mesh, the
/// instances go where the batch starts, and the object counts as not drawn.
pub proof fn objects_are_prepared(
    m: GpuMemory,
    r: Recording,
    g: Renderer,
    drawables: Seq<Drawable>,
    width: u32,
    height: u32,
    i: int,
)
    requires
        replayable(r),
        g.can_render(r, drawables, width, height),
        held(
            m.replay(r),
            shape(g.gpu.per_instance, g.gpu.per_batch, g.gpu.draw_count),
            r.next_id,
        ),
        grown(g.gpu.per_instance.instance.capacity as int, drawables.len() as int) * 144
            <= i32::MAX,
        grown(g.gpu.per_batch.indirect.capacity as int, batch_meshes(drawables).len() as int) * 20
            <= i32::MAX,
        r.payload.len() + 42 * drawables.len() + 11 * batch_meshes(drawables).len() + 1
            <= usize::MAX,
        0 <= i < drawables.len(),
    ensures
        ({
            let now = m.replay(g.rec_prepare(r, drawables, width, height));
            let gpu = g.readied(r, drawables, width, height);
            let b = words_in(now, gpu.per_instance.batch_index.handle)[i] as int;
            let base = words_in(now, gpu.per_batch.base.handle)[b];
            &&& has_instance(
                words_in(now, gpu.per_instance.instance.handle),
                i,
                drawables[i],
            )
            &&& has_bounds(words_in(now, gpu.per_instance.bounding.handle), i, drawables[i])
            &&& words_in(now, gpu.per_instance.visible.handle)[i] == 0
            &&& b < words_in(now, gpu.draw_count)[0]
            &&& draws_mesh(
                words_in(now, gpu.per_batch.indirect.handle),
                b,
                drawables[i].mesh,
                base,
            )
            &&& draws_mesh(
                words_in(now, gpu.per_batch.indirect_p2.handle),
                b,
                drawables[i].mesh,
                base,
            )
        }),
{
    prepared_frames_read_back(m, r, g, drawables, width, height);
    let now = m.replay(g.rec_prepare(r, drawables, width, height));
    let gpu = g.readied(r, drawables, width, height);
    let meshes = batch_meshes(drawables);
    let indices = batch_indices(drawables);
    let bases = batch_bases(indices, meshes.len());
    lemma_batch_meshes(drawables);
    same_batch_iff_same_mesh(drawables, i, i);
    let b = indices[i] as int;
    lemma_instance(
        words_in(now, gpu.per_instance.instance.handle),
        now,
        gpu.per_instance.instance.handle,
        drawables,
        i,
    );
    lemma_bounds(
        words_in(now, gpu.per_instance.bounding.handle),
        now,
        gpu.per_instance.bounding.handle,
        drawables,
        i,
    );
    lemma_read(now, gpu.per_instance.batch_index.handle, indices, i, 0);
    lemma_read(now, gpu.per_instance.visible.handle, zeros(drawables.len()), i, 0);
    lemma_read(now, gpu.per_batch.base.handle, bases, b, 0);
    lemma_command(now, gpu.per_batch.indirect.handle, meshes, bases, b);
    lemma_command(now, gpu.per_batch.indirect_p2.handle, meshes, bases, b);
    assert(seq![meshes.len() as u32][0] == words_in(now, gpu.draw_count)[0]);
}

/// How many of the objects draw a mesh.
pub open spec fn uses(drawables: Seq<Drawable>, mesh: MeshAlloc) -> int
    decreases drawables.len(),
{
    if drawables.len() == 0 {
        0
    } else {
        uses(drawables.drop_last(), mesh) + if drawables.last().mesh == mesh {
            1int
        } else {
            0int
        }
    }
}

proof fn lemma_uses(indices: Seq<u32>, b: int, drawables: Seq<Drawable>, mesh: MeshAlloc)
    requires
        indices.len() == drawables.len(),
        forall|i: int|
            0 <= i < indices.len() ==> (#[trigger] indices[i] == b <==> drawables[i].mesh == mesh),
    ensures
        occurrences(indices, b) == uses(drawables, mesh),
    decreases indices.len(),
{
    if indices.len() > 0 {
        let shorter = indices.drop_last();
        assert forall|i: int| 0 <= i < shorter.len() implies (#[trigger] shorter[i] == b
            <==> drawables.drop_last()[i].mesh == mesh) by {
            assert(shorter[i] == indices[i]);
        }
        lemma_uses(shorter, b, drawables.drop_last(), mesh);
        assert(indices[indices.len() - 1] == indices.last());
    }
}

/// Each batch has room for all of its objects, and for no others: its instances
/// start where those of the batch before it end, the first at the beginning, and
/// the last ends where all objects do.
pub proof fn batches_have_their_own_instances(drawables: Seq<Drawable>, b: int)
    requires
        drawables.len() <= u32::MAX,
        0 <= b < batch_meshes(drawables).len(),
    ensures
        ({
            let meshes = batch_meshes(drawables);
            let commands = batch_commands(
                meshes,
                batch_bases(batch_indices(drawables), meshes.len()),
            );
            &&& b == 0 ==> commands[b].base_instance == 0
            &&& commands[b].base_instance + uses(drawables, meshes[b]) == if b + 1
                < meshes.len() {
                commands[b + 1].base_instance as int
            } else {
                drawables.len() as int
            }
            &&& uses(drawables, meshes[b]) >= 1
        }),
{
    let meshes = batch_meshes(drawables);
    let indices = batch_indices(drawables);
    lemma_batch_meshes(drawables);
    assert forall|i: int| 0 <= i < indices.len() implies #[trigger] indices[i] < meshes.len()
        && (indices[i] == b <==> drawables[i].mesh == meshes[b]) by {
        same_batch_iff_same_mesh(drawables, i, i);
    }
    lemma_uses(indices, b, drawables, meshes[b]);
    batches_partition_instances(indices, meshes.len() as int);
    assert(occurrences_below(indices, b + 1) == occurrences_below(indices, b) + occurrences(
        indices,
        b,
    ));
    lemma_below_bound(indices, b);
    lemma_below_bound(indices, b + 1);
    batches_are_not_empty(drawables, b);
}

/// A draw command fetches exactly the mesh that it is for: as many indices as the
/// mesh has, each of them in its place, and for each index the vertex that it
/// means.
pub proof fn commands_fetch_their_mesh(
    m: GpuMemory,
    s: ArenaState,
    mesh: MeshData,
    alloc: MeshAlloc,
    instances: u32,
    base: u32,
    i: int,
    k: int,
)
    requires
        s.sound(m),
        s.holds(m, alloc, mesh),
        0 <= i < mesh.indices.len(),
        mesh.indices[i] < mesh.vertices.len(),
        0 <= k < 5,
    ensures
        ({
            let c = alloc.command(instances, base);
            let now = m.replay(s.recording);
            let index = words_in(now, s.arena.index_buf.handle)[c.first_index + i];
            &&& c.count == mesh.indices.len()
            &&& c.instance_count == instances
            &&& c.base_instance == base
            &&& index == mesh.indices[i]
            &&& words_in(now, s.arena.vertex_buf.handle)[5 * (c.base_vertex + index) + k]
                == mesh.vertices[index as int].words()[k]
        }),
{
    reveal(ArenaState::sound);
    reveal(ArenaState::holds);
    let now = m.replay(s.recording);
    let vertices = words_in(now, s.arena.vertex_buf.handle);
    let indices = words_in(now, s.arena.index_buf.handle);
    let index = mesh.indices[i];
    assert(element_size::<PackedVertex>() == 20);
    assert(element_size::<u32>() == 4);
    assert(vertices.len() == 5 * s.arena.vertex_buf.capacity);
    assert(indices.len() == s.arena.index_buf.capacity);
    assert(mesh_indices(alloc, s.arena, now)[i] == index);
    assert(indices[alloc.index_offset + i] == index);
    lemma_word(mesh.vertices, index as int, k);
    assert(5 * s.arena.next_vertex <= vertices.len());
    let at = 5 * index + k;
    assert(mesh_vertices(alloc, s.arena, now)[at] == vertices[5
        * alloc.vertex_offset + at]);
}

/// A material on the GPU has its color, its roughness and its metalness where the
/// shader looks for them: eight words for each material.
pub proof fn materials_have_their_values(
    g: Renderer,
    materials: Seq<GpuMaterial>,
    m: GpuMemory,
    i: int,
)
    requires
        mirrors(g, materials, m),
        0 <= i < materials.len(),
    ensures
        ({
            let words = words_in(m, g.gpu.material_buf.handle);
            &&& forall|k: int|
                0 <= k < 4 ==> words[8 * i + k] == #[trigger] materials[i].base_color@[k]
            &&& words[8 * i + 4] == materials[i].roughness
            &&& words[8 * i + 5] == materials[i].metallic
        }),
{
    let handle = g.gpu.material_buf.handle;
    assert(starts_with(m, handle, all_words(materials)));
    let words = words_in(m, handle);
    let w = materials[i].words();
    assert forall|k: int| 0 <= k < 4 implies words[8 * i + k]
        == #[trigger] materials[i].base_color@[k] by {
        lemma_read(m, handle, materials, i, k);
        assert(w[k] == materials[i].base_color@[k]);
    }
    lemma_read(m, handle, materials, i, 4);
    lemma_read(m, handle, materials, i, 5);
}

/// Every object of the scene is drawn once, with its own mesh, the bounds of that
/// mesh, its own material, and the matrix that was made for it.
pub proof fn scenes_are_drawn_whole(
    scene: Map<u64, EntityData>,
    renderables: Seq<Renderable>,
    models: Seq<[u32; 16]>,
    table: MeshBounds,
    bounds: Seq<BoundingSphere>,
    id: u64,
)
    requires
        covers(renderables, scene),
        models.len() == renderables.len(),
        bounds.len() == renderables.len(),
        forall|i: int|
            0 <= i < bounds.len() ==> #[trigger] bounds[i] == table@[renderables[i].mesh.0],
        scene.contains_key(id),
        scene[id].transform is Some,
        scene[id].mesh is Some,
    ensures
        drawables_of(renderables, models, bounds).len() == renderables.len(),
        exists|i: int|
            {
                let d = drawables_of(renderables, models, bounds)[i];
                &&& 0 <= i < renderables.len()
                &&& (#[trigger] renderables[i]).id == id
                &&& scene[id].transform == Some(renderables[i].transform)
                &&& scene[id].mesh == Some(Mesh(d.mesh))
                &&& d.material == scene[id].material
                &&& d.bounds == table@[d.mesh]
                &&& d.model == models[i]
                &&& forall|j: int|
                    0 <= j < renderables.len() && j != i ==> (#[trigger] renderables[j]).id != id
            },
{
    assert(is_drawn(scene[id]));
    let i = choose|i: int| 0 <= i < renderables.len() && (#[trigger] renderables[i]).id == id;
    assert(renderables[i] == renderable(id, scene[id]));
    assert(bounds[i] == table@[renderables[i].mesh.0]);
    assert forall|j: int| 0 <= j < renderables.len() && j != i implies (
    #[trigger] renderables[j]).id != id by {
        if j < i {
            assert(renderables[j].id != renderables[i].id);
        } else {
            assert(renderables[i].id != renderables[j].id);
        }
    }
}

} // verus!
