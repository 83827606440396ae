//! What GPU memory holds when a frame's culling begins, growth included.

use crate::arena::{doubled_or, grown};
use crate::batching::{
    batch_bases, batch_commands, batch_indices, batch_meshes, bounds_of, instances_of,
    lemma_batch_meshes, Drawable,
};
use crate::element::{all_words, lemma_all_words_len, GpuElement};
use crate::frame_buffers::{BatchBuffers, InstanceBuffers};
use crate::frame_model::{
    frame_uploads_read_back, frames_are_replayable, lemma_begin_replayable, starts_with,
    targets_backed, upload_targets,
};
use crate::gl::{
    GlCall, ObjectKind, Recording, Uniform, FETCH_AND_IMAGE_BITS, SHADER_STORAGE_BUFFER, TEXTURE0,
};
use crate::gl_buffer::{element_size, BufferUsage, GlBuffer};
use crate::gpu_model::{
    backed, grow_preserves_contents, group_replay, replayable, same_elsewhere, splice,
    upload_replaces_range, GpuMemory,
};
use crate::hzb::{longer, mip_levels, Hzb};
use crate::lifetimes::lemma_phases_ids;
use crate::renderer::{zeros, FrameView, GpuState, Renderer};
use crate::stats::QuerySet;
use vstd::prelude::*;

verus! {

/// The buffers of a frame: the number of each, and its size in bytes.
pub open spec fn shape(a: InstanceBuffers, b: BatchBuffers, draw_count: u32) -> Seq<(u32, int)> {
    seq![
        (a.instance.handle, a.instance.byte_size()),
        (a.culled.handle, a.culled.byte_size()),
        (a.culled_p2.handle, a.culled_p2.byte_size()),
        (a.bounding.handle, a.bounding.byte_size()),
        (a.batch_index.handle, a.batch_index.byte_size()),
        (a.visible.handle, a.visible.byte_size()),
        (b.indirect.handle, b.indirect.byte_size()),
        (b.indirect_p2.handle, b.indirect_p2.byte_size()),
        (b.base.handle, b.base.byte_size()),
        (draw_count, 4),
    ]
}

/// Whether `m` holds a buffer of the given size, small enough for GL to measure
/// it.
pub open spec fn has_buffer(m: GpuMemory, buffer: (u32, int)) -> bool {
    &&& m.buffers.contains_key(buffer.0)
    &&& 4 * m.buffers[buffer.0].len() == buffer.1
    &&& buffer.1 <= i32::MAX
}

/// Whether `m` holds all the buffers, they are different, and they are older
/// than what is created from now on.
pub open spec fn held(m: GpuMemory, buffers: Seq<(u32, int)>, next_id: int) -> bool {
    &&& forall|i: int|
        0 <= i < buffers.len() ==> has_buffer(m, #[trigger] buffers[i]) && buffers[i].0 < next_id
    &&& forall|i: int, j: int|
        0 <= i < j < buffers.len() ==> (#[trigger] buffers[i]).0 != (#[trigger] buffers[j]).0
}

/// The buffer at a place grows: everything else is still held.
proof fn lemma_grow<T: GpuElement>(
    m: GpuMemory,
    r: Recording,
    buf: GlBuffer<T>,
    capacity: int,
    buffers: Seq<(u32, int)>,
    at: int,
)
    requires
        replayable(r),
        held(m.replay(r), buffers, r.next_id),
        0 <= at < buffers.len(),
        buffers[at] == (buf.handle, buf.byte_size()),
        buf.capacity < capacity <= usize::MAX,
        capacity * element_size::<T>() <= i32::MAX,
        r.next_id <= u32::MAX,
    ensures
        ({
            let r1 = buf.rec_grow(r, capacity, BufferUsage::DynamicDraw);
            &&& replayable(r1)
            &&& r1.next_id == r.next_id + 1
            &&& r1.payload == r.payload
            &&& held(
                m.replay(r1),
                buffers.update(at, (r.next_id as u32, capacity * element_size::<T>())),
                r.next_id + 1,
            )
        }),
{
    let larger = GlBuffer::<T> {
        handle: r.next_id as u32,
        capacity: capacity as usize,
        marker: buf.marker,
    };
    let m0 = m.replay(r);
    assert(has_buffer(m0, buffers[at]));
    assert(backed(buf, m0));
    grow_preserves_contents(m, r, buf, larger, BufferUsage::DynamicDraw);
    let r1 = buf.rec_grow(r, capacity, BufferUsage::DynamicDraw);
    let m1 = m.replay(r1);
    let after = buffers.update(at, (r.next_id as u32, capacity * element_size::<T>()));
    assert forall|i: int| 0 <= i < after.len() implies has_buffer(m1, #[trigger] after[i])
        && after[i].0 < r.next_id + 1 by {
        if i != at {
            assert(after[i] == buffers[i]);
            assert(has_buffer(m0, buffers[i]));
            assert(buffers[i].0 != buf.handle) by {
                if i < at {
                    assert(buffers[i].0 != buffers[at].0);
                } else {
                    assert(buffers[at].0 != buffers[i].0);
                }
            }
            assert(same_elsewhere(m0, m1, set![buf.handle, larger.handle]));
            assert(m1.buffers.contains_key(buffers[i].0) <==> m0.buffers.contains_key(
                buffers[i].0,
            ));
            assert(m1.buffers[buffers[i].0] == m0.buffers[buffers[i].0]);
        }
    }
    assert forall|i: int, j: int| 0 <= i < j < after.len() implies (#[trigger] after[i]).0 != (
    #[trigger] after[j]).0 by {
        assert(buffers[i].0 != buffers[j].0);
        assert(has_buffer(m0, buffers[i]) && buffers[i].0 < r.next_id);
        assert(has_buffer(m0, buffers[j]) && buffers[j].0 < r.next_id);
    }
}

proof fn lemma_bytes(capacity: int, small: int, large: int)
    requires
        0 <= capacity,
        0 <= small <= large,
        capacity * large <= i32::MAX,
    ensures
        capacity * small <= i32::MAX,
{
    assert(capacity * small <= capacity * large) by (nonlinear_arith)
        requires
            0 <= capacity,
            small <= large,
    ;
}

proof fn lemma_instances(
    m: GpuMemory,
    r: Recording,
    a: InstanceBuffers,
    b: BatchBuffers,
    draw_count: u32,
    n: int,
)
    requires
        replayable(r),
        a.wf(),
        held(m.replay(r), shape(a, b, draw_count), r.next_id),
        grown(a.instance.capacity as int, n) * 144 <= i32::MAX,
        r.next_id + 5 <= u32::MAX,
    ensures
        ({
            let r1 = a.rec_roomy(r, n);
            &&& replayable(r1)
            &&& r.next_id <= r1.next_id <= r.next_id + 6
            &&& r1.payload == r.payload
            &&& held(m.replay(r1), shape(a.roomy(r, n), b, draw_count), r1.next_id)
        }),
{
    if n > a.instance.capacity {
        let cap = doubled_or(a.instance.capacity as int, n);
        let usage = BufferUsage::DynamicDraw;
        lemma_bytes(cap, 16, 144);
        lemma_bytes(cap, 4, 144);
        let s0 = shape(a, b, draw_count);
        let id = r.next_id;
        lemma_grow(m, r, a.instance, cap, s0, 0);
        let r1 = a.instance.rec_grow(r, cap, usage);
        let s1 = s0.update(0, (id as u32, cap * 144));
        lemma_grow(m, r1, a.culled, cap, s1, 1);
        let r2 = a.culled.rec_grow(r1, cap, usage);
        let s2 = s1.update(1, ((id + 1) as u32, cap * 144));
        lemma_grow(m, r2, a.culled_p2, cap, s2, 2);
        let r3 = a.culled_p2.rec_grow(r2, cap, usage);
        let s3 = s2.update(2, ((id + 2) as u32, cap * 144));
        lemma_grow(m, r3, a.bounding, cap, s3, 3);
        let r4 = a.bounding.rec_grow(r3, cap, usage);
        let s4 = s3.update(3, ((id + 3) as u32, cap * 16));
        lemma_grow(m, r4, a.batch_index, cap, s4, 4);
        let r5 = a.batch_index.rec_grow(r4, cap, usage);
        let s5 = s4.update(4, ((id + 4) as u32, cap * 4));
        lemma_grow(m, r5, a.visible, cap, s5, 5);
        let s6 = s5.update(5, ((id + 5) as u32, cap * 4));
        assert(s6 =~= shape(a.roomy(r, n), b, draw_count));
    }
}

proof fn lemma_batches(
    m: GpuMemory,
    r: Recording,
    a: InstanceBuffers,
    b: BatchBuffers,
    draw_count: u32,
    batches: int,
)
    requires
        replayable(r),
        b.wf(),
        held(m.replay(r), shape(a, b, draw_count), r.next_id),
        grown(b.indirect.capacity as int, batches) * 20 <= i32::MAX,
        r.next_id + 2 <= u32::MAX,
    ensures
        ({
            let r1 = b.rec_roomy(r, batches);
            &&& replayable(r1)
            &&& r1.payload == r.payload
            &&& held(m.replay(r1), shape(a, b.roomy(r, batches), draw_count), r1.next_id)
        }),
{
    if batches > b.indirect.capacity {
        let cap = doubled_or(b.indirect.capacity as int, batches);
        let usage = BufferUsage::DynamicDraw;
        lemma_bytes(cap, 4, 20);
        let s0 = shape(a, b, draw_count);
        let id = r.next_id;
        lemma_grow(m, r, b.indirect, cap, s0, 6);
        let r1 = b.indirect.rec_grow(r, cap, usage);
        let s1 = s0.update(6, (id as u32, cap * 20));
        lemma_grow(m, r1, b.indirect_p2, cap, s1, 7);
        let r2 = b.indirect_p2.rec_grow(r1, cap, usage);
        let s2 = s1.update(7, ((id + 1) as u32, cap * 20));
        lemma_grow(m, r2, b.base, cap, s2, 8);
        let s3 = s2.update(8, ((id + 2) as u32, cap * 4));
        assert(s3 =~= shape(a, b.roomy(r, batches), draw_count));
    }
}

proof fn lemma_clear(m: GpuMemory, r: Recording, texture: u32, levels: int)
    ensures
        m.replay(Hzb::rec_clear(r, texture, levels)) == m.replay(r),
        Hzb::rec_clear(r, texture, levels).next_id == r.next_id,
    decreases levels,
{
    broadcast use group_replay;

    if levels > 0 {
        lemma_clear(m, r, texture, levels - 1);
    }
}

/// The start of a frame leaves every buffer alone.
proof fn lemma_begin(m: GpuMemory, g: Renderer, r: Recording, width: u32, height: u32)
    ensures
        m.replay(g.rec_begin(r, width, height)) == m.replay(r),
        r.next_id <= g.rec_begin(r, width, height).next_id <= r.next_id + 2,
{
    broadcast use group_replay;

    let r1 = g.gpu.offscreen.rec_resize(r, width, height);
    assert(m.replay(r1) == m.replay(r));
    if (g.gpu.hzb.width, g.gpu.hzb.height) != (width, height) {
        let r2 = Hzb::rec_storage(g.gpu.hzb.rec_drop(r1), width, height);
        assert(m.replay(r2) == m.replay(r));
        lemma_clear(
            m,
            r2.create(ObjectKind::Framebuffer).bind_framebuffer(Some(r2.next_id as u32)),
            g.gpu.hzb.rec_drop(r1).next_id as u32,
            mip_levels(longer(width, height)),
        );
    }
}

proof fn lemma_targets(g: GpuState, m: GpuMemory, next_id: int)
    requires
        held(m, shape(g.per_instance, g.per_batch, g.draw_count), next_id),
    ensures
        targets_backed(g, m),
{
    let s = shape(g.per_instance, g.per_batch, g.draw_count);
    assert(has_buffer(m, s[0]) && has_buffer(m, s[3]) && has_buffer(m, s[4]) && has_buffer(m, s[5])
        && has_buffer(m, s[6]) && has_buffer(m, s[7]) && has_buffer(m, s[8]) && has_buffer(
        m,
        s[9],
    ));
    let t = upload_targets(g);
    let at = seq![0int, 3, 4, 8, 6, 7, 9, 5];
    assert forall|i: int, j: int| 0 <= i < t.len() && 0 <= j < t.len() && i != j implies t[i]
        != t[j] by {
        assert(t[i] == s[at[i]].0 && t[j] == s[at[j]].0);
        assert(at[i] != at[j]);
        if at[i] < at[j] {
            assert(s[at[i]].0 != s[at[j]].0);
        } else {
            assert(s[at[j]].0 != s[at[i]].0);
        }
    }
}

/// When a frame's culling begins, GPU memory holds what is to be drawn, whether
/// or not the buffers had to grow for it: the instances, the bounds and the batch
/// of every object, where each batch starts, the draw commands of both phases,
/// the number of draws, and cleared flags.
pub proof fn prepared_frames_read_back(
    m: GpuMemory,
    r: Recording,
    g: Renderer,
    drawables: Seq<Drawable>,
    width: u32,
    height: u32,
)
    requires
        replayable(r),
        g.can_render(r, drawables, width, height),
        drawables.len() > 0,
        held(
            m.replay(r),
            shape(g.gpu.per_instance, g.gpu.per_batch, g.gpu.draw_count),
            r.next_id,
        ),
        grown(g.gpu.per_instance.instance.capacity as int, drawables.len() as int) * 144
            <= i32::MAX,
        grown(g.gpu.per_batch.indirect.capacity as int, batch_meshes(drawables).len() as int) * 20
            <= i32::MAX,
        r.payload.len() + 42 * drawables.len() + 11 * batch_meshes(drawables).len() + 1
            <= usize::MAX,
    ensures
        ({
            let m1 = m.replay(g.rec_prepare(r, drawables, width, height));
            let ready = g.readied(r, drawables, width, height);
            let meshes = batch_meshes(drawables);
            let indices = batch_indices(drawables);
            let bases = batch_bases(indices, meshes.len());
            let commands = all_words(batch_commands(meshes, bases));
            &&& starts_with(
                m1,
                ready.per_instance.instance.handle,
                all_words(instances_of(drawables)),
            )
            &&& starts_with(
                m1,
                ready.per_instance.bounding.handle,
                all_words(bounds_of(drawables)),
            )
            &&& starts_with(m1, ready.per_instance.batch_index.handle, all_words(indices))
            &&& starts_with(m1, ready.per_batch.base.handle, all_words(bases))
            &&& starts_with(m1, ready.per_batch.indirect.handle, commands)
            &&& starts_with(m1, ready.per_batch.indirect_p2.handle, commands)
            &&& starts_with(m1, ready.draw_count, seq![meshes.len() as u32])
            &&& starts_with(
                m1,
                ready.per_instance.visible.handle,
                all_words(zeros(drawables.len())),
            )
        }),
{
    let n = drawables.len() as int;
    let batches = batch_meshes(drawables).len() as int;
    let a = g.gpu.per_instance;
    let b = g.gpu.per_batch;
    let dc = g.gpu.draw_count;
    lemma_batch_meshes(drawables);
    lemma_begin(m, g, r, width, height);
    lemma_begin_replayable(g, r, width, height);
    let r1 = g.rec_begin(r, width, height);
    assert(held(m.replay(r1), shape(a, b, dc), r1.next_id));
    lemma_instances(m, r1, a, b, dc, n);
    let r2 = a.rec_roomy(r1, n);
    let a1 = a.roomy(r1, n);
    lemma_batches(m, r2, a1, b, dc, batches);
    let r3 = b.rec_roomy(r2, batches);
    let ready = g.readied(r, drawables, width, height);
    assert(ready.per_instance == a1);
    assert(ready.per_batch == b.roomy(r2, batches));
    lemma_targets(ready, m.replay(r3), r3.next_id);
    frame_uploads_read_back(m, r3, ready, drawables);
}

/// An upload keeps all buffers in their sizes.
pub proof fn lemma_upload<T: GpuElement>(
    m: GpuMemory,
    r: Recording,
    buf: GlBuffer<T>,
    data: Seq<T>,
    buffers: Seq<(u32, int)>,
    at: int,
)
    requires
        replayable(r),
        r.payload.len() + all_words(data).len() <= usize::MAX,
        held(m.replay(r), buffers, r.next_id),
        0 <= at < buffers.len(),
        buffers[at] == (buf.handle, buf.byte_size()),
        data.len() <= buf.capacity,
    ensures
        ({
            let r1 = buf.rec_upload(r, all_words(data), 0);
            &&& replayable(r1)
            &&& r1.payload.len() == r.payload.len() + all_words(data).len()
            &&& r1.next_id == r.next_id
            &&& held(m.replay(r1), buffers, r.next_id)
        }),
{
    let m0 = m.replay(r);
    assert(has_buffer(m0, buffers[at]));
    assert(backed(buf, m0));
    upload_replaces_range(m, r, buf, data, 0);
    let r1 = buf.rec_upload(r, all_words(data), 0);
    let m1 = m.replay(r1);
    assert forall|i: int| 0 <= i < buffers.len() implies has_buffer(m1, #[trigger] buffers[i])
        && buffers[i].0 < r.next_id by {
        assert(has_buffer(m0, buffers[i]));
        if i != at {
            assert(buffers[i].0 != buf.handle) by {
                if i < at {
                    assert(buffers[i].0 != buffers[at].0);
                } else {
                    assert(buffers[at].0 != buffers[i].0);
                }
            }
            assert(m1.buffers.contains_key(buffers[i].0) <==> m0.buffers.contains_key(
                buffers[i].0,
            ));
            assert(m1.buffers[buffers[i].0] == m0.buffers[buffers[i].0]);
        }
    }
}

proof fn lemma_draw_count(
    m: GpuMemory,
    r: Recording,
    g: GpuState,
    count: u32,
    buffers: Seq<(u32, int)>,
)
    requires
        replayable(r),
        r.payload.len() + 1 <= usize::MAX,
        held(m.replay(r), buffers, r.next_id),
        buffers.len() == 10,
        buffers[9] == (g.draw_count, 4int),
    ensures
        ({
            let r1 = g.rec_draw_count(r, count);
            &&& replayable(r1)
            &&& r1.payload.len() == r.payload.len() + 1
            &&& r1.next_id == r.next_id
            &&& held(m.replay(r1), buffers, r.next_id)
        }),
{
    broadcast use group_replay;

    let m0 = m.replay(r);
    assert(has_buffer(m0, buffers[9]));
    let bound = r.bind_buffer(SHADER_STORAGE_BUFFER, Some(g.draw_count)).data(seq![count]);
    assert(bound.payload.subrange(r.payload.len() as int, r.payload.len() + 1int) =~= seq![count]);
    let r1 = g.rec_draw_count(r, count);
    let m1 = m.replay(r1);
    assert(m.replay(bound).at(SHADER_STORAGE_BUFFER) == Some(g.draw_count));
    assert(m1.buffers == m0.buffers.insert(
        g.draw_count,
        splice(m0.buffers[g.draw_count], 0, seq![count]),
    ));
    assert forall|i: int| 0 <= i < buffers.len() implies has_buffer(m1, #[trigger] buffers[i])
        && buffers[i].0 < r.next_id by {
        assert(has_buffer(m0, buffers[i]));
        if i != 9 {
            assert(buffers[i].0 != buffers[9].0);
        }
    }
}

/// A frame's uploads keep all buffers in their sizes.
proof fn lemma_uploads(m: GpuMemory, r: Recording, g: GpuState, drawables: Seq<Drawable>)
    requires
        replayable(r),
        held(m.replay(r), shape(g.per_instance, g.per_batch, g.draw_count), r.next_id),
        g.per_instance.wf(),
        g.per_batch.wf(),
        drawables.len() <= g.per_instance.instance.capacity,
        batch_meshes(drawables).len() <= g.per_batch.indirect.capacity,
        r.payload.len() + 42 * drawables.len() + 11 * batch_meshes(drawables).len() + 1
            <= usize::MAX,
    ensures
        ({
            let r1 = g.rec_upload(r, drawables);
            &&& replayable(r1)
            &&& r1.next_id == r.next_id
            &&& r1.payload.len() == r.payload.len() + 42 * drawables.len() + 11 * batch_meshes(
                drawables,
            ).len() + 1
            &&& held(
                m.replay(r1),
                shape(g.per_instance, g.per_batch, g.draw_count),
                r.next_id,
            )
        }),
{
    reveal(GpuState::rec_upload);
    let s = shape(g.per_instance, g.per_batch, g.draw_count);
    let meshes = batch_meshes(drawables);
    let indices = batch_indices(drawables);
    let bases = batch_bases(indices, meshes.len());
    let commands = batch_commands(meshes, bases);
    let instances = instances_of(drawables);
    let bounds = bounds_of(drawables);
    let flags = zeros(drawables.len());
    lemma_all_words_len(instances);
    lemma_all_words_len(bounds);
    lemma_all_words_len(indices);
    lemma_all_words_len(bases);
    lemma_all_words_len(commands);
    lemma_all_words_len(flags);
    lemma_upload(m, r, g.per_instance.instance, instances, s, 0);
    let r1 = g.per_instance.instance.rec_upload(r, all_words(instances), 0);
    lemma_upload(m, r1, g.per_instance.bounding, bounds, s, 3);
    let r2 = g.per_instance.bounding.rec_upload(r1, all_words(bounds), 0);
    lemma_upload(m, r2, g.per_instance.batch_index, indices, s, 4);
    let r3 = g.per_instance.batch_index.rec_upload(r2, all_words(indices), 0);
    lemma_upload(m, r3, g.per_batch.base, bases, s, 8);
    let r4 = g.per_batch.base.rec_upload(r3, all_words(bases), 0);
    lemma_upload(m, r4, g.per_batch.indirect, commands, s, 6);
    let r5 = g.per_batch.indirect.rec_upload(r4, all_words(commands), 0);
    lemma_upload(m, r5, g.per_batch.indirect_p2, commands, s, 7);
    let r6 = g.per_batch.indirect_p2.rec_upload(r5, all_words(commands), 0);
    lemma_draw_count(m, r6, g, meshes.len() as u32, s);
    let r7 = g.rec_draw_count(r6, meshes.len() as u32);
    lemma_upload(m, r7, g.per_instance.visible, flags, s, 5);
}

proof fn lemma_levels(m: GpuMemory, hzb: Hzb, r: Recording, program: u32, levels: int)
    ensures
        m.replay(hzb.rec_levels(r, program, levels)) == m.replay(r),
    decreases levels,
{
    broadcast use group_replay;

    if levels > 1 {
        lemma_levels(m, hzb, r, program, levels - 1);
    }
}

/// Culling and drawing leave the buffers alone, as far as the calls themselves go.
proof fn lemma_phases(
    m: GpuMemory,
    g: GpuState,
    r: Recording,
    n: int,
    batches: int,
    view: FrameView,
    width: u32,
    height: u32,
)
    requires
        replayable(r),
        r.payload.len() + 72 <= usize::MAX,
    ensures
        m.replay(g.rec_phases(r, n, batches, view, width, height)).buffers == m.replay(r).buffers,
{
    broadcast use group_replay;

    reveal(GpuState::rec_phases);
    lemma_uniforms_of_culling(m, g, r, n as u32, view, width, height);
    let r1 = g.rec_cull_uniforms(r, n as u32, view, width, height);
    let r2 = g.rec_cull(g.rec_cull_bindings(r1, false), false, n);
    assert(m.replay(r2).buffers == m.replay(r).buffers && replayable(r2) && r2.payload
        == r1.payload);
    let drawn = g.rec_draw(r2, false, batches, view);
    assert(m.replay(drawn).buffers == m.replay(r).buffers);
    let program = g.hzb_shader.program;
    let start = drawn.barrier(FETCH_AND_IMAGE_BITS).call(
        GlCall::UseProgram { program: Some(program) },
    ).call(GlCall::ActiveTexture { unit: TEXTURE0 }).bind_texture(Some(g.offscreen.depth));
    lemma_levels(m, g.hzb, start, program, g.hzb.levels as int);
    let r3 = g.rec_build_hzb(drawn);
    assert(m.replay(r3).buffers == m.replay(r).buffers);
    let r4 = r3.call(GlCall::UseProgram { program: Some(g.cull_shader.program) });
    let r5 = g.rec_cull(g.rec_cull_bindings(r4, true), true, n);
    assert(m.replay(r5).buffers == m.replay(r).buffers);
    assert(m.replay(g.rec_draw(r5, true, batches, view)).buffers == m.replay(r).buffers);
}

proof fn lemma_uniforms_of_culling(
    m: GpuMemory,
    g: GpuState,
    r: Recording,
    n: u32,
    view: FrameView,
    width: u32,
    height: u32,
)
    requires
        replayable(r),
        r.payload.len() + 40 <= usize::MAX,
    ensures
        ({
            let r1 = g.rec_cull_uniforms(r, n, view, width, height);
            &&& m.replay(r1) == m.replay(r)
            &&& replayable(r1)
            &&& r1.payload.len() == r.payload.len() + 40
        }),
{
    broadcast use group_replay;

    let program = g.cull_shader.program;
    let r0 = r.call(GlCall::UseProgram { program: Some(program) }).call(
        GlCall::Uniform1Uint { program, name: Uniform::TotalDraws, x: n },
    );
    let ra = g.cull_shader.rec_vec4_slice(r0, Uniform::FrustumPlanes, view.planes@);
    assert(m.replay(ra) == m.replay(r) && replayable(ra));
    let rb = g.cull_shader.rec_mat4(ra, Uniform::ViewProj, view.view_proj@);
    assert(m.replay(rb) == m.replay(r) && replayable(rb));
}

proof fn lemma_end(m: GpuMemory, r: Recording)
    ensures
        m.replay(QuerySet::rec_end(r)) == m.replay(r),
        m.replay(QuerySet::rec_end(r).bind_framebuffer(None)) == m.replay(r),
        QuerySet::rec_end(r).next_id == r.next_id,
{
    broadcast use group_replay;

}

/// What a frame needs is there again after it: every buffer of the renderer, in
/// the size that the renderer takes it to have, and different from the others. So
/// frame can follow frame.
pub proof fn frames_keep_their_buffers(
    m: GpuMemory,
    r: Recording,
    g: Renderer,
    drawables: Seq<Drawable>,
    view: FrameView,
    width: u32,
    height: u32,
)
    requires
        replayable(r),
        g.can_render(r, drawables, width, height),
        held(
            m.replay(r),
            shape(g.gpu.per_instance, g.gpu.per_batch, g.gpu.draw_count),
            r.next_id,
        ),
        grown(g.gpu.per_instance.instance.capacity as int, drawables.len() as int) * 144
            <= i32::MAX,
        grown(g.gpu.per_batch.indirect.capacity as int, batch_meshes(drawables).len() as int) * 20
            <= i32::MAX,
        r.payload.len() + 42 * drawables.len() + 11 * batch_meshes(drawables).len() + 73
            <= usize::MAX,
    ensures
        ({
            let after = g.rec_render(r, drawables, view, width, height);
            let gpu = g.readied(r, drawables, width, height);
            &&& replayable(after)
            &&& held(
                m.replay(after),
                shape(gpu.per_instance, gpu.per_batch, gpu.draw_count),
                after.next_id,
            )
        }),
{
    let n = drawables.len() as int;
    let batches = batch_meshes(drawables).len() as int;
    let a = g.gpu.per_instance;
    let b = g.gpu.per_batch;
    let dc = g.gpu.draw_count;
    frames_are_replayable(g, r, drawables, view, width, height);
    lemma_begin(m, g, r, width, height);
    lemma_begin_replayable(g, r, width, height);
    let r1 = g.rec_begin(r, width, height);
    assert(held(m.replay(r1), shape(a, b, dc), r1.next_id));
    let gpu = g.readied(r, drawables, width, height);
    let after = g.rec_render(r, drawables, view, width, height);
    if n > 0 {
        lemma_batch_meshes(drawables);
        lemma_instances(m, r1, a, b, dc, n);
        let r2 = a.rec_roomy(r1, n);
        let a1 = a.roomy(r1, n);
        lemma_batches(m, r2, a1, b, dc, batches);
        let r3 = b.rec_roomy(r2, batches);
        assert(gpu.per_instance == a1);
        assert(gpu.per_batch == b.roomy(r2, batches));
        lemma_uploads(m, r3, gpu, drawables);
        let r4 = gpu.rec_upload(r3, drawables);
        assert(r4 == g.rec_prepare(r, drawables, width, height));
        lemma_phases(m, gpu, r4, n, batches, view, width, height);
        let r5 = gpu.rec_phases(r4, n, batches, view, width, height);
        lemma_phases_ids(gpu, r4, n, batches, view, width, height);
        lemma_end(m, r5);
        lemma_held_by_buffers(
            m.replay(r4),
            m.replay(after),
            shape(gpu.per_instance, gpu.per_batch, dc),
            r4.next_id,
        );
    } else {
        lemma_end(m, r1);
    }
}

proof fn lemma_held_by_buffers(
    m0: GpuMemory,
    m1: GpuMemory,
    buffers: Seq<(u32, int)>,
    next_id: int,
)
    requires
        held(m0, buffers, next_id),
        m1.buffers == m0.buffers,
    ensures
        held(m1, buffers, next_id),
{
    assert forall|i: int| 0 <= i < buffers.len() implies has_buffer(m1, #[trigger] buffers[i])
        && buffers[i].0 < next_id by {
        assert(has_buffer(m0, buffers[i]));
    }
}

} // verus!
