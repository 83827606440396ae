//! What a frame's uploads leave in GPU memory.

use crate::batching::{
    batch_bases, batch_commands, batch_indices, batch_meshes, bounds_of, instances_of, Drawable,
};
use crate::element::{all_words, lemma_all_words_len, GpuElement};
use crate::frame_buffers::{BatchBuffers, InstanceBuffers};
use crate::gl::{
    GlCall, ObjectKind, Recording, Uniform, FETCH_AND_IMAGE_BITS, SHADER_STORAGE_BUFFER, TEXTURE0,
};
use crate::gl_buffer::{BufferUsage, GlBuffer};
use crate::gpu_model::{
    backed, group_replay, replayable, splice, upload_replaces_range, GpuMemory,
};
use crate::hzb::{longer, mip_levels, Hzb};
use crate::renderer::{zeros, FrameView, GpuState, Renderer};
use crate::shader::Shader;
use crate::stats::QuerySet;
use vstd::prelude::*;

verus! {

/// Whether a buffer starts with the given words.
pub open spec fn starts_with(m: GpuMemory, handle: u32, words: Seq<u32>) -> bool {
    m.buffers.contains_key(handle) && words.is_prefix_of(m.buffers[handle])
}

/// Whether two memories have the same in a buffer.
spec fn same_at(before: GpuMemory, after: GpuMemory, handle: u32) -> bool {
    &&& before.buffers.contains_key(handle) <==> after.buffers.contains_key(handle)
    &&& before.buffers[handle] == after.buffers[handle]
}

/// The buffers that a frame's uploads go to.
pub open spec fn upload_targets(g: GpuState) -> Seq<u32> {
    seq![
        g.per_instance.instance.handle,
        g.per_instance.bounding.handle,
        g.per_instance.batch_index.handle,
        g.per_batch.base.handle,
        g.per_batch.indirect.handle,
        g.per_batch.indirect_p2.handle,
        g.draw_count,
        g.per_instance.visible.handle,
    ]
}

/// Whether `m` holds the buffers that a frame's uploads go to, each in its size.
pub open spec fn targets_backed(g: GpuState, m: GpuMemory) -> bool {
    &&& upload_targets(g).no_duplicates()
    &&& backed(g.per_instance.instance, m)
    &&& backed(g.per_instance.bounding, m)
    &&& backed(g.per_instance.batch_index, m)
    &&& backed(g.per_batch.base, m)
    &&& backed(g.per_batch.indirect, m)
    &&& backed(g.per_batch.indirect_p2, m)
    &&& backed(g.per_instance.visible, m)
    &&& m.buffers.contains_key(g.draw_count)
    &&& m.buffers[g.draw_count].len() >= 1
}

proof fn lemma_upload<T: GpuElement>(m: GpuMemory, r: Recording, buf: GlBuffer<T>, data: Seq<T>)
    requires
        replayable(r),
        r.payload.len() + all_words(data).len() <= usize::MAX,
        backed(buf, m.replay(r)),
        data.len() <= buf.capacity,
    ensures
        ({
            let r1 = buf.rec_upload(r, all_words(data), 0);
            &&& replayable(r1)
            &&& r1.payload.len() == r.payload.len() + all_words(data).len()
            &&& backed(buf, m.replay(r1))
            &&& starts_with(m.replay(r1), buf.handle, all_words(data))
            &&& forall|h: u32|
                h != buf.handle ==> #[trigger] same_at(m.replay(r), m.replay(r1), h)
        }),
{
    upload_replaces_range(m, r, buf, data, 0);
    let r1 = buf.rec_upload(r, all_words(data), 0);
    let words = all_words(data);
    let held = m.replay(r).buffers[buf.handle];
    assert(0 * T::words_each() == 0);
    assert(splice(held, 0, words) == held.take(0) + words + held.skip(0int + words.len()));
    assert(words.is_prefix_of(m.replay(r1).buffers[buf.handle]));
    assert forall|h: u32| h != buf.handle implies #[trigger] same_at(
        m.replay(r),
        m.replay(r1),
        h,
    ) by {
        assert(m.replay(r1).buffers.contains_key(h) <==> m.replay(r).buffers.contains_key(h));
        assert(m.replay(r1).buffers[h] == m.replay(r).buffers[h]);
    }
}

proof fn lemma_draw_count(m: GpuMemory, r: Recording, g: GpuState, count: u32)
    requires
        replayable(r),
        r.payload.len() + 1 <= usize::MAX,
        m.replay(r).buffers.contains_key(g.draw_count),
        m.replay(r).buffers[g.draw_count].len() >= 1,
    ensures
        ({
            let r1 = g.rec_draw_count(r, count);
            &&& replayable(r1)
            &&& r1.payload.len() == r.payload.len() + 1
            &&& starts_with(m.replay(r1), g.draw_count, seq![count])
            &&& forall|h: u32|
                h != g.draw_count ==> #[trigger] same_at(m.replay(r), m.replay(r1), h)
        }),
{
    broadcast use group_replay;

    let bound = r.bind_buffer(SHADER_STORAGE_BUFFER, Some(g.draw_count)).data(seq![count]);
    assert(bound.payload.subrange(r.payload.len() as int, r.payload.len() + 1int) =~= seq![count]);
    let held = m.replay(r).buffers[g.draw_count];
    let r1 = g.rec_draw_count(r, count);
    assert(m.replay(bound).at(SHADER_STORAGE_BUFFER) == Some(g.draw_count));
    assert(m.replay(r1).buffers == m.replay(r).buffers.insert(
        g.draw_count,
        splice(held, 0, seq![count]),
    ));
    assert(splice(held, 0, seq![count])[0] == count);
}

/// What a frame uploads is what the GPU then holds: the instances, the bounds
/// and the batch of every object, where each batch starts, the draw commands of
/// both phases, the number of draws, and cleared flags.
pub proof fn frame_uploads_read_back(
    m: GpuMemory,
    r: Recording,
    g: GpuState,
    drawables: Seq<Drawable>,
)
    requires
        replayable(r),
        targets_backed(g, m.replay(r)),
        g.per_instance.wf(),
        g.per_batch.wf(),
        drawables.len() <= g.per_instance.instance.capacity,
        batch_meshes(drawables).len() <= g.per_batch.indirect.capacity,
        r.payload.len() + 42 * drawables.len() + 11 * batch_meshes(drawables).len() + 1
            <= usize::MAX,
    ensures
        ({
            let m1 = m.replay(g.rec_upload(r, drawables));
            let meshes = batch_meshes(drawables);
            let indices = batch_indices(drawables);
            let bases = batch_bases(indices, meshes.len());
            let commands = all_words(batch_commands(meshes, bases));
            &&& starts_with(
                m1,
                g.per_instance.instance.handle,
                all_words(instances_of(drawables)),
            )
            &&& starts_with(m1, g.per_instance.bounding.handle, all_words(bounds_of(drawables)))
            &&& starts_with(m1, g.per_instance.batch_index.handle, all_words(indices))
            &&& starts_with(m1, g.per_batch.base.handle, all_words(bases))
            &&& starts_with(m1, g.per_batch.indirect.handle, commands)
            &&& starts_with(m1, g.per_batch.indirect_p2.handle, commands)
            &&& starts_with(m1, g.draw_count, seq![meshes.len() as u32])
            &&& starts_with(
                m1,
                g.per_instance.visible.handle,
                all_words(zeros(drawables.len())),
            )
        }),
{
    reveal(GpuState::rec_upload);
    let meshes = batch_meshes(drawables);
    let indices = batch_indices(drawables);
    let bases = batch_bases(indices, meshes.len());
    let commands = batch_commands(meshes, bases);
    lemma_all_words_len(instances_of(drawables));
    lemma_all_words_len(bounds_of(drawables));
    lemma_all_words_len(indices);
    lemma_all_words_len(bases);
    lemma_all_words_len(commands);
    lemma_all_words_len(zeros(drawables.len()));
    let t = upload_targets(g);
    assert forall|i: int, j: int| 0 <= i < 8 && 0 <= j < 8 && i != j implies t[i] != t[j] by {}
    assert(t[0] != t[1] && t[0] != t[2] && t[0] != t[3] && t[0] != t[4] && t[0] != t[5] && t[0]
        != t[6] && t[0] != t[7]);
    assert(t[1] != t[2] && t[1] != t[3] && t[1] != t[4] && t[1] != t[5] && t[1] != t[6] && t[1]
        != t[7]);
    assert(t[2] != t[3] && t[2] != t[4] && t[2] != t[5] && t[2] != t[6] && t[2] != t[7]);
    assert(t[3] != t[4] && t[3] != t[5] && t[3] != t[6] && t[3] != t[7]);
    assert(t[4] != t[5] && t[4] != t[6] && t[4] != t[7]);
    assert(t[5] != t[6] && t[5] != t[7] && t[6] != t[7]);

    let m0 = m.replay(r);
    lemma_upload(m, r, g.per_instance.instance, instances_of(drawables));
    let r1 = g.per_instance.instance.rec_upload(r, all_words(instances_of(drawables)), 0);
    let m1 = m.replay(r1);
    assert(same_at(m0, m1, t[1]) && same_at(m0, m1, t[2]) && same_at(m0, m1, t[3]) && same_at(
        m0,
        m1,
        t[4],
    ) && same_at(m0, m1, t[5]) && same_at(m0, m1, t[6]) && same_at(m0, m1, t[7]));

    lemma_upload(m, r1, g.per_instance.bounding, bounds_of(drawables));
    let r2 = g.per_instance.bounding.rec_upload(r1, all_words(bounds_of(drawables)), 0);
    let m2 = m.replay(r2);
    assert(same_at(m1, m2, t[0]) && same_at(m1, m2, t[2]) && same_at(m1, m2, t[3]) && same_at(
        m1,
        m2,
        t[4],
    ) && same_at(m1, m2, t[5]) && same_at(m1, m2, t[6]) && same_at(m1, m2, t[7]));

    lemma_upload(m, r2, g.per_instance.batch_index, indices);
    let r3 = g.per_instance.batch_index.rec_upload(r2, all_words(indices), 0);
    let m3 = m.replay(r3);
    assert(same_at(m2, m3, t[0]) && same_at(m2, m3, t[1]) && same_at(m2, m3, t[3]) && same_at(
        m2,
        m3,
        t[4],
    ) && same_at(m2, m3, t[5]) && same_at(m2, m3, t[6]) && same_at(m2, m3, t[7]));

    lemma_upload(m, r3, g.per_batch.base, bases);
    let r4 = g.per_batch.base.rec_upload(r3, all_words(bases), 0);
    let m4 = m.replay(r4);
    assert(same_at(m3, m4, t[0]) && same_at(m3, m4, t[1]) && same_at(m3, m4, t[2]) && same_at(
        m3,
        m4,
        t[4],
    ) && same_at(m3, m4, t[5]) && same_at(m3, m4, t[6]) && same_at(m3, m4, t[7]));

    lemma_upload(m, r4, g.per_batch.indirect, commands);
    let r5 = g.per_batch.indirect.rec_upload(r4, all_words(commands), 0);
    let m5 = m.replay(r5);
    assert(same_at(m4, m5, t[0]) && same_at(m4, m5, t[1]) && same_at(m4, m5, t[2]) && same_at(
        m4,
        m5,
        t[3],
    ) && same_at(m4, m5, t[5]) && same_at(m4, m5, t[6]) && same_at(m4, m5, t[7]));

    lemma_upload(m, r5, g.per_batch.indirect_p2, commands);
    let r6 = g.per_batch.indirect_p2.rec_upload(r5, all_words(commands), 0);
    let m6 = m.replay(r6);
    assert(same_at(m5, m6, t[0]) && same_at(m5, m6, t[1]) && same_at(m5, m6, t[2]) && same_at(
        m5,
        m6,
        t[3],
    ) && same_at(m5, m6, t[4]) && same_at(m5, m6, t[6]) && same_at(m5, m6, t[7]));

    lemma_draw_count(m, r6, g, meshes.len() as u32);
    let r7 = g.rec_draw_count(r6, meshes.len() as u32);
    let m7 = m.replay(r7);
    assert(same_at(m6, m7, t[0]) && same_at(m6, m7, t[1]) && same_at(m6, m7, t[2]) && same_at(
        m6,
        m7,
        t[3],
    ) && same_at(m6, m7, t[4]) && same_at(m6, m7, t[5]) && same_at(m6, m7, t[7]));

    lemma_upload(m, r7, g.per_instance.visible, zeros(drawables.len()));
    let r8 = g.per_instance.visible.rec_upload(r7, all_words(zeros(drawables.len())), 0);
    let m8 = m.replay(r8);
    assert(same_at(m7, m8, t[0]) && same_at(m7, m8, t[1]) && same_at(m7, m8, t[2]) && same_at(
        m7,
        m8,
        t[3],
    ) && same_at(m7, m8, t[4]) && same_at(m7, m8, t[5]) && same_at(m7, m8, t[6]));
}

pub proof fn lemma_clear_replayable(r: Recording, texture: u32, levels: int)
    requires
        replayable(r),
    ensures
        replayable(Hzb::rec_clear(r, texture, levels)),
        Hzb::rec_clear(r, texture, levels).payload == r.payload,
    decreases levels,
{
    broadcast use group_replay;

    if levels > 0 {
        lemma_clear_replayable(r, texture, levels - 1);
    }
}

pub proof fn lemma_levels_replayable(hzb: Hzb, r: Recording, program: u32, levels: int)
    requires
        replayable(r),
    ensures
        replayable(hzb.rec_levels(r, program, levels)),
        hzb.rec_levels(r, program, levels).payload == r.payload,
    decreases levels,
{
    broadcast use group_replay;

    if levels > 1 {
        lemma_levels_replayable(hzb, r, program, levels - 1);
    }
}

pub proof fn lemma_begin_replayable(g: Renderer, r: Recording, width: u32, height: u32)
    requires
        replayable(r),
    ensures
        replayable(g.rec_begin(r, width, height)),
        g.rec_begin(r, width, height).payload == r.payload,
{
    broadcast use group_replay;

    let r1 = g.gpu.offscreen.rec_resize(r, width, height);
    assert(replayable(r1) && r1.payload == r.payload);
    if (g.gpu.hzb.width, g.gpu.hzb.height) != (width, height) {
        let r2 = Hzb::rec_storage(g.gpu.hzb.rec_drop(r1), width, height);
        assert(replayable(r2) && r2.payload == r.payload);
        lemma_clear_replayable(
            r2.create(ObjectKind::Framebuffer).bind_framebuffer(Some(r2.next_id as u32)),
            g.gpu.hzb.rec_drop(r1).next_id as u32,
            mip_levels(longer(width, height)),
        );
    }
}

pub proof fn lemma_grow_replayable<T: GpuElement>(
    buf: GlBuffer<T>,
    r: Recording,
    capacity: int,
    usage: BufferUsage,
)
    requires
        replayable(r),
    ensures
        replayable(buf.rec_grow(r, capacity, usage)),
        buf.rec_grow(r, capacity, usage).payload == r.payload,
{
    broadcast use group_replay;

}

pub proof fn lemma_roomy_replayable(
    a: InstanceBuffers,
    b: BatchBuffers,
    r: Recording,
    n: int,
    m: int,
)
    requires
        replayable(r),
    ensures
        replayable(b.rec_roomy(a.rec_roomy(r, n), m)),
        b.rec_roomy(a.rec_roomy(r, n), m).payload == r.payload,
{
    let usage = BufferUsage::DynamicDraw;
    let r0 = a.rec_roomy(r, n);
    if n > a.instance.capacity {
        let cap = crate::arena::doubled_or(a.instance.capacity as int, n);
        lemma_grow_replayable(a.instance, r, cap, usage);
        let r1 = a.instance.rec_grow(r, cap, usage);
        lemma_grow_replayable(a.culled, r1, cap, usage);
        let r2 = a.culled.rec_grow(r1, cap, usage);
        lemma_grow_replayable(a.culled_p2, r2, cap, usage);
        let r3 = a.culled_p2.rec_grow(r2, cap, usage);
        lemma_grow_replayable(a.bounding, r3, cap, usage);
        let r4 = a.bounding.rec_grow(r3, cap, usage);
        lemma_grow_replayable(a.batch_index, r4, cap, usage);
        let r5 = a.batch_index.rec_grow(r4, cap, usage);
        lemma_grow_replayable(a.visible, r5, cap, usage);
    }
    if m > b.indirect.capacity {
        let cap = crate::arena::doubled_or(b.indirect.capacity as int, m);
        lemma_grow_replayable(b.indirect, r0, cap, usage);
        let r1 = b.indirect.rec_grow(r0, cap, usage);
        lemma_grow_replayable(b.indirect_p2, r1, cap, usage);
        let r2 = b.indirect_p2.rec_grow(r1, cap, usage);
        lemma_grow_replayable(b.base, r2, cap, usage);
    }
}

pub proof fn lemma_data_replayable<T: GpuElement>(
    buf: GlBuffer<T>,
    r: Recording,
    words: Seq<u32>,
    offset: int,
)
    requires
        replayable(r),
        r.payload.len() + words.len() <= usize::MAX,
    ensures
        replayable(buf.rec_upload(r, words, offset)),
        buf.rec_upload(r, words, offset).payload.len() == r.payload.len() + words.len(),
{
    broadcast use group_replay;

}

pub proof fn lemma_uploads_replayable(g: GpuState, r: Recording, drawables: Seq<Drawable>)
    requires
        replayable(r),
        r.payload.len() + 42 * drawables.len() + 11 * batch_meshes(drawables).len() + 1
            <= usize::MAX,
    ensures
        replayable(g.rec_upload(r, drawables)),
        g.rec_upload(r, drawables).payload.len() == r.payload.len() + 42 * drawables.len() + 11
            * batch_meshes(drawables).len() + 1,
{
    broadcast use group_replay;

    reveal(GpuState::rec_upload);
    let meshes = batch_meshes(drawables);
    let indices = batch_indices(drawables);
    let bases = batch_bases(indices, meshes.len());
    let commands = batch_commands(meshes, bases);
    lemma_all_words_len(instances_of(drawables));
    lemma_all_words_len(bounds_of(drawables));
    lemma_all_words_len(indices);
    lemma_all_words_len(bases);
    lemma_all_words_len(commands);
    lemma_all_words_len(zeros(drawables.len()));
    lemma_data_replayable(
        g.per_instance.instance,
        r,
        all_words(instances_of(drawables)),
        0,
    );
    let r1 = g.per_instance.instance.rec_upload(r, all_words(instances_of(drawables)), 0);
    lemma_data_replayable(g.per_instance.bounding, r1, all_words(bounds_of(drawables)), 0);
    let r2 = g.per_instance.bounding.rec_upload(r1, all_words(bounds_of(drawables)), 0);
    lemma_data_replayable(g.per_instance.batch_index, r2, all_words(indices), 0);
    let r3 = g.per_instance.batch_index.rec_upload(r2, all_words(indices), 0);
    lemma_data_replayable(g.per_batch.base, r3, all_words(bases), 0);
    let r4 = g.per_batch.base.rec_upload(r3, all_words(bases), 0);
    lemma_data_replayable(g.per_batch.indirect, r4, all_words(commands), 0);
    let r5 = g.per_batch.indirect.rec_upload(r4, all_words(commands), 0);
    lemma_data_replayable(g.per_batch.indirect_p2, r5, all_words(commands), 0);
    let r6 = g.per_batch.indirect_p2.rec_upload(r5, all_words(commands), 0);
    let r7 = g.rec_draw_count(r6, meshes.len() as u32);
    assert(replayable(r7) && r7.payload.len() == r6.payload.len() + 1);
    lemma_data_replayable(
        g.per_instance.visible,
        r7,
        all_words(zeros(drawables.len())),
        0,
    );
}

pub proof fn lemma_uniforms_replayable(s: Shader, r: Recording, name: Uniform, words: Seq<u32>)
    requires
        replayable(r),
        r.payload.len() + words.len() <= usize::MAX,
    ensures
        replayable(s.rec_mat4(r, name, words)),
        s.rec_mat4(r, name, words).payload.len() == r.payload.len() + words.len(),
        replayable(s.rec_vec4_slice(r, name, words)),
        s.rec_vec4_slice(r, name, words).payload.len() == r.payload.len() + words.len(),
{
    broadcast use group_replay;

}

proof fn lemma_draw_replayable(g: GpuState, r: Recording, second: bool, m: int, view: FrameView)
    requires
        replayable(r),
        r.payload.len() + 16 <= usize::MAX,
    ensures
        replayable(g.rec_draw(r, second, m, view)),
        g.rec_draw(r, second, m, view).payload.len() == r.payload.len() + if second {
            0int
        } else {
            16int
        },
{
    broadcast use group_replay;

}

proof fn lemma_phases_replayable(
    g: GpuState,
    r: Recording,
    n: int,
    m: int,
    view: FrameView,
    width: u32,
    height: u32,
)
    requires
        replayable(r),
        r.payload.len() + 72 <= usize::MAX,
    ensures
        replayable(g.rec_phases(r, n, m, view, width, height)),
        g.rec_phases(r, n, m, view, width, height).payload.len() == r.payload.len() + 56,
{
    broadcast use group_replay;

    reveal(GpuState::rec_phases);
    let program = g.cull_shader.program;
    let r0 = r.call(GlCall::UseProgram { program: Some(program) }).call(
        GlCall::Uniform1Uint { program, name: Uniform::TotalDraws, x: n as u32 },
    );
    lemma_uniforms_replayable(g.cull_shader, r0, Uniform::FrustumPlanes, view.planes@);
    let ra = g.cull_shader.rec_vec4_slice(r0, Uniform::FrustumPlanes, view.planes@);
    lemma_uniforms_replayable(g.cull_shader, ra, Uniform::ViewProj, view.view_proj@);
    let r1 = g.rec_cull_uniforms(r, n as u32, view, width, height);
    assert(replayable(r1) && r1.payload.len() == r.payload.len() + 40);
    let r2 = g.rec_cull(g.rec_cull_bindings(r1, false), false, n);
    assert(replayable(r2) && r2.payload == r1.payload);
    lemma_draw_replayable(g, r2, false, m, view);
    let drawn = g.rec_draw(r2, false, m, view);
    let hzb_program = g.hzb_shader.program;
    let start = drawn.barrier(FETCH_AND_IMAGE_BITS).call(
        GlCall::UseProgram { program: Some(hzb_program) },
    ).call(GlCall::ActiveTexture { unit: TEXTURE0 }).bind_texture(Some(g.offscreen.depth));
    assert(replayable(start) && start.payload == drawn.payload);
    lemma_levels_replayable(g.hzb, start, hzb_program, g.hzb.levels as int);
    let r3 = g.rec_build_hzb(drawn);
    assert(replayable(r3) && r3.payload == drawn.payload);
    let r4 = r3.call(GlCall::UseProgram { program: Some(program) });
    let r5 = g.rec_cull(g.rec_cull_bindings(r4, true), true, n);
    assert(replayable(r5) && r5.payload == r3.payload);
    lemma_draw_replayable(g, r5, true, m, view);
}

/// A recorded frame can be replayed: every call points at payload that exists.
/// How much payload a frame takes depends on its objects and batches alone.
pub proof fn frames_are_replayable(
    g: Renderer,
    r: Recording,
    drawables: Seq<Drawable>,
    view: FrameView,
    width: u32,
    height: u32,
)
    requires
        replayable(r),
        r.payload.len() + 42 * drawables.len() + 11 * batch_meshes(drawables).len() + 73
            <= usize::MAX,
    ensures
        replayable(g.rec_render(r, drawables, view, width, height)),
        g.rec_render(r, drawables, view, width, height).payload.len() == r.payload.len() + if drawables.len()
            > 0 {
            42 * drawables.len() + 11 * batch_meshes(drawables).len() + 57
        } else {
            0
        },
{
    broadcast use group_replay;

    let n = drawables.len() as int;
    let m = batch_meshes(drawables).len() as int;
    lemma_begin_replayable(g, r, width, height);
    let r1 = g.rec_begin(r, width, height);
    if n > 0 {
        let gpu = g.readied(r, drawables, width, height);
        lemma_roomy_replayable(g.gpu.per_instance, g.gpu.per_batch, r1, n, m);
        let r2 = g.gpu.per_batch.rec_roomy(g.gpu.per_instance.rec_roomy(r1, n), m);
        lemma_uploads_replayable(gpu, r2, drawables);
        let r3 = gpu.rec_upload(r2, drawables);
        lemma_phases_replayable(gpu, r3, n, m, view, width, height);
        let r4 = gpu.rec_phases(r3, n, m, view, width, height);
        lemma_end_replayable(r4);
    } else {
        lemma_end_replayable(r1);
    }
}

proof fn lemma_end_replayable(r: Recording)
    requires
        replayable(r),
    ensures
        replayable(QuerySet::rec_end(r)),
        QuerySet::rec_end(r).payload == r.payload,
        replayable(QuerySet::rec_end(r).bind_framebuffer(None)),
{
    broadcast use group_replay;

}

} // verus!
