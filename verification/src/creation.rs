//! What a new renderer has on the GPU: where frames start from.

use crate::arena::{BoundingSphere, DrawCommand, InstanceData, PackedVertex};
use crate::element::{all_words, lemma_all_words_len, GpuElement};
use crate::frame_memory::{has_buffer, held, lemma_upload, shape};
use crate::framebuffer::OffscreenTarget;
use crate::gl::{GlCall, ObjectKind, Recording, SHADER_STORAGE_BUFFER};
use crate::gl_buffer::{element_size, BufferUsage, GlBuffer};
use crate::gpu_model::{
    backed, group_replay, new_buffer_is_backed, replayable, same_elsewhere, splice,
    upload_replaces_range, GpuMemory,
};
use crate::lifetimes::{
    creation_leaks_nothing, frame_objects, frame_objects_live, lifetimes, Lifetimes,
};
use crate::material_model::{lemma_one, mirrors};
use crate::materials::GpuMaterial;
use crate::renderer::{Renderer, INITIAL_MATERIALS, MAX_DRAWS, MAX_INDICES, MAX_VERTICES};
use crate::stats::QuerySet;
use vstd::prelude::*;

verus! {

/// One more buffer: it is held, and so is everything else.
proof fn lemma_new<T: GpuElement>(
    m: GpuMemory,
    r: Recording,
    capacity: usize,
    usage: BufferUsage,
    buffers: Seq<(u32, int)>,
)
    requires
        replayable(r),
        held(m.replay(r), buffers, r.next_id),
        0 <= r.next_id <= u32::MAX,
        capacity * element_size::<T>() <= i32::MAX,
    ensures
        ({
            let r1 = GlBuffer::<T>::rec_new(r, capacity as int, usage);
            &&& replayable(r1)
            &&& r1.next_id == r.next_id + 1
            &&& r1.payload == r.payload
            &&& held(
                m.replay(r1),
                buffers.push((r.next_id as u32, capacity * element_size::<T>())),
                r.next_id + 1,
            )
        }),
{
    let buf = GlBuffer::<T> {
        handle: r.next_id as u32,
        capacity,
        marker: std::marker::PhantomData,
    };
    new_buffer_is_backed(m, r, buf, usage);
    let r1 = GlBuffer::<T>::rec_new(r, capacity as int, usage);
    lemma_pushed(
        m.replay(r),
        m.replay(r1),
        buffers,
        (r.next_id as u32, capacity * element_size::<T>()),
        r.next_id,
    );
}

proof fn lemma_pushed(
    m0: GpuMemory,
    m1: GpuMemory,
    buffers: Seq<(u32, int)>,
    buffer: (u32, int),
    next_id: int,
)
    requires
        held(m0, buffers, next_id),
        buffer.0 == next_id,
        has_buffer(m1, buffer),
        same_elsewhere(m0, m1, set![buffer.0]),
    ensures
        held(m1, buffers.push(buffer), next_id + 1),
{
    let after = buffers.push(buffer);
    assert forall|i: int| 0 <= i < after.len() implies has_buffer(m1, #[trigger] after[i])
        && after[i].0 < next_id + 1 by {
        if i < buffers.len() {
            assert(after[i] == buffers[i]);
            assert(has_buffer(m0, buffers[i]) && buffers[i].0 < next_id);
            assert(m1.buffers.contains_key(buffers[i].0) <==> m0.buffers.contains_key(
                buffers[i].0,
            ));
            assert(m1.buffers[buffers[i].0] == m0.buffers[buffers[i].0]);
        }
    }
    assert forall|i: int, j: int| 0 <= i < j < after.len() implies (#[trigger] after[i]).0 != (
    #[trigger] after[j]).0 by {
        assert(after[i] == buffers[i]);
        assert(has_buffer(m0, buffers[i]) && buffers[i].0 < next_id);
        if j < buffers.len() {
            assert(after[j] == buffers[j]);
        }
    }
}

proof fn lemma_later(m: GpuMemory, buffers: Seq<(u32, int)>, next_id: int, later: int)
    requires
        held(m, buffers, next_id),
        next_id <= later,
    ensures
        held(m, buffers, later),
{
    assert forall|i: int| 0 <= i < buffers.len() implies has_buffer(m, #[trigger] buffers[i])
        && buffers[i].0 < later by {
        assert(has_buffer(m, buffers[i]) && buffers[i].0 < next_id);
    }
}

/// The buffers that a renderer creates, in the order of their creation.
spec fn created(first: int) -> Seq<(u32, int)> {
    seq![
        ((first + 1) as u32, 65_536int * 20),
        ((first + 2) as u32, 131_072int * 4),
        ((first + 3) as u32, 1_024int * 144),
        ((first + 4) as u32, 1_024int * 144),
        ((first + 5) as u32, 1_024int * 20),
        ((first + 6) as u32, 1_024int * 144),
        ((first + 7) as u32, 1_024int * 20),
        ((first + 8) as u32, 1_024int * 16),
        ((first + 9) as u32, 1_024int * 4),
        ((first + 10) as u32, 1_024int * 4),
        ((first + 11) as u32, 1_024int * 4),
        ((first + 12) as u32, 4int),
        ((first + 13) as u32, 16int * 32),
    ]
}

proof fn lemma_state(m: GpuMemory, r: Recording)
    requires
        replayable(r),
    ensures
        ({
            let r1 = Renderer::rec_state(r);
            let r2 = r1.create(ObjectKind::VertexArray).call(
                GlCall::BindVertexArray { array: Some(r1.next_id as u32) },
            );
            &&& m.replay(r2) == m.replay(r)
            &&& replayable(r2)
            &&& r2.next_id == r.next_id + 1
            &&& r2.payload == r.payload
            &&& r1.next_id == r.next_id
        }),
{
    broadcast use group_replay;

}

proof fn lemma_buffers(m: GpuMemory, r: Recording)
    requires
        replayable(r),
        0 <= r.next_id,
        r.next_id + 24 < u32::MAX,
    ensures
        ({
            let r1 = Renderer::rec_buffers(Renderer::rec_state(r));
            &&& replayable(r1)
            &&& r1.next_id == r.next_id + 12
            &&& r1.payload == r.payload
            &&& held(m.replay(r1), created(r.next_id).take(11), r1.next_id)
        }),
{
    let usage = BufferUsage::DynamicDraw;
    let first = r.next_id;
    lemma_state(m, r);
    let s = Renderer::rec_state(r);
    let r0 = s.create(ObjectKind::VertexArray).call(
        GlCall::BindVertexArray { array: Some(s.next_id as u32) },
    );
    let b0 = Seq::<(u32, int)>::empty();
    assert(held(m.replay(r0), b0, r0.next_id));
    lemma_new::<PackedVertex>(m, r0, MAX_VERTICES, usage, b0);
    let r1 = GlBuffer::<PackedVertex>::rec_new(r0, MAX_VERTICES as int, usage);
    let b1 = b0.push(((first + 1) as u32, 65_536int * 20));
    lemma_new::<u32>(m, r1, MAX_INDICES, usage, b1);
    let r2 = GlBuffer::<u32>::rec_new(r1, MAX_INDICES as int, usage);
    let b2 = b1.push(((first + 2) as u32, 131_072int * 4));
    let n = MAX_DRAWS as int;
    lemma_new::<InstanceData>(m, r2, MAX_DRAWS, usage, b2);
    let r3 = GlBuffer::<InstanceData>::rec_new(r2, n, usage);
    let b3 = b2.push(((first + 3) as u32, 1_024int * 144));
    lemma_new::<InstanceData>(m, r3, MAX_DRAWS, usage, b3);
    let r4 = GlBuffer::<InstanceData>::rec_new(r3, n, usage);
    let b4 = b3.push(((first + 4) as u32, 1_024int * 144));
    lemma_new::<DrawCommand>(m, r4, MAX_DRAWS, usage, b4);
    let r5 = GlBuffer::<DrawCommand>::rec_new(r4, n, usage);
    let b5 = b4.push(((first + 5) as u32, 1_024int * 20));
    lemma_new::<InstanceData>(m, r5, MAX_DRAWS, usage, b5);
    let r6 = GlBuffer::<InstanceData>::rec_new(r5, n, usage);
    let b6 = b5.push(((first + 6) as u32, 1_024int * 144));
    lemma_new::<DrawCommand>(m, r6, MAX_DRAWS, usage, b6);
    let r7 = GlBuffer::<DrawCommand>::rec_new(r6, n, usage);
    let b7 = b6.push(((first + 7) as u32, 1_024int * 20));
    lemma_new::<BoundingSphere>(m, r7, MAX_DRAWS, usage, b7);
    let r8 = GlBuffer::<BoundingSphere>::rec_new(r7, n, usage);
    let b8 = b7.push(((first + 8) as u32, 1_024int * 16));
    lemma_new::<u32>(m, r8, MAX_DRAWS, usage, b8);
    let r9 = GlBuffer::<u32>::rec_new(r8, n, usage);
    let b9 = b8.push(((first + 9) as u32, 1_024int * 4));
    lemma_new::<u32>(m, r9, MAX_DRAWS, usage, b9);
    let r10 = GlBuffer::<u32>::rec_new(r9, n, usage);
    let b10 = b9.push(((first + 10) as u32, 1_024int * 4));
    lemma_new::<u32>(m, r10, MAX_DRAWS, usage, b10);
    let r11 = GlBuffer::<u32>::rec_new(r10, n, usage);
    let b11 = b10.push(((first + 11) as u32, 1_024int * 4));
    assert(b11 =~= created(first).take(11));
    assert(r11 == Renderer::rec_buffers(s));
}

proof fn lemma_count_buffer(m: GpuMemory, r: Recording, buffers: Seq<(u32, int)>)
    requires
        replayable(r),
        held(m.replay(r), buffers, r.next_id),
        0 <= r.next_id <= u32::MAX,
        r.payload.len() + 1 <= usize::MAX,
    ensures
        ({
            let r1 = Renderer::rec_count_buffer(r);
            &&& replayable(r1)
            &&& r1.next_id == r.next_id + 1
            &&& r1.payload.len() == r.payload.len() + 1
            &&& held(m.replay(r1), buffers.push((r.next_id as u32, 4int)), r.next_id + 1)
        }),
{
    broadcast use group_replay;

    let id = r.next_id as u32;
    let bound = r.create(ObjectKind::Buffer).bind_buffer(SHADER_STORAGE_BUFFER, Some(id)).data(
        seq![0],
    );
    assert(bound.payload.subrange(r.payload.len() as int, r.payload.len() + 1int) =~= seq![0u32]);
    let r1 = Renderer::rec_count_buffer(r);
    let m0 = m.replay(r);
    let m1 = m.replay(r1);
    assert(m.replay(bound).at(SHADER_STORAGE_BUFFER) == Some(id));
    assert(m1.buffers == m0.buffers.insert(id, Seq::empty()).insert(id, seq![0u32]));
    lemma_pushed(m0, m1, buffers, (id, 4int), r.next_id);
}

proof fn lemma_last(m: GpuMemory, r: Recording)
    requires
        replayable(r),
    ensures
        ({
            let r1 = QuerySet::rec_new(QuerySet::rec_new(OffscreenTarget::rec_new(r, 1, 1)));
            &&& m.replay(r1) == m.replay(r)
            &&& replayable(r1)
            &&& r1.next_id == r.next_id + 11
        }),
{
    broadcast use group_replay;

    let r0 = OffscreenTarget::rec_new(r, 1, 1);
    assert(m.replay(r0) == m.replay(r) && replayable(r0) && r0.next_id == r.next_id + 3);
}

/// The frame's buffers are among those that were created.
proof fn lemma_selected(m: GpuMemory, g: Renderer, first: int, next_id: int)
    requires
        g.wf(),
        g.is_new(first),
        0 <= first,
        first + 24 < u32::MAX,
        held(m, created(first), next_id),
    ensures
        held(m, shape(g.gpu.per_instance, g.gpu.per_batch, g.gpu.draw_count), next_id),
{
    let c = created(first);
    let s = shape(g.gpu.per_instance, g.gpu.per_batch, g.gpu.draw_count);
    let at = seq![2int, 3, 5, 7, 8, 10, 4, 6, 9, 11];
    assert forall|i: int| 0 <= i < s.len() implies #[trigger] s[i] == c[at[i]] by {}
    assert forall|i: int| 0 <= i < s.len() implies has_buffer(m, #[trigger] s[i]) && s[i].0
        < next_id by {
        assert(s[i] == c[at[i]]);
        assert(has_buffer(m, c[at[i]]));
    }
    assert forall|i: int, j: int| 0 <= i < j < s.len() implies (#[trigger] s[i]).0 != (
    #[trigger] s[j]).0 by {
        assert(s[i] == c[at[i]] && s[j] == c[at[j]]);
        assert(at[i] != at[j]);
        if at[i] < at[j] {
            assert(c[at[i]].0 != c[at[j]].0);
        } else {
            assert(c[at[j]].0 != c[at[i]].0);
        }
    }
}

/// A new renderer has everything that a frame needs: every buffer, in its size,
/// and the default material at its index. From here on frames can follow each
/// other.
pub proof fn new_renderers_are_ready(
    m: GpuMemory,
    r: Recording,
    default: GpuMaterial,
    g: Renderer,
)
    requires
        replayable(r),
        0 <= r.next_id,
        r.next_id + 24 < u32::MAX,
        r.payload.len() + 9 <= usize::MAX,
        g.wf(),
        g.is_new(r.next_id),
    ensures
        ({
            let after = Renderer::rec_new(r, default);
            &&& replayable(after)
            &&& held(
                m.replay(after),
                shape(g.gpu.per_instance, g.gpu.per_batch, g.gpu.draw_count),
                after.next_id,
            )
            &&& mirrors(g, seq![default], m.replay(after))
        }),
{
    let first = r.next_id;
    let c = created(first);
    lemma_buffers(m, r);
    let r1 = Renderer::rec_buffers(Renderer::rec_state(r));
    lemma_count_buffer(m, r1, c.take(11));
    let r2 = Renderer::rec_count_buffer(r1);
    assert(c.take(11).push(((first + 12) as u32, 4int)) =~= c.take(12));
    lemma_new::<GpuMaterial>(m, r2, INITIAL_MATERIALS, BufferUsage::StaticDraw, c.take(12));
    let r3 = GlBuffer::<GpuMaterial>::rec_new(
        r2,
        INITIAL_MATERIALS as int,
        BufferUsage::StaticDraw,
    );
    assert(c.take(12).push(((first + 13) as u32, 16int * 32)) =~= c);
    let buf = GlBuffer::<GpuMaterial> {
        handle: r2.next_id as u32,
        capacity: INITIAL_MATERIALS,
        marker: std::marker::PhantomData,
    };
    lemma_one(default);
    default.words_len();
    lemma_all_words_len(seq![default]);
    assert(c[12] == (buf.handle, buf.byte_size()));
    lemma_upload(m, r3, buf, seq![default], c, 12);
    assert(has_buffer(m.replay(r3), c[12]));
    upload_replaces_range(m, r3, buf, seq![default], 0);
    let r4 = buf.rec_upload(r3, all_words(seq![default]), 0);
    assert(r4 == Renderer::rec_materials(r2, default));
    let held_words = m.replay(r3).buffers[buf.handle];
    let words = all_words(seq![default]);
    assert(m.replay(r4).buffers[buf.handle] == splice(held_words, 0int * 8, words));
    assert(words.is_prefix_of(m.replay(r4).buffers[buf.handle]));
    lemma_last(m, r4);
    let after = Renderer::rec_new(r, default);
    lemma_later(m.replay(r4), c, r4.next_id, after.next_id);
    lemma_selected(m.replay(after), g, first, after.next_id);
    assert(has_buffer(m.replay(r4), c[12]));
    assert(backed(g.gpu.material_buf, m.replay(after)));
}

proof fn lemma_new_objects(
    past: Lifetimes,
    before: Lifetimes,
    first: int,
    after: Recording,
    g: Renderer,
)
    requires
        0 <= first,
        first + 24 < u32::MAX,
        g.is_new(first),
        after.next_id == first + 25,
        forall|id: u32| #[trigger] before.live.contains(id) ==> id < first,
        forall|id: u32| #[trigger]
            lifetimes(past, after).live.contains(id) <==> before.live.contains(id) || first <= id
                < first + 25,
    ensures
        frame_objects_live(past, g.gpu, after),
{
    let objs = frame_objects(g.gpu);
    assert(objs.len() == 9);
    assert forall|i: int| 0 <= i < objs.len() implies first <= #[trigger] objs[i] < first + 25 by {}
    assert forall|i: int| 0 <= i < objs.len() implies {
        &&& #[trigger] objs[i] < after.next_id
        &&& lifetimes(past, after).live.contains(objs[i])
    } by {}
}

/// The objects of a new renderer's frames live and are different objects, so
/// that its first frame, and with it every other one, leaks nothing.
pub proof fn new_frame_objects_live(
    past: Lifetimes,
    r: Recording,
    default: GpuMaterial,
    g: Renderer,
)
    requires
        0 <= r.next_id,
        r.next_id + 24 < u32::MAX,
        g.is_new(r.next_id),
        forall|id: u32| #[trigger] lifetimes(past, r).live.contains(id) ==> id < r.next_id,
    ensures
        frame_objects_live(past, g.gpu, Renderer::rec_new(r, default)),
{
    let after = Renderer::rec_new(r, default);
    creation_leaks_nothing(past, r, default, g, 0);
    assert forall|id: u32| #[trigger] lifetimes(past, after).live.contains(id) <==> lifetimes(
        past,
        r,
    ).live.contains(id) || r.next_id <= id < r.next_id + 25 by {
        creation_leaks_nothing(past, r, default, g, id);
    }
    lemma_new_objects(past, lifetimes(past, r), r.next_id, after, g);
}

} // verus!
