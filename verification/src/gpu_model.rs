//! What recorded calls do to GPU memory.
//!
//! A small mathematical model of OpenGL buffer objects: each buffer is a
//! sequence of words, each target names a buffer or none, and each recorded call
//! takes the memory from one state to the next. The laws of the buffers and of
//! the arena are stated over it.

use crate::arena::{grown, rec_roomy, room_exists, roomy, GpuArena, MeshAlloc, PackedVertex};
use crate::element::{all_words, lemma_all_words_len, GpuElement};
use crate::gl::{
    GlCall, ObjectKind, Recording, ARRAY_BUFFER, COPY_READ_BUFFER, COPY_WRITE_BUFFER,
};
use crate::gl_buffer::{element_size, BufferUsage, GlBuffer};
use vstd::prelude::*;

verus! {

/// The buffers of a context and what its targets are bound to.
#[verifier::ext_equal]
pub struct GpuMemory {
    pub buffers: Map<u32, Seq<u32>>,
    pub bound: Map<u32, Option<u32>>,
}

/// `contents` with the words from `at` on replaced by `words`.
pub open spec fn splice(contents: Seq<u32>, at: int, words: Seq<u32>) -> Seq<u32> {
    contents.take(at) + words + contents.skip(at + words.len())
}

impl GpuMemory {
    /// The buffer that is bound to `target`, if there is one.
    pub open spec fn at(self, target: u32) -> Option<u32> {
        if self.bound.contains_key(target) {
            self.bound[target]
        } else {
            None
        }
    }

    /// Whether `target` is bound to a buffer that exists.
    pub open spec fn live(self, target: u32) -> bool {
        self.at(target) is Some && self.buffers.contains_key(self.at(target)->0)
    }

    /// The contents of the buffer that is bound to `target`.
    pub open spec fn read(self, target: u32) -> Seq<u32> {
        self.buffers[self.at(target)->0]
    }

    /// The memory with other contents in the buffer that is bound to `target`.
    pub open spec fn write(self, target: u32, contents: Seq<u32>) -> GpuMemory {
        GpuMemory { buffers: self.buffers.insert(self.at(target)->0, contents), ..self }
    }

    pub open spec fn bind(self, target: u32, buffer: Option<u32>) -> GpuMemory {
        GpuMemory { bound: self.bound.insert(target, buffer), ..self }
    }

    /// Overwriting of the words from byte `offset` on. A range that does not lie
    /// inside the buffer is an error, which leaves the memory alone.
    pub open spec fn sub_data(self, target: u32, offset: int, words: Seq<u32>) -> GpuMemory {
        if self.live(target) && offset >= 0 && offset % 4 == 0 && offset / 4 + words.len()
            <= self.read(target).len() {
            self.write(target, splice(self.read(target), offset / 4, words))
        } else {
            self
        }
    }

    /// A copy between two bound buffers. A range that does not lie inside either
    /// of them is an error, which leaves the memory alone.
    pub open spec fn copy(self, src: u32, dst: u32, from: int, to: int, size: int) -> GpuMemory {
        if self.live(src) && self.live(dst) && from >= 0 && to >= 0 && size >= 0 && from % 4 == 0
            && to % 4 == 0 && size % 4 == 0 && (from + size) / 4 <= self.read(src).len() && (to
            + size) / 4 <= self.read(dst).len() {
            self.write(
                dst,
                splice(
                    self.read(dst),
                    to / 4,
                    self.read(src).subrange(from / 4, (from + size) / 4),
                ),
            )
        } else {
            self
        }
    }

    /// The memory after one call.
    pub open spec fn step(self, c: GlCall, payload: Seq<u32>) -> GpuMemory {
        match c {
            GlCall::Create { kind: ObjectKind::Buffer, id } => GpuMemory {
                buffers: self.buffers.insert(id, Seq::empty()),
                ..self
            },
            GlCall::Delete { kind: ObjectKind::Buffer, id } => GpuMemory {
                buffers: self.buffers.remove(id),
                ..self
            },
            GlCall::BindBuffer { target, buffer } => self.bind(target, buffer),
            GlCall::BindBufferBase { target, index, buffer } => self.bind(target, Some(buffer)),
            GlCall::BufferDataSize { target, size, usage } => if self.live(target) && size >= 0 {
                self.write(target, Seq::new((size / 4) as nat, |i: int| arbitrary::<u32>()))
            } else {
                self
            },
            GlCall::BufferData { target, start, count, usage } => if self.live(target) {
                self.write(target, payload.subrange(start as int, start + count))
            } else {
                self
            },
            GlCall::BufferSubData { target, offset, start, count } => self.sub_data(
                target,
                offset as int,
                payload.subrange(start as int, start + count),
            ),
            GlCall::MapAndWrite { target, offset, length, access, start, count } => self.sub_data(
                target,
                offset as int,
                payload.subrange(start as int, start + count),
            ),
            GlCall::CopyBufferSubData { src, dst, src_offset, dst_offset, size } => self.copy(
                src,
                dst,
                src_offset as int,
                dst_offset as int,
                size as int,
            ),
            _ => self,
        }
    }

    /// The memory after a whole recording.
    pub open spec fn replay(self, r: Recording) -> GpuMemory
        decreases r.calls.len(),
    {
        if r.calls.len() == 0 {
            self
        } else {
            self.replay(Recording { calls: r.calls.drop_last(), ..r }).step(
                r.calls.last(),
                r.payload,
            )
        }
    }
}

/// Whether a call points only at payload words that exist.
pub open spec fn refers_within(c: GlCall, len: int) -> bool {
    match c {
        GlCall::BufferData { start, count, .. } => start + count <= len,
        GlCall::BufferSubData { start, count, .. } => start + count <= len,
        GlCall::MapAndWrite { start, count, .. } => start + count <= len,
        GlCall::UniformMatrix4 { start, count, .. } => start + count <= len,
        GlCall::Uniform4FloatSlice { start, count, .. } => start + count <= len,
        _ => true,
    }
}

/// Whether a recording can be replayed: every call points at words that exist.
pub open spec fn replayable(r: Recording) -> bool {
    &&& r.payload.len() <= usize::MAX
    &&& forall|i: int|
        0 <= i < r.calls.len() ==> refers_within(#[trigger] r.calls[i], r.payload.len() as int)
}

pub broadcast proof fn lemma_replay_call(m: GpuMemory, r: Recording, c: GlCall)
    ensures
        #[trigger] m.replay(r.call(c)) == m.replay(r).step(c, r.payload),
{
    assert(r.call(c).calls.drop_last() =~= r.calls);
    assert(Recording { calls: r.calls, ..r.call(c) } == r);
}

pub broadcast proof fn lemma_replay_create(m: GpuMemory, r: Recording, kind: ObjectKind)
    ensures
        #[trigger] m.replay(r.create(kind)) == m.replay(r).step(
            GlCall::Create { kind, id: r.next_id as u32 },
            r.payload,
        ),
    decreases r.calls.len(),
{
    assert(r.create(kind).calls.drop_last() =~= r.calls);
    lemma_replay_ids(m, r, r.next_id + 1);
}

/// Replaying does not depend on the next object number.
proof fn lemma_replay_ids(m: GpuMemory, r: Recording, next_id: int)
    ensures
        m.replay(Recording { next_id, ..r }) == m.replay(r),
    decreases r.calls.len(),
{
    if r.calls.len() != 0 {
        lemma_replay_ids(m, Recording { calls: r.calls.drop_last(), ..r }, next_id);
    }
}

/// More payload does not change what the calls before it do.
pub broadcast proof fn lemma_replay_data(m: GpuMemory, r: Recording, words: Seq<u32>)
    requires
        replayable(r),
    ensures
        #[trigger] m.replay(r.data(words)) == m.replay(r),
    decreases r.calls.len(),
{
    if r.calls.len() != 0 {
        let shorter = Recording { calls: r.calls.drop_last(), ..r };
        assert(replayable(shorter)) by {
            assert forall|i: int| 0 <= i < shorter.calls.len() implies refers_within(
                #[trigger] shorter.calls[i],
                shorter.payload.len() as int,
            ) by {
                assert(shorter.calls[i] == r.calls[i]);
            }
        }
        lemma_replay_data(m, shorter, words);
        let c = r.calls.last();
        assert(refers_within(r.calls[r.calls.len() - 1], r.payload.len() as int));
        assert(shorter.data(words) == (Recording {
            calls: r.data(words).calls.drop_last(),
            ..r.data(words)
        }));
        match c {
            GlCall::BufferData { start, count, .. } => {
                assert(r.data(words).payload.subrange(start as int, start + count)
                    =~= r.payload.subrange(start as int, start + count));
            },
            GlCall::BufferSubData { start, count, .. } => {
                assert(r.data(words).payload.subrange(start as int, start + count)
                    =~= r.payload.subrange(start as int, start + count));
            },
            GlCall::MapAndWrite { start, count, .. } => {
                assert(r.data(words).payload.subrange(start as int, start + count)
                    =~= r.payload.subrange(start as int, start + count));
            },
            _ => {},
        }
    }
}

pub broadcast proof fn lemma_replayable_call(r: Recording, c: GlCall)
    requires
        replayable(r),
        refers_within(c, r.payload.len() as int),
    ensures
        #[trigger] replayable(r.call(c)),
{
}

pub broadcast proof fn lemma_replayable_create(r: Recording, kind: ObjectKind)
    requires
        replayable(r),
    ensures
        #[trigger] replayable(r.create(kind)),
{
}

pub broadcast proof fn lemma_replayable_data(r: Recording, words: Seq<u32>)
    requires
        replayable(r),
        r.payload.len() + words.len() <= usize::MAX,
    ensures
        #[trigger] replayable(r.data(words)),
{
    assert forall|i: int| 0 <= i < r.data(words).calls.len() implies refers_within(
        #[trigger] r.data(words).calls[i],
        r.data(words).payload.len() as int,
    ) by {
        assert(refers_within(r.calls[i], r.payload.len() as int));
    }
}

pub broadcast group group_replay {
    lemma_replay_call,
    lemma_replay_create,
    lemma_replay_data,
    lemma_replayable_call,
    lemma_replayable_create,
    lemma_replayable_data,
}

/// Whether `m` holds a buffer object of the right size for `buf`, small enough
/// for GL to measure it.
pub open spec fn backed<T: GpuElement>(buf: GlBuffer<T>, m: GpuMemory) -> bool {
    &&& m.buffers.contains_key(buf.handle)
    &&& 4 * m.buffers[buf.handle].len() == buf.byte_size()
    &&& buf.byte_size() <= i32::MAX
}

/// Everything but the buffers in `changed` is the same in both memories.
pub open spec fn same_elsewhere(before: GpuMemory, after: GpuMemory, changed: Set<u32>) -> bool {
    &&& forall|id: u32| #![trigger after.buffers.contains_key(id)]
        !changed.contains(id) ==> (after.buffers.contains_key(id) <==> before.buffers.contains_key(
            id,
        ))
    &&& forall|id: u32| #![trigger after.buffers[id]]
        !changed.contains(id) ==> after.buffers[id] == before.buffers[id]
}

/// A size in bytes is four times a number of words.
proof fn lemma_byte_size<T: GpuElement>(capacity: int)
    ensures
        capacity * element_size::<T>() == 4 * (capacity * (T::words_each() as int)),
{
    assert(capacity * (4 * (T::words_each() as int)) == 4 * (capacity * (T::words_each() as int)))
        by (nonlinear_arith);
}

/// A new buffer is backed by an object of its size, and every other buffer is as
/// it was.
pub proof fn new_buffer_is_backed<T: GpuElement>(
    m: GpuMemory,
    r: Recording,
    buf: GlBuffer<T>,
    usage: BufferUsage,
)
    requires
        replayable(r),
        buf.handle == r.next_id,
        buf.byte_size() <= i32::MAX,
    ensures
        ({
            let r1 = GlBuffer::<T>::rec_new(r, buf.capacity as int, usage);
            &&& replayable(r1)
            &&& backed(buf, m.replay(r1))
            &&& same_elsewhere(m.replay(r), m.replay(r1), set![buf.handle])
        }),
{
    broadcast use group_replay;
    lemma_byte_size::<T>(buf.capacity as int);
    assert(buf.capacity * (T::words_each() as int) >= 0) by (nonlinear_arith)
        requires
            buf.capacity >= 0,
            T::words_each() >= 0,
    ;
}

/// An upload replaces exactly the uploaded elements, and nothing else.
pub proof fn upload_replaces_range<T: GpuElement>(
    m: GpuMemory,
    r: Recording,
    buf: GlBuffer<T>,
    data: Seq<T>,
    offset: int,
)
    requires
        replayable(r),
        r.payload.len() + all_words(data).len() <= usize::MAX,
        backed(buf, m.replay(r)),
        0 <= offset,
        offset + data.len() <= buf.capacity,
    ensures
        ({
            let r1 = buf.rec_upload(r, all_words(data), offset);
            &&& replayable(r1)
            &&& backed(buf, m.replay(r1))
            &&& m.replay(r1).buffers[buf.handle] == splice(
                m.replay(r).buffers[buf.handle],
                offset * T::words_each(),
                all_words(data),
            )
            &&& same_elsewhere(m.replay(r), m.replay(r1), set![buf.handle])
        }),
{
    broadcast use group_replay;
    let words = all_words(data);
    let each = T::words_each() as int;
    lemma_byte_size::<T>(offset);
    lemma_byte_size::<T>(buf.capacity as int);
    lemma_all_words_len(data);
    assert(offset * each + data.len() * each <= buf.capacity * each && offset * each >= 0)
        by (nonlinear_arith)
        requires
            offset + data.len() <= buf.capacity,
            0 <= offset,
            each >= 0,
    ;
    assert(r.data(words).payload.subrange(
        r.payload.len() as int,
        (r.payload.len() + words.len()) as int,
    ) =~= words);
}

/// A buffer made from data holds exactly the data.
pub proof fn data_buffer_holds_its_data<T: GpuElement>(
    m: GpuMemory,
    r: Recording,
    data: Seq<T>,
    usage: BufferUsage,
)
    requires
        replayable(r),
        r.payload.len() + all_words(data).len() <= usize::MAX,
        0 <= r.next_id <= u32::MAX,
    ensures
        ({
            let r1 = GlBuffer::<T>::rec_from_data(r, all_words(data), usage);
            let handle = r.next_id as u32;
            &&& replayable(r1)
            &&& m.replay(r1).buffers.contains_key(handle)
            &&& m.replay(r1).buffers[handle] == all_words(data)
            &&& same_elsewhere(m.replay(r), m.replay(r1), set![handle])
        }),
{
    broadcast use group_replay;
    let words = all_words(data);
    let r0 = r.create(ObjectKind::Buffer).data(words);
    assert(r0.payload.subrange(r.payload.len() as int, (r.payload.len() + words.len()) as int)
        =~= words);
}

/// A mapped upload writes what an upload of the same data writes, with or
/// without an explicit flush.
pub proof fn mapped_uploads_are_uploads<T: GpuElement>(
    m: GpuMemory,
    r: Recording,
    buf: GlBuffer<T>,
    data: Seq<T>,
    offset: int,
    access: u32,
    flushed: i32,
)
    requires
        replayable(r),
        r.payload.len() + all_words(data).len() <= usize::MAX,
    ensures
        ({
            let words = all_words(data);
            let mapped = buf.rec_map(r, words, offset, data.len() as int, access);
            let uploaded = m.replay(buf.rec_upload(r, words, offset)).buffers;
            &&& m.replay(GlBuffer::<T>::rec_unmap(mapped)).buffers == uploaded
            &&& m.replay(
                GlBuffer::<T>::rec_unmap(
                    mapped.call(
                        GlCall::FlushMappedRange {
                            target: ARRAY_BUFFER,
                            offset: 0,
                            length: flushed,
                        },
                    ),
                ),
            ).buffers == uploaded
        }),
{
    broadcast use group_replay;
}

/// Growing a buffer keeps everything that it held, in a new object of the new
/// size; the old object is gone and every other buffer is as it was.
pub proof fn grow_preserves_contents<T: GpuElement>(
    m: GpuMemory,
    r: Recording,
    buf: GlBuffer<T>,
    larger: GlBuffer<T>,
    usage: BufferUsage,
)
    requires
        replayable(r),
        backed(buf, m.replay(r)),
        buf.handle != larger.handle,
        larger.handle == r.next_id,
        larger.capacity > buf.capacity,
        larger.byte_size() <= i32::MAX,
    ensures
        ({
            let r1 = buf.rec_grow(r, larger.capacity as int, usage);
            let held = m.replay(r).buffers[buf.handle];
            &&& replayable(r1)
            &&& backed(larger, m.replay(r1))
            &&& m.replay(r1).buffers[larger.handle].take(held.len() as int) == held
            &&& !m.replay(r1).buffers.contains_key(buf.handle)
            &&& same_elsewhere(m.replay(r), m.replay(r1), set![buf.handle, larger.handle])
        }),
{
    broadcast use group_replay;
    let each = T::words_each() as int;
    let cap = buf.capacity as int;
    let new_cap = larger.capacity as int;
    let m0 = m.replay(r);
    let held = m0.buffers[buf.handle];
    lemma_byte_size::<T>(cap);
    lemma_byte_size::<T>(new_cap);
    assert(0 <= cap * each <= new_cap * each) by (nonlinear_arith)
        requires
            0 <= cap <= new_cap,
            each >= 0,
    ;
    new_buffer_is_backed(m, r, larger, usage);
    let r1 = GlBuffer::<T>::rec_new(r, new_cap, usage);
    let m1 = m.replay(r1);
    assert(m1.buffers.contains_key(buf.handle));
    assert(m1.buffers[buf.handle] == held);
    let r2 = r1.bind_buffer(COPY_READ_BUFFER, Some(buf.handle)).bind_buffer(
        COPY_WRITE_BUFFER,
        Some(larger.handle),
    );
    let m2 = m.replay(r2);
    assert(m2.buffers == m1.buffers);
    assert(m2.at(COPY_READ_BUFFER) == Some(buf.handle));
    assert(m2.at(COPY_WRITE_BUFFER) == Some(larger.handle));
    let m3 = m2.copy(COPY_READ_BUFFER, COPY_WRITE_BUFFER, 0, 0, buf.byte_size());
    assert(held.subrange(0, held.len() as int) =~= held);
    assert(m3.buffers[larger.handle].take(held.len() as int) =~= held);
}

/// The words of the arena's vertices, as the GPU holds them.
pub open spec fn arena_vertices(arena: GpuArena, m: GpuMemory) -> Seq<u32> {
    m.buffers[arena.vertex_buf.handle].take(5 * arena.next_vertex)
}

/// The indices of the arena, as the GPU holds them.
pub open spec fn arena_indices(arena: GpuArena, m: GpuMemory) -> Seq<u32> {
    m.buffers[arena.index_buf.handle].take(arena.next_index as int)
}

/// Whether `m` holds the buffers of the arena.
pub open spec fn arena_backed(arena: GpuArena, m: GpuMemory) -> bool {
    &&& arena.wf()
    &&& backed(arena.vertex_buf, m)
    &&& backed(arena.index_buf, m)
}

/// Making room in a buffer keeps what it held.
pub proof fn lemma_room_preserves<T: GpuElement>(
    m: GpuMemory,
    r: Recording,
    buf: GlBuffer<T>,
    required: int,
    usage: BufferUsage,
)
    requires
        replayable(r),
        buf.wf(),
        room_exists(buf, required),
        backed(buf, m.replay(r)),
        buf.handle < r.next_id < u32::MAX,
        grown(buf.capacity as int, required) * element_size::<T>() <= i32::MAX,
        grown(buf.capacity as int, required) <= usize::MAX,
        0 <= required,
    ensures
        ({
            let r1 = rec_roomy(buf, r, required, usage);
            let after = roomy(buf, r, required);
            let held = m.replay(r).buffers[buf.handle];
            &&& replayable(r1)
            &&& backed(after, m.replay(r1))
            &&& after.capacity == grown(buf.capacity as int, required)
            &&& after.wf()
            &&& after.handle < r1.next_id
            &&& r.next_id <= r1.next_id <= r.next_id + 1
            &&& r1.payload == r.payload
            &&& after.handle == buf.handle || after.handle == r.next_id
            &&& held.len() <= m.replay(r1).buffers[after.handle].len()
            &&& m.replay(r1).buffers[after.handle].take(held.len() as int) == held
            &&& same_elsewhere(m.replay(r), m.replay(r1), set![buf.handle, after.handle])
        }),
{
    let held = m.replay(r).buffers[buf.handle];
    if required > buf.capacity {
        let larger = roomy(buf, r, required);
        grow_preserves_contents(m, r, buf, larger, usage);
        let r1 = buf.rec_grow(r, larger.capacity as int, usage);
        assert(backed(larger, m.replay(r1)));
        assert(buf.byte_size() <= larger.byte_size()) by (nonlinear_arith)
            requires
                buf.byte_size() == buf.capacity * element_size::<T>(),
                larger.byte_size() == larger.capacity * element_size::<T>(),
                buf.capacity <= larger.capacity,
                element_size::<T>() >= 0,
        ;
    } else {
        assert(held.take(held.len() as int) =~= held);
    }
}

/// Pushing a mesh appends its vertices and its indices to what the arena holds:
/// nothing that was pushed before is disturbed, even when a buffer has to grow.
pub proof fn push_mesh_appends(
    m: GpuMemory,
    r: Recording,
    arena: GpuArena,
    vertices: Seq<PackedVertex>,
    indices: Seq<u32>,
)
    requires
        replayable(r),
        r.payload.len() + 5 * vertices.len() + indices.len() <= usize::MAX,
        r.next_id + 1 < u32::MAX,
        arena_backed(arena, m.replay(r)),
        arena.vertex_buf.handle < r.next_id,
        arena.index_buf.handle < r.next_id,
        arena.has_room(vertices.len(), indices.len()),
        grown(arena.vertex_buf.capacity as int, arena.next_vertex + vertices.len()) * 20
            <= i32::MAX,
        grown(arena.index_buf.capacity as int, arena.next_index + indices.len()) * 4 <= i32::MAX,
    ensures
        ({
            let r1 = arena.rec_push(r, vertices, indices);
            let after = arena.pushed(r, vertices.len(), indices.len());
            &&& replayable(r1)
            &&& arena_backed(after, m.replay(r1))
            &&& after.vertex_buf.handle < r1.next_id
            &&& after.index_buf.handle < r1.next_id
            &&& arena_vertices(after, m.replay(r1)) == arena_vertices(arena, m.replay(r))
                + all_words(vertices)
            &&& arena_indices(after, m.replay(r1)) == arena_indices(arena, m.replay(r))
                + all_words(indices)
        }),
{
    let nv = vertices.len();
    let ni = indices.len();
    let v = arena.vertex_buf;
    let x = arena.index_buf;
    let after = arena.pushed(r, nv, ni);
    let usage = BufferUsage::DynamicDraw;
    lemma_all_words_len(vertices);
    lemma_all_words_len(indices);
    let m0 = m.replay(r);

    lemma_room_preserves(m, r, v, arena.next_vertex + nv, usage);
    let r1 = rec_roomy(v, r, arena.next_vertex + nv, usage);
    let m1 = m.replay(r1);
    assert(m1.buffers.contains_key(x.handle));
    assert(m1.buffers[x.handle] == m0.buffers[x.handle]);
    assert(backed(x, m1));

    lemma_room_preserves(m, r1, x, arena.next_index + ni, usage);
    let r2 = rec_roomy(x, r1, arena.next_index + ni, usage);
    let m2 = m.replay(r2);
    assert(m2.buffers.contains_key(after.vertex_buf.handle));
    assert(m2.buffers[after.vertex_buf.handle] == m1.buffers[after.vertex_buf.handle]);

    upload_replaces_range(m, r2, after.vertex_buf, vertices, arena.next_vertex as int);
    let r3 = after.vertex_buf.rec_upload(r2, all_words(vertices), arena.next_vertex as int);
    let m3 = m.replay(r3);
    assert(m3.buffers.contains_key(after.index_buf.handle));
    assert(m3.buffers[after.index_buf.handle] == m2.buffers[after.index_buf.handle]);

    upload_replaces_range(m, r3, after.index_buf, indices, arena.next_index as int);
    let r4 = after.index_buf.rec_upload(r3, all_words(indices), arena.next_index as int);
    let m4 = m.replay(r4);
    assert(m4.buffers.contains_key(after.vertex_buf.handle));
    assert(m4.buffers[after.vertex_buf.handle] == m3.buffers[after.vertex_buf.handle]);
    assert(r4 == arena.rec_push(r, vertices, indices));

    let held_v = m0.buffers[v.handle];
    let held_x = m0.buffers[x.handle];
    let kept_v = m2.buffers[after.vertex_buf.handle];
    let kept_x = m3.buffers[after.index_buf.handle];
    assert(kept_v.take(held_v.len() as int) == held_v);
    assert(kept_x.take(held_x.len() as int) == held_x);
    assert(kept_v.take(5 * arena.next_vertex) =~= held_v.take(5 * arena.next_vertex)) by {
        assert forall|i: int| 0 <= i < 5 * arena.next_vertex implies kept_v[i] == held_v[i] by {
            assert(kept_v.take(held_v.len() as int)[i] == held_v[i]);
        }
    }
    assert(kept_x.take(arena.next_index as int) =~= held_x.take(arena.next_index as int)) by {
        assert forall|i: int| 0 <= i < arena.next_index implies kept_x[i] == held_x[i] by {
            assert(kept_x.take(held_x.len() as int)[i] == held_x[i]);
        }
    }
    assert(arena_vertices(after, m4) =~= arena_vertices(arena, m0) + all_words(vertices));
    assert(arena_indices(after, m4) =~= arena_indices(arena, m0) + all_words(indices));
}

/// The words of one mesh's vertices, as the GPU holds them.
pub open spec fn mesh_vertices(alloc: MeshAlloc, arena: GpuArena, m: GpuMemory) -> Seq<u32> {
    arena_vertices(arena, m).subrange(
        5 * alloc.vertex_offset,
        5 * (alloc.vertex_offset + alloc.vertex_count),
    )
}

/// The indices of one mesh, as the GPU holds them.
pub open spec fn mesh_indices(alloc: MeshAlloc, arena: GpuArena, m: GpuMemory) -> Seq<u32> {
    arena_indices(arena, m).subrange(
        alloc.index_offset as int,
        alloc.index_offset + alloc.index_count,
    )
}

/// Whether the ranges of an allocation lie in the part of the arena that is in
/// use.
pub open spec fn allocated_in(alloc: MeshAlloc, arena: GpuArena) -> bool {
    &&& alloc.vertex_offset + alloc.vertex_count <= arena.next_vertex
    &&& alloc.index_offset + alloc.index_count <= arena.next_index
}

/// A pushed mesh can be read back from the ranges of its allocation, and every
/// mesh that was allocated earlier still reads as it did.
pub proof fn pushed_mesh_reads_back(
    m: GpuMemory,
    r: Recording,
    arena: GpuArena,
    vertices: Seq<PackedVertex>,
    indices: Seq<u32>,
    earlier: MeshAlloc,
)
    requires
        replayable(r),
        r.payload.len() + 5 * vertices.len() + indices.len() <= usize::MAX,
        r.next_id + 1 < u32::MAX,
        arena_backed(arena, m.replay(r)),
        arena.vertex_buf.handle < r.next_id,
        arena.index_buf.handle < r.next_id,
        arena.has_room(vertices.len(), indices.len()),
        grown(arena.vertex_buf.capacity as int, arena.next_vertex + vertices.len()) * 20
            <= i32::MAX,
        grown(arena.index_buf.capacity as int, arena.next_index + indices.len()) * 4 <= i32::MAX,
        allocated_in(earlier, arena),
    ensures
        ({
            let after = arena.pushed(r, vertices.len(), indices.len());
            let m0 = m.replay(r);
            let m1 = m.replay(arena.rec_push(r, vertices, indices));
            let alloc = arena.next_alloc(vertices.len(), indices.len());
            &&& allocated_in(alloc, after)
            &&& mesh_vertices(alloc, after, m1) == all_words(vertices)
            &&& mesh_indices(alloc, after, m1) == all_words(indices)
            &&& allocated_in(earlier, after)
            &&& mesh_vertices(earlier, after, m1) == mesh_vertices(earlier, arena, m0)
            &&& mesh_indices(earlier, after, m1) == mesh_indices(earlier, arena, m0)
        }),
{
    push_mesh_appends(m, r, arena, vertices, indices);
    lemma_all_words_len(vertices);
    lemma_all_words_len(indices);
    let after = arena.pushed(r, vertices.len(), indices.len());
    let m0 = m.replay(r);
    let m1 = m.replay(arena.rec_push(r, vertices, indices));
    let alloc = arena.next_alloc(vertices.len(), indices.len());
    assert(mesh_vertices(alloc, after, m1) =~= all_words(vertices));
    assert(mesh_indices(alloc, after, m1) =~= all_words(indices));
    assert(mesh_vertices(earlier, after, m1) =~= mesh_vertices(earlier, arena, m0));
    assert(mesh_indices(earlier, after, m1) =~= mesh_indices(earlier, arena, m0));
}

} // verus!
