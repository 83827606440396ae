//! Typed GL buffers.

use crate::element::{all_words, flatten, GpuElement};
use crate::gl::{
    CommandList, GlCall, ObjectKind, Recording, ARRAY_BUFFER, COPY_READ_BUFFER, COPY_WRITE_BUFFER,
    DRAW_INDIRECT_BUFFER, DYNAMIC_DRAW, ELEMENT_ARRAY_BUFFER, MAP_FLUSH_EXPLICIT_BIT,
    MAP_INVALIDATE_RANGE_BIT, MAP_WRITE_BIT, SHADER_STORAGE_BUFFER, STATIC_DRAW, STREAM_DRAW,
};
use std::marker::PhantomData;
use vstd::prelude::*;

verus! {

/// Target for the buffer binding point.
#[derive(Clone, Copy, Debug, PartialEq, Eq, Structural)]
pub enum BufferTarget {
    ShaderStorage,
    ElementArray,
    DrawIndirect,
}

impl BufferTarget {
    /// The GL name of the target.
    pub fn gl_target(self) -> (target: u32)
        ensures
            target == (match self {
                BufferTarget::ShaderStorage => SHADER_STORAGE_BUFFER,
                BufferTarget::ElementArray => ELEMENT_ARRAY_BUFFER,
                BufferTarget::DrawIndirect => DRAW_INDIRECT_BUFFER,
            }),
    {
        match self {
            BufferTarget::ShaderStorage => SHADER_STORAGE_BUFFER,
            BufferTarget::ElementArray => ELEMENT_ARRAY_BUFFER,
            BufferTarget::DrawIndirect => DRAW_INDIRECT_BUFFER,
        }
    }
}

/// Usage hint for the GPU driver.
#[derive(Clone, Copy, Debug, PartialEq, Eq, Structural)]
pub enum BufferUsage {
    StaticDraw,
    DynamicDraw,
    StreamDraw,
}

impl BufferUsage {
    pub open spec fn hint(self) -> u32 {
        match self {
            BufferUsage::StaticDraw => STATIC_DRAW,
            BufferUsage::DynamicDraw => DYNAMIC_DRAW,
            BufferUsage::StreamDraw => STREAM_DRAW,
        }
    }

    /// The GL name of the hint.
    pub fn gl_usage(self) -> (usage: u32)
        ensures
            usage == self.hint(),
    {
        match self {
            BufferUsage::StaticDraw => STATIC_DRAW,
            BufferUsage::DynamicDraw => DYNAMIC_DRAW,
            BufferUsage::StreamDraw => STREAM_DRAW,
        }
    }
}

/// The size in bytes of one element.
pub open spec fn element_size<T: GpuElement>() -> int {
    4 * (T::words_each() as int)
}

/// A typed OpenGL buffer. `T` is the element type; the buffer stores `capacity`
/// elements.
pub struct GlBuffer<T: GpuElement> {
    pub handle: u32,
    pub capacity: usize,
    pub marker: PhantomData<T>,
}

impl<T: GpuElement> GlBuffer<T> {
    /// The size of the buffer in bytes.
    pub open spec fn byte_size(self) -> int {
        self.capacity * element_size::<T>()
    }

    /// Sizes and offsets within the buffer can be computed.
    pub open spec fn wf(self) -> bool {
        self.byte_size() <= usize::MAX
    }

    /// Allocation of an empty buffer.
    pub open spec fn rec_new(r: Recording, capacity: int, usage: BufferUsage) -> Recording {
        r.create(ObjectKind::Buffer).bind_buffer(ARRAY_BUFFER, Some(r.next_id as u32)).call(
            GlCall::BufferDataSize {
                target: ARRAY_BUFFER,
                size: (capacity * element_size::<T>()) as i32,
                usage: usage.hint(),
            },
        ).bind_buffer(ARRAY_BUFFER, None)
    }

    /// Allocation of a buffer that holds `words`.
    pub open spec fn rec_from_data(r: Recording, words: Seq<u32>, usage: BufferUsage) -> Recording {
        r.create(ObjectKind::Buffer).data(words).bind_buffer(
            ARRAY_BUFFER,
            Some(r.next_id as u32),
        ).call(
            GlCall::BufferData {
                target: ARRAY_BUFFER,
                start: r.payload.len() as usize,
                count: words.len() as usize,
                usage: usage.hint(),
            },
        ).bind_buffer(ARRAY_BUFFER, None)
    }

    /// Upload of `words` to the element at `offset`.
    pub open spec fn rec_upload(self, r: Recording, words: Seq<u32>, offset: int) -> Recording {
        r.data(words).bind_buffer(ARRAY_BUFFER, Some(self.handle)).call(
            GlCall::BufferSubData {
                target: ARRAY_BUFFER,
                offset: (offset * element_size::<T>()) as i32,
                start: r.payload.len() as usize,
                count: words.len() as usize,
            },
        ).bind_buffer(ARRAY_BUFFER, None)
    }

    /// Mapping of the elements from `offset` on, and writing `words` to them.
    pub open spec fn rec_map(
        self,
        r: Recording,
        words: Seq<u32>,
        offset: int,
        count: int,
        access: u32,
    ) -> Recording {
        r.data(words).bind_buffer(ARRAY_BUFFER, Some(self.handle)).call(
            GlCall::MapAndWrite {
                target: ARRAY_BUFFER,
                offset: (offset * element_size::<T>()) as i32,
                length: (count * element_size::<T>()) as i32,
                access,
                start: r.payload.len() as usize,
                count: words.len() as usize,
            },
        )
    }

    /// The end of a mapping.
    pub open spec fn rec_unmap(r: Recording) -> Recording {
        r.call(GlCall::UnmapBuffer { target: ARRAY_BUFFER }).bind_buffer(ARRAY_BUFFER, None)
    }

    /// Replacement of the buffer by a larger one with the same contents.
    pub open spec fn rec_grow(self, r: Recording, capacity: int, usage: BufferUsage) -> Recording {
        Self::rec_new(r, capacity, usage).bind_buffer(
            COPY_READ_BUFFER,
            Some(self.handle),
        ).bind_buffer(COPY_WRITE_BUFFER, Some(r.next_id as u32)).call(
            GlCall::CopyBufferSubData {
                src: COPY_READ_BUFFER,
                dst: COPY_WRITE_BUFFER,
                src_offset: 0,
                dst_offset: 0,
                size: self.byte_size() as i32,
            },
        ).bind_buffer(COPY_READ_BUFFER, None).bind_buffer(COPY_WRITE_BUFFER, None).call(
            GlCall::Delete { kind: ObjectKind::Buffer, id: self.handle },
        )
    }

    /// Binding as a shader storage buffer.
    pub open spec fn rec_ssbo(self, r: Recording, index: u32) -> Recording {
        r.call(
            GlCall::BindBufferBase { target: SHADER_STORAGE_BUFFER, index, buffer: self.handle },
        )
    }

    /// Deletion of the buffer.
    pub open spec fn rec_cleanup(self, r: Recording) -> Recording {
        r.call(GlCall::Delete { kind: ObjectKind::Buffer, id: self.handle })
    }

    /// Allocate an empty buffer with `capacity` elements (no data uploaded).
    pub fn new(gl: &mut CommandList, capacity: usize, usage: BufferUsage) -> (buf: Self)
        requires
            old(gl)@.next_id < u32::MAX,
            capacity * element_size::<T>() <= usize::MAX,
        ensures
            buf.handle == old(gl)@.next_id,
            buf.capacity == capacity,
            buf.wf(),
            final(gl)@ == Self::rec_new(old(gl)@, capacity as int, usage),
    {
        let handle = gl.create(ObjectKind::Buffer);
        let byte_size = capacity * (4 * T::word_count());
        gl.bind_buffer(ARRAY_BUFFER, Some(handle));
        gl.call(
            GlCall::BufferDataSize {
                target: ARRAY_BUFFER,
                size: #[verifier::truncate] (byte_size as i32),
                usage: usage.gl_usage(),
            },
        );
        gl.bind_buffer(ARRAY_BUFFER, None);
        GlBuffer { handle, capacity, marker: PhantomData }
    }

    /// Create a buffer and upload `data` in one call.
    pub fn from_data(gl: &mut CommandList, data: &[T], usage: BufferUsage) -> (buf: Self)
        requires
            old(gl)@.next_id < u32::MAX,
            data@.len() * element_size::<T>() <= usize::MAX,
        ensures
            buf.handle == old(gl)@.next_id,
            buf.capacity == data@.len(),
            buf.wf(),
            final(gl)@ == Self::rec_from_data(old(gl)@, all_words(data@), usage),
    {
        let words = flatten(data);
        let handle = gl.create(ObjectKind::Buffer);
        let start = gl.push_words(words.as_slice());
        gl.bind_buffer(ARRAY_BUFFER, Some(handle));
        gl.call(
            GlCall::BufferData {
                target: ARRAY_BUFFER,
                start,
                count: words.len(),
                usage: usage.gl_usage(),
            },
        );
        gl.bind_buffer(ARRAY_BUFFER, None);
        GlBuffer { handle, capacity: data.len(), marker: PhantomData }
    }

    /// Upload a subrange starting at `element_offset`.
    pub fn upload_subrange(&self, gl: &mut CommandList, data: &[T], element_offset: usize)
        requires
            self.wf(),
            element_offset + data@.len() <= self.capacity,
        ensures
            final(gl)@ == self.rec_upload(old(gl)@, all_words(data@), element_offset as int),
    {
        let size = 4 * T::word_count();
        assert(element_offset * size <= self.capacity * size) by (nonlinear_arith)
            requires
                element_offset <= self.capacity,
                size >= 0,
        ;
        let byte_offset = #[verifier::truncate] ((element_offset * size) as i32);
        let words = flatten(data);
        let start = gl.push_words(words.as_slice());
        gl.bind_buffer(ARRAY_BUFFER, Some(self.handle));
        gl.call(
            GlCall::BufferSubData {
                target: ARRAY_BUFFER,
                offset: byte_offset,
                start,
                count: words.len(),
            },
        );
        gl.bind_buffer(ARRAY_BUFFER, None);
    }

    /// Map the elements from `element_offset` on for writing, write `data` to
    /// them, then unmap. What the range held before is thrown away.
    pub fn mapped_upload(&self, gl: &mut CommandList, element_offset: usize, data: &[T])
        requires
            self.wf(),
            element_offset + data@.len() <= self.capacity,
        ensures
            final(gl)@ == Self::rec_unmap(
                self.rec_map(
                    old(gl)@,
                    all_words(data@),
                    element_offset as int,
                    data@.len() as int,
                    MAP_WRITE_BIT | MAP_INVALIDATE_RANGE_BIT,
                ),
            ),
    {
        self.map_and_write(gl, element_offset, data, MAP_WRITE_BIT | MAP_INVALIDATE_RANGE_BIT);
        gl.call(GlCall::UnmapBuffer { target: ARRAY_BUFFER });
        gl.bind_buffer(ARRAY_BUFFER, None);
    }

    /// Map with explicit flushing, write `data`, flush the range, then unmap.
    pub fn mapped_upload_explicit_flush(
        &self,
        gl: &mut CommandList,
        element_offset: usize,
        data: &[T],
    )
        requires
            self.wf(),
            element_offset + data@.len() <= self.capacity,
        ensures
            final(gl)@ == Self::rec_unmap(
                self.rec_map(
                    old(gl)@,
                    all_words(data@),
                    element_offset as int,
                    data@.len() as int,
                    MAP_WRITE_BIT | MAP_INVALIDATE_RANGE_BIT | MAP_FLUSH_EXPLICIT_BIT,
                ).call(
                    GlCall::FlushMappedRange {
                        target: ARRAY_BUFFER,
                        offset: 0,
                        length: (data@.len() * element_size::<T>()) as i32,
                    },
                ),
            ),
    {
        let length = self.map_and_write(
            gl,
            element_offset,
            data,
            MAP_WRITE_BIT | MAP_INVALIDATE_RANGE_BIT | MAP_FLUSH_EXPLICIT_BIT,
        );
        gl.call(GlCall::FlushMappedRange { target: ARRAY_BUFFER, offset: 0, length });
        gl.call(GlCall::UnmapBuffer { target: ARRAY_BUFFER });
        gl.bind_buffer(ARRAY_BUFFER, None);
    }

    /// Map the elements from `element_offset` on and write `data` to them;
    /// returns the number of mapped bytes.
    fn map_and_write(
        &self,
        gl: &mut CommandList,
        element_offset: usize,
        data: &[T],
        access: u32,
    ) -> (length: i32)
        requires
            self.wf(),
            element_offset + data@.len() <= self.capacity,
        ensures
            length == (data@.len() * element_size::<T>()) as i32,
            final(gl)@ == self.rec_map(
                old(gl)@,
                all_words(data@),
                element_offset as int,
                data@.len() as int,
                access,
            ),
    {
        let size = 4 * T::word_count();
        let count = data.len();
        assert(element_offset * size <= self.capacity * size && count * size <= self.capacity
            * size) by (nonlinear_arith)
            requires
                element_offset <= self.capacity,
                count <= self.capacity,
                size >= 0,
        ;
        let byte_offset = #[verifier::truncate] ((element_offset * size) as i32);
        let byte_length = #[verifier::truncate] ((count * size) as i32);
        let words = flatten(data);
        let start = gl.push_words(words.as_slice());
        gl.bind_buffer(ARRAY_BUFFER, Some(self.handle));
        gl.call(
            GlCall::MapAndWrite {
                target: ARRAY_BUFFER,
                offset: byte_offset,
                length: byte_length,
                access,
                start,
                count: words.len(),
            },
        );
        byte_length
    }

    /// Bind as a Shader Storage Buffer at `binding_index`.
    pub fn bind_as_ssbo(&self, gl: &mut CommandList, binding_index: u32)
        ensures
            final(gl)@ == self.rec_ssbo(old(gl)@, binding_index),
    {
        gl.call(
            GlCall::BindBufferBase {
                target: SHADER_STORAGE_BUFFER,
                index: binding_index,
                buffer: self.handle,
            },
        );
    }

    /// Bind as an Element Array Buffer (index buffer).
    pub fn bind_as_ibo(&self, gl: &mut CommandList)
        ensures
            final(gl)@ == old(gl)@.bind_buffer(ELEMENT_ARRAY_BUFFER, Some(self.handle)),
    {
        gl.bind_buffer(ELEMENT_ARRAY_BUFFER, Some(self.handle));
    }

    /// Bind as the Draw Indirect Buffer (source of `DrawCommand`s).
    pub fn bind_as_indirect(&self, gl: &mut CommandList)
        ensures
            final(gl)@ == old(gl)@.bind_buffer(DRAW_INDIRECT_BUFFER, Some(self.handle)),
    {
        gl.bind_buffer(DRAW_INDIRECT_BUFFER, Some(self.handle));
    }

    /// Unbind the element array buffer.
    pub fn unbind_ibo(gl: &mut CommandList)
        ensures
            final(gl)@ == old(gl)@.bind_buffer(ELEMENT_ARRAY_BUFFER, None),
    {
        gl.bind_buffer(ELEMENT_ARRAY_BUFFER, None);
    }

    /// Unbind the draw indirect buffer.
    pub fn unbind_indirect(gl: &mut CommandList)
        ensures
            final(gl)@ == old(gl)@.bind_buffer(DRAW_INDIRECT_BUFFER, None),
    {
        gl.bind_buffer(DRAW_INDIRECT_BUFFER, None);
    }

    /// Reallocate to `new_capacity` elements, preserving existing data via a
    /// GPU-side copy. The old GL buffer is deleted; `self` is updated in place.
    pub fn grow(&mut self, gl: &mut CommandList, new_capacity: usize, usage: BufferUsage)
        requires
            old(self).wf(),
            old(gl)@.next_id < u32::MAX,
            new_capacity > old(self).capacity,
            new_capacity * element_size::<T>() <= usize::MAX,
        ensures
            final(self).handle == old(gl)@.next_id,
            final(self).capacity == new_capacity,
            final(self).wf(),
            final(gl)@ == old(self).rec_grow(old(gl)@, new_capacity as int, usage),
    {
        let old_byte_size = #[verifier::truncate] ((self.capacity * (4 * T::word_count())) as i32);
        let larger = GlBuffer::<T>::new(gl, new_capacity, usage);
        gl.bind_buffer(COPY_READ_BUFFER, Some(self.handle));
        gl.bind_buffer(COPY_WRITE_BUFFER, Some(larger.handle));
        gl.call(
            GlCall::CopyBufferSubData {
                src: COPY_READ_BUFFER,
                dst: COPY_WRITE_BUFFER,
                src_offset: 0,
                dst_offset: 0,
                size: old_byte_size,
            },
        );
        gl.bind_buffer(COPY_READ_BUFFER, None);
        gl.bind_buffer(COPY_WRITE_BUFFER, None);
        gl.call(GlCall::Delete { kind: ObjectKind::Buffer, id: self.handle });
        self.handle = larger.handle;
        self.capacity = new_capacity;
    }

    /// Delete the underlying GL buffer.
    pub fn cleanup(&self, gl: &mut CommandList)
        ensures
            final(gl)@ == self.rec_cleanup(old(gl)@),
    {
        gl.call(GlCall::Delete { kind: ObjectKind::Buffer, id: self.handle });
    }

    /// The size of the buffer in bytes.
    pub fn byte_capacity(&self) -> (n: usize)
        requires
            self.wf(),
        ensures
            n == self.byte_size(),
    {
        self.capacity * (4 * T::word_count())
    }
}

} // verus!
