//! The shared GPU arena: one vertex buffer and one index buffer that every mesh
//! is sub-allocated from.

use crate::element::{all_words, GpuElement};
use crate::gl::{CommandList, Recording, ELEMENT_ARRAY_BUFFER};
use crate::gl_buffer::{element_size, BufferUsage, GlBuffer};
use vstd::prelude::*;

verus! {

/// A packed vertex: position, normal and UV as half-precision floats, two in
/// each word.
/// Layout: [pos_xy, pos_z, norm_xy, norm_z, uv_xy], 20 bytes per vertex.
#[derive(Clone, Copy, Debug, PartialEq, Eq, Structural)]
pub struct PackedVertex {
    pub pos_xy: u32,
    pub pos_z: u32,
    pub norm_xy: u32,
    pub norm_z: u32,
    pub uv_xy: u32,
}

/// Two 16-bit patterns in one word, the first in the low half.
pub open spec fn packed(a: u16, b: u16) -> u32 {
    (a + 0x1_0000 * b) as u32
}

/// The half-precision pattern that `unpackHalf2x16` takes its first component
/// from.
pub open spec fn low_half(word: u32) -> u16 {
    (word % 0x1_0000) as u16
}

/// The half-precision pattern that `unpackHalf2x16` takes its second component
/// from.
pub open spec fn high_half(word: u32) -> u16 {
    (word / 0x1_0000) as u16
}

/// Unpacking a packed word gives back both halves.
pub proof fn unpack_inverts_pack(a: u16, b: u16)
    ensures
        low_half(packed(a, b)) == a,
        high_half(packed(a, b)) == b,
{
}

/// Packing the two halves of a word gives back the word: every word is the
/// packing of exactly one pair.
pub proof fn pack_inverts_unpack(word: u32)
    ensures
        packed(low_half(word), high_half(word)) == word,
{
}

/// Mirror of `packHalf2x16` on half-precision bit patterns: `a` into the low 16
/// bits of the result and `b` into the high 16 bits.
pub fn pack_half2(a: u16, b: u16) -> (word: u32)
    ensures
        word == packed(a, b),
{
    let lo = a as u32;
    let hi = b as u32;
    assert(lo | (hi << 16) == lo + 0x1_0000 * hi) by (bit_vector)
        requires
            lo < 0x1_0000,
            hi < 0x1_0000,
    ;
    lo | (hi << 16)
}

impl PackedVertex {
    /// The vertex with the given position, normal and UV.
    pub open spec fn of(pos: Seq<u16>, norm: Seq<u16>, uv: Seq<u16>) -> PackedVertex {
        PackedVertex {
            pos_xy: packed(pos[0], pos[1]),
            pos_z: packed(pos[2], 0),
            norm_xy: packed(norm[0], norm[1]),
            norm_z: packed(norm[2], 0),
            uv_xy: packed(uv[0], uv[1]),
        }
    }

    /// Pack a vertex whose components are given as half-precision bit patterns.
    pub fn new(pos: [u16; 3], norm: [u16; 3], uv: [u16; 2]) -> (v: PackedVertex)
        ensures
            v == PackedVertex::of(pos@, norm@, uv@),
    {
        PackedVertex {
            pos_xy: pack_half2(pos[0], pos[1]),
            pos_z: pack_half2(pos[2], 0),
            norm_xy: pack_half2(norm[0], norm[1]),
            norm_z: pack_half2(norm[2], 0),
            uv_xy: pack_half2(uv[0], uv[1]),
        }
    }
}

/// The vertex shader recovers every component that was packed, each from the
/// place where the vertex layout puts it.
pub proof fn vertex_layout(pos: Seq<u16>, norm: Seq<u16>, uv: Seq<u16>)
    ensures
        ({
            let words = PackedVertex::of(pos, norm, uv).words();
            &&& words.len() == 5
            &&& low_half(words[0]) == pos[0] && high_half(words[0]) == pos[1]
            &&& low_half(words[1]) == pos[2]
            &&& low_half(words[2]) == norm[0] && high_half(words[2]) == norm[1]
            &&& low_half(words[3]) == norm[2]
            &&& low_half(words[4]) == uv[0] && high_half(words[4]) == uv[1]
        }),
{
}

impl GpuElement for PackedVertex {
    open spec fn words_each() -> nat {
        5
    }

    open spec fn words(&self) -> Seq<u32> {
        seq![self.pos_xy, self.pos_z, self.norm_xy, self.norm_z, self.uv_xy]
    }

    proof fn words_len(&self) {
    }

    fn word_count() -> (n: usize) {
        5
    }

    fn append_words(&self, out: &mut Vec<u32>) {
        out.push(self.pos_xy);
        out.push(self.pos_z);
        out.push(self.norm_xy);
        out.push(self.norm_z);
        out.push(self.uv_xy);
        assert(out@ =~= old(out)@ + self.words());
    }
}

/// An allocated mesh range inside the shared arena buffers.
/// Indices are *local* (start from 0); the base vertex offset is applied at draw
/// time.
#[derive(Clone, Copy, Debug, PartialEq, Eq, Structural)]
pub struct MeshAlloc {
    /// First vertex index inside the shared vertex buffer.
    pub vertex_offset: u32,
    /// Number of vertices belonging to this mesh.
    pub vertex_count: u32,
    /// First index inside the shared index buffer.
    pub index_offset: u32,
    /// Number of indices.
    pub index_count: u32,
}

impl MeshAlloc {
    /// The indirect command that draws `instance_count` instances of the mesh.
    pub open spec fn command(self, instance_count: u32, base_instance: u32) -> DrawCommand {
        DrawCommand {
            count: self.index_count,
            instance_count,
            first_index: self.index_offset,
            base_vertex: self.vertex_offset,
            base_instance,
        }
    }

    /// Translate this allocation into a GL indirect draw command for one
    /// instance. `base_instance` is the draw's index into the per-object
    /// instance buffer.
    pub fn draw_command(&self, base_instance: u32) -> (c: DrawCommand)
        ensures
            c == self.command(1, base_instance),
    {
        self.draw_command_instanced(1, base_instance)
    }

    /// Translate this allocation into a GL indirect draw command for
    /// `instance_count` instances.
    pub fn draw_command_instanced(&self, instance_count: u32, base_instance: u32) -> (c:
        DrawCommand)
        ensures
            c == self.command(instance_count, base_instance),
    {
        DrawCommand {
            count: self.index_count,
            instance_count,
            first_index: self.index_offset,
            base_vertex: self.vertex_offset,
            base_instance,
        }
    }
}

/// Mirror of GL's `DrawElementsIndirectCommand` (20 bytes, tightly packed).
#[derive(Clone, Copy, Debug, PartialEq, Eq, Structural)]
pub struct DrawCommand {
    /// Index count for this draw.
    pub count: u32,
    /// Number of instances; the cull pass counts them up from 0.
    pub instance_count: u32,
    /// First index in the shared index buffer (in indices, not bytes).
    pub first_index: u32,
    /// Base vertex offset into the shared vertex buffer.
    pub base_vertex: u32,
    /// Where this draw's instances start in the instance buffer.
    pub base_instance: u32,
}

impl GpuElement for DrawCommand {
    open spec fn words_each() -> nat {
        5
    }

    open spec fn words(&self) -> Seq<u32> {
        seq![
            self.count,
            self.instance_count,
            self.first_index,
            self.base_vertex,
            self.base_instance,
        ]
    }

    proof fn words_len(&self) {
    }

    fn word_count() -> (n: usize) {
        5
    }

    fn append_words(&self, out: &mut Vec<u32>) {
        out.push(self.count);
        out.push(self.instance_count);
        out.push(self.first_index);
        out.push(self.base_vertex);
        out.push(self.base_instance);
        assert(out@ =~= old(out)@ + self.words());
    }
}

/// Per-object data read in the vertex shader. The matrices are column-major and
/// hold the bit patterns of their floats. The normal matrix is a mat3 widened to
/// mat4 so the struct follows the simple std430 mat4 layout; the three padding
/// words that follow the material index are zero.
#[derive(Clone, Copy, Debug)]
pub struct InstanceData {
    pub model: [u32; 16],
    pub normal: [u32; 16],
    pub material_index: u32,
}

fn append_array16(a: &[u32; 16], out: &mut Vec<u32>)
    ensures
        final(out)@ == old(out)@ + a@,
{
    let mut i: usize = 0;
    while i < 16
        invariant
            i <= 16,
            out@ == old(out)@ + a@.take(i as int),
        decreases 16 - i,
    {
        out.push(a[i]);
        assert(out@ =~= old(out)@ + a@.take(i + 1));
        i = i + 1;
    }
    assert(a@.take(16) =~= a@);
}

impl GpuElement for InstanceData {
    open spec fn words_each() -> nat {
        36
    }

    open spec fn words(&self) -> Seq<u32> {
        self.model@ + self.normal@ + seq![self.material_index, 0, 0, 0]
    }

    proof fn words_len(&self) {
    }

    fn word_count() -> (n: usize) {
        36
    }

    fn append_words(&self, out: &mut Vec<u32>) {
        append_array16(&self.model, out);
        append_array16(&self.normal, out);
        out.push(self.material_index);
        out.push(0);
        out.push(0);
        out.push(0);
        assert(out@ =~= old(out)@ + self.words());
    }
}

/// A sphere around a mesh, in the mesh's own space, as float bit patterns.
#[derive(Clone, Copy, Debug, PartialEq, Eq, Structural)]
pub struct BoundingSphere {
    pub x: u32,
    pub y: u32,
    pub z: u32,
    pub radius: u32,
}

impl GpuElement for BoundingSphere {
    open spec fn words_each() -> nat {
        4
    }

    open spec fn words(&self) -> Seq<u32> {
        seq![self.x, self.y, self.z, self.radius]
    }

    proof fn words_len(&self) {
    }

    fn word_count() -> (n: usize) {
        4
    }

    fn append_words(&self, out: &mut Vec<u32>) {
        out.push(self.x);
        out.push(self.y);
        out.push(self.z);
        out.push(self.radius);
        assert(out@ =~= old(out)@ + self.words());
    }
}

/// The larger of the doubled capacity and what is required.
pub open spec fn doubled_or(capacity: int, required: int) -> int {
    if 2 * capacity > required {
        2 * capacity
    } else {
        required
    }
}

/// The capacity of a growing buffer once it holds `required` elements.
pub open spec fn grown(capacity: int, required: int) -> int {
    if required > capacity {
        doubled_or(capacity, required)
    } else {
        capacity
    }
}

/// The buffer after room for `required` elements has been made.
pub open spec fn roomy<T: GpuElement>(buf: GlBuffer<T>, r: Recording, required: int) -> GlBuffer<T> {
    if required > buf.capacity {
        GlBuffer {
            handle: r.next_id as u32,
            capacity: doubled_or(buf.capacity as int, required) as usize,
            marker: buf.marker,
        }
    } else {
        buf
    }
}

/// Making room for `required` elements.
pub open spec fn rec_roomy<T: GpuElement>(
    buf: GlBuffer<T>,
    r: Recording,
    required: int,
    usage: BufferUsage,
) -> Recording {
    if required > buf.capacity {
        buf.rec_grow(r, doubled_or(buf.capacity as int, required), usage)
    } else {
        r
    }
}

/// Whether a buffer can be made to hold `required` elements on this machine.
pub open spec fn room_exists<T: GpuElement>(buf: GlBuffer<T>, required: int) -> bool {
    grown(buf.capacity as int, required) * element_size::<T>() <= usize::MAX
}

/// Whether a buffer can be made to hold `required` elements on this machine.
pub fn can_hold<T: GpuElement>(buf: &GlBuffer<T>, required: usize) -> (yes: bool)
    ensures
        yes == room_exists(*buf, required as int),
{
    let size = T::word_count() as u128 * 4;
    let capacity = if required > buf.capacity {
        if buf.capacity as u128 * 2 > required as u128 {
            buf.capacity as u128 * 2
        } else {
            required as u128
        }
    } else {
        buf.capacity as u128
    };
    assert(capacity == grown(buf.capacity as int, required as int));
    assert(capacity * size <= 2 * usize::MAX * 256) by (nonlinear_arith)
        requires
            capacity <= 2 * usize::MAX,
            size <= 256,
    ;
    capacity * size <= usize::MAX as u128
}

/// Make sure that `buf` holds at least `required` elements: its capacity is at
/// least doubled whenever it has to grow.
pub fn ensure_room<T: GpuElement>(
    buf: &mut GlBuffer<T>,
    gl: &mut CommandList,
    required: usize,
    usage: BufferUsage,
)
    requires
        old(buf).wf(),
        room_exists(*old(buf), required as int),
        old(gl)@.next_id < u32::MAX,
    ensures
        *final(buf) == roomy(*old(buf), old(gl)@, required as int),
        final(buf).wf(),
        final(buf).capacity == grown(old(buf).capacity as int, required as int),
        final(gl)@ == rec_roomy(*old(buf), old(gl)@, required as int, usage),
{
    if required > buf.capacity {
        let size = T::word_count();
        assert(2 * buf.capacity <= usize::MAX) by (nonlinear_arith)
            requires
                doubled_or(buf.capacity as int, required as int) * (4 * size) <= usize::MAX,
                2 * buf.capacity <= doubled_or(buf.capacity as int, required as int),
                size >= 1,
        ;
        let doubled = buf.capacity * 2;
        let new_capacity = if doubled > required {
            doubled
        } else {
            required
        };
        buf.grow(gl, new_capacity, usage);
    }
}

/// Shared GPU arena: one vertex buffer and one index buffer.
/// Meshes are sub-allocated into contiguous ranges.
pub struct GpuArena {
    pub vertex_buf: GlBuffer<PackedVertex>,
    pub index_buf: GlBuffer<u32>,
    pub next_vertex: u32,
    pub next_index: u32,
}

impl GpuArena {
    /// Everything allocated so far lies inside the buffers.
    pub open spec fn wf(self) -> bool {
        &&& self.vertex_buf.wf()
        &&& self.index_buf.wf()
        &&& self.next_vertex <= self.vertex_buf.capacity
        &&& self.next_index <= self.index_buf.capacity
        &&& self.vertex_buf.handle != self.index_buf.handle
    }

    /// Creation of both buffers.
    pub open spec fn rec_new(r: Recording, vertices: int, indices: int) -> Recording {
        GlBuffer::<u32>::rec_new(
            GlBuffer::<PackedVertex>::rec_new(r, vertices, BufferUsage::DynamicDraw),
            indices,
            BufferUsage::DynamicDraw,
        )
    }

    /// Whether a mesh of the given size can be added.
    pub open spec fn has_room(self, vertices: nat, indices: nat) -> bool {
        &&& self.next_vertex + vertices <= u32::MAX
        &&& self.next_index + indices <= u32::MAX
        &&& room_exists(self.vertex_buf, self.next_vertex + vertices)
        &&& room_exists(self.index_buf, self.next_index + indices)
    }

    /// The allocation that a mesh of the given size gets next.
    pub open spec fn next_alloc(self, vertices: nat, indices: nat) -> MeshAlloc {
        MeshAlloc {
            vertex_offset: self.next_vertex,
            vertex_count: vertices as u32,
            index_offset: self.next_index,
            index_count: indices as u32,
        }
    }

    /// The arena after a mesh of the given size has been added.
    pub open spec fn pushed(self, r: Recording, vertices: nat, indices: nat) -> GpuArena {
        let required = self.next_vertex + vertices;
        let r1 = rec_roomy(self.vertex_buf, r, required, BufferUsage::DynamicDraw);
        GpuArena {
            vertex_buf: roomy(self.vertex_buf, r, required),
            index_buf: roomy(self.index_buf, r1, self.next_index + indices),
            next_vertex: (self.next_vertex + vertices) as u32,
            next_index: (self.next_index + indices) as u32,
        }
    }

    /// Making room for a mesh of the given size.
    pub open spec fn rec_room(self, r: Recording, vertices: nat, indices: nat) -> Recording {
        rec_roomy(
            self.index_buf,
            rec_roomy(
                self.vertex_buf,
                r,
                self.next_vertex + vertices,
                BufferUsage::DynamicDraw,
            ),
            self.next_index + indices,
            BufferUsage::DynamicDraw,
        )
    }

    /// Adding a mesh.
    pub open spec fn rec_push(
        self,
        r: Recording,
        vertices: Seq<PackedVertex>,
        indices: Seq<u32>,
    ) -> Recording {
        let after = self.pushed(r, vertices.len(), indices.len());
        let r1 = self.rec_room(r, vertices.len(), indices.len());
        let r2 = after.vertex_buf.rec_upload(r1, all_words(vertices), self.next_vertex as int);
        after.index_buf.rec_upload(r2, all_words(indices), self.next_index as int)
    }

    /// Create the arena with the given initial capacities. Both buffers grow
    /// automatically.
    pub fn new(gl: &mut CommandList, initial_vertices: usize, initial_indices: usize) -> (arena:
        GpuArena)
        requires
            old(gl)@.next_id + 1 < u32::MAX,
            initial_vertices * 20 <= usize::MAX,
            initial_indices * 4 <= usize::MAX,
        ensures
            arena.wf(),
            arena.vertex_buf.handle == old(gl)@.next_id,
            arena.index_buf.handle == old(gl)@.next_id + 1,
            arena.vertex_buf.capacity == initial_vertices,
            arena.index_buf.capacity == initial_indices,
            arena.next_vertex == 0,
            arena.next_index == 0,
            final(gl)@ == GpuArena::rec_new(
                old(gl)@,
                initial_vertices as int,
                initial_indices as int,
            ),
    {
        let vertex_buf = GlBuffer::new(gl, initial_vertices, BufferUsage::DynamicDraw);
        let index_buf = GlBuffer::new(gl, initial_indices, BufferUsage::DynamicDraw);
        GpuArena { vertex_buf, index_buf, next_vertex: 0, next_index: 0 }
    }

    /// Whether a mesh of the given size can be added.
    pub fn fits(&self, vertices: usize, indices: usize) -> (yes: bool)
        ensures
            yes == self.has_room(vertices as nat, indices as nat),
    {
        let v = self.next_vertex as u128 + vertices as u128;
        let i = self.next_index as u128 + indices as u128;
        v <= u32::MAX as u128 && i <= u32::MAX as u128 && can_hold(&self.vertex_buf, v as usize)
            && can_hold(&self.index_buf, i as usize)
    }

    fn ensure_vertex_capacity(&mut self, gl: &mut CommandList, needed: usize)
        requires
            old(self).wf(),
            old(self).next_vertex + needed <= u32::MAX,
            room_exists(old(self).vertex_buf, old(self).next_vertex + needed),
            old(gl)@.next_id < u32::MAX,
        ensures
            final(self).vertex_buf == roomy(
                old(self).vertex_buf,
                old(gl)@,
                old(self).next_vertex + needed,
            ),
            final(self).vertex_buf.wf(),
            final(self).index_buf == old(self).index_buf,
            final(self).next_vertex == old(self).next_vertex,
            final(self).next_index == old(self).next_index,
            final(gl)@ == rec_roomy(
                old(self).vertex_buf,
                old(gl)@,
                old(self).next_vertex + needed,
                BufferUsage::DynamicDraw,
            ),
    {
        let required = self.next_vertex as usize + needed;
        ensure_room(&mut self.vertex_buf, gl, required, BufferUsage::DynamicDraw);
    }

    fn ensure_index_capacity(&mut self, gl: &mut CommandList, needed: usize)
        requires
            old(self).index_buf.wf(),
            old(self).next_index + needed <= u32::MAX,
            room_exists(old(self).index_buf, old(self).next_index + needed),
            old(gl)@.next_id < u32::MAX,
        ensures
            final(self).index_buf == roomy(
                old(self).index_buf,
                old(gl)@,
                old(self).next_index + needed,
            ),
            final(self).index_buf.wf(),
            final(self).vertex_buf == old(self).vertex_buf,
            final(self).next_vertex == old(self).next_vertex,
            final(self).next_index == old(self).next_index,
            final(gl)@ == rec_roomy(
                old(self).index_buf,
                old(gl)@,
                old(self).next_index + needed,
                BufferUsage::DynamicDraw,
            ),
    {
        let required = self.next_index as usize + needed;
        ensure_room(&mut self.index_buf, gl, required, BufferUsage::DynamicDraw);
    }

    /// Push vertices and (local, 0-based) indices into the arena.
    /// Grows the underlying GPU buffers if necessary (doubling strategy).
    /// Returns a `MeshAlloc` describing the allocated ranges.
    pub fn push_mesh(
        &mut self,
        gl: &mut CommandList,
        vertices: &[PackedVertex],
        indices: &[u32],
    ) -> (alloc: MeshAlloc)
        requires
            old(self).wf(),
            old(self).has_room(vertices@.len(), indices@.len()),
            old(gl)@.next_id + 1 < u32::MAX,
            old(self).vertex_buf.handle < old(gl)@.next_id,
            old(self).index_buf.handle < old(gl)@.next_id,
        ensures
            final(self).wf(),
            final(self).vertex_buf.handle < final(gl)@.next_id,
            final(self).index_buf.handle < final(gl)@.next_id,
            alloc == old(self).next_alloc(vertices@.len(), indices@.len()),
            *final(self) == old(self).pushed(old(gl)@, vertices@.len(), indices@.len()),
            final(gl)@ == old(self).rec_push(old(gl)@, vertices@, indices@),
    {
        self.ensure_vertex_capacity(gl, vertices.len());
        self.ensure_index_capacity(gl, indices.len());

        let v_offset = self.next_vertex;
        let i_offset = self.next_index;

        self.vertex_buf.upload_subrange(gl, vertices, v_offset as usize);
        self.index_buf.upload_subrange(gl, indices, i_offset as usize);

        self.next_vertex = v_offset + vertices.len() as u32;
        self.next_index = i_offset + indices.len() as u32;

        MeshAlloc {
            vertex_offset: v_offset,
            vertex_count: vertices.len() as u32,
            index_offset: i_offset,
            index_count: indices.len() as u32,
        }
    }

    /// Binding for drawing.
    pub open spec fn rec_bind(self, r: Recording, ssbo_binding: u32) -> Recording {
        self.vertex_buf.rec_ssbo(r, ssbo_binding).bind_buffer(
            ELEMENT_ARRAY_BUFFER,
            Some(self.index_buf.handle),
        )
    }

    /// Bind the vertex buffer for shaders at `ssbo_binding` and the index buffer
    /// for drawing.
    pub fn bind(&self, gl: &mut CommandList, ssbo_binding: u32)
        ensures
            final(gl)@ == self.rec_bind(old(gl)@, ssbo_binding),
    {
        self.vertex_buf.bind_as_ssbo(gl, ssbo_binding);
        self.index_buf.bind_as_ibo(gl);
    }

    /// Delete both buffers.
    pub fn cleanup(&self, gl: &mut CommandList)
        ensures
            final(gl)@ == self.index_buf.rec_cleanup(self.vertex_buf.rec_cleanup(old(gl)@)),
    {
        self.vertex_buf.cleanup(gl);
        self.index_buf.cleanup(gl);
    }
}

/// A buffer that grows at least doubles, so that it grows rarely; one that does
/// not need to grow stays as it is. Either way there is room for what was
/// required.
pub proof fn growth_doubles(capacity: nat, required: nat)
    ensures
        grown(capacity as int, required as int) >= required,
        required <= capacity ==> grown(capacity as int, required as int) == capacity,
        required > capacity ==> grown(capacity as int, required as int) >= 2 * capacity,
{
}

/// Two meshes that are pushed one after the other get ranges that do not
/// overlap: the second starts where the first ends. A mesh that has vertices
/// does not share its vertex offset with the next.
pub proof fn successive_meshes_disjoint(
    arena: GpuArena,
    r: Recording,
    vertices: nat,
    indices: nat,
    more_vertices: nat,
    more_indices: nat,
)
    requires
        arena.wf(),
        arena.has_room(vertices, indices),
    ensures
        ({
            let first = arena.next_alloc(vertices, indices);
            let second = arena.pushed(r, vertices, indices).next_alloc(more_vertices, more_indices);
            &&& second.vertex_offset == first.vertex_offset + first.vertex_count
            &&& second.index_offset == first.index_offset + first.index_count
            &&& vertices > 0 ==> second.vertex_offset != first.vertex_offset
        }),
{
}

} // verus!
