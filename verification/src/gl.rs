//! OpenGL calls as data.
//!
//! The renderer never talks to a driver. It records the calls it wants made, in
//! order, into a [`CommandList`]; the host replays the list against a real
//! context once it is complete. Objects that a call creates are known by
//! numbers which the list hands out, and the data that a call uploads stands in
//! one payload of 32-bit words that the calls point into.
//!
//! Floating-point arguments are carried as the bit patterns of their values.

use vstd::prelude::*;

verus! {

pub const ARRAY_BUFFER: u32 = 0x8892;

pub const ELEMENT_ARRAY_BUFFER: u32 = 0x8893;

pub const SHADER_STORAGE_BUFFER: u32 = 0x90D2;

pub const DRAW_INDIRECT_BUFFER: u32 = 0x8F3F;

pub const PARAMETER_BUFFER: u32 = 0x80EE;

pub const COPY_READ_BUFFER: u32 = 0x8F36;

pub const COPY_WRITE_BUFFER: u32 = 0x8F37;

pub const STATIC_DRAW: u32 = 0x88E4;

pub const DYNAMIC_DRAW: u32 = 0x88E8;

pub const STREAM_DRAW: u32 = 0x88E0;

pub const MAP_WRITE_BIT: u32 = 0x0002;

pub const MAP_INVALIDATE_RANGE_BIT: u32 = 0x0004;

pub const MAP_FLUSH_EXPLICIT_BIT: u32 = 0x0010;

pub const TEXTURE_2D: u32 = 0x0DE1;

pub const TEXTURE0: u32 = 0x84C0;

pub const TEXTURE_MIN_FILTER: u32 = 0x2801;

pub const TEXTURE_MAG_FILTER: u32 = 0x2800;

pub const TEXTURE_WRAP_S: u32 = 0x2802;

pub const TEXTURE_WRAP_T: u32 = 0x2803;

pub const TEXTURE_COMPARE_MODE: u32 = 0x884C;

pub const TEXTURE_SWIZZLE_G: u32 = 0x8E43;

pub const TEXTURE_SWIZZLE_B: u32 = 0x8E44;

pub const LINEAR: u32 = 0x2601;

pub const NEAREST: u32 = 0x2600;

pub const NEAREST_MIPMAP_NEAREST: u32 = 0x2700;

pub const CLAMP_TO_EDGE: u32 = 0x812F;

pub const NONE: u32 = 0;

pub const RED: u32 = 0x1903;

pub const RGBA8: u32 = 0x8058;

pub const RGBA: u32 = 0x1908;

pub const UNSIGNED_BYTE: u32 = 0x1401;

pub const DEPTH_COMPONENT32F: u32 = 0x8CAC;

pub const DEPTH_COMPONENT: u32 = 0x1902;

pub const FLOAT: u32 = 0x1406;

pub const R32F: u32 = 0x822E;

pub const FRAMEBUFFER: u32 = 0x8D40;

pub const READ_FRAMEBUFFER: u32 = 0x8CA8;

pub const DRAW_FRAMEBUFFER: u32 = 0x8CA9;

pub const COLOR_ATTACHMENT0: u32 = 0x8CE0;

pub const DEPTH_ATTACHMENT: u32 = 0x8D00;

pub const COLOR_BUFFER_BIT: u32 = 0x4000;

pub const DEPTH_BUFFER_BIT: u32 = 0x0100;

/// `COLOR_BUFFER_BIT | DEPTH_BUFFER_BIT`.
pub const COLOR_AND_DEPTH_BITS: u32 = 0x4100;

pub const DEPTH_TEST: u32 = 0x0B71;

pub const GREATER: u32 = 0x0204;

pub const CULL_FACE: u32 = 0x0B44;

pub const BACK: u32 = 0x0405;

pub const TIME_ELAPSED: u32 = 0x88BF;

pub const PRIMITIVES_SUBMITTED: u32 = 0x82EF;

pub const VERTEX_SHADER_INVOCATIONS: u32 = 0x82F0;

pub const FRAGMENT_SHADER_INVOCATIONS: u32 = 0x82F4;

pub const SHADER_STORAGE_BARRIER_BIT: u32 = 0x2000;

pub const COMMAND_BARRIER_BIT: u32 = 0x0040;

pub const TEXTURE_FETCH_BARRIER_BIT: u32 = 0x0008;

pub const SHADER_IMAGE_ACCESS_BARRIER_BIT: u32 = 0x0020;

/// `SHADER_STORAGE_BARRIER_BIT | COMMAND_BARRIER_BIT`.
pub const STORAGE_AND_COMMAND_BITS: u32 = 0x2040;

/// `TEXTURE_FETCH_BARRIER_BIT | SHADER_IMAGE_ACCESS_BARRIER_BIT`.
pub const FETCH_AND_IMAGE_BITS: u32 = 0x0028;

pub const TRIANGLES: u32 = 0x0004;

pub const UNSIGNED_INT: u32 = 0x1405;

pub const READ_ONLY: u32 = 0x88B8;

pub const WRITE_ONLY: u32 = 0x88B9;

/// The kinds of object a context holds.
#[derive(Clone, Copy, Debug, PartialEq, Eq, Structural)]
pub enum ObjectKind {
    Buffer,
    Texture,
    Framebuffer,
    VertexArray,
    Query,
    Program,
    VertexShader,
    FragmentShader,
    ComputeShader,
}

/// The uniforms that the renderer sets.
#[derive(Clone, Copy, Debug, PartialEq, Eq, Structural)]
pub enum Uniform {
    TotalDraws,
    FrustumPlanes,
    ViewProj,
    ScreenSize,
    HzbMaxLevel,
    ProjXScale,
    ProjYScale,
    EyePos,
    Phase,
    SrcSize,
    IsFirst,
}

impl Uniform {
    /// The name of the uniform in the shader sources.
    pub open spec fn name(self) -> Seq<char> {
        match self {
            Uniform::TotalDraws => "u_total_draws"@,
            Uniform::FrustumPlanes => "u_frustum_planes[0]"@,
            Uniform::ViewProj => "u_view_proj"@,
            Uniform::ScreenSize => "u_screen_size"@,
            Uniform::HzbMaxLevel => "u_hzb_max_level"@,
            Uniform::ProjXScale => "u_proj_x_scale"@,
            Uniform::ProjYScale => "u_proj_y_scale"@,
            Uniform::EyePos => "u_eye_pos"@,
            Uniform::Phase => "u_phase"@,
            Uniform::SrcSize => "u_src_size"@,
            Uniform::IsFirst => "u_is_first"@,
        }
    }

    /// The name of the uniform in the shader sources.
    pub fn text(self) -> (text: &'static str)
        ensures
            text@ == self.name(),
    {
        match self {
            Uniform::TotalDraws => "u_total_draws",
            Uniform::FrustumPlanes => "u_frustum_planes[0]",
            Uniform::ViewProj => "u_view_proj",
            Uniform::ScreenSize => "u_screen_size",
            Uniform::HzbMaxLevel => "u_hzb_max_level",
            Uniform::ProjXScale => "u_proj_x_scale",
            Uniform::ProjYScale => "u_proj_y_scale",
            Uniform::EyePos => "u_eye_pos",
            Uniform::Phase => "u_phase",
            Uniform::SrcSize => "u_src_size",
            Uniform::IsFirst => "u_is_first",
        }
    }

    /// A number of its own for each uniform.
    pub open spec fn number(self) -> int {
        match self {
            Uniform::TotalDraws => 0,
            Uniform::FrustumPlanes => 1,
            Uniform::ViewProj => 2,
            Uniform::ScreenSize => 3,
            Uniform::HzbMaxLevel => 4,
            Uniform::ProjXScale => 5,
            Uniform::ProjYScale => 6,
            Uniform::EyePos => 7,
            Uniform::Phase => 8,
            Uniform::SrcSize => 9,
            Uniform::IsFirst => 10,
        }
    }

    /// A number of its own for each uniform.
    pub fn index(self) -> (i: u64)
        ensures
            i == self.number(),
    {
        match self {
            Uniform::TotalDraws => 0,
            Uniform::FrustumPlanes => 1,
            Uniform::ViewProj => 2,
            Uniform::ScreenSize => 3,
            Uniform::HzbMaxLevel => 4,
            Uniform::ProjXScale => 5,
            Uniform::ProjYScale => 6,
            Uniform::EyePos => 7,
            Uniform::Phase => 8,
            Uniform::SrcSize => 9,
            Uniform::IsFirst => 10,
        }
    }
}

/// One OpenGL call. `start` and `count` are a range of payload words.
#[allow(inconsistent_fields)]
#[derive(Clone, Copy, Debug, PartialEq, Eq, Structural)]
pub enum GlCall {
    Create { kind: ObjectKind, id: u32 },
    Delete { kind: ObjectKind, id: u32 },
    BindBuffer { target: u32, buffer: Option<u32> },
    BindBufferBase { target: u32, index: u32, buffer: u32 },
    BufferDataSize { target: u32, size: i32, usage: u32 },
    BufferData { target: u32, start: usize, count: usize, usage: u32 },
    BufferSubData { target: u32, offset: i32, start: usize, count: usize },
    /// Map a byte range for writing and write the payload range into it.
    MapAndWrite { target: u32, offset: i32, length: i32, access: u32, start: usize, count: usize },
    FlushMappedRange { target: u32, offset: i32, length: i32 },
    UnmapBuffer { target: u32 },
    CopyBufferSubData { src: u32, dst: u32, src_offset: i32, dst_offset: i32, size: i32 },
    BindTexture { target: u32, texture: Option<u32> },
    ActiveTexture { unit: u32 },
    TexParameter { target: u32, name: u32, value: i32 },
    TexImage2d { target: u32, internal: i32, width: i32, height: i32, format: u32, ty: u32 },
    TexStorage2d { target: u32, levels: i32, format: u32, width: i32, height: i32 },
    BindImageTexture { unit: u32, texture: u32, level: i32, access: u32, format: u32 },
    BindFramebuffer { target: u32, framebuffer: Option<u32> },
    FramebufferTexture2d { target: u32, attachment: u32, texture: u32, level: i32 },
    /// Stop unless the framebuffer bound to `target` is complete.
    ExpectFramebufferComplete { target: u32 },
    /// Copy from the rectangle at the origin of the read framebuffer to that of
    /// the draw framebuffer.
    BlitFramebuffer {
        src_width: i32,
        src_height: i32,
        dst_width: i32,
        dst_height: i32,
        mask: u32,
        filter: u32,
    },
    Viewport { width: i32, height: i32 },
    Enable { capability: u32 },
    DepthFunc { func: u32 },
    CullFaceMode { face: u32 },
    ClearColor { red: u32, green: u32, blue: u32, alpha: u32 },
    ClearDepth { depth: u32 },
    DepthRange { near: u32, far: u32 },
    Clear { mask: u32 },
    BindVertexArray { array: Option<u32> },
    BeginQuery { target: u32, query: u32 },
    EndQuery { target: u32 },
    UseProgram { program: Option<u32> },
    Uniform1Float { program: u32, name: Uniform, x: u32 },
    Uniform1Uint { program: u32, name: Uniform, x: u32 },
    /// Two floats given as integers, to be converted on the way.
    Uniform2FloatOf { program: u32, name: Uniform, x: u32, y: u32 },
    Uniform2Uint { program: u32, name: Uniform, x: u32, y: u32 },
    Uniform3Float { program: u32, name: Uniform, x: u32, y: u32, z: u32 },
    UniformMatrix4 { program: u32, name: Uniform, start: usize, count: usize },
    Uniform4FloatSlice { program: u32, name: Uniform, start: usize, count: usize },
    DispatchCompute { x: u32, y: u32, z: u32 },
    MemoryBarrier { barriers: u32 },
    /// Indirect commands from the start of the draw-indirect buffer, their
    /// number from the start of the parameter buffer.
    MultiDrawElementsIndirectCount { mode: u32, ty: u32, max_draws: i32 },
    /// Give the shader object the source text of its stage.
    ShaderSource { shader: u32 },
    CompileShader { shader: u32 },
    AttachShader { program: u32, shader: u32 },
    DetachShader { program: u32, shader: u32 },
    LinkProgram { program: u32 },
}

/// What a [`CommandList`] holds.
#[verifier::ext_equal]
pub struct Recording {
    pub calls: Seq<GlCall>,
    pub payload: Seq<u32>,
    /// The number that the next object will get.
    pub next_id: int,
}

impl Recording {
    /// The recording with one more call.
    pub open spec fn call(self, c: GlCall) -> Recording {
        Recording { calls: self.calls.push(c), ..self }
    }

    /// The recording with more payload.
    pub open spec fn data(self, words: Seq<u32>) -> Recording {
        Recording { payload: self.payload + words, ..self }
    }

    /// The recording with one more object, which is called `self.next_id`.
    pub open spec fn create(self, kind: ObjectKind) -> Recording {
        Recording {
            calls: self.calls.push(GlCall::Create { kind, id: self.next_id as u32 }),
            next_id: self.next_id + 1,
            ..self
        }
    }

    pub open spec fn bind_buffer(self, target: u32, buffer: Option<u32>) -> Recording {
        self.call(GlCall::BindBuffer { target, buffer })
    }

    pub open spec fn bind_texture(self, texture: Option<u32>) -> Recording {
        self.call(GlCall::BindTexture { target: TEXTURE_2D, texture })
    }

    pub open spec fn tex_parameter(self, name: u32, value: u32) -> Recording {
        self.call(GlCall::TexParameter { target: TEXTURE_2D, name, value: value as i32 })
    }

    pub open spec fn bind_framebuffer(self, framebuffer: Option<u32>) -> Recording {
        self.call(GlCall::BindFramebuffer { target: FRAMEBUFFER, framebuffer })
    }

    pub open spec fn barrier(self, barriers: u32) -> Recording {
        self.call(GlCall::MemoryBarrier { barriers })
    }
}

/// Recorded OpenGL calls, waiting to be replayed.
pub struct CommandList {
    calls: Vec<GlCall>,
    payload: Vec<u32>,
    next_id: u32,
}

impl View for CommandList {
    type V = Recording;

    closed spec fn view(&self) -> Recording {
        Recording { calls: self.calls@, payload: self.payload@, next_id: self.next_id as int }
    }
}

/// The bytes of `words`, in memory order.
///
/// Calls `bytemuck::cast_slice`, which reinterprets the slice in place: four
/// bytes for each word, in the byte order of the machine. The contract claims
/// that every word is laid out in one order, either least significant byte
/// first or most significant byte first; which of the two it is, is left open.
#[verifier::external_body]
fn cast_words(words: &[u32]) -> (bytes: &[u8])
    ensures
        bytes_of_words(bytes@, words@),
{
    bytemuck::cast_slice(words)
}

/// The value of four bytes, the first being the least significant.
pub open spec fn little_endian(bytes: Seq<u8>, at: int) -> int {
    bytes[at] + 0x100 * bytes[at + 1] + 0x1_0000 * bytes[at + 2] + 0x100_0000 * bytes[at + 3]
}

/// The value of four bytes, the first being the most significant.
pub open spec fn big_endian(bytes: Seq<u8>, at: int) -> int {
    0x100_0000 * bytes[at] + 0x1_0000 * bytes[at + 1] + 0x100 * bytes[at + 2] + bytes[at + 3]
}

/// Whether `bytes` is the memory of `words` on a machine of either byte order.
pub open spec fn bytes_of_words(bytes: Seq<u8>, words: Seq<u32>) -> bool {
    &&& bytes.len() == 4 * words.len()
    &&& {
        ||| forall|i: int| 0 <= i < words.len() ==> #[trigger] words[i] == little_endian(bytes, 4 * i)
        ||| forall|i: int| 0 <= i < words.len() ==> #[trigger] words[i] == big_endian(bytes, 4 * i)
    }
}

impl CommandList {
    /// An empty list. The first object it creates gets the number 1.
    pub fn new() -> (list: CommandList)
        ensures
            list@ == (Recording { calls: Seq::empty(), payload: Seq::empty(), next_id: 1 }),
    {
        let list = CommandList { calls: Vec::new(), payload: Vec::new(), next_id: 1 };
        assert(list@.calls =~= Seq::<GlCall>::empty());
        list
    }

    /// The number of recorded calls.
    pub fn len(&self) -> (n: usize)
        ensures
            n == self@.calls.len(),
    {
        self.calls.len()
    }

    /// The `i`-th recorded call.
    pub fn get(&self, i: usize) -> (c: GlCall)
        requires
            i < self@.calls.len(),
        ensures
            c == self@.calls[i as int],
    {
        self.calls[i]
    }

    /// The payload words that a call points at.
    pub fn words(&self, start: usize, count: usize) -> (words: &[u32])
        requires
            start + count <= self@.payload.len(),
        ensures
            words@ == self@.payload.subrange(start as int, start + count),
    {
        let payload = self.payload.as_slice();
        assert(start + count <= payload.len());
        vstd::slice::slice_subrange(payload, start, start + count)
    }

    /// The payload words that a call points at, as the bytes to be uploaded.
    pub fn bytes(&self, start: usize, count: usize) -> (bytes: &[u8])
        requires
            start + count <= self@.payload.len(),
        ensures
            bytes_of_words(bytes@, self@.payload.subrange(start as int, start + count)),
    {
        cast_words(self.words(start, count))
    }

    /// Forget the recorded calls once they have been replayed. Object numbers
    /// are not used again.
    pub fn clear(&mut self)
        ensures
            final(self)@ == (Recording {
                calls: Seq::empty(),
                payload: Seq::empty(),
                next_id: old(self)@.next_id,
            }),
    {
        self.calls.clear();
        self.payload.clear();
        assert(self@.calls =~= Seq::<GlCall>::empty());
        assert(self@.payload =~= Seq::<u32>::empty());
    }

    /// Record one call.
    pub fn call(&mut self, c: GlCall)
        ensures
            final(self)@ == old(self)@.call(c),
    {
        self.calls.push(c);
    }

    /// The current length of the payload: where the next words will stand.
    pub fn mark(&self) -> (n: usize)
        ensures
            n == self@.payload.len(),
    {
        self.payload.len()
    }

    /// Add one word of payload.
    pub fn push_word(&mut self, word: u32)
        ensures
            final(self)@ == old(self)@.data(seq![word]),
    {
        self.payload.push(word);
        assert(self.payload@ =~= old(self).payload@ + seq![word]);
    }

    /// Add payload; returns where it starts.
    pub fn push_words(&mut self, words: &[u32]) -> (start: usize)
        ensures
            start == old(self)@.payload.len(),
            final(self)@ == old(self)@.data(words@),
    {
        let start = self.payload.len();
        self.payload.extend_from_slice(words);
        assert(self.payload@ =~= old(self).payload@ + words@);
        start
    }

    /// How many more objects can be numbered.
    pub fn ids_left(&self) -> (n: u32)
        ensures
            n == u32::MAX - self@.next_id,
    {
        u32::MAX - self.next_id
    }

    /// Record the creation of an object; returns its number.
    pub fn create(&mut self, kind: ObjectKind) -> (id: u32)
        requires
            old(self)@.next_id < u32::MAX,
        ensures
            id == old(self)@.next_id,
            final(self)@ == old(self)@.create(kind),
    {
        let id = self.next_id;
        self.calls.push(GlCall::Create { kind, id });
        self.next_id = id + 1;
        id
    }

    pub fn bind_buffer(&mut self, target: u32, buffer: Option<u32>)
        ensures
            final(self)@ == old(self)@.bind_buffer(target, buffer),
    {
        self.call(GlCall::BindBuffer { target, buffer });
    }

    pub fn bind_texture(&mut self, texture: Option<u32>)
        ensures
            final(self)@ == old(self)@.bind_texture(texture),
    {
        self.call(GlCall::BindTexture { target: TEXTURE_2D, texture });
    }

    pub fn tex_parameter(&mut self, name: u32, value: u32)
        ensures
            final(self)@ == old(self)@.tex_parameter(name, value),
    {
        self.call(GlCall::TexParameter { target: TEXTURE_2D, name, value: value as i32 });
    }

    pub fn bind_framebuffer(&mut self, framebuffer: Option<u32>)
        ensures
            final(self)@ == old(self)@.bind_framebuffer(framebuffer),
    {
        self.call(GlCall::BindFramebuffer { target: FRAMEBUFFER, framebuffer });
    }

    pub fn barrier(&mut self, barriers: u32)
        ensures
            final(self)@ == old(self)@.barrier(barriers),
    {
        self.call(GlCall::MemoryBarrier { barriers });
    }
}

} // verus!
