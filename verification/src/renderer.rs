//! The core scene renderer: a shared GPU arena drawn with two multi-draw calls
//! per frame, one for each phase of occlusion culling.
//!
//! Phase 0 culls against the depth pyramid of the previous frame and draws what
//! is left; the pyramid is then built from the resulting depth, and phase 1 culls
//! what phase 0 left out against it and draws the rest.
//!
//! The renderer owns the offscreen render target and the depth pyramid. The host
//! shows [`Renderer::color_texture`], or copies it with
//! [`Renderer::blit_color_to_default`].

use crate::arena::{
    can_hold, rec_roomy, room_exists, roomy, BoundingSphere, DrawCommand, GpuArena, InstanceData,
    MeshAlloc, PackedVertex,
};
use crate::batching::{
    batch_bases, batch_commands, batch_indices, batch_meshes, bounds_of, instances_of,
    lemma_batch_meshes, same_batch_iff_same_mesh, Batches, Drawable,
};
use crate::element::all_words;
use crate::frame_buffers::{BatchBuffers, InstanceBuffers};
use crate::framebuffer::OffscreenTarget;
use crate::gl::{
    CommandList, GlCall, ObjectKind, Recording, Uniform, BACK, COLOR_AND_DEPTH_BITS, CULL_FACE,
    DEPTH_TEST, DRAW_INDIRECT_BUFFER, DYNAMIC_DRAW, FETCH_AND_IMAGE_BITS,
    GREATER, PARAMETER_BUFFER, SHADER_STORAGE_BUFFER, STORAGE_AND_COMMAND_BITS, TEXTURE0,
    TEXTURE_FETCH_BARRIER_BIT, TRIANGLES, UNSIGNED_INT,
};
use crate::gl_buffer::{BufferUsage, GlBuffer};
use crate::hzb::{groups, Hzb};
use crate::materials::{GpuMaterial, MaterialRegistry, Materials};
use crate::ownership::{rec_reloads, reloads, Rebuild};
use crate::shader::{rec_delete, Shader, UniformCache};
use crate::stats::{next_frame, read_set, write_set, QuerySet, RenderedFrame};
use vstd::prelude::*;

verus! {

/// Vertices that the arena has room for at first.
pub const MAX_VERTICES: usize = 65_536;

/// Indices that the arena has room for at first.
pub const MAX_INDICES: usize = 131_072;

/// Objects and batches that a frame has room for at first.
pub const MAX_DRAWS: usize = 1_024;

/// Materials that there is room for at first.
pub const INITIAL_MATERIALS: usize = 16;

/// The bit pattern of 1.0.
pub const ONE: u32 = 0x3F80_0000;

/// The bit patterns of the clear color, (0.08, 0.10, 0.14, 1.0).
pub const CLEAR_RED: u32 = 0x3DA3_D70A;

pub const CLEAR_GREEN: u32 = 0x3DCC_CCCD;

pub const CLEAR_BLUE: u32 = 0x3E0F_5C29;

/// What the renderer has to know of the camera, as float bit patterns.
#[derive(Clone, Copy, Debug)]
pub struct FrameView {
    /// Column-major view-projection matrix.
    pub view_proj: [u32; 16],
    /// The six planes of the view frustum, one after another.
    pub planes: [u32; 24],
    pub eye_pos: [u32; 3],
    pub proj_x_scale: u32,
    pub proj_y_scale: u32,
}

/// Everything the renderer has on the GPU.
pub struct GpuState {
    pub main_shader: Shader,
    pub cull_shader: Shader,
    pub hzb_shader: Shader,
    pub vao: u32,
    pub arena: GpuArena,
    pub per_instance: InstanceBuffers,
    pub per_batch: BatchBuffers,
    pub draw_count: u32,
    pub material_buf: GlBuffer<GpuMaterial>,
    pub offscreen: OffscreenTarget,
    pub hzb: Hzb,
    pub stat_queries: [QuerySet; 2],
}

/// A list of zeros.
pub open spec fn zeros(n: nat) -> Seq<u32> {
    Seq::new(n, |i: int| 0u32)
}

impl GpuState {
    pub open spec fn wf(self) -> bool {
        &&& self.main_shader.wf()
        &&& self.cull_shader.wf()
        &&& self.hzb_shader.wf()
        &&& self.arena.wf()
        &&& self.per_instance.wf()
        &&& self.per_batch.wf()
        &&& self.material_buf.wf()
        &&& self.material_buf.capacity >= 1
        &&& self.offscreen.wf()
        &&& self.hzb.wf()
    }

    /// Upload of the frame's objects, batches and commands.
    #[verifier::opaque]
    pub open spec fn rec_upload(self, r: Recording, drawables: Seq<Drawable>) -> Recording {
        let meshes = batch_meshes(drawables);
        let indices = batch_indices(drawables);
        let bases = batch_bases(indices, meshes.len());
        let commands = all_words(batch_commands(meshes, bases));
        let r1 = self.per_instance.instance.rec_upload(r, all_words(instances_of(drawables)), 0);
        let r2 = self.per_instance.bounding.rec_upload(r1, all_words(bounds_of(drawables)), 0);
        let r3 = self.per_instance.batch_index.rec_upload(r2, all_words(indices), 0);
        let r4 = self.per_batch.base.rec_upload(r3, all_words(bases), 0);
        let r5 = self.per_batch.indirect.rec_upload(r4, commands, 0);
        let r6 = self.per_batch.indirect_p2.rec_upload(r5, commands, 0);
        let r7 = self.rec_draw_count(r6, meshes.len() as u32);
        self.per_instance.visible.rec_upload(r7, all_words(zeros(drawables.len())), 0)
    }

    /// Writing of the number of draws.
    pub open spec fn rec_draw_count(self, r: Recording, m: u32) -> Recording {
        r.bind_buffer(SHADER_STORAGE_BUFFER, Some(self.draw_count)).data(seq![m]).call(
            GlCall::BufferSubData {
                target: SHADER_STORAGE_BUFFER,
                offset: 0,
                start: r.payload.len() as usize,
                count: 1,
            },
        ).bind_buffer(SHADER_STORAGE_BUFFER, None)
    }

    fn upload(&self, gl: &mut CommandList, batches: &mut Batches)
        requires
            self.wf(),
            old(batches).laid_out(),
            old(batches).bounds@.len() == old(batches).instances@.len(),
            old(batches).indices@.len() == old(batches).instances@.len(),
            old(batches).instances@.len() <= self.per_instance.instance.capacity,
            old(batches).meshes@.len() <= self.per_batch.indirect.capacity,
            old(batches).meshes@.len() <= u32::MAX,
        ensures
            final(batches).meshes@ == old(batches).meshes@,
            final(batches).instances@ == old(batches).instances@,
            final(batches).bounds@ == old(batches).bounds@,
            final(batches).indices@ == old(batches).indices@,
            forall|drawables: Seq<Drawable>|
                old(batches).groups(drawables) ==> final(gl)@ == #[trigger] self.rec_upload(
                    old(gl)@,
                    drawables,
                ),
            final(gl)@.next_id == old(gl)@.next_id,
    {
        self.per_instance.instance.upload_subrange(gl, batches.instances.as_slice(), 0);
        self.per_instance.bounding.upload_subrange(gl, batches.bounds.as_slice(), 0);
        self.per_instance.batch_index.upload_subrange(gl, batches.indices.as_slice(), 0);
        self.per_batch.base.upload_subrange(gl, batches.base.as_slice(), 0);
        // Both phases start without instances.
        self.per_batch.indirect.upload_subrange(gl, batches.commands.as_slice(), 0);
        self.per_batch.indirect_p2.upload_subrange(gl, batches.commands.as_slice(), 0);

        let m = batches.meshes.len() as u32;
        gl.bind_buffer(SHADER_STORAGE_BUFFER, Some(self.draw_count));
        let start = gl.mark();
        gl.push_word(m);
        gl.call(
            GlCall::BufferSubData { target: SHADER_STORAGE_BUFFER, offset: 0, start, count: 1 },
        );
        gl.bind_buffer(SHADER_STORAGE_BUFFER, None);

        let n = batches.instances.len();
        batches.zeros.clear();
        batches.zeros.resize(n, 0);
        assert(batches.zeros@ =~= zeros(n as nat));
        self.per_instance.visible.upload_subrange(gl, batches.zeros.as_slice(), 0);
        proof {
            reveal(GpuState::rec_upload);
        }
    }

    /// The uniforms of the culling pass.
    pub open spec fn rec_cull_uniforms(
        self,
        r: Recording,
        n: u32,
        view: FrameView,
        width: u32,
        height: u32,
    ) -> Recording {
        let program = self.cull_shader.program;
        let r1 = r.call(GlCall::UseProgram { program: Some(program) }).call(
            GlCall::Uniform1Uint { program, name: Uniform::TotalDraws, x: n },
        );
        let r2 = self.cull_shader.rec_vec4_slice(r1, Uniform::FrustumPlanes, view.planes@);
        let r3 = self.cull_shader.rec_mat4(r2, Uniform::ViewProj, view.view_proj@);
        r3.call(
            GlCall::Uniform2FloatOf { program, name: Uniform::ScreenSize, x: width, y: height },
        ).call(
            GlCall::Uniform1Uint { program, name: Uniform::HzbMaxLevel, x: self.hzb.max_level() },
        ).call(
            GlCall::Uniform1Float { program, name: Uniform::ProjXScale, x: view.proj_x_scale },
        ).call(
            GlCall::Uniform1Float { program, name: Uniform::ProjYScale, x: view.proj_y_scale },
        ).call(
            GlCall::Uniform3Float {
                program,
                name: Uniform::EyePos,
                x: view.eye_pos[0],
                y: view.eye_pos[1],
                z: view.eye_pos[2],
            },
        )
    }

    fn set_cull_uniforms(
        &self,
        gl: &mut CommandList,
        n: u32,
        view: &FrameView,
        width: u32,
        height: u32,
    )
        ensures
            final(gl)@ == self.rec_cull_uniforms(old(gl)@, n, *view, width, height),
    {
        self.cull_shader.bind(gl);
        self.cull_shader.set_u32(gl, Uniform::TotalDraws, n);
        self.cull_shader.set_vec4_slice(gl, Uniform::FrustumPlanes, &view.planes);
        self.cull_shader.set_mat4(gl, Uniform::ViewProj, &view.view_proj);
        self.cull_shader.set_vec2(gl, Uniform::ScreenSize, width, height);
        self.cull_shader.set_u32(gl, Uniform::HzbMaxLevel, self.hzb.last_level());
        self.cull_shader.set_f32(gl, Uniform::ProjXScale, view.proj_x_scale);
        self.cull_shader.set_f32(gl, Uniform::ProjYScale, view.proj_y_scale);
        self.cull_shader.set_vec3(gl, Uniform::EyePos, view.eye_pos);
    }

    /// The buffers of the culling pass. The flags of what phase 0 has drawn stay
    /// bound from then on.
    pub open spec fn rec_cull_bindings(self, r: Recording, second: bool) -> Recording {
        let r1 = self.per_instance.instance.rec_ssbo(r, 0);
        let r2 = self.per_instance.bounding.rec_ssbo(r1, 1);
        let r3 = self.per_instance.batch_index.rec_ssbo(r2, 2);
        if second {
            let r4 = self.per_batch.indirect_p2.rec_ssbo(r3, 3);
            let r5 = self.per_instance.culled_p2.rec_ssbo(r4, 4);
            self.per_batch.base.rec_ssbo(r5, 5)
        } else {
            let r4 = self.per_batch.indirect.rec_ssbo(r3, 3);
            let r5 = self.per_instance.culled.rec_ssbo(r4, 4);
            let r6 = self.per_batch.base.rec_ssbo(r5, 5);
            self.per_instance.visible.rec_ssbo(r6, 6)
        }
    }

    fn bind_for_culling(&self, gl: &mut CommandList, second: bool)
        ensures
            final(gl)@ == self.rec_cull_bindings(old(gl)@, second),
    {
        self.per_instance.instance.bind_as_ssbo(gl, 0);
        self.per_instance.bounding.bind_as_ssbo(gl, 1);
        self.per_instance.batch_index.bind_as_ssbo(gl, 2);
        if second {
            self.per_batch.indirect_p2.bind_as_ssbo(gl, 3);
            self.per_instance.culled_p2.bind_as_ssbo(gl, 4);
            self.per_batch.base.bind_as_ssbo(gl, 5);
        } else {
            self.per_batch.indirect.bind_as_ssbo(gl, 3);
            self.per_instance.culled.bind_as_ssbo(gl, 4);
            self.per_batch.base.bind_as_ssbo(gl, 5);
            self.per_instance.visible.bind_as_ssbo(gl, 6);
        }
    }

    /// Culling of `n` objects against the depth pyramid.
    pub open spec fn rec_cull(self, r: Recording, second: bool, n: int) -> Recording {
        r.call(GlCall::ActiveTexture { unit: TEXTURE0 }).bind_texture(self.hzb.texture).call(
            GlCall::Uniform1Uint {
                program: self.cull_shader.program,
                name: Uniform::Phase,
                x: if second {
                    1
                } else {
                    0
                },
            },
        ).call(GlCall::DispatchCompute { x: groups(n, 64) as u32, y: 1, z: 1 }).barrier(
            STORAGE_AND_COMMAND_BITS,
        )
    }

    fn cull(&self, gl: &mut CommandList, second: bool, n: u32)
        requires
            n <= u32::MAX - 63,
        ensures
            final(gl)@ == self.rec_cull(old(gl)@, second, n as int),
    {
        gl.call(GlCall::ActiveTexture { unit: TEXTURE0 });
        gl.bind_texture(self.hzb.texture);
        self.cull_shader.set_u32(
            gl,
            Uniform::Phase,
            if second {
                1
            } else {
                0
            },
        );
        gl.call(GlCall::DispatchCompute { x: (n + 63) / 64, y: 1, z: 1 });
        gl.barrier(STORAGE_AND_COMMAND_BITS);
    }

    /// Drawing of what a phase has left of `m` batches.
    pub open spec fn rec_draw(
        self,
        r: Recording,
        second: bool,
        m: int,
        view: FrameView,
    ) -> Recording {
        let program = self.main_shader.program;
        let r1 = self.arena.rec_bind(
            r.call(GlCall::UseProgram { program: Some(program) }).call(
                GlCall::BindVertexArray { array: Some(self.vao) },
            ),
            0,
        );
        let culled = if second {
            self.per_instance.culled_p2
        } else {
            self.per_instance.culled
        };
        let indirect = if second {
            self.per_batch.indirect_p2
        } else {
            self.per_batch.indirect
        };
        let r2 = self.material_buf.rec_ssbo(culled.rec_ssbo(r1, 1), 2);
        // The uniforms keep their values from one phase to the next.
        let r3 = if second {
            r2
        } else {
            self.main_shader.rec_mat4(r2, Uniform::ViewProj, view.view_proj@).call(
                GlCall::Uniform3Float {
                    program,
                    name: Uniform::EyePos,
                    x: view.eye_pos[0],
                    y: view.eye_pos[1],
                    z: view.eye_pos[2],
                },
            )
        };
        r3.bind_buffer(DRAW_INDIRECT_BUFFER, Some(indirect.handle)).bind_buffer(
            PARAMETER_BUFFER,
            Some(self.draw_count),
        ).call(
            GlCall::MultiDrawElementsIndirectCount {
                mode: TRIANGLES,
                ty: UNSIGNED_INT,
                max_draws: m as i32,
            },
        ).bind_buffer(DRAW_INDIRECT_BUFFER, None).bind_buffer(PARAMETER_BUFFER, None).call(
            GlCall::BindVertexArray { array: None },
        )
    }

    fn draw(&self, gl: &mut CommandList, second: bool, m: usize, view: &FrameView)
        ensures
            final(gl)@ == self.rec_draw(old(gl)@, second, m as int, *view),
    {
        self.main_shader.bind(gl);
        gl.call(GlCall::BindVertexArray { array: Some(self.vao) });
        self.arena.bind(gl, 0);
        if second {
            self.per_instance.culled_p2.bind_as_ssbo(gl, 1);
            self.material_buf.bind_as_ssbo(gl, 2);
            self.per_batch.indirect_p2.bind_as_indirect(gl);
        } else {
            self.per_instance.culled.bind_as_ssbo(gl, 1);
            self.material_buf.bind_as_ssbo(gl, 2);
            self.main_shader.set_mat4(gl, Uniform::ViewProj, &view.view_proj);
            self.main_shader.set_vec3(gl, Uniform::EyePos, view.eye_pos);
            self.per_batch.indirect.bind_as_indirect(gl);
        }
        gl.bind_buffer(PARAMETER_BUFFER, Some(self.draw_count));
        gl.call(
            GlCall::MultiDrawElementsIndirectCount {
                mode: TRIANGLES,
                ty: UNSIGNED_INT,
                max_draws: #[verifier::truncate] (m as i32),
            },
        );
        GlBuffer::<DrawCommand>::unbind_indirect(gl);
        gl.bind_buffer(PARAMETER_BUFFER, None);
        gl.call(GlCall::BindVertexArray { array: None });
    }

    /// Building of the depth pyramid from what phase 0 has drawn.
    pub open spec fn rec_build_hzb(self, r: Recording) -> Recording {
        let program = self.hzb_shader.program;
        self.hzb.rec_levels(
            r.barrier(FETCH_AND_IMAGE_BITS).call(
                GlCall::UseProgram { program: Some(program) },
            ).call(GlCall::ActiveTexture { unit: TEXTURE0 }).bind_texture(
                Some(self.offscreen.depth),
            ),
            program,
            self.hzb.levels as int,
        ).barrier(TEXTURE_FETCH_BARRIER_BIT)
    }

    fn build_hzb(&self, gl: &mut CommandList)
        requires
            self.hzb.wf(),
            self.hzb.texture is Some,
            self.hzb.width <= u32::MAX - 7,
            self.hzb.height <= u32::MAX - 7,
        ensures
            final(gl)@ == self.rec_build_hzb(old(gl)@),
            final(gl)@.next_id == old(gl)@.next_id,
    {
        // Depth that was drawn becomes readable.
        gl.barrier(FETCH_AND_IMAGE_BITS);
        self.hzb_shader.bind(gl);
        gl.call(GlCall::ActiveTexture { unit: TEXTURE0 });
        gl.bind_texture(Some(self.offscreen.depth_texture()));
        self.hzb.build(gl, &self.hzb_shader);
        // The pyramid becomes readable.
        gl.barrier(TEXTURE_FETCH_BARRIER_BIT);
    }

    /// Both phases of a frame with `n` objects in `m` batches.
    #[verifier::opaque]
    pub open spec fn rec_phases(
        self,
        r: Recording,
        n: int,
        m: int,
        view: FrameView,
        width: u32,
        height: u32,
    ) -> Recording {
        let r1 = self.rec_cull_uniforms(r, n as u32, view, width, height);
        let r2 = self.rec_cull(self.rec_cull_bindings(r1, false), false, n);
        let r3 = self.rec_build_hzb(self.rec_draw(r2, false, m, view));
        let r4 = r3.call(GlCall::UseProgram { program: Some(self.cull_shader.program) });
        let r5 = self.rec_cull(self.rec_cull_bindings(r4, true), true, n);
        self.rec_draw(r5, true, m, view).call(GlCall::UseProgram { program: None }).bind_texture(
            None,
        )
    }

    fn draw_phases(
        &self,
        gl: &mut CommandList,
        n: usize,
        m: usize,
        view: &FrameView,
        width: u32,
        height: u32,
    )
        requires
            self.wf(),
            n <= u32::MAX - 63,
            self.hzb.texture is Some,
            self.hzb.width <= u32::MAX - 7,
            self.hzb.height <= u32::MAX - 7,
        ensures
            final(gl)@ == self.rec_phases(old(gl)@, n as int, m as int, *view, width, height),
            final(gl)@.next_id == old(gl)@.next_id,
    {
        let n = n as u32;
        self.set_cull_uniforms(gl, n, view, width, height);
        self.bind_for_culling(gl, false);
        self.cull(gl, false, n);
        self.draw(gl, false, m, view);

        self.build_hzb(gl);

        self.cull_shader.bind(gl);
        self.bind_for_culling(gl, true);
        self.cull(gl, true, n);
        self.draw(gl, true, m, view);
        gl.call(GlCall::UseProgram { program: None });
        // The depth texture is free for the next pyramid.
        gl.bind_texture(None);
        proof {
            reveal(GpuState::rec_phases);
        }
    }
}

/// Draws a scene: owns what it has on the GPU, the materials, and the lists it
/// fills for every frame.
pub struct Renderer {
    pub gpu: GpuState,
    pub registry: MaterialRegistry,
    pub query_frame: usize,
    pub batches: Batches,
}

impl Renderer {
    /// Everything is in order, and each material has its place in the material
    /// buffer.
    pub open spec fn wf(self) -> bool {
        &&& self.gpu.wf()
        &&& self.registry@.wf()
        &&& self.registry@.all.len() <= self.gpu.material_buf.capacity
    }

    /// The arena's buffers are older than what is created from now on.
    pub open spec fn known(self, r: Recording) -> bool {
        &&& self.gpu.arena.vertex_buf.handle < r.next_id
        &&& self.gpu.arena.index_buf.handle < r.next_id
    }

    /// Whether everything is as it is created, with objects numbered from `first`
    /// on: the arena is empty, the target is one pixel, and there is no pyramid.
    pub open spec fn is_new(self, first: int) -> bool {
        &&& self.gpu.vao == first
        &&& self.gpu.arena.vertex_buf.handle == first + 1
        &&& self.gpu.arena.vertex_buf.capacity == MAX_VERTICES
        &&& self.gpu.arena.index_buf.handle == first + 2
        &&& self.gpu.arena.index_buf.capacity == MAX_INDICES
        &&& self.gpu.arena.next_vertex == 0
        &&& self.gpu.arena.next_index == 0
        &&& self.gpu.per_instance.instance.handle == first + 3
        &&& self.gpu.per_instance.culled.handle == first + 4
        &&& self.gpu.per_batch.indirect.handle == first + 5
        &&& self.gpu.per_instance.culled_p2.handle == first + 6
        &&& self.gpu.per_batch.indirect_p2.handle == first + 7
        &&& self.gpu.per_instance.bounding.handle == first + 8
        &&& self.gpu.per_instance.batch_index.handle == first + 9
        &&& self.gpu.per_batch.base.handle == first + 10
        &&& self.gpu.per_instance.visible.handle == first + 11
        &&& self.gpu.per_instance.instance.capacity == MAX_DRAWS
        &&& self.gpu.per_batch.indirect.capacity == MAX_DRAWS
        &&& self.gpu.draw_count == first + 12
        &&& self.gpu.material_buf.handle == first + 13
        &&& self.gpu.material_buf.capacity == INITIAL_MATERIALS
        &&& self.gpu.offscreen == OffscreenTarget {
            color: (first + 14) as u32,
            depth: (first + 15) as u32,
            fbo: (first + 16) as u32,
            width: 1,
            height: 1,
        }
        &&& self.gpu.hzb == Hzb { texture: None, levels: 0, width: 0, height: 0 }
        &&& self.gpu.stat_queries@ == seq![
            QuerySet::numbered(first + 17),
            QuerySet::numbered(first + 21),
        ]
    }

    /// The fixed state: reversed depth (near is 1, far is 0), culling of back
    /// faces, and the clear color.
    pub open spec fn rec_state(r: Recording) -> Recording {
        r.call(GlCall::Enable { capability: DEPTH_TEST }).call(
            GlCall::DepthFunc { func: GREATER },
        ).call(GlCall::ClearDepth { depth: 0 }).call(GlCall::DepthRange { near: ONE, far: 0 }).call(
            GlCall::Enable { capability: CULL_FACE },
        ).call(GlCall::CullFaceMode { face: BACK }).call(
            GlCall::ClearColor {
                red: CLEAR_RED,
                green: CLEAR_GREEN,
                blue: CLEAR_BLUE,
                alpha: ONE,
            },
        )
    }

    /// The vertex array, the arena and the buffers of a frame.
    pub open spec fn rec_buffers(r: Recording) -> Recording {
        let usage = BufferUsage::DynamicDraw;
        let n = MAX_DRAWS as int;
        let r0 = GpuArena::rec_new(
            r.create(ObjectKind::VertexArray).call(
                GlCall::BindVertexArray { array: Some(r.next_id as u32) },
            ),
            MAX_VERTICES as int,
            MAX_INDICES as int,
        );
        let r1 = GlBuffer::<InstanceData>::rec_new(r0, n, usage);
        let r2 = GlBuffer::<InstanceData>::rec_new(r1, n, usage);
        let r3 = GlBuffer::<DrawCommand>::rec_new(r2, n, usage);
        let r4 = GlBuffer::<InstanceData>::rec_new(r3, n, usage);
        let r5 = GlBuffer::<DrawCommand>::rec_new(r4, n, usage);
        let r6 = GlBuffer::<BoundingSphere>::rec_new(r5, n, usage);
        let r7 = GlBuffer::<u32>::rec_new(r6, n, usage);
        let r8 = GlBuffer::<u32>::rec_new(r7, n, usage);
        GlBuffer::<u32>::rec_new(r8, n, usage)
    }

    /// The buffer for the number of draws, which is 0.
    pub open spec fn rec_count_buffer(r: Recording) -> Recording {
        r.create(ObjectKind::Buffer).bind_buffer(
            SHADER_STORAGE_BUFFER,
            Some(r.next_id as u32),
        ).data(seq![0]).call(
            GlCall::BufferData {
                target: SHADER_STORAGE_BUFFER,
                start: r.payload.len() as usize,
                count: 1,
                usage: DYNAMIC_DRAW,
            },
        ).bind_buffer(SHADER_STORAGE_BUFFER, None)
    }

    /// The material buffer, with the default material in it.
    pub open spec fn rec_materials(r: Recording, default: GpuMaterial) -> Recording {
        let buf = GlBuffer::<GpuMaterial> {
            handle: r.next_id as u32,
            capacity: INITIAL_MATERIALS,
            marker: std::marker::PhantomData,
        };
        buf.rec_upload(
            GlBuffer::<GpuMaterial>::rec_new(r, INITIAL_MATERIALS as int, BufferUsage::StaticDraw),
            all_words(seq![default]),
            0,
        )
    }

    /// Creation of a renderer.
    pub open spec fn rec_new(r: Recording, default: GpuMaterial) -> Recording {
        let r1 = Self::rec_count_buffer(Self::rec_buffers(Self::rec_state(r)));
        let r2 = OffscreenTarget::rec_new(Self::rec_materials(r1, default), 1, 1);
        QuerySet::rec_new(QuerySet::rec_new(r2))
    }

    /// Create a renderer that draws with the given programs. The first material
    /// is `default`.
    pub fn new(
        gl: &mut CommandList,
        main_shader: Shader,
        cull_shader: Shader,
        hzb_shader: Shader,
        default: GpuMaterial,
    ) -> (renderer: Renderer)
        requires
            old(gl)@.next_id + 24 < u32::MAX,
            main_shader.wf(),
            cull_shader.wf(),
            hzb_shader.wf(),
        ensures
            renderer.wf(),
            renderer.known(final(gl)@),
            renderer.gpu.main_shader == main_shader,
            renderer.gpu.cull_shader == cull_shader,
            renderer.gpu.hzb_shader == hzb_shader,
            renderer.is_new(old(gl)@.next_id),
            renderer.registry@ == (Materials { all: seq![default], static_end: None }),
            renderer.query_frame == 0,
            renderer.batches.groups(Seq::empty()),
            final(gl)@ == Self::rec_new(old(gl)@, default),
    {
        gl.call(GlCall::Enable { capability: DEPTH_TEST });
        gl.call(GlCall::DepthFunc { func: GREATER });
        gl.call(GlCall::ClearDepth { depth: 0 });
        gl.call(GlCall::DepthRange { near: ONE, far: 0 });
        gl.call(GlCall::Enable { capability: CULL_FACE });
        gl.call(GlCall::CullFaceMode { face: BACK });
        gl.call(
            GlCall::ClearColor {
                red: CLEAR_RED,
                green: CLEAR_GREEN,
                blue: CLEAR_BLUE,
                alpha: ONE,
            },
        );
        assert(gl@ == Self::rec_state(old(gl)@));

        let vao = gl.create(ObjectKind::VertexArray);
        gl.call(GlCall::BindVertexArray { array: Some(vao) });
        let arena = GpuArena::new(gl, MAX_VERTICES, MAX_INDICES);
        let usage = BufferUsage::DynamicDraw;
        let instance = GlBuffer::new(gl, MAX_DRAWS, usage);
        let culled = GlBuffer::new(gl, MAX_DRAWS, usage);
        let indirect = GlBuffer::new(gl, MAX_DRAWS, usage);
        let culled_p2 = GlBuffer::new(gl, MAX_DRAWS, usage);
        let indirect_p2 = GlBuffer::new(gl, MAX_DRAWS, usage);
        let bounding = GlBuffer::new(gl, MAX_DRAWS, usage);
        let batch_index = GlBuffer::new(gl, MAX_DRAWS, usage);
        let base = GlBuffer::new(gl, MAX_DRAWS, usage);
        let visible = GlBuffer::new(gl, MAX_DRAWS, usage);
        assert(gl@ == Self::rec_buffers(Self::rec_state(old(gl)@)));

        let draw_count = gl.create(ObjectKind::Buffer);
        gl.bind_buffer(SHADER_STORAGE_BUFFER, Some(draw_count));
        let start = gl.mark();
        gl.push_word(0);
        gl.call(
            GlCall::BufferData {
                target: SHADER_STORAGE_BUFFER,
                start,
                count: 1,
                usage: DYNAMIC_DRAW,
            },
        );
        gl.bind_buffer(SHADER_STORAGE_BUFFER, None);

        let material_buf = GlBuffer::new(gl, INITIAL_MATERIALS, BufferUsage::StaticDraw);
        let registry = MaterialRegistry::new(default);
        let first: [GpuMaterial; 1] = [default];
        assert(first@ =~= seq![default]);
        material_buf.upload_subrange(gl, &first, 0);

        // A placeholder, resized by the first frame.
        let offscreen = OffscreenTarget::new(gl, 1, 1);

        let even = QuerySet::new(gl);
        let odd = QuerySet::new(gl);
        let stat_queries: [QuerySet; 2] = [even, odd];

        Renderer {
            gpu: GpuState {
                main_shader,
                cull_shader,
                hzb_shader,
                vao,
                arena,
                per_instance: InstanceBuffers {
                    instance,
                    culled,
                    culled_p2,
                    bounding,
                    batch_index,
                    visible,
                },
                per_batch: BatchBuffers { indirect, indirect_p2, base },
                draw_count,
                material_buf,
                offscreen,
                hzb: Hzb::new(),
                stat_queries,
            },
            registry,
            query_frame: 0,
            batches: Batches::new(),
        }
    }

    /// Put a mesh into the arena.
    pub fn upload_mesh(
        &mut self,
        gl: &mut CommandList,
        vertices: &[PackedVertex],
        indices: &[u32],
    ) -> (alloc: MeshAlloc)
        requires
            old(self).wf(),
            old(self).known(old(gl)@),
            old(self).gpu.arena.has_room(vertices@.len(), indices@.len()),
            old(gl)@.next_id + 1 < u32::MAX,
        ensures
            final(self).wf(),
            final(self).known(final(gl)@),
            alloc == old(self).gpu.arena.next_alloc(vertices@.len(), indices@.len()),
            *final(self) == (Renderer {
                gpu: GpuState {
                    arena: old(self).gpu.arena.pushed(
                        old(gl)@,
                        vertices@.len(),
                        indices@.len(),
                    ),
                    ..old(self).gpu
                },
                ..*old(self)
            }),
            final(gl)@ == old(self).gpu.arena.rec_push(old(gl)@, vertices@, indices@),
    {
        self.gpu.arena.push_mesh(gl, vertices, indices)
    }

    /// Writing of a material to its place, for which room is made.
    pub open spec fn rec_material(
        self,
        r: Recording,
        materials: int,
        idx: int,
        mat: GpuMaterial,
    ) -> Recording {
        roomy(self.gpu.material_buf, r, materials).rec_upload(
            rec_roomy(self.gpu.material_buf, r, materials, BufferUsage::StaticDraw),
            all_words(seq![mat]),
            idx,
        )
    }

    /// The renderer with the given materials, and room for them.
    pub open spec fn with_materials(
        self,
        r: Recording,
        materials: Materials,
        after: Renderer,
    ) -> bool {
        &&& after.gpu == GpuState {
            material_buf: roomy(self.gpu.material_buf, r, materials.all.len() as int),
            ..self.gpu
        }
        &&& after.registry@ == materials
        &&& after.query_frame == self.query_frame
        &&& after.batches == self.batches
    }

    /// Add a static material; returns its index.
    pub fn add_static_material(&mut self, gl: &mut CommandList, mat: GpuMaterial) -> (idx: u32)
        requires
            old(self).wf(),
            old(self).registry@.static_end is None,
            old(self).registry@.all.len() < u32::MAX,
            room_exists(old(self).gpu.material_buf, old(self).registry@.all.len() + 1int),
            old(gl)@.next_id < u32::MAX,
        ensures
            final(self).wf(),
            idx == old(self).registry@.all.len(),
            old(self).with_materials(old(gl)@, old(self).registry@.with(mat), *final(self)),
            final(gl)@ == old(self).rec_material(
                old(gl)@,
                old(self).registry@.all.len() + 1int,
                idx as int,
                mat,
            ),
            old(gl)@.next_id <= final(gl)@.next_id <= old(gl)@.next_id + 1,
    {
        let idx = self.registry.add_static(mat);
        self.upload_material_to_gpu(gl, idx, mat);
        idx
    }

    /// Close the static materials; returns how many there are.
    pub fn seal_static_materials(&mut self) -> (end: usize)
        requires
            old(self).wf(),
        ensures
            final(self).wf(),
            final(self).registry@ == old(self).registry@.sealed(),
            final(self).registry@.static_end == Some(end as int),
            final(self).gpu == old(self).gpu,
            final(self).query_frame == old(self).query_frame,
            final(self).batches == old(self).batches,
    {
        self.registry.seal()
    }

    /// Add a material that can be changed; returns its index.
    pub fn add_override_material(&mut self, gl: &mut CommandList, mat: GpuMaterial) -> (idx: u32)
        requires
            old(self).wf(),
            old(self).registry@.static_end is Some,
            old(self).registry@.all.len() < u32::MAX,
            room_exists(old(self).gpu.material_buf, old(self).registry@.all.len() + 1int),
            old(gl)@.next_id < u32::MAX,
        ensures
            final(self).wf(),
            idx == old(self).registry@.all.len(),
            final(self).registry@.is_override(idx as int),
            old(self).with_materials(old(gl)@, old(self).registry@.with(mat), *final(self)),
            final(gl)@ == old(self).rec_material(
                old(gl)@,
                old(self).registry@.all.len() + 1int,
                idx as int,
                mat,
            ),
            old(gl)@.next_id <= final(gl)@.next_id <= old(gl)@.next_id + 1,
    {
        let idx = self.registry.add_override(mat);
        self.upload_material_to_gpu(gl, idx, mat);
        idx
    }

    /// Change a material.
    pub fn update_override_material(&mut self, gl: &mut CommandList, idx: u32, mat: GpuMaterial)
        requires
            old(self).wf(),
            old(self).registry@.is_override(idx as int),
        ensures
            final(self).wf(),
            final(self).registry@ == old(self).registry@.replaced(idx as int, mat),
            final(self).gpu == old(self).gpu,
            final(self).query_frame == old(self).query_frame,
            final(self).batches == old(self).batches,
            final(gl)@ == old(self).gpu.material_buf.rec_upload(
                old(gl)@,
                all_words(seq![mat]),
                idx as int,
            ),
    {
        let mat = self.registry.update_override(idx, mat);
        let one: [GpuMaterial; 1] = [mat];
        assert(one@ =~= seq![mat]);
        self.gpu.material_buf.upload_subrange(gl, &one, idx as usize);
    }

    /// The material at an index.
    pub fn material(&self, idx: u32) -> (mat: Option<&GpuMaterial>)
        ensures
            mat is Some <==> idx < self.registry@.all.len(),
            mat is Some ==> *mat->0 == self.registry@.all[idx as int],
    {
        self.registry.get(idx)
    }

    /// Where the static materials end, once they have been sealed.
    pub fn static_material_end(&self) -> (end: Option<usize>)
        ensures
            end is Some <==> self.registry@.static_end is Some,
            end is Some ==> end->0 == self.registry@.static_end->0,
    {
        self.registry.static_end()
    }

    /// Whether the material at an index can be changed.
    pub fn is_override_material(&self, idx: u32) -> (yes: bool)
        ensures
            yes == self.registry@.is_override(idx as int),
    {
        self.registry.is_override(idx)
    }

    fn upload_material_to_gpu(&mut self, gl: &mut CommandList, idx: u32, mat: GpuMaterial)
        requires
            old(self).gpu.wf(),
            old(self).registry@.wf(),
            old(self).registry@.all.len() == idx + 1,
            idx <= old(self).gpu.material_buf.capacity,
            room_exists(old(self).gpu.material_buf, old(self).registry@.all.len() as int),
            old(gl)@.next_id < u32::MAX,
        ensures
            final(self).wf(),
            old(self).with_materials(old(gl)@, old(self).registry@, *final(self)),
            final(gl)@ == old(self).rec_material(
                old(gl)@,
                old(self).registry@.all.len() as int,
                idx as int,
                mat,
            ),
            old(gl)@.next_id <= final(gl)@.next_id <= old(gl)@.next_id + 1,
    {
        if self.registry.len() > self.gpu.material_buf.capacity {
            let ghost before = self.gpu.material_buf.capacity;
            assert(2 * before <= usize::MAX) by {
                assert(2 * before * 32 <= usize::MAX);
            }
            self.gpu.material_buf.grow(
                gl,
                self.gpu.material_buf.capacity * 2,
                BufferUsage::StaticDraw,
            );
        }
        let one: [GpuMaterial; 1] = [mat];
        assert(one@ =~= seq![mat]);
        self.gpu.material_buf.upload_subrange(gl, &one, idx as usize);
    }

    /// The color texture of the most recent frame.
    pub fn color_texture(&self) -> (texture: u32)
        ensures
            texture == self.gpu.offscreen.color,
    {
        self.gpu.offscreen.color_texture()
    }

    /// Copy the rendered color to the default framebuffer.
    pub fn blit_color_to_default(&self, gl: &mut CommandList, dst_w: u32, dst_h: u32)
        ensures
            final(gl)@ == self.gpu.offscreen.rec_blit(old(gl)@, dst_w, dst_h),
    {
        self.gpu.offscreen.blit_color_to_default(gl, dst_w, dst_h);
    }

    /// The texture of the depth pyramid, or none before the first frame.
    pub fn hzb_texture(&self) -> (texture: Option<u32>)
        ensures
            texture == self.gpu.hzb.texture,
    {
        self.gpu.hzb.texture
    }

    /// The number of levels of the depth pyramid (0 before the first frame).
    pub fn hzb_levels(&self) -> (levels: u32)
        ensures
            levels == self.gpu.hzb.levels,
    {
        self.gpu.hzb.levels
    }

    /// The size of the depth pyramid's first level ((0, 0) before the first
    /// frame).
    pub fn hzb_size(&self) -> (size: (u32, u32))
        ensures
            size == (self.gpu.hzb.width, self.gpu.hzb.height),
    {
        (self.gpu.hzb.width, self.gpu.hzb.height)
    }

    /// Take over programs that were built anew because their sources had changed
    /// ([`Shader::is_stale`]). Returns true if at least one program was replaced.
    pub fn try_reload_shaders(
        &mut self,
        gl: &mut CommandList,
        uniforms: &mut UniformCache,
        main: (Vec<i128>, Option<u32>),
        cull: (Vec<i128>, Option<u32>),
        hzb: (Vec<i128>, Option<u32>),
    ) -> (replaced: bool)
        requires
            old(self).wf(),
            main.0@.len() == old(self).gpu.main_shader.source_count(),
            cull.0@.len() == old(self).gpu.cull_shader.source_count(),
            hzb.0@.len() == old(self).gpu.hzb_shader.source_count(),
            main.1 is Some ==> main.0@ != old(self).gpu.main_shader.mtimes@,
            cull.1 is Some ==> cull.0@ != old(self).gpu.cull_shader.mtimes@,
            hzb.1 is Some ==> hzb.0@ != old(self).gpu.hzb_shader.mtimes@,
        ensures
            final(self).wf(),
            replaced == (main.1 is Some || cull.1 is Some || hzb.1 is Some),
            old(self).gpu.main_shader.reloaded(main.0@, main.1, final(self).gpu.main_shader),
            old(self).gpu.cull_shader.reloaded(cull.0@, cull.1, final(self).gpu.cull_shader),
            old(self).gpu.hzb_shader.reloaded(hzb.0@, hzb.1, final(self).gpu.hzb_shader),
            final(self).gpu == (GpuState {
                main_shader: final(self).gpu.main_shader,
                cull_shader: final(self).gpu.cull_shader,
                hzb_shader: final(self).gpu.hzb_shader,
                ..old(self).gpu
            }),
            reloads(
                old(self).gpu,
                (Rebuild { mtimes: main.0@, program: main.1 }),
                (Rebuild { mtimes: cull.0@, program: cull.1 }),
                (Rebuild { mtimes: hzb.0@, program: hzb.1 }),
                final(self).gpu,
            ),
            final(gl)@ == rec_reloads(
                old(self).gpu,
                old(gl)@,
                (Rebuild { mtimes: main.0@, program: main.1 }),
                (Rebuild { mtimes: cull.0@, program: cull.1 }),
                (Rebuild { mtimes: hzb.0@, program: hzb.1 }),
            ),
            final(self).registry == old(self).registry,
            final(self).query_frame == old(self).query_frame,
            final(self).batches == old(self).batches,
            final(gl)@ == old(self).gpu.hzb_shader.rec_reload(
                old(self).gpu.cull_shader.rec_reload(
                    old(self).gpu.main_shader.rec_reload(old(gl)@, main.0@, main.1),
                    cull.0@,
                    cull.1,
                ),
                hzb.0@,
                hzb.1,
            ),
            forall|p: u32, u: Uniform| #[trigger]
                final(uniforms).cached(p, u) == if (main.1 is Some && p == old(
                    self,
                ).gpu.main_shader.program) || (cull.1 is Some && p == old(
                    self,
                ).gpu.cull_shader.program) || (hzb.1 is Some && p == old(
                    self,
                ).gpu.hzb_shader.program) {
                    None::<Option<u32>>
                } else {
                    old(uniforms).cached(p, u)
                },
    {
        let a = self.gpu.main_shader.try_reload(gl, main.0, main.1, uniforms);
        let b = self.gpu.cull_shader.try_reload(gl, cull.0, cull.1, uniforms);
        let c = self.gpu.hzb_shader.try_reload(gl, hzb.0, hzb.1, uniforms);
        a || b || c
    }

    /// Whether a frame of the given drawables and size can be recorded.
    pub open spec fn can_render(
        self,
        r: Recording,
        drawables: Seq<Drawable>,
        width: u32,
        height: u32,
    ) -> bool {
        &&& self.wf()
        &&& r.next_id + 11 < u32::MAX
        &&& drawables.len() <= u32::MAX - 63
        &&& room_exists(self.gpu.per_instance.instance, drawables.len() as int)
        &&& room_exists(self.gpu.per_batch.indirect, batch_meshes(drawables).len() as int)
        &&& drawables.len() > 0 ==> {
            &&& self.gpu.hzb.texture is Some || (width, height) != (0u32, 0u32)
            &&& width <= u32::MAX - 7
            &&& height <= u32::MAX - 7
        }
    }

    /// Whether a frame of the given number of drawables and size can be recorded,
    /// whatever the drawables: there are never more batches than drawables.
    pub fn accepts(&self, gl: &CommandList, drawables: usize, width: u32, height: u32) -> (yes:
        bool)
        requires
            self.wf(),
        ensures
            yes == {
                &&& gl@.next_id + 11 < u32::MAX
                &&& drawables <= u32::MAX - 63
                &&& room_exists(self.gpu.per_instance.instance, drawables as int)
                &&& room_exists(self.gpu.per_batch.indirect, drawables as int)
                &&& drawables > 0 ==> {
                    &&& self.gpu.hzb.texture is Some || (width, height) != (0u32, 0u32)
                    &&& width <= u32::MAX - 7
                    &&& height <= u32::MAX - 7
                }
            },
            yes ==> forall|ds: Seq<Drawable>|
                ds.len() == drawables ==> #[trigger] self.can_render(gl@, ds, width, height),
    {
        let yes = gl.ids_left() > 11 && drawables <= u32::MAX as usize - 63 && can_hold(
            &self.gpu.per_instance.instance,
            drawables,
        ) && can_hold(&self.gpu.per_batch.indirect, drawables) && (drawables == 0 || ((
        self.gpu.hzb.texture.is_some() || width != 0 || height != 0) && width <= u32::MAX - 7
            && height <= u32::MAX - 7));
        proof {
            if yes {
                assert forall|ds: Seq<Drawable>| ds.len() == drawables implies
                    #[trigger] self.can_render(gl@, ds, width, height) by {
                    lemma_batch_meshes(ds);
                    let m = batch_meshes(ds).len() as int;
                    let cap = self.gpu.per_batch.indirect.capacity as int;
                    assert(crate::arena::grown(cap, m) * 20 <= crate::arena::grown(
                        cap,
                        drawables as int,
                    ) * 20);
                }
            }
        }
        yes
    }

    /// The start of a frame: the target and the pyramid fit the size, the target
    /// is bound and cleared, and the queries run.
    pub open spec fn rec_begin(self, r: Recording, width: u32, height: u32) -> Recording {
        let r1 = self.gpu.offscreen.rec_resize(r, width, height);
        let r2 = self.gpu.hzb.rec_fit(r1, width, height);
        let r3 = self.gpu.offscreen.sized(width, height).rec_bind(r2).call(
            GlCall::Clear { mask: COLOR_AND_DEPTH_BITS },
        );
        self.writes().rec_begin(r3)
    }

    /// The queries that the next frame writes.
    pub open spec fn writes(self) -> QuerySet {
        self.gpu.stat_queries[write_set(self.query_frame)]
    }

    /// The queries that the next frame reads: none, if it is the first.
    pub open spec fn reads(self) -> Option<QuerySet> {
        if self.query_frame > 0 {
            Some(self.gpu.stat_queries[read_set(self.query_frame)])
        } else {
            None
        }
    }

    /// What is on the GPU once a frame has begun.
    pub open spec fn begun(self, r: Recording, width: u32, height: u32) -> GpuState {
        GpuState {
            offscreen: self.gpu.offscreen.sized(width, height),
            hzb: self.gpu.hzb.fitted(
                self.gpu.offscreen.rec_resize(r, width, height),
                width,
                height,
            ),
            ..self.gpu
        }
    }

    /// What is on the GPU once there is room for the drawables.
    pub open spec fn readied(
        self,
        r: Recording,
        drawables: Seq<Drawable>,
        width: u32,
        height: u32,
    ) -> GpuState {
        let n = drawables.len() as int;
        let m = batch_meshes(drawables).len() as int;
        let r1 = self.rec_begin(r, width, height);
        let begun = self.begun(r, width, height);
        if n == 0 {
            begun
        } else {
            GpuState {
                per_instance: begun.per_instance.roomy(r1, n),
                per_batch: begun.per_batch.roomy(begun.per_instance.rec_roomy(r1, n), m),
                ..begun
            }
        }
    }

    /// A frame up to where culling begins: there is room for the drawables, and
    /// they have been uploaded.
    pub open spec fn rec_prepare(
        self,
        r: Recording,
        drawables: Seq<Drawable>,
        width: u32,
        height: u32,
    ) -> Recording {
        let n = drawables.len() as int;
        let m = batch_meshes(drawables).len() as int;
        let r1 = self.rec_begin(r, width, height);
        let r2 = self.gpu.per_batch.rec_roomy(self.gpu.per_instance.rec_roomy(r1, n), m);
        self.readied(r, drawables, width, height).rec_upload(r2, drawables)
    }

    /// A whole frame.
    pub open spec fn rec_render(
        self,
        r: Recording,
        drawables: Seq<Drawable>,
        view: FrameView,
        width: u32,
        height: u32,
    ) -> Recording {
        let n = drawables.len() as int;
        let m = batch_meshes(drawables).len() as int;
        if n == 0 {
            QuerySet::rec_end(self.rec_begin(r, width, height)).bind_framebuffer(None)
        } else {
            let ready = self.readied(r, drawables, width, height);
            QuerySet::rec_end(
                ready.rec_phases(
                    self.rec_prepare(r, drawables, width, height),
                    n,
                    m,
                    view,
                    width,
                    height,
                ),
            )
        }
    }

    /// Draw everything with two-phase occlusion culling, into the offscreen
    /// target, which is resized when `width` or `height` change.
    ///
    /// The queries of [`RenderedFrame::read`] are to be read once the recorded
    /// calls have been made.
    pub fn render(
        &mut self,
        gl: &mut CommandList,
        drawables: &[Drawable],
        view: &FrameView,
        width: u32,
        height: u32,
    ) -> (frame: RenderedFrame)
        requires
            old(self).can_render(old(gl)@, drawables@, width, height),
        ensures
            final(self).wf(),
            final(self).gpu == old(self).readied(old(gl)@, drawables@, width, height),
            final(self).registry == old(self).registry,
            final(self).query_frame == next_frame(old(self).query_frame),
            final(self).batches.groups(drawables@),
            frame.entities == drawables@.len(),
            frame.batches == batch_meshes(drawables@).len(),
            frame.read == old(self).reads(),
            final(gl)@ == old(self).rec_render(old(gl)@, drawables@, *view, width, height),
            old(gl)@.next_id <= final(gl)@.next_id <= old(gl)@.next_id + 11,
    {
        self.gpu.offscreen.resize(gl, width, height);
        self.gpu.hzb.fit(gl, width, height);
        self.gpu.offscreen.bind(gl);
        gl.call(GlCall::Clear { mask: COLOR_AND_DEPTH_BITS });

        let write_set = self.query_frame % 2;
        let read_set = 1 - write_set;
        self.gpu.stat_queries[write_set].begin(gl);
        assert(gl@ == old(self).rec_begin(old(gl)@, width, height));
        assert(self.gpu == old(self).begun(old(gl)@, width, height));

        // The frame before wrote the other set, if there was one.
        let read = if self.query_frame > 0 {
            Some(self.gpu.stat_queries[read_set])
        } else {
            None
        };

        self.batches.group(drawables);
        let n = self.batches.instances.len();
        let m = self.batches.meshes.len();

        if n == 0 {
            QuerySet::end(gl);
            self.query_frame = self.query_frame.wrapping_add(1);
            gl.bind_framebuffer(None);
            return RenderedFrame { entities: 0, batches: 0, read };
        }
        proof {
            lemma_batch_meshes(drawables@);
            assert forall|i: int| 0 <= i < self.batches.indices@.len() implies
                #[trigger] self.batches.indices@[i] < self.batches.meshes@.len() by {
                same_batch_iff_same_mesh(drawables@, i, i);
            }
        }
        self.batches.lay_out();

        self.gpu.per_instance.ensure(gl, n);
        self.gpu.per_batch.ensure(gl, m);
        assert(self.gpu == old(self).readied(old(gl)@, drawables@, width, height));

        self.gpu.upload(gl, &mut self.batches);
        self.gpu.draw_phases(gl, n, m, view, width, height);
        QuerySet::end(gl);

        self.query_frame = self.query_frame.wrapping_add(1);
        RenderedFrame { entities: n, batches: m, read }
    }

    /// Deletion of everything.
    pub open spec fn rec_cleanup(self, r: Recording) -> Recording {
        let g = self.gpu;
        let r1 = g.arena.index_buf.rec_cleanup(g.arena.vertex_buf.rec_cleanup(r));
        let r2 = g.per_instance.culled.rec_cleanup(g.per_instance.instance.rec_cleanup(r1));
        let r3 = g.per_instance.culled_p2.rec_cleanup(g.per_batch.indirect.rec_cleanup(r2));
        let r4 = g.per_instance.bounding.rec_cleanup(g.per_batch.indirect_p2.rec_cleanup(r3));
        let r5 = g.per_batch.base.rec_cleanup(g.per_instance.batch_index.rec_cleanup(r4));
        let r6 = rec_delete(
            g.per_instance.visible.rec_cleanup(r5),
            ObjectKind::Buffer,
            g.draw_count,
        );
        let r7 = g.hzb.rec_drop(g.offscreen.rec_cleanup(g.material_buf.rec_cleanup(r6)));
        let r8 = g.stat_queries[1].rec_cleanup(g.stat_queries[0].rec_cleanup(r7));
        let r9 = rec_delete(r8, ObjectKind::VertexArray, g.vao);
        let r10 = rec_delete(r9, ObjectKind::Program, g.hzb_shader.program);
        let r11 = rec_delete(r10, ObjectKind::Program, g.cull_shader.program);
        rec_delete(r11, ObjectKind::Program, g.main_shader.program)
    }

    /// Delete everything the renderer has on the GPU.
    pub fn cleanup(&self, gl: &mut CommandList)
        ensures
            final(gl)@ == self.rec_cleanup(old(gl)@),
    {
        let g = &self.gpu;
        g.arena.cleanup(gl);
        g.per_instance.instance.cleanup(gl);
        g.per_instance.culled.cleanup(gl);
        g.per_batch.indirect.cleanup(gl);
        g.per_instance.culled_p2.cleanup(gl);
        g.per_batch.indirect_p2.cleanup(gl);
        g.per_instance.bounding.cleanup(gl);
        g.per_instance.batch_index.cleanup(gl);
        g.per_batch.base.cleanup(gl);
        g.per_instance.visible.cleanup(gl);
        gl.call(GlCall::Delete { kind: ObjectKind::Buffer, id: g.draw_count });
        g.material_buf.cleanup(gl);
        g.offscreen.cleanup(gl);
        g.hzb.cleanup(gl);
        g.stat_queries[0].cleanup(gl);
        g.stat_queries[1].cleanup(gl);
        gl.call(GlCall::Delete { kind: ObjectKind::VertexArray, id: g.vao });
        g.hzb_shader.cleanup(gl);
        g.cull_shader.cleanup(gl);
        g.main_shader.cleanup(gl);
    }
}

} // verus!
