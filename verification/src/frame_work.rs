//! What a frame does on the GPU, from the first clear to the last draw.

use crate::batching::{
    batch_bases, batch_commands, batch_indices, batch_meshes, bounds_of, instances_of,
    lemma_batch_meshes, Drawable,
};
use crate::element::{all_words, lemma_all_words_len, GpuElement};
use crate::frame_buffers::{BatchBuffers, InstanceBuffers};
use crate::frame_model::{
    lemma_begin_replayable, lemma_data_replayable, lemma_grow_replayable, lemma_roomy_replayable,
    lemma_uploads_replayable,
};
use crate::gl::{
    GlCall, ObjectKind, Recording, Uniform, COLOR_AND_DEPTH_BITS, COLOR_BUFFER_BIT,
    COMMAND_BARRIER_BIT,
    DEPTH_BUFFER_BIT, FETCH_AND_IMAGE_BITS, FRAGMENT_SHADER_INVOCATIONS, PRIMITIVES_SUBMITTED,
    READ_ONLY, SHADER_IMAGE_ACCESS_BARRIER_BIT,
    SHADER_STORAGE_BARRIER_BIT, STORAGE_AND_COMMAND_BITS, TEXTURE0, TEXTURE_FETCH_BARRIER_BIT,
    TIME_ELAPSED, TRIANGLES, UNSIGNED_INT, VERTEX_SHADER_INVOCATIONS, WRITE_ONLY,
};
use crate::gl_buffer::{BufferUsage, GlBuffer};
use crate::gpu_model::{group_replay, replayable};
use crate::hzb::{groups, groups_cover, lemma_levels_bound, longer, mip_levels, mip_side, Hzb};
use crate::pipeline::{group_follow, Image, Pipeline, Trace, Value, Work};
use crate::renderer::{zeros, FrameView, GpuState, Renderer};
use crate::shader::Shader;
use crate::stats::QuerySet;
use vstd::prelude::*;

verus! {

/// Whether `x` groups of `size` reach over `n`, and the last one is needed.
pub open spec fn reaches(x: u32, size: int, n: int) -> bool {
    x * size >= n && (x - 1) * size < n
}

/// Whether a buffer is at a binding point.
pub open spec fn binds(p: Pipeline, index: u32, buffer: u32) -> bool {
    p.storage.contains_key(index) && p.storage[index] == buffer
}

/// Whether a uniform of a program has the given value.
pub open spec fn knows(p: Pipeline, program: u32, name: Uniform, value: Value) -> bool {
    p.uniforms.contains_key((program, name)) && p.uniforms[(program, name)] == value
}

/// Whether the program in use sees a uniform with the given value.
pub open spec fn sees(p: Pipeline, name: Uniform, value: Value) -> bool {
    p.program is Some && knows(p, p.program->0, name, value)
}

/// Whether a texture is on the first unit.
pub open spec fn samples(p: Pipeline, texture: Option<u32>) -> bool {
    p.textures.contains_key(TEXTURE0) && p.textures[TEXTURE0] == texture
}

/// Whether a level of a texture is bound as an image.
pub open spec fn images(p: Pipeline, unit: u32, texture: u32, level: int, access: u32) -> bool {
    p.images.contains_key(unit) && p.images[unit] == (Image { texture, level, access })
}

/// Whether a barrier makes the given kinds of access wait.
pub open spec fn waits_for(w: Work, bits: u32) -> bool {
    w.call matches GlCall::MemoryBarrier { barriers } && barriers & bits == bits
}

/// Whether the color and the depth of a framebuffer are cleared.
pub open spec fn clears(w: Work, framebuffer: u32) -> bool {
    &&& w.call matches GlCall::Clear { mask } && mask & COLOR_BUFFER_BIT == COLOR_BUFFER_BIT && mask
        & DEPTH_BUFFER_BIT == DEPTH_BUFFER_BIT
    &&& w.at.drawn_to == Some(framebuffer)
}

/// Whether all of `n` objects are culled, one to each of the threads of groups of
/// 64: their instances, bounds and batches are read, what is left is written
/// behind the starts of the batches and counted into the commands, and what the
/// first phase draws is flagged.
pub open spec fn culls(
    w: Work,
    g: GpuState,
    n: int,
    view: FrameView,
    width: u32,
    height: u32,
    second: bool,
) -> bool {
    &&& w.call matches GlCall::DispatchCompute { x, y, z } && reaches(x, 64, n) && y == 1 && z == 1
    &&& w.at.program == Some(g.cull_shader.program)
    &&& binds(w.at, 0, g.per_instance.instance.handle)
    &&& binds(w.at, 1, g.per_instance.bounding.handle)
    &&& binds(w.at, 2, g.per_instance.batch_index.handle)
    &&& binds(
        w.at,
        3,
        if second {
            g.per_batch.indirect_p2.handle
        } else {
            g.per_batch.indirect.handle
        },
    )
    &&& binds(
        w.at,
        4,
        if second {
            g.per_instance.culled_p2.handle
        } else {
            g.per_instance.culled.handle
        },
    )
    &&& binds(w.at, 5, g.per_batch.base.handle)
    &&& binds(w.at, 6, g.per_instance.visible.handle)
    &&& samples(w.at, g.hzb.texture)
    &&& sees(
        w.at,
        Uniform::Phase,
        Value::Uint(
            if second {
                1
            } else {
                0
            },
        ),
    )
    &&& sees(w.at, Uniform::TotalDraws, Value::Uint(n as u32))
    &&& sees(w.at, Uniform::FrustumPlanes, Value::Words(view.planes@))
    &&& sees(w.at, Uniform::ViewProj, Value::Words(view.view_proj@))
    &&& sees(w.at, Uniform::ScreenSize, Value::FloatsOf(width, height))
    &&& sees(w.at, Uniform::HzbMaxLevel, Value::Uint((g.hzb.levels - 1) as u32))
    &&& sees(w.at, Uniform::ProjXScale, Value::Float(view.proj_x_scale))
    &&& sees(w.at, Uniform::ProjYScale, Value::Float(view.proj_y_scale))
    &&& sees(
        w.at,
        Uniform::EyePos,
        Value::Floats(view.eye_pos@[0], view.eye_pos@[1], view.eye_pos@[2]),
    )
}

/// Whether up to `m` batches are drawn as triangles into the offscreen target,
/// from the arena, with the materials, as many as the count buffer says.
pub open spec fn draws(w: Work, g: GpuState, m: int, view: FrameView) -> bool {
    &&& w.call matches GlCall::MultiDrawElementsIndirectCount { mode, ty, max_draws } && mode
        == TRIANGLES && ty == UNSIGNED_INT && (m <= i32::MAX ==> max_draws == m)
    &&& w.at.program == Some(g.main_shader.program)
    &&& w.at.array == Some(g.vao)
    &&& w.at.elements.contains_key(Some(g.vao))
    &&& w.at.elements[Some(g.vao)] == Some(g.arena.index_buf.handle)
    &&& binds(w.at, 0, g.arena.vertex_buf.handle)
    &&& binds(w.at, 2, g.material_buf.handle)
    &&& w.at.parameter == Some(g.draw_count)
    &&& w.at.drawn_to == Some(g.offscreen.fbo)
    &&& w.at.viewport == (g.offscreen.width as i32 as int, g.offscreen.height as i32 as int)
    &&& sees(w.at, Uniform::ViewProj, Value::Words(view.view_proj@))
    &&& sees(
        w.at,
        Uniform::EyePos,
        Value::Floats(view.eye_pos@[0], view.eye_pos@[1], view.eye_pos@[2]),
    )
}

/// Whether what is drawn is what the culling has left: its instances, by the
/// commands that it has counted them into.
pub open spec fn takes_from(draw: Work, cull: Work) -> bool {
    &&& cull.at.storage.contains_key(4)
    &&& binds(draw.at, 1, cull.at.storage[4])
    &&& cull.at.storage.contains_key(3)
    &&& draw.at.indirect == Some(cull.at.storage[3])
}

/// Whether a level of the pyramid is filled: the first from the depth that was
/// drawn, each other one from the level above it. The groups of 8 by 8 threads
/// reach over both sides of the level.
pub open spec fn reduces(w: Work, hzb: Hzb, depth: u32, program: u32, level: int) -> bool {
    &&& w.call matches GlCall::DispatchCompute { x, y, z } && reaches(
        x,
        8,
        mip_side(hzb.width as int, level),
    ) && reaches(y, 8, mip_side(hzb.height as int, level)) && z == 1
    &&& w.at.program == Some(program)
    &&& hzb.texture is Some
    &&& images(w.at, 2, hzb.texture->0, level, WRITE_ONLY)
    &&& if level == 0 {
        &&& samples(w.at, Some(depth))
        &&& sees(w.at, Uniform::IsFirst, Value::Uint(1))
        &&& sees(w.at, Uniform::SrcSize, Value::Uints(hzb.width, hzb.height))
    } else {
        &&& images(w.at, 1, hzb.texture->0, level - 1, READ_ONLY)
        &&& sees(w.at, Uniform::IsFirst, Value::Uint(0))
        &&& sees(
            w.at,
            Uniform::SrcSize,
            Value::Uints(
                mip_side(hzb.width as int, level - 1) as u32,
                mip_side(hzb.height as int, level - 1) as u32,
            ),
        )
    }
}

/// Whether `b` is `a` and `by` more.
pub open spec fn extends(a: Seq<Work>, b: Seq<Work>, by: int) -> bool {
    &&& b.len() == a.len() + by
    &&& forall|i: int| 0 <= i < a.len() ==> #[trigger] b[i] == a[i]
}

/// The bits that stand for several things.
proof fn lemma_bits()
    ensures
        STORAGE_AND_COMMAND_BITS & SHADER_STORAGE_BARRIER_BIT == SHADER_STORAGE_BARRIER_BIT,
        STORAGE_AND_COMMAND_BITS & COMMAND_BARRIER_BIT == COMMAND_BARRIER_BIT,
        FETCH_AND_IMAGE_BITS & TEXTURE_FETCH_BARRIER_BIT == TEXTURE_FETCH_BARRIER_BIT,
        FETCH_AND_IMAGE_BITS & SHADER_IMAGE_ACCESS_BARRIER_BIT == SHADER_IMAGE_ACCESS_BARRIER_BIT,
        SHADER_IMAGE_ACCESS_BARRIER_BIT & SHADER_IMAGE_ACCESS_BARRIER_BIT
            == SHADER_IMAGE_ACCESS_BARRIER_BIT,
        TEXTURE_FETCH_BARRIER_BIT & TEXTURE_FETCH_BARRIER_BIT == TEXTURE_FETCH_BARRIER_BIT,
        COLOR_AND_DEPTH_BITS & COLOR_BUFFER_BIT == COLOR_BUFFER_BIT,
        COLOR_AND_DEPTH_BITS & DEPTH_BUFFER_BIT == DEPTH_BUFFER_BIT,
{
    assert(0x2040u32 & 0x2000u32 == 0x2000u32) by (bit_vector);
    assert(0x2040u32 & 0x0040u32 == 0x0040u32) by (bit_vector);
    assert(0x0028u32 & 0x0008u32 == 0x0008u32) by (bit_vector);
    assert(0x0028u32 & 0x0020u32 == 0x0020u32) by (bit_vector);
    assert(0x0020u32 & 0x0020u32 == 0x0020u32) by (bit_vector);
    assert(0x0008u32 & 0x0008u32 == 0x0008u32) by (bit_vector);
    assert(0x4100u32 & 0x4000u32 == 0x4000u32) by (bit_vector);
    assert(0x4100u32 & 0x0100u32 == 0x0100u32) by (bit_vector);
}

proof fn lemma_reaches(n: int, size: int)
    requires
        0 <= n <= u32::MAX - size + 1,
        1 <= size,
    ensures
        reaches(groups(n, size) as u32, size, n),
{
    groups_cover(n, size);
    assert(0 <= (n + size - 1) / size <= n + size - 1) by (nonlinear_arith)
        requires
            n >= 0,
            size >= 1,
    ;
    if n == 0 {
        assert((size - 1) / size == 0) by (nonlinear_arith)
            requires
                size >= 1,
        ;
        assert(groups(n, size) == 0);
        assert(0 * size >= n && (0 - 1) * size < n) by (nonlinear_arith)
            requires
                size >= 1,
                n == 0,
        ;
    }
}

proof fn lemma_mat4(past: Trace, s: Shader, r: Recording, name: Uniform, words: Seq<u32>)
    requires
        replayable(r),
        r.payload.len() + words.len() <= usize::MAX,
    ensures
        past.follow(s.rec_mat4(r, name, words)) == (Trace {
            now: past.follow(r).now.set(s.program, name, Value::Words(words)),
            ..past.follow(r)
        }),
        past.follow(s.rec_vec4_slice(r, name, words)) == (Trace {
            now: past.follow(r).now.set(s.program, name, Value::Words(words)),
            ..past.follow(r)
        }),
        replayable(s.rec_mat4(r, name, words)),
        replayable(s.rec_vec4_slice(r, name, words)),
        s.rec_mat4(r, name, words).payload.len() == r.payload.len() + words.len(),
        s.rec_vec4_slice(r, name, words).payload.len() == r.payload.len() + words.len(),
{
    broadcast use {group_follow, group_replay};

    assert(r.data(words).payload.subrange(
        r.payload.len() as int,
        (r.payload.len() + words.len()) as int,
    ) =~= words);
}

/// The uniforms of the culling are set, and nothing else changes.
#[verifier::spinoff_prover]
#[verifier::rlimit(60)]
proof fn lemma_cull_uniforms(
    past: Trace,
    g: GpuState,
    r: Recording,
    n: u32,
    view: FrameView,
    width: u32,
    height: u32,
)
    requires
        replayable(r),
        r.payload.len() + 40 <= usize::MAX,
        g.hzb.levels >= 1,
    ensures
        ({
            let t = past.follow(r);
            let r1 = g.rec_cull_uniforms(r, n, view, width, height);
            let t1 = past.follow(r1);
            &&& replayable(r1)
            &&& r1.payload.len() == r.payload.len() + 40
            &&& t1.log == t.log
            &&& t1.now == Pipeline {
                program: Some(g.cull_shader.program),
                uniforms: t1.now.uniforms,
                ..t.now
            }
            &&& sees(t1.now, Uniform::TotalDraws, Value::Uint(n))
            &&& sees(t1.now, Uniform::FrustumPlanes, Value::Words(view.planes@))
            &&& sees(t1.now, Uniform::ViewProj, Value::Words(view.view_proj@))
            &&& sees(t1.now, Uniform::ScreenSize, Value::FloatsOf(width, height))
            &&& sees(t1.now, Uniform::HzbMaxLevel, Value::Uint((g.hzb.levels - 1) as u32))
            &&& sees(t1.now, Uniform::ProjXScale, Value::Float(view.proj_x_scale))
            &&& sees(t1.now, Uniform::ProjYScale, Value::Float(view.proj_y_scale))
            &&& sees(
                t1.now,
                Uniform::EyePos,
                Value::Floats(view.eye_pos@[0], view.eye_pos@[1], view.eye_pos@[2]),
            )
        }),
{
    broadcast use {group_follow, group_replay};

    let program = g.cull_shader.program;
    let ra = r.call(GlCall::UseProgram { program: Some(program) }).call(
        GlCall::Uniform1Uint { program, name: Uniform::TotalDraws, x: n },
    );
    assert(replayable(ra));
    lemma_mat4(past, g.cull_shader, ra, Uniform::FrustumPlanes, view.planes@);
    let rb = g.cull_shader.rec_vec4_slice(ra, Uniform::FrustumPlanes, view.planes@);
    lemma_mat4(past, g.cull_shader, rb, Uniform::ViewProj, view.view_proj@);
    let rc = g.cull_shader.rec_mat4(rb, Uniform::ViewProj, view.view_proj@);
    let t1 = past.follow(g.rec_cull_uniforms(r, n, view, width, height));
    assert(t1.now.program == Some(program));
    assert(t1.now =~= Pipeline {
        program: Some(program),
        uniforms: t1.now.uniforms,
        ..past.follow(r).now
    });
}

/// Binding and dispatching of a culling phase.
#[verifier::spinoff_prover]
#[verifier::rlimit(60)]
proof fn lemma_cull(past: Trace, g: GpuState, r: Recording, second: bool, n: int)
    requires
        replayable(r),
        0 < n <= u32::MAX - 63,
        past.follow(r).now.program == Some(g.cull_shader.program),
    ensures
        ({
            let t = past.follow(r);
            let r1 = g.rec_cull(g.rec_cull_bindings(r, second), second, n);
            let t1 = past.follow(r1);
            let w = t1.log[t.log.len() as int];
            &&& replayable(r1)
            &&& r1.payload == r.payload
            &&& extends(t.log, t1.log, 2)
            &&& w.call matches GlCall::DispatchCompute { x, y, z } && reaches(x, 64, n) && y == 1
                && z == 1
            &&& waits_for(t1.log[t.log.len() + 1int], SHADER_STORAGE_BARRIER_BIT)
            &&& waits_for(t1.log[t.log.len() + 1int], COMMAND_BARRIER_BIT)
            &&& w.at == t1.now
            &&& t1.now == Pipeline {
                uniforms: t.now.uniforms.insert(
                    (g.cull_shader.program, Uniform::Phase),
                    Value::Uint(
                        if second {
                            1
                        } else {
                            0
                        },
                    ),
                ),
                storage: t1.now.storage,
                unit: TEXTURE0,
                textures: t1.now.textures,
                ..t.now
            }
            &&& samples(t1.now, g.hzb.texture)
            &&& binds(t1.now, 0, g.per_instance.instance.handle)
            &&& binds(t1.now, 1, g.per_instance.bounding.handle)
            &&& binds(t1.now, 2, g.per_instance.batch_index.handle)
            &&& binds(
                t1.now,
                3,
                if second {
                    g.per_batch.indirect_p2.handle
                } else {
                    g.per_batch.indirect.handle
                },
            )
            &&& binds(
                t1.now,
                4,
                if second {
                    g.per_instance.culled_p2.handle
                } else {
                    g.per_instance.culled.handle
                },
            )
            &&& binds(t1.now, 5, g.per_batch.base.handle)
            &&& second ==> t1.now.storage.contains_key(6) == t.now.storage.contains_key(6)
                && t1.now.storage[6] == t.now.storage[6]
            &&& !second ==> binds(t1.now, 6, g.per_instance.visible.handle)
        }),
{
    broadcast use {group_follow, group_replay};

    lemma_reaches(n, 64);
    lemma_bits();
    let t = past.follow(r);
    let r0 = g.rec_cull_bindings(r, second);
    let t0 = past.follow(r0);
    assert(t0.now =~= Pipeline { storage: t0.now.storage, ..t.now });
    assert(t0.log == t.log);
    let t1 = past.follow(g.rec_cull(r0, second, n));
    assert(t1.now =~= Pipeline {
        uniforms: t.now.uniforms.insert(
            (g.cull_shader.program, Uniform::Phase),
            Value::Uint(
                if second {
                    1
                } else {
                    0
                },
            ),
        ),
        storage: t1.now.storage,
        unit: TEXTURE0,
        textures: t1.now.textures,
        ..t.now
    });
}

/// Whether the uniforms are the same, but for those of one program with one of two
/// names.
spec fn same_uniforms(a: Pipeline, b: Pipeline, program: u32, one: Uniform, two: Uniform) -> bool {
    forall|k: (u32, Uniform)|
        #![trigger b.uniforms.contains_key(k)]
        #![trigger b.uniforms[k]]
        k != (program, one) && k != (program, two) ==> {
            &&& b.uniforms.contains_key(k) == a.uniforms.contains_key(k)
            &&& b.uniforms[k] == a.uniforms[k]
        }
}

/// Whether the camera is known to the program that draws.
spec fn camera_known(p: Pipeline, g: GpuState, view: FrameView) -> bool {
    &&& knows(p, g.main_shader.program, Uniform::ViewProj, Value::Words(view.view_proj@))
    &&& knows(
        p,
        g.main_shader.program,
        Uniform::EyePos,
        Value::Floats(view.eye_pos@[0], view.eye_pos@[1], view.eye_pos@[2]),
    )
}

/// One draw.
#[verifier::spinoff_prover]
#[verifier::rlimit(60)]
proof fn lemma_draw(past: Trace, g: GpuState, r: Recording, second: bool, m: int, view: FrameView)
    requires
        replayable(r),
        r.payload.len() + 16 <= usize::MAX,
        0 <= m,
        second ==> camera_known(past.follow(r).now, g, view),
        past.follow(r).now.drawn_to == Some(g.offscreen.fbo),
        past.follow(r).now.viewport == (
            g.offscreen.width as i32 as int,
            g.offscreen.height as i32 as int,
        ),
    ensures
        ({
            let t = past.follow(r);
            let r1 = g.rec_draw(r, second, m, view);
            let t1 = past.follow(r1);
            let w = t1.log[t.log.len() as int];
            &&& replayable(r1)
            &&& r1.payload.len() <= r.payload.len() + 16
            &&& extends(t.log, t1.log, 1)
            &&& draws(w, g, m, view)
            &&& binds(
                w.at,
                1,
                if second {
                    g.per_instance.culled_p2.handle
                } else {
                    g.per_instance.culled.handle
                },
            )
            &&& w.at.indirect == Some(
                if second {
                    g.per_batch.indirect_p2.handle
                } else {
                    g.per_batch.indirect.handle
                },
            )
            &&& w.at.running == t.now.running
            &&& camera_known(t1.now, g, view)
            &&& same_uniforms(
                t.now,
                t1.now,
                g.main_shader.program,
                Uniform::ViewProj,
                Uniform::EyePos,
            )
            &&& t1.now.storage.contains_key(6) == t.now.storage.contains_key(6)
            &&& t1.now.storage[6] == t.now.storage[6]
            &&& t1.now.unit == t.now.unit
            &&& t1.now.drawn_to == t.now.drawn_to
            &&& t1.now.viewport == t.now.viewport
            &&& t1.now.running == t.now.running
        }),
{
    broadcast use {group_follow, group_replay};

    let program = g.main_shader.program;
    let t = past.follow(r);
    let ra = g.arena.rec_bind(
        r.call(GlCall::UseProgram { program: Some(program) }).call(
            GlCall::BindVertexArray { array: Some(g.vao) },
        ),
        0,
    );
    let culled = if second {
        g.per_instance.culled_p2
    } else {
        g.per_instance.culled
    };
    let rb = g.material_buf.rec_ssbo(culled.rec_ssbo(ra, 1), 2);
    let tb = past.follow(rb);
    assert(replayable(rb) && rb.payload == r.payload);
    assert(tb.log == t.log);
    assert(tb.now.program == Some(program) && tb.now.array == Some(g.vao));
    assert(tb.now.elements[Some(g.vao)] == Some(g.arena.index_buf.handle));
    assert(binds(tb.now, 0, g.arena.vertex_buf.handle));
    assert(tb.now.uniforms == t.now.uniforms);
    lemma_mat4(past, g.main_shader, rb, Uniform::ViewProj, view.view_proj@);
    let r1 = g.rec_draw(r, second, m, view);
    let t1 = past.follow(r1);
    let w = t1.log[t.log.len() as int];
    assert(t1.log.len() == t.log.len() + 1);
    assert(w.at.program == Some(program));
    assert(t1.now.uniforms == w.at.uniforms);
}

/// The levels of the pyramid, one after another.
#[verifier::spinoff_prover]
#[verifier::rlimit(60)]
proof fn lemma_levels(past: Trace, hzb: Hzb, r: Recording, depth: u32, program: u32, levels: int)
    requires
        replayable(r),
        1 <= levels <= 33,
        past.follow(r).now.program == Some(program),
        samples(past.follow(r).now, Some(depth)),
        hzb.texture is Some,
        hzb.width <= u32::MAX - 7,
        hzb.height <= u32::MAX - 7,
    ensures
        ({
            let t = past.follow(r);
            let r1 = hzb.rec_levels(r, program, levels);
            let t1 = past.follow(r1);
            let l = t.log.len();
            &&& replayable(r1)
            &&& r1.payload == r.payload
            &&& extends(t.log, t1.log, 2 * levels)
            &&& forall|k: int|
                0 <= k < levels ==> {
                    &&& reduces(#[trigger] t1.log[l + 2 * k], hzb, depth, program, k)
                    &&& waits_for(t1.log[l + 2 * k + 1], SHADER_IMAGE_ACCESS_BARRIER_BIT)
                }
            &&& same_uniforms(t.now, t1.now, program, Uniform::SrcSize, Uniform::IsFirst)
            &&& t1.now == Pipeline {
                uniforms: t1.now.uniforms,
                images: t1.now.images,
                ..t.now
            }
        }),
    decreases levels,
{
    broadcast use {group_follow, group_replay};

    lemma_bits();
    lemma_side(hzb.width as int, levels - 1);
    lemma_side(hzb.height as int, levels - 1);
    lemma_reaches(mip_side(hzb.width as int, levels - 1), 8);
    lemma_reaches(mip_side(hzb.height as int, levels - 1), 8);
    let t = past.follow(r);
    let t1 = past.follow(hzb.rec_levels(r, program, levels));
    let l = t.log.len();
    if levels > 1 {
        lemma_levels(past, hzb, r, depth, program, levels - 1);
        let t0 = past.follow(hzb.rec_levels(r, program, levels - 1));
        assert(extends(t0.log, t1.log, 2));
        assert forall|k: int| 0 <= k < levels implies {
            &&& reduces(#[trigger] t1.log[l + 2 * k], hzb, depth, program, k)
            &&& waits_for(t1.log[l + 2 * k + 1], SHADER_IMAGE_ACCESS_BARRIER_BIT)
        } by {
            if k < levels - 1 {
                assert(t1.log[l + 2 * k] == t0.log[l + 2 * k]);
                assert(t1.log[l + 2 * k + 1] == t0.log[l + 2 * k + 1]);
            }
        }
    } else {
        assert(mip_side(hzb.width as int, 0) == hzb.width);
        assert(mip_side(hzb.height as int, 0) == hzb.height);
    }
}

proof fn lemma_side(side: int, level: int)
    requires
        0 <= side,
    ensures
        0 <= mip_side(side, level),
        mip_side(side, level) <= side || mip_side(side, level) == 1,
    decreases level,
{
    if level > 0 {
        lemma_side(side, level - 1);
    }
}

/// Whether both phases are done from the `s`-th piece of work on. In each of them
/// everything is culled, and what the culling has left is drawn once it has been
/// written. Between them the pyramid is built, level by level, from the depth
/// that the first phase has drawn, and is complete before the second culling.
pub open spec fn two_phases(
    log: Seq<Work>,
    s: int,
    g: GpuState,
    n: int,
    m: int,
    view: FrameView,
    width: u32,
    height: u32,
) -> bool {
    let last = s + 5 + 2 * g.hzb.levels;
    &&& log.len() == last + 3
    &&& culls(log[s], g, n, view, width, height, false)
    &&& waits_for(log[s + 1], SHADER_STORAGE_BARRIER_BIT)
    &&& waits_for(log[s + 1], COMMAND_BARRIER_BIT)
    &&& draws(log[s + 2], g, m, view)
    &&& takes_from(log[s + 2], log[s])
    &&& waits_for(log[s + 3], TEXTURE_FETCH_BARRIER_BIT)
    &&& waits_for(log[s + 3], SHADER_IMAGE_ACCESS_BARRIER_BIT)
    &&& forall|k: int|
        0 <= k < g.hzb.levels ==> {
            &&& reduces(
                #[trigger] log[s + 4 + 2 * k],
                g.hzb,
                g.offscreen.depth,
                g.hzb_shader.program,
                k,
            )
            &&& waits_for(log[s + 4 + 2 * k + 1], SHADER_IMAGE_ACCESS_BARRIER_BIT)
        }
    &&& waits_for(log[last - 1], TEXTURE_FETCH_BARRIER_BIT)
    &&& culls(log[last], g, n, view, width, height, true)
    &&& waits_for(log[last + 1], SHADER_STORAGE_BARRIER_BIT)
    &&& waits_for(log[last + 1], COMMAND_BARRIER_BIT)
    &&& draws(log[last + 2], g, m, view)
    &&& takes_from(log[last + 2], log[last])
}

/// Whether the culling and the drawing of both phases, from the `s`-th piece of
/// work on, is done while the given queries run.
pub open spec fn phases_run(log: Seq<Work>, s: int, levels: int, running: Map<u32, u32>) -> bool {
    let last = s + 5 + 2 * levels;
    &&& log[s].at.running == running
    &&& log[s + 2].at.running == running
    &&& log[last].at.running == running
    &&& log[last + 2].at.running == running
}

/// Whether the queries of a set run, each for what it measures.
pub open spec fn measures(running: Map<u32, u32>, q: QuerySet) -> bool {
    &&& running.contains_key(TIME_ELAPSED) && running[TIME_ELAPSED] == q.time
    &&& running.contains_key(PRIMITIVES_SUBMITTED) && running[PRIMITIVES_SUBMITTED] == q.prims
    &&& running.contains_key(VERTEX_SHADER_INVOCATIONS) && running[VERTEX_SHADER_INVOCATIONS]
        == q.vert
    &&& running.contains_key(FRAGMENT_SHADER_INVOCATIONS) && running[FRAGMENT_SHADER_INVOCATIONS]
        == q.frag
}

/// What the culling knows of the frame, whichever program is in use.
spec fn frame_known(
    p: Pipeline,
    g: GpuState,
    n: int,
    view: FrameView,
    width: u32,
    height: u32,
) -> bool {
    let c = g.cull_shader.program;
    &&& knows(p, c, Uniform::TotalDraws, Value::Uint(n as u32))
    &&& knows(p, c, Uniform::FrustumPlanes, Value::Words(view.planes@))
    &&& knows(p, c, Uniform::ViewProj, Value::Words(view.view_proj@))
    &&& knows(p, c, Uniform::ScreenSize, Value::FloatsOf(width, height))
    &&& knows(p, c, Uniform::HzbMaxLevel, Value::Uint((g.hzb.levels - 1) as u32))
    &&& knows(p, c, Uniform::ProjXScale, Value::Float(view.proj_x_scale))
    &&& knows(p, c, Uniform::ProjYScale, Value::Float(view.proj_y_scale))
    &&& knows(
        p,
        c,
        Uniform::EyePos,
        Value::Floats(view.eye_pos@[0], view.eye_pos@[1], view.eye_pos@[2]),
    )
}

/// The first phase, up to its draw.
proof fn lemma_first_phase(
    past: Trace,
    g: GpuState,
    r: Recording,
    n: int,
    m: int,
    view: FrameView,
    width: u32,
    height: u32,
)
    requires
        replayable(r),
        r.payload.len() + 56 <= usize::MAX,
        0 < n <= u32::MAX - 63,
        0 <= m,
        g.hzb.levels >= 1,
        past.follow(r).now.drawn_to == Some(g.offscreen.fbo),
        past.follow(r).now.viewport == (
            g.offscreen.width as i32 as int,
            g.offscreen.height as i32 as int,
        ),
    ensures
        ({
            let t = past.follow(r);
            let r1 = g.rec_cull_uniforms(r, n as u32, view, width, height);
            let r2 = g.rec_cull(g.rec_cull_bindings(r1, false), false, n);
            let r3 = g.rec_draw(r2, false, m, view);
            let t1 = past.follow(r3);
            let s = t.log.len() as int;
            &&& replayable(r3)
            &&& r3.payload.len() <= r.payload.len() + 56
            &&& extends(t.log, t1.log, 3)
            &&& culls(t1.log[s], g, n, view, width, height, false)
            &&& waits_for(t1.log[s + 1], SHADER_STORAGE_BARRIER_BIT)
            &&& waits_for(t1.log[s + 1], COMMAND_BARRIER_BIT)
            &&& draws(t1.log[s + 2], g, m, view)
            &&& takes_from(t1.log[s + 2], t1.log[s])
            &&& t1.log[s].at.running == t.now.running
            &&& t1.log[s + 2].at.running == t.now.running
            &&& frame_known(t1.now, g, n, view, width, height)
            &&& camera_known(t1.now, g, view)
            &&& binds(t1.now, 6, g.per_instance.visible.handle)
            &&& t1.now.drawn_to == t.now.drawn_to
            &&& t1.now.viewport == t.now.viewport
            &&& t1.now.running == t.now.running
        }),
{
    lemma_cull_uniforms(past, g, r, n as u32, view, width, height);
    let r1 = g.rec_cull_uniforms(r, n as u32, view, width, height);
    lemma_cull(past, g, r1, false, n);
    let r2 = g.rec_cull(g.rec_cull_bindings(r1, false), false, n);
    lemma_draw(past, g, r2, false, m, view);
    let t = past.follow(r);
    let t2 = past.follow(r2);
    let t3 = past.follow(g.rec_draw(r2, false, m, view));
    let s = t.log.len() as int;
    assert(t3.log[s] == t2.log[s]);
    assert(t3.log[s + 1] == t2.log[s + 1]);
    assert(frame_known(t2.now, g, n, view, width, height));
    assert(culls(t2.log[s], g, n, view, width, height, false));
    lemma_known_after_draw(t2.now, t3.now, g, n, view, width, height);
}

/// Drawing does not touch what the culling knows.
proof fn lemma_known_after_draw(
    a: Pipeline,
    b: Pipeline,
    g: GpuState,
    n: int,
    view: FrameView,
    width: u32,
    height: u32,
)
    requires
        frame_known(a, g, n, view, width, height),
        camera_known(b, g, view),
        same_uniforms(a, b, g.main_shader.program, Uniform::ViewProj, Uniform::EyePos),
    ensures
        frame_known(b, g, n, view, width, height),
{
    let c = g.cull_shader.program;
    assert(b.uniforms.contains_key((c, Uniform::TotalDraws)));
    assert(b.uniforms.contains_key((c, Uniform::FrustumPlanes)));
    assert(b.uniforms.contains_key((c, Uniform::ViewProj)));
    assert(b.uniforms.contains_key((c, Uniform::ScreenSize)));
    assert(b.uniforms.contains_key((c, Uniform::HzbMaxLevel)));
    assert(b.uniforms.contains_key((c, Uniform::ProjXScale)));
    assert(b.uniforms.contains_key((c, Uniform::ProjYScale)));
    assert(b.uniforms.contains_key((c, Uniform::EyePos)));
}

/// Building the pyramid does not touch what the culling and the drawing know.
proof fn lemma_known_after_build(
    a: Pipeline,
    b: Pipeline,
    g: GpuState,
    n: int,
    view: FrameView,
    width: u32,
    height: u32,
)
    requires
        frame_known(a, g, n, view, width, height),
        camera_known(a, g, view),
        same_uniforms(a, b, g.hzb_shader.program, Uniform::SrcSize, Uniform::IsFirst),
    ensures
        frame_known(b, g, n, view, width, height),
        camera_known(b, g, view),
{
    let c = g.cull_shader.program;
    let d = g.main_shader.program;
    assert(b.uniforms.contains_key((c, Uniform::TotalDraws)));
    assert(b.uniforms.contains_key((c, Uniform::FrustumPlanes)));
    assert(b.uniforms.contains_key((c, Uniform::ViewProj)));
    assert(b.uniforms.contains_key((c, Uniform::ScreenSize)));
    assert(b.uniforms.contains_key((c, Uniform::HzbMaxLevel)));
    assert(b.uniforms.contains_key((c, Uniform::ProjXScale)));
    assert(b.uniforms.contains_key((c, Uniform::ProjYScale)));
    assert(b.uniforms.contains_key((c, Uniform::EyePos)));
    assert(b.uniforms.contains_key((d, Uniform::ViewProj)));
    assert(b.uniforms.contains_key((d, Uniform::EyePos)));
}

/// The building of the pyramid.
proof fn lemma_build(past: Trace, g: GpuState, r: Recording)
    requires
        replayable(r),
        g.hzb.texture is Some,
        1 <= g.hzb.levels <= 33,
        g.hzb.width <= u32::MAX - 7,
        g.hzb.height <= u32::MAX - 7,
    ensures
        ({
            let t = past.follow(r);
            let r1 = g.rec_build_hzb(r);
            let t1 = past.follow(r1);
            let s = t.log.len() as int;
            &&& replayable(r1)
            &&& r1.payload == r.payload
            &&& extends(t.log, t1.log, 2 + 2 * g.hzb.levels)
            &&& waits_for(t1.log[s], TEXTURE_FETCH_BARRIER_BIT)
            &&& waits_for(t1.log[s], SHADER_IMAGE_ACCESS_BARRIER_BIT)
            &&& forall|k: int|
                0 <= k < g.hzb.levels ==> {
                    &&& reduces(
                        #[trigger] t1.log[s + 1 + 2 * k],
                        g.hzb,
                        g.offscreen.depth,
                        g.hzb_shader.program,
                        k,
                    )
                    &&& waits_for(t1.log[s + 1 + 2 * k + 1], SHADER_IMAGE_ACCESS_BARRIER_BIT)
                }
            &&& waits_for(t1.log[s + 1 + 2 * g.hzb.levels], TEXTURE_FETCH_BARRIER_BIT)
            &&& same_uniforms(
                t.now,
                t1.now,
                g.hzb_shader.program,
                Uniform::SrcSize,
                Uniform::IsFirst,
            )
            &&& t1.now.storage == t.now.storage
            &&& t1.now.drawn_to == t.now.drawn_to
            &&& t1.now.viewport == t.now.viewport
            &&& t1.now.running == t.now.running
        }),
{
    broadcast use {group_follow, group_replay};

    lemma_bits();
    let program = g.hzb_shader.program;
    let t = past.follow(r);
    let ra = r.barrier(FETCH_AND_IMAGE_BITS).call(
        GlCall::UseProgram { program: Some(program) },
    ).call(GlCall::ActiveTexture { unit: TEXTURE0 }).bind_texture(Some(g.offscreen.depth));
    let ta = past.follow(ra);
    assert(replayable(ra) && ra.payload == r.payload);
    assert(extends(t.log, ta.log, 1));
    lemma_levels(past, g.hzb, ra, g.offscreen.depth, program, g.hzb.levels as int);
    let rb = g.hzb.rec_levels(ra, program, g.hzb.levels as int);
    let tb = past.follow(rb);
    let t1 = past.follow(g.rec_build_hzb(r));
    assert(t1.log == tb.log.push(
        Work {
            call: GlCall::MemoryBarrier { barriers: TEXTURE_FETCH_BARRIER_BIT },
            at: tb.now,
        },
    ));
    let s = t.log.len() as int;
    assert(t1.log[s] == tb.log[s] && tb.log[s] == ta.log[s]);
    assert forall|i: int| 0 <= i < t.log.len() implies #[trigger] t1.log[i] == t.log[i] by {
        assert(tb.log[i] == ta.log[i]);
    }
    assert forall|k: int| 0 <= k < g.hzb.levels implies {
        &&& reduces(
            #[trigger] t1.log[s + 1 + 2 * k],
            g.hzb,
            g.offscreen.depth,
            g.hzb_shader.program,
            k,
        )
        &&& waits_for(t1.log[s + 1 + 2 * k + 1], SHADER_IMAGE_ACCESS_BARRIER_BIT)
    } by {
        let l = ta.log.len();
        assert(t1.log[s + 1 + 2 * k] == tb.log[l + 2 * k]);
        assert(t1.log[s + 1 + 2 * k + 1] == tb.log[l + 2 * k + 1]);
    }
}

/// The second phase.
proof fn lemma_second_phase(
    past: Trace,
    g: GpuState,
    r: Recording,
    n: int,
    m: int,
    view: FrameView,
    width: u32,
    height: u32,
)
    requires
        replayable(r),
        r.payload.len() + 16 <= usize::MAX,
        0 < n <= u32::MAX - 63,
        0 <= m,
        frame_known(past.follow(r).now, g, n, view, width, height),
        camera_known(past.follow(r).now, g, view),
        binds(past.follow(r).now, 6, g.per_instance.visible.handle),
        past.follow(r).now.drawn_to == Some(g.offscreen.fbo),
        past.follow(r).now.viewport == (
            g.offscreen.width as i32 as int,
            g.offscreen.height as i32 as int,
        ),
    ensures
        ({
            let t = past.follow(r);
            let r1 = r.call(GlCall::UseProgram { program: Some(g.cull_shader.program) });
            let r2 = g.rec_cull(g.rec_cull_bindings(r1, true), true, n);
            let r3 = g.rec_draw(r2, true, m, view).call(
                GlCall::UseProgram { program: None },
            ).bind_texture(None);
            let t1 = past.follow(r3);
            let s = t.log.len() as int;
            &&& extends(t.log, t1.log, 3)
            &&& culls(t1.log[s], g, n, view, width, height, true)
            &&& waits_for(t1.log[s + 1], SHADER_STORAGE_BARRIER_BIT)
            &&& waits_for(t1.log[s + 1], COMMAND_BARRIER_BIT)
            &&& draws(t1.log[s + 2], g, m, view)
            &&& takes_from(t1.log[s + 2], t1.log[s])
            &&& t1.log[s].at.running == t.now.running
            &&& t1.log[s + 2].at.running == t.now.running
            &&& t1.now.program is None
            &&& samples(t1.now, None)
        }),
{
    broadcast use {group_follow, group_replay};

    let t = past.follow(r);
    let r1 = r.call(GlCall::UseProgram { program: Some(g.cull_shader.program) });
    let t1 = past.follow(r1);
    assert(t1.log == t.log);
    lemma_cull(past, g, r1, true, n);
    let r2 = g.rec_cull(g.rec_cull_bindings(r1, true), true, n);
    let t2 = past.follow(r2);
    assert(frame_known(t2.now, g, n, view, width, height));
    assert(camera_known(t2.now, g, view));
    lemma_draw(past, g, r2, true, m, view);
    let t3 = past.follow(g.rec_draw(r2, true, m, view));
    let s = t.log.len() as int;
    assert(t3.log[s] == t2.log[s]);
    assert(t3.log[s + 1] == t2.log[s + 1]);
    assert(culls(t2.log[s], g, n, view, width, height, true));
}

/// Both phases.
#[verifier::spinoff_prover]
#[verifier::rlimit(60)]
proof fn lemma_phases(
    past: Trace,
    g: GpuState,
    r: Recording,
    n: int,
    m: int,
    view: FrameView,
    width: u32,
    height: u32,
)
    requires
        replayable(r),
        r.payload.len() + 72 <= usize::MAX,
        0 < n <= u32::MAX - 63,
        0 <= m,
        g.hzb.texture is Some,
        1 <= g.hzb.levels <= 33,
        g.hzb.width <= u32::MAX - 7,
        g.hzb.height <= u32::MAX - 7,
        past.follow(r).now.drawn_to == Some(g.offscreen.fbo),
        past.follow(r).now.viewport == (
            g.offscreen.width as i32 as int,
            g.offscreen.height as i32 as int,
        ),
    ensures
        ({
            let t = past.follow(r);
            let t1 = past.follow(g.rec_phases(r, n, m, view, width, height));
            &&& extends(t.log, t1.log, 8 + 2 * g.hzb.levels)
            &&& two_phases(t1.log, t.log.len() as int, g, n, m, view, width, height)
            &&& phases_run(t1.log, t.log.len() as int, g.hzb.levels as int, t.now.running)
            &&& t1.now.program is None
            &&& samples(t1.now, None)
        }),
{
    reveal(GpuState::rec_phases);
    let t = past.follow(r);
    lemma_first_phase(past, g, r, n, m, view, width, height);
    let r1 = g.rec_cull_uniforms(r, n as u32, view, width, height);
    let r2 = g.rec_cull(g.rec_cull_bindings(r1, false), false, n);
    let ra = g.rec_draw(r2, false, m, view);
    let ta = past.follow(ra);
    lemma_build(past, g, ra);
    let rb = g.rec_build_hzb(ra);
    let tb = past.follow(rb);
    lemma_known_after_build(ta.now, tb.now, g, n, view, width, height);
    lemma_second_phase(past, g, rb, n, m, view, width, height);
    let t1 = past.follow(g.rec_phases(r, n, m, view, width, height));
    let s = t.log.len() as int;
    let levels = g.hzb.levels as int;
    assert(extends(tb.log, t1.log, 3));
    assert forall|i: int| 0 <= i < tb.log.len() implies #[trigger] t1.log[i] == tb.log[i] by {}
    assert forall|i: int| 0 <= i < ta.log.len() implies #[trigger] t1.log[i] == ta.log[i] by {
        assert(tb.log[i] == ta.log[i]);
    }
    assert forall|i: int| 0 <= i < t.log.len() implies #[trigger] t1.log[i] == t.log[i] by {
        assert(ta.log[i] == t.log[i]);
    }
    assert(t1.log[s] == ta.log[s] && t1.log[s + 1] == ta.log[s + 1] && t1.log[s + 2] == ta.log[s
        + 2]);
    assert(t1.log[s + 3] == tb.log[s + 3]);
    assert forall|k: int| 0 <= k < levels implies {
        &&& reduces(
            #[trigger] t1.log[s + 4 + 2 * k],
            g.hzb,
            g.offscreen.depth,
            g.hzb_shader.program,
            k,
        )
        &&& waits_for(t1.log[s + 4 + 2 * k + 1], SHADER_IMAGE_ACCESS_BARRIER_BIT)
    } by {
        let l = ta.log.len() as int;
        assert(t1.log[s + 4 + 2 * k] == tb.log[l + 1 + 2 * k]);
        assert(t1.log[s + 4 + 2 * k + 1] == tb.log[l + 1 + 2 * k + 1]);
    }
    assert(t1.log[s + 4 + 2 * levels] == tb.log[s + 4 + 2 * levels]);
}

/// Whether the same framebuffer is drawn to and no work was done.
spec fn idle(a: Trace, b: Trace) -> bool {
    &&& b.log == a.log
    &&& b.now.drawn_to == a.now.drawn_to
    &&& b.now.viewport == a.now.viewport
    &&& b.now.running == a.now.running
}

proof fn lemma_grow<T: GpuElement>(
    past: Trace,
    buf: GlBuffer<T>,
    r: Recording,
    capacity: int,
    usage: BufferUsage,
)
    requires
        replayable(r),
    ensures
        idle(past.follow(r), past.follow(buf.rec_grow(r, capacity, usage))),
        replayable(buf.rec_grow(r, capacity, usage)),
        buf.rec_grow(r, capacity, usage).payload == r.payload,
{
    broadcast use group_follow;

    lemma_grow_replayable(buf, r, capacity, usage);
}

proof fn lemma_room(
    past: Trace,
    a: InstanceBuffers,
    b: BatchBuffers,
    r: Recording,
    n: int,
    m: int,
)
    requires
        replayable(r),
    ensures
        idle(past.follow(r), past.follow(b.rec_roomy(a.rec_roomy(r, n), m))),
{
    let usage = BufferUsage::DynamicDraw;
    let r0 = a.rec_roomy(r, n);
    if n > a.instance.capacity {
        let cap = crate::arena::doubled_or(a.instance.capacity as int, n);
        lemma_grow(past, a.instance, r, cap, usage);
        let r1 = a.instance.rec_grow(r, cap, usage);
        lemma_grow(past, a.culled, r1, cap, usage);
        let r2 = a.culled.rec_grow(r1, cap, usage);
        lemma_grow(past, a.culled_p2, r2, cap, usage);
        let r3 = a.culled_p2.rec_grow(r2, cap, usage);
        lemma_grow(past, a.bounding, r3, cap, usage);
        let r4 = a.bounding.rec_grow(r3, cap, usage);
        lemma_grow(past, a.batch_index, r4, cap, usage);
        let r5 = a.batch_index.rec_grow(r4, cap, usage);
        lemma_grow(past, a.visible, r5, cap, usage);
    }
    assert(idle(past.follow(r), past.follow(r0)));
    if m > b.indirect.capacity {
        let cap = crate::arena::doubled_or(b.indirect.capacity as int, m);
        lemma_grow(past, b.indirect, r0, cap, usage);
        let r1 = b.indirect.rec_grow(r0, cap, usage);
        lemma_grow(past, b.indirect_p2, r1, cap, usage);
        let r2 = b.indirect_p2.rec_grow(r1, cap, usage);
        lemma_grow(past, b.base, r2, cap, usage);
    }
}

proof fn lemma_upload<T: GpuElement>(
    past: Trace,
    buf: GlBuffer<T>,
    r: Recording,
    words: Seq<u32>,
    offset: int,
)
    requires
        replayable(r),
        r.payload.len() + words.len() <= usize::MAX,
    ensures
        idle(past.follow(r), past.follow(buf.rec_upload(r, words, offset))),
        replayable(buf.rec_upload(r, words, offset)),
        buf.rec_upload(r, words, offset).payload.len() == r.payload.len() + words.len(),
{
    broadcast use {group_follow, group_replay};

    lemma_data_replayable(buf, r, words, offset);
}

#[verifier::spinoff_prover]
#[verifier::rlimit(60)]
proof fn lemma_uploads(past: Trace, g: GpuState, r: Recording, drawables: Seq<Drawable>)
    requires
        replayable(r),
        r.payload.len() + 42 * drawables.len() + 11 * batch_meshes(drawables).len() + 1
            <= usize::MAX,
    ensures
        idle(past.follow(r), past.follow(g.rec_upload(r, drawables))),
{
    reveal(GpuState::rec_upload);
    let meshes = batch_meshes(drawables);
    let indices = batch_indices(drawables);
    let bases = batch_bases(indices, meshes.len());
    let commands = batch_commands(meshes, bases);
    lemma_all_words_len(instances_of(drawables));
    lemma_all_words_len(bounds_of(drawables));
    lemma_all_words_len(indices);
    lemma_all_words_len(bases);
    lemma_all_words_len(commands);
    lemma_all_words_len(zeros(drawables.len()));
    let wi = all_words(instances_of(drawables));
    let wb = all_words(bounds_of(drawables));
    let wc = all_words(commands);
    assert(wi.len() == 36 * drawables.len());
    assert(wb.len() == 4 * drawables.len());
    assert(all_words(indices).len() == drawables.len());
    assert(all_words(bases).len() == meshes.len());
    assert(wc.len() == 5 * meshes.len());
    assert(all_words(zeros(drawables.len())).len() == drawables.len());
    lemma_upload(past, g.per_instance.instance, r, wi, 0);
    let r1 = g.per_instance.instance.rec_upload(r, wi, 0);
    lemma_upload(past, g.per_instance.bounding, r1, wb, 0);
    let r2 = g.per_instance.bounding.rec_upload(r1, wb, 0);
    lemma_upload(past, g.per_instance.batch_index, r2, all_words(indices), 0);
    let r3 = g.per_instance.batch_index.rec_upload(r2, all_words(indices), 0);
    lemma_upload(past, g.per_batch.base, r3, all_words(bases), 0);
    let r4 = g.per_batch.base.rec_upload(r3, all_words(bases), 0);
    lemma_upload(past, g.per_batch.indirect, r4, wc, 0);
    let r5 = g.per_batch.indirect.rec_upload(r4, wc, 0);
    lemma_upload(past, g.per_batch.indirect_p2, r5, wc, 0);
    let r6 = g.per_batch.indirect_p2.rec_upload(r5, wc, 0);
    lemma_count(past, g, r6, meshes.len() as u32);
    let r7 = g.rec_draw_count(r6, meshes.len() as u32);
    lemma_upload(past, g.per_instance.visible, r7, all_words(zeros(drawables.len())), 0);
}

proof fn lemma_count(past: Trace, g: GpuState, r: Recording, m: u32)
    requires
        replayable(r),
        r.payload.len() + 1 <= usize::MAX,
    ensures
        idle(past.follow(r), past.follow(g.rec_draw_count(r, m))),
        replayable(g.rec_draw_count(r, m)),
        g.rec_draw_count(r, m).payload.len() == r.payload.len() + 1,
{
    broadcast use {group_follow, group_replay};

}

proof fn lemma_clear_levels(past: Trace, r: Recording, texture: u32, levels: int)
    requires
        0 <= levels,
    ensures
        ({
            let t = past.follow(r);
            let t1 = past.follow(Hzb::rec_clear(r, texture, levels));
            &&& extends(t.log, t1.log, levels)
            &&& forall|i: int|
                t.log.len() <= i < t1.log.len() ==> (#[trigger] t1.log[i]).call is Clear
        }),
    decreases levels,
{
    broadcast use group_follow;

    if levels > 0 {
        lemma_clear_levels(past, r, texture, levels - 1);
    }
}

/// The start of a frame: the last thing that is done is to clear the target.
#[verifier::spinoff_prover]
#[verifier::rlimit(60)]
proof fn lemma_begin(past: Trace, g: Renderer, r: Recording, width: u32, height: u32)
    requires
        replayable(r),
    ensures
        ({
            let t = past.follow(r);
            let t1 = past.follow(g.rec_begin(r, width, height));
            let to = g.gpu.offscreen.sized(width, height);
            &&& t1.log.len() > t.log.len()
            &&& extends(t.log, t1.log, t1.log.len() - t.log.len())
            &&& forall|i: int|
                t.log.len() <= i < t1.log.len() ==> (#[trigger] t1.log[i]).call is Clear
            &&& clears(t1.log.last(), to.fbo)
            &&& t1.log.last().at.viewport == (to.width as i32 as int, to.height as i32 as int)
            &&& t1.now.drawn_to == Some(to.fbo)
            &&& t1.now.viewport == (to.width as i32 as int, to.height as i32 as int)
            &&& measures(t1.now.running, g.writes())
        }),
{
    broadcast use group_follow;

    lemma_bits();
    let t = past.follow(r);
    let r1 = g.gpu.offscreen.rec_resize(r, width, height);
    assert(past.follow(r1).log == t.log);
    let r2 = g.gpu.hzb.rec_fit(r1, width, height);
    if (g.gpu.hzb.width, g.gpu.hzb.height) != (width, height) {
        let ra = Hzb::rec_storage(g.gpu.hzb.rec_drop(r1), width, height);
        assert(past.follow(ra).log == t.log);
        let fbo = ra.next_id as u32;
        let levels = mip_levels(longer(width, height));
        lemma_levels_bound(longer(width, height));
        let rb = ra.create(ObjectKind::Framebuffer).bind_framebuffer(Some(fbo));
        assert(past.follow(rb).log == t.log);
        lemma_clear_levels(
            past,
            rb,
            g.gpu.hzb.rec_drop(r1).next_id as u32,
            levels,
        );
    }
    let t2 = past.follow(r2);
    assert(t2.log.len() >= t.log.len());
    assert(extends(t.log, t2.log, t2.log.len() - t.log.len()));
    let to = g.gpu.offscreen.sized(width, height);
    let r3 = to.rec_bind(r2).call(GlCall::Clear { mask: COLOR_AND_DEPTH_BITS });
    let t3 = past.follow(r3);
    assert(t3.log == t2.log.push(t3.log.last()));
    assert(clears(t3.log.last(), to.fbo));
}

/// A frame with objects clears the offscreen target and then goes through its two
/// phases. Everything else that it does on the GPU comes before that: a pyramid
/// of another size is cleared. Both phases are measured by the queries of the
/// frame. Afterwards no program is in use, and the depth texture is free.
#[verifier::spinoff_prover]
#[verifier::rlimit(60)]
pub proof fn frames_do_their_work(
    past: Trace,
    g: Renderer,
    r: Recording,
    drawables: Seq<Drawable>,
    view: FrameView,
    width: u32,
    height: u32,
)
    requires
        replayable(r),
        g.can_render(r, drawables, width, height),
        drawables.len() > 0,
        r.payload.len() + 42 * drawables.len() + 11 * batch_meshes(drawables).len() + 73
            <= usize::MAX,
    ensures
        ({
            let before = past.follow(r).log;
            let after = past.follow(g.rec_render(r, drawables, view, width, height));
            let log = after.log;
            let gpu = g.readied(r, drawables, width, height);
            let s = log.len() - 8 - 2 * gpu.hzb.levels;
            &&& before.len() < s
            &&& extends(before, log, log.len() - before.len())
            &&& clears(log[s - 1], gpu.offscreen.fbo)
            &&& two_phases(
                log,
                s,
                gpu,
                drawables.len() as int,
                batch_meshes(drawables).len() as int,
                view,
                width,
                height,
            )
            &&& measures(log[s].at.running, g.writes())
            &&& phases_run(log, s, gpu.hzb.levels as int, log[s].at.running)
            &&& after.now.program is None
            &&& samples(after.now, None)
            &&& (gpu.hzb.width, gpu.hzb.height) == (width, height)
            &&& gpu.offscreen.width == if width == 0 {
                1
            } else {
                width
            }
            &&& gpu.offscreen.height == if height == 0 {
                1
            } else {
                height
            }
        }),
{
    let n = drawables.len() as int;
    let m = batch_meshes(drawables).len() as int;
    let t = past.follow(r);
    let gpu = g.readied(r, drawables, width, height);
    lemma_batch_meshes(drawables);
    lemma_begin(past, g, r, width, height);
    lemma_begin_replayable(g, r, width, height);
    let r1 = g.rec_begin(r, width, height);
    let t1 = past.follow(r1);
    lemma_room(past, g.gpu.per_instance, g.gpu.per_batch, r1, n, m);
    lemma_roomy_replayable(g.gpu.per_instance, g.gpu.per_batch, r1, n, m);
    let r2 = g.gpu.per_batch.rec_roomy(g.gpu.per_instance.rec_roomy(r1, n), m);
    lemma_uploads(past, gpu, r2, drawables);
    lemma_uploads_replayable(gpu, r2, drawables);
    let r3 = g.rec_prepare(r, drawables, width, height);
    let t3 = past.follow(r3);
    assert(idle(t1, t3));
    lemma_levels_bound(longer(width, height));
    lemma_phases(past, gpu, r3, n, m, view, width, height);
    let r4 = gpu.rec_phases(r3, n, m, view, width, height);
    let t4 = past.follow(r4);
    lemma_end(past, r4);
    assert(t4.log[t3.log.len() - 1] == t3.log[t3.log.len() - 1]);
    assert forall|i: int| 0 <= i < t.log.len() implies #[trigger] t4.log[i] == t.log[i] by {
        assert(t3.log[i] == t1.log[i]);
        assert(t1.log[i] == t.log[i]);
    }
}

proof fn lemma_end(past: Trace, r: Recording)
    ensures
        past.follow(QuerySet::rec_end(r)) == (Trace {
            now: Pipeline {
                running: past.follow(QuerySet::rec_end(r)).now.running,
                ..past.follow(r).now
            },
            ..past.follow(r)
        }),
{
    broadcast use group_follow;

}

/// A frame without objects clears the offscreen target, and does nothing else but
/// to clear a pyramid of another size before that. Afterwards the default
/// framebuffer is bound.
pub proof fn empty_frames_only_clear(
    past: Trace,
    g: Renderer,
    r: Recording,
    view: FrameView,
    width: u32,
    height: u32,
)
    requires
        replayable(r),
    ensures
        ({
            let before = past.follow(r).log;
            let after = past.follow(g.rec_render(r, Seq::empty(), view, width, height));
            &&& before.len() < after.log.len()
            &&& extends(before, after.log, after.log.len() - before.len())
            &&& clears(after.log.last(), g.gpu.offscreen.fbo)
            &&& forall|i: int|
                before.len() <= i < after.log.len() ==> (#[trigger] after.log[i]).call is Clear
            &&& after.now.drawn_to is None
        }),
{
    broadcast use group_follow;

    lemma_begin(past, g, r, width, height);
    let r1 = g.rec_begin(r, width, height);
    lemma_end(past, r1);
}

} // verus!
