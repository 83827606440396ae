//! The hierarchical depth pyramid (HZB): a texture whose mip levels hold the
//! farthest depth of ever larger squares of the screen.

use crate::gl::{
    CommandList, GlCall, ObjectKind, Recording, Uniform, CLAMP_TO_EDGE, COLOR_ATTACHMENT0,
    COLOR_BUFFER_BIT, FRAMEBUFFER, NEAREST, NEAREST_MIPMAP_NEAREST, R32F, READ_ONLY, RED,
    SHADER_IMAGE_ACCESS_BARRIER_BIT, TEXTURE_2D, TEXTURE_MAG_FILTER, TEXTURE_MIN_FILTER,
    TEXTURE_SWIZZLE_B, TEXTURE_SWIZZLE_G, TEXTURE_WRAP_S, TEXTURE_WRAP_T, WRITE_ONLY,
};
use crate::shader::Shader;
use vstd::arithmetic::div_mod::lemma_div_denominator;
use vstd::arithmetic::power2::{
    lemma2_to64, lemma_pow2_pos, lemma_pow2_strictly_increases, lemma_pow2_unfold, pow2,
};
use vstd::prelude::*;

verus! {

/// As often as a side can be halved, and one: one more than its logarithm,
/// rounded down.
pub open spec fn whole_levels(side: int) -> int
    decreases side,
{
    if side <= 1 {
        1
    } else {
        1 + whole_levels(side / 2)
    }
}

/// Whether a side is so little below a power of two that their logarithms are
/// the same number in single precision.
///
/// The side is first rounded to 24 bits, and then its logarithm to the nearest
/// such number. Between 16 and 32 these are 2^-19 apart, so a logarithm less than
/// 2^-20 below a whole number becomes that number: the side is then less than
/// 11.5 / 2^24 of the power below it.
pub open spec fn rounds_up(side: int) -> bool {
    let power = pow2(whole_levels(side) as nat) as int;
    side >= 1 && (power - side) * 0x200_0000 < 23 * power
}

/// The number of mip levels of a texture whose longer side is `side`: one more
/// than its logarithm in single precision, rounded down. A texture without an
/// extent has one level.
pub open spec fn mip_levels(side: int) -> int {
    if rounds_up(side) {
        whole_levels(side) + 1
    } else {
        whole_levels(side)
    }
}

/// The length of a side at a mip level.
pub open spec fn mip_side(side: int, level: int) -> int
    decreases level,
{
    if level <= 0 {
        side
    } else if mip_side(side, level - 1) / 2 > 1 {
        mip_side(side, level - 1) / 2
    } else {
        1
    }
}

pub open spec fn longer(width: u32, height: u32) -> int {
    if width > height {
        width as int
    } else {
        height as int
    }
}

/// How many groups of `size` cover `n`.
pub open spec fn groups(n: int, size: int) -> int {
    (n + size - 1) / size
}

/// The groups of a dispatch cover everything, and none of them is idle.
pub proof fn groups_cover(n: int, size: int)
    requires
        n >= 0,
        size >= 1,
    ensures
        groups(n, size) * size >= n,
        n > 0 ==> (groups(n, size) - 1) * size < n,
{
    assert((n + size - 1) / size * size >= n && ((n + size - 1) / size - 1) * size < n)
        by (nonlinear_arith)
        requires
            n >= 0,
            size >= 1,
    ;
}

proof fn lemma_whole_levels(side: int)
    requires
        side >= 1,
    ensures
        whole_levels(side) >= 1,
        pow2((whole_levels(side) - 1) as nat) <= side < pow2(whole_levels(side) as nat),
    decreases side,
{
    if side == 1 {
        lemma_pow2_unfold(1);
        lemma2_to64();
    } else {
        lemma_whole_levels(side / 2);
        lemma_pow2_unfold(whole_levels(side) as nat);
        lemma_pow2_unfold((whole_levels(side) - 1) as nat);
    }
}

/// No texture has more than 33 levels.
pub proof fn lemma_levels_bound(side: int)
    requires
        side <= u32::MAX,
    ensures
        1 <= whole_levels(side) <= 32,
        1 <= mip_levels(side) <= 33,
{
    if side >= 1 {
        lemma_whole_levels(side);
        lemma2_to64();
        if whole_levels(side) > 32 {
            lemma_pow2_unfold(32);
            if whole_levels(side) - 1 > 32 {
                lemma_pow2_strictly_increases(32, (whole_levels(side) - 1) as nat);
            }
        }
    }
}

/// The number of mip levels is one more than the logarithm of the longer side,
/// rounded down. From 2^21 - 1 on, a side just below a power of two has the level
/// of that power too.
pub proof fn levels_are_logarithmic(side: int)
    requires
        side >= 1,
    ensures
        mip_levels(side) >= 1,
        !rounds_up(side) ==> pow2((mip_levels(side) - 1) as nat) <= side < pow2(
            mip_levels(side) as nat,
        ),
        rounds_up(side) ==> pow2((mip_levels(side) - 2) as nat) <= side < pow2(
            (mip_levels(side) - 1) as nat,
        ),
        side < 0x1F_FFFF ==> !rounds_up(side),
{
    lemma_whole_levels(side);
    lemma2_to64();
    let n = whole_levels(side);
    if side < 0x1F_FFFF {
        if n > 21 {
            if n > 22 {
                lemma_pow2_strictly_increases(21, (n - 1) as nat);
            }
            assert(false);
        }
        if n < 20 {
            lemma_pow2_strictly_increases(n as nat, 20);
        }
    }
}

/// Halving a side `level` times from half of it is halving it once more.
proof fn lemma_mip_side_halves(side: int, level: int)
    requires
        side >= 2,
        level >= 1,
    ensures
        mip_side(side, level) == mip_side(side / 2, level - 1),
    decreases level,
{
    if level > 1 {
        lemma_mip_side_halves(side, level - 1);
    } else {
        assert(mip_side(side, 0) == side);
    }
}

proof fn lemma_mip_side_of_one(level: int)
    ensures
        mip_side(1, level) == 1,
    decreases level,
{
    if level > 0 {
        lemma_mip_side_of_one(level - 1);
    }
}

/// The side of a level is the whole side divided by two as often as the level
/// says, and at least one pixel.
pub proof fn levels_are_halves(side: int, level: nat)
    requires
        side >= 1,
    ensures
        side >= pow2(level) ==> mip_side(side, level as int) == side / (pow2(level) as int),
        side < pow2(level) ==> mip_side(side, level as int) == 1,
    decreases level,
{
    lemma2_to64();
    if level > 0 {
        let below = (level - 1) as nat;
        levels_are_halves(side, below);
        lemma_pow2_unfold(level);
        lemma_pow2_pos(below);
        let p = pow2(below) as int;
        let q = side / p;
        assert(2 * p == pow2(level));
        if side >= p {
            assert(side / (2 * p) == q / 2) by {
                lemma_div_denominator(side, p, 2);
                assert(p * 2 == 2 * p);
            }
            assert(q >= 1) by (nonlinear_arith)
                requires
                    q == side / p,
                    side >= p,
                    p >= 1,
            ;
            if side >= 2 * p {
                assert(q >= 2) by (nonlinear_arith)
                    requires
                        q == side / p,
                        side >= 2 * p,
                        p >= 1,
                ;
            } else {
                assert(q < 2) by (nonlinear_arith)
                    requires
                        q == side / p,
                        side < 2 * p,
                        p >= 1,
                ;
            }
        }
    }
}

/// The levels lead down to a single pixel: at the last one either side, of
/// however long a texture, is 1.
pub proof fn last_level_is_one_pixel(side: int, longer: int)
    requires
        1 <= side <= longer,
    ensures
        mip_side(side, mip_levels(longer) - 1) == 1,
{
    lemma_whole_levels(longer);
    lemma_last_whole_level(side, longer);
    let last = whole_levels(longer) - 1;
    assert(mip_side(side, last + 1) == 1);
}

proof fn lemma_last_whole_level(side: int, longer: int)
    requires
        1 <= side <= longer,
    ensures
        mip_side(side, whole_levels(longer) - 1) == 1,
    decreases longer,
{
    if longer > 1 {
        lemma_whole_levels(longer / 2);
        if side > 1 {
            lemma_last_whole_level(side / 2, longer / 2);
            lemma_mip_side_halves(side, whole_levels(longer) - 1);
        } else {
            lemma_mip_side_of_one(whole_levels(longer) - 1);
        }
    }
}

/// A depth pyramid, or none before it has been allocated.
#[derive(Clone, Copy, Debug, PartialEq, Eq, Structural)]
pub struct Hzb {
    pub texture: Option<u32>,
    pub levels: u32,
    pub width: u32,
    pub height: u32,
}

impl Hzb {
    /// An allocated pyramid has all its levels; before that it has none.
    pub open spec fn wf(self) -> bool {
        if self.texture is Some {
            self.levels == mip_levels(longer(self.width, self.height))
        } else {
            self.levels == 0 && self.width == 0 && self.height == 0
        }
    }

    pub open spec fn rec_drop(self, r: Recording) -> Recording {
        match self.texture {
            Some(texture) => r.call(GlCall::Delete { kind: ObjectKind::Texture, id: texture }),
            None => r,
        }
    }

    /// The pyramid that is allocated next.
    pub open spec fn allocated(r: Recording, width: u32, height: u32) -> Hzb {
        Hzb {
            texture: Some(r.next_id as u32),
            levels: mip_levels(longer(width, height)) as u32,
            width,
            height,
        }
    }

    /// Storage for all levels.
    pub open spec fn rec_storage(r: Recording, width: u32, height: u32) -> Recording {
        r.create(ObjectKind::Texture).bind_texture(Some(r.next_id as u32)).call(
            GlCall::TexStorage2d {
                target: TEXTURE_2D,
                levels: mip_levels(longer(width, height)) as i32,
                format: R32F,
                width: width as i32,
                height: height as i32,
            },
        ).tex_parameter(TEXTURE_MIN_FILTER, NEAREST_MIPMAP_NEAREST).tex_parameter(
            TEXTURE_MAG_FILTER,
            NEAREST,
        ).tex_parameter(TEXTURE_WRAP_S, CLAMP_TO_EDGE).tex_parameter(
            TEXTURE_WRAP_T,
            CLAMP_TO_EDGE,
        ).tex_parameter(TEXTURE_SWIZZLE_G, RED).tex_parameter(TEXTURE_SWIZZLE_B, RED).bind_texture(
            None,
        )
    }

    /// Clearing of the first `levels` levels.
    pub open spec fn rec_clear(r: Recording, texture: u32, levels: int) -> Recording
        decreases levels,
    {
        if levels <= 0 {
            r
        } else {
            Self::rec_clear(r, texture, levels - 1).call(
                GlCall::FramebufferTexture2d {
                    target: FRAMEBUFFER,
                    attachment: COLOR_ATTACHMENT0,
                    texture,
                    level: (levels - 1) as i32,
                },
            ).call(GlCall::ClearColor { red: 0, green: 0, blue: 0, alpha: 0 }).call(
                GlCall::Clear { mask: COLOR_BUFFER_BIT },
            )
        }
    }

    /// Allocation of a pyramid, in place of the one there is.
    pub open spec fn rec_allocate(self, r: Recording, width: u32, height: u32) -> Recording {
        let r0 = self.rec_drop(r);
        let texture = r0.next_id as u32;
        let r1 = Self::rec_storage(r0, width, height);
        let fbo = r1.next_id as u32;
        Self::rec_clear(
            r1.create(ObjectKind::Framebuffer).bind_framebuffer(Some(fbo)),
            texture,
            mip_levels(longer(width, height)),
        ).bind_framebuffer(None).call(GlCall::Delete { kind: ObjectKind::Framebuffer, id: fbo })
    }

    /// The pyramid once it fits a viewport.
    pub open spec fn fitted(self, r: Recording, width: u32, height: u32) -> Hzb {
        if (self.width, self.height) != (width, height) {
            Self::allocated(r, width, height)
        } else {
            self
        }
    }

    /// Allocation of a pyramid where the viewport has changed.
    pub open spec fn rec_fit(self, r: Recording, width: u32, height: u32) -> Recording {
        if (self.width, self.height) != (width, height) {
            self.rec_allocate(r, width, height)
        } else {
            r
        }
    }

    /// Nothing is allocated.
    pub fn new() -> (hzb: Hzb)
        ensures
            hzb == (Hzb { texture: None, levels: 0, width: 0, height: 0 }),
            hzb.wf(),
    {
        Hzb { texture: None, levels: 0, width: 0, height: 0 }
    }

    fn level_count(width: u32, height: u32) -> (levels: u32)
        ensures
            levels == mip_levels(longer(width, height)),
            1 <= levels <= 33,
    {
        let longest = if width > height {
            width
        } else {
            height
        };
        let mut side = longest;
        let mut levels: u32 = 1;
        let mut power: u64 = 2;
        proof {
            lemma_levels_bound(longest as int);
            lemma2_to64();
        }
        while side > 1
            invariant
                1 <= levels,
                1 <= whole_levels(side as int),
                levels + whole_levels(side as int) - 1 == whole_levels(longest as int) <= 32,
                power == pow2(levels as nat),
                power <= 0x1_0000_0000,
            decreases side,
        {
            proof {
                lemma_levels_bound(side as int / 2);
                lemma_pow2_unfold((levels + 1) as nat);
                lemma2_to64();
                if levels + 1 < 32 {
                    lemma_pow2_strictly_increases((levels + 1) as nat, 32);
                }
            }
            side = side / 2;
            levels = levels + 1;
            power = 2 * power;
        }
        proof {
            if longest >= 1 {
                lemma_whole_levels(longest as int);
            }
        }
        if longest >= 1 && (power - longest as u64) * 0x200_0000 < 23 * power {
            levels = levels + 1;
        }
        levels
    }

    /// Allocate a pyramid for a viewport, in place of the one there is. Every
    /// level is cleared to the far value, which hides nothing.
    fn allocate(&mut self, gl: &mut CommandList, width: u32, height: u32)
        requires
            old(gl)@.next_id + 1 < u32::MAX,
        ensures
            *final(self) == Self::allocated(old(gl)@, width, height),
            final(self).wf(),
            final(gl)@ == old(self).rec_allocate(old(gl)@, width, height),
            final(gl)@.next_id == old(gl)@.next_id + 2,
    {
        match self.texture {
            Some(old) => gl.call(GlCall::Delete { kind: ObjectKind::Texture, id: old }),
            None => {},
        }
        let levels = Self::level_count(width, height);

        let texture = gl.create(ObjectKind::Texture);
        gl.bind_texture(Some(texture));
        gl.call(
            GlCall::TexStorage2d {
                target: TEXTURE_2D,
                levels: levels as i32,
                format: R32F,
                width: #[verifier::truncate] (width as i32),
                height: #[verifier::truncate] (height as i32),
            },
        );
        gl.tex_parameter(TEXTURE_MIN_FILTER, NEAREST_MIPMAP_NEAREST);
        gl.tex_parameter(TEXTURE_MAG_FILTER, NEAREST);
        gl.tex_parameter(TEXTURE_WRAP_S, CLAMP_TO_EDGE);
        gl.tex_parameter(TEXTURE_WRAP_T, CLAMP_TO_EDGE);
        // Green and blue show red, so that the depth is displayed in gray.
        gl.tex_parameter(TEXTURE_SWIZZLE_G, RED);
        gl.tex_parameter(TEXTURE_SWIZZLE_B, RED);
        gl.bind_texture(None);

        let fbo = gl.create(ObjectKind::Framebuffer);
        gl.bind_framebuffer(Some(fbo));
        let ghost before = gl@;
        let mut level: u32 = 0;
        while level < levels
            invariant
                level <= levels <= 33,
                gl@ == Self::rec_clear(before, texture, level as int),
                gl@.next_id == before.next_id,
            decreases levels - level,
        {
            gl.call(
                GlCall::FramebufferTexture2d {
                    target: FRAMEBUFFER,
                    attachment: COLOR_ATTACHMENT0,
                    texture,
                    level: level as i32,
                },
            );
            gl.call(GlCall::ClearColor { red: 0, green: 0, blue: 0, alpha: 0 });
            gl.call(GlCall::Clear { mask: COLOR_BUFFER_BIT });
            level = level + 1;
        }
        gl.bind_framebuffer(None);
        gl.call(GlCall::Delete { kind: ObjectKind::Framebuffer, id: fbo });

        self.texture = Some(texture);
        self.levels = levels;
        self.width = width;
        self.height = height;
    }

    /// Make the pyramid fit a viewport: it is allocated anew when the size has
    /// changed.
    pub fn fit(&mut self, gl: &mut CommandList, width: u32, height: u32)
        requires
            old(self).wf(),
            old(gl)@.next_id + 1 < u32::MAX,
        ensures
            *final(self) == old(self).fitted(old(gl)@, width, height),
            final(self).wf(),
            final(gl)@ == old(self).rec_fit(old(gl)@, width, height),
            old(gl)@.next_id <= final(gl)@.next_id <= old(gl)@.next_id + 2,
    {
        if self.width != width || self.height != height {
            self.allocate(gl, width, height);
        }
    }

    /// The highest level.
    pub open spec fn max_level(self) -> u32 {
        if self.levels >= 1 {
            (self.levels - 1) as u32
        } else {
            0
        }
    }

    /// The highest level, or 0.
    pub fn last_level(&self) -> (level: u32)
        ensures
            level == self.max_level(),
    {
        if self.levels >= 1 {
            self.levels - 1
        } else {
            0
        }
    }

    pub open spec fn rec_image(r: Recording, unit: u32, texture: u32, level: int, access: u32) -> Recording {
        r.call(
            GlCall::BindImageTexture { unit, texture, level: level as i32, access, format: R32F },
        )
    }

    /// One step of the reduction: from a source of the given size into a level of
    /// the given size.
    pub open spec fn rec_dispatch(
        r: Recording,
        program: u32,
        src_w: int,
        src_h: int,
        is_first: u32,
        dst_w: int,
        dst_h: int,
    ) -> Recording {
        r.call(
            GlCall::Uniform2Uint {
                program,
                name: Uniform::SrcSize,
                x: src_w as u32,
                y: src_h as u32,
            },
        ).call(GlCall::Uniform1Uint { program, name: Uniform::IsFirst, x: is_first }).call(
            GlCall::DispatchCompute {
                x: groups(dst_w, 8) as u32,
                y: groups(dst_h, 8) as u32,
                z: 1,
            },
        ).barrier(SHADER_IMAGE_ACCESS_BARRIER_BIT)
    }

    /// Reduction of all levels below `levels`: the first from the depth texture,
    /// each other one from the level above it.
    pub open spec fn rec_levels(self, r: Recording, program: u32, levels: int) -> Recording
        decreases levels,
    {
        let texture = self.texture->0;
        let w = self.width as int;
        let h = self.height as int;
        if levels <= 1 {
            Self::rec_dispatch(
                Self::rec_image(r, 2, texture, 0, WRITE_ONLY),
                program,
                w,
                h,
                1,
                w,
                h,
            )
        } else {
            let level = levels - 1;
            Self::rec_dispatch(
                Self::rec_image(
                    Self::rec_image(
                        self.rec_levels(r, program, level),
                        1,
                        texture,
                        level - 1,
                        READ_ONLY,
                    ),
                    2,
                    texture,
                    level,
                    WRITE_ONLY,
                ),
                program,
                mip_side(w, level - 1),
                mip_side(h, level - 1),
                0,
                mip_side(w, level),
                mip_side(h, level),
            )
        }
    }

    fn dispatch(
        gl: &mut CommandList,
        shader: &Shader,
        src_w: u32,
        src_h: u32,
        is_first: u32,
        dst_w: u32,
        dst_h: u32,
    )
        requires
            dst_w <= u32::MAX - 7,
            dst_h <= u32::MAX - 7,
        ensures
            final(gl)@ == Self::rec_dispatch(
                old(gl)@,
                shader.program,
                src_w as int,
                src_h as int,
                is_first,
                dst_w as int,
                dst_h as int,
            ),
    {
        shader.set_uvec2(gl, Uniform::SrcSize, src_w, src_h);
        shader.set_u32(gl, Uniform::IsFirst, is_first);
        gl.call(GlCall::DispatchCompute { x: (dst_w + 7) / 8, y: (dst_h + 7) / 8, z: 1 });
        gl.barrier(SHADER_IMAGE_ACCESS_BARRIER_BIT);
    }

    /// Fill all levels: the first from the depth texture that is bound, each
    /// other one from the level above it.
    pub fn build(&self, gl: &mut CommandList, shader: &Shader)
        requires
            self.wf(),
            self.texture is Some,
            self.width <= u32::MAX - 7,
            self.height <= u32::MAX - 7,
        ensures
            final(gl)@ == self.rec_levels(old(gl)@, shader.program, self.levels as int),
            final(gl)@.next_id == old(gl)@.next_id,
    {
        let texture = match self.texture {
            Some(texture) => texture,
            None => 0,
        };
        gl.call(
            GlCall::BindImageTexture { unit: 2, texture, level: 0, access: WRITE_ONLY, format: R32F },
        );
        Self::dispatch(gl, shader, self.width, self.height, 1, self.width, self.height);

        let mut sw = self.width;
        let mut sh = self.height;
        let mut level: u32 = 1;
        proof {
            lemma_levels_bound(longer(self.width, self.height));
        }
        while level < self.levels
            invariant
                self.wf(),
                self.texture == Some(texture),
                1 <= level <= self.levels <= 33,
                sw == mip_side(self.width as int, level - 1) <= u32::MAX - 7,
                sh == mip_side(self.height as int, level - 1) <= u32::MAX - 7,
                gl@ == self.rec_levels(old(gl)@, shader.program, level as int),
                gl@.next_id == old(gl)@.next_id,
            decreases self.levels - level,
        {
            let dw = if sw / 2 > 1 {
                sw / 2
            } else {
                1
            };
            let dh = if sh / 2 > 1 {
                sh / 2
            } else {
                1
            };
            gl.call(
                GlCall::BindImageTexture {
                    unit: 1,
                    texture,
                    level: (level - 1) as i32,
                    access: READ_ONLY,
                    format: R32F,
                },
            );
            gl.call(
                GlCall::BindImageTexture {
                    unit: 2,
                    texture,
                    level: level as i32,
                    access: WRITE_ONLY,
                    format: R32F,
                },
            );
            Self::dispatch(gl, shader, sw, sh, 0, dw, dh);
            sw = dw;
            sh = dh;
            level = level + 1;
        }
    }

    /// Delete the pyramid, if there is one.
    pub fn cleanup(&self, gl: &mut CommandList)
        ensures
            final(gl)@ == self.rec_drop(old(gl)@),
    {
        match self.texture {
            Some(texture) => gl.call(GlCall::Delete { kind: ObjectKind::Texture, id: texture }),
            None => {},
        }
    }
}

} // verus!
