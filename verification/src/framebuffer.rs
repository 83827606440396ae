//! An offscreen render target (color texture + depth texture), so that the
//! editor can show the scene inside a panel and the renderer can build a depth
//! pyramid from the depth.

use crate::gl::{
    CommandList, GlCall, ObjectKind, Recording, CLAMP_TO_EDGE, COLOR_ATTACHMENT0, COLOR_BUFFER_BIT,
    DEPTH_ATTACHMENT, DEPTH_COMPONENT, DEPTH_COMPONENT32F, DRAW_FRAMEBUFFER, FLOAT, FRAMEBUFFER,
    LINEAR, NEAREST, NONE, READ_FRAMEBUFFER, RGBA, RGBA8, TEXTURE_2D, TEXTURE_COMPARE_MODE,
    TEXTURE_MAG_FILTER, TEXTURE_MIN_FILTER, TEXTURE_WRAP_S, TEXTURE_WRAP_T, UNSIGNED_BYTE,
};
use vstd::prelude::*;

verus! {

/// A framebuffer with a color texture and a depth texture of the same size.
#[derive(Clone, Copy, Debug, PartialEq, Eq, Structural)]
pub struct OffscreenTarget {
    pub fbo: u32,
    pub color: u32,
    pub depth: u32,
    pub width: u32,
    pub height: u32,
}

/// A side of a texture is never 0.
pub open spec fn at_least_one(n: u32) -> u32 {
    if n == 0 {
        1
    } else {
        n
    }
}

fn clamp_to_one(n: u32) -> (m: u32)
    ensures
        m == at_least_one(n),
{
    if n == 0 {
        1
    } else {
        n
    }
}

impl OffscreenTarget {
    /// A target has pixels.
    pub open spec fn wf(self) -> bool {
        self.width >= 1 && self.height >= 1
    }

    /// The target that is made next.
    pub open spec fn made(r: Recording, width: u32, height: u32) -> OffscreenTarget {
        OffscreenTarget {
            color: r.next_id as u32,
            depth: (r.next_id + 1) as u32,
            fbo: (r.next_id + 2) as u32,
            width: at_least_one(width),
            height: at_least_one(height),
        }
    }

    /// The same target in another size.
    pub open spec fn sized(self, width: u32, height: u32) -> OffscreenTarget {
        OffscreenTarget { width: at_least_one(width), height: at_least_one(height), ..self }
    }

    /// Filtering and wrapping of a texture.
    pub open spec fn rec_sampling(r: Recording, filter: u32) -> Recording {
        r.tex_parameter(TEXTURE_MIN_FILTER, filter).tex_parameter(
            TEXTURE_MAG_FILTER,
            filter,
        ).tex_parameter(TEXTURE_WRAP_S, CLAMP_TO_EDGE).tex_parameter(TEXTURE_WRAP_T, CLAMP_TO_EDGE)
    }

    /// Creation of the target's objects, without storage.
    pub open spec fn rec_objects(r: Recording) -> Recording {
        let color = r.next_id as u32;
        let depth = (r.next_id + 1) as u32;
        let r1 = Self::rec_sampling(
            r.create(ObjectKind::Texture).bind_texture(Some(color)),
            LINEAR,
        );
        let r2 = Self::rec_sampling(
            r1.create(ObjectKind::Texture).bind_texture(Some(depth)),
            NEAREST,
        );
        r2.tex_parameter(TEXTURE_COMPARE_MODE, NONE).create(ObjectKind::Framebuffer)
    }

    /// Allocation of both textures in the target's size, attached to its
    /// framebuffer, which must then be complete.
    pub open spec fn rec_allocate(self, r: Recording) -> Recording {
        let w = self.width as i32;
        let h = self.height as i32;
        r.bind_texture(Some(self.color)).call(
            GlCall::TexImage2d {
                target: TEXTURE_2D,
                internal: RGBA8 as i32,
                width: w,
                height: h,
                format: RGBA,
                ty: UNSIGNED_BYTE,
            },
        ).bind_texture(Some(self.depth)).call(
            GlCall::TexImage2d {
                target: TEXTURE_2D,
                internal: DEPTH_COMPONENT32F as i32,
                width: w,
                height: h,
                format: DEPTH_COMPONENT,
                ty: FLOAT,
            },
        ).bind_framebuffer(Some(self.fbo)).call(
            GlCall::FramebufferTexture2d {
                target: FRAMEBUFFER,
                attachment: COLOR_ATTACHMENT0,
                texture: self.color,
                level: 0,
            },
        ).call(
            GlCall::FramebufferTexture2d {
                target: FRAMEBUFFER,
                attachment: DEPTH_ATTACHMENT,
                texture: self.depth,
                level: 0,
            },
        ).call(GlCall::ExpectFramebufferComplete { target: FRAMEBUFFER }).bind_framebuffer(
            None,
        ).bind_texture(None)
    }

    /// Creation of a target.
    pub open spec fn rec_new(r: Recording, width: u32, height: u32) -> Recording {
        Self::made(r, width, height).rec_allocate(Self::rec_objects(r))
    }

    /// A change of size: nothing happens when the size stays the same.
    pub open spec fn rec_resize(self, r: Recording, width: u32, height: u32) -> Recording {
        if self.sized(width, height) == self {
            r
        } else {
            self.sized(width, height).rec_allocate(r)
        }
    }

    /// Binding of the target, with the viewport set to its size.
    pub open spec fn rec_bind(self, r: Recording) -> Recording {
        r.bind_framebuffer(Some(self.fbo)).call(
            GlCall::Viewport { width: self.width as i32, height: self.height as i32 },
        )
    }

    /// Copying of the color to the default framebuffer.
    pub open spec fn rec_blit(self, r: Recording, dst_w: u32, dst_h: u32) -> Recording {
        r.call(
            GlCall::BindFramebuffer { target: READ_FRAMEBUFFER, framebuffer: Some(self.fbo) },
        ).call(GlCall::BindFramebuffer { target: DRAW_FRAMEBUFFER, framebuffer: None }).call(
            GlCall::BlitFramebuffer {
                src_width: self.width as i32,
                src_height: self.height as i32,
                dst_width: dst_w as i32,
                dst_height: dst_h as i32,
                mask: COLOR_BUFFER_BIT,
                filter: LINEAR,
            },
        ).bind_framebuffer(None)
    }

    /// Deletion of the target.
    pub open spec fn rec_cleanup(self, r: Recording) -> Recording {
        r.call(GlCall::Delete { kind: ObjectKind::Framebuffer, id: self.fbo }).call(
            GlCall::Delete { kind: ObjectKind::Texture, id: self.color },
        ).call(GlCall::Delete { kind: ObjectKind::Texture, id: self.depth })
    }

    fn set_sampling(gl: &mut CommandList, filter: u32)
        ensures
            final(gl)@ == Self::rec_sampling(old(gl)@, filter),
    {
        gl.tex_parameter(TEXTURE_MIN_FILTER, filter);
        gl.tex_parameter(TEXTURE_MAG_FILTER, filter);
        gl.tex_parameter(TEXTURE_WRAP_S, CLAMP_TO_EDGE);
        gl.tex_parameter(TEXTURE_WRAP_T, CLAMP_TO_EDGE);
    }

    /// Create a framebuffer with an RGBA8 color texture and a 32-bit float depth
    /// texture (not a renderbuffer, so the depth can be sampled).
    pub fn new(gl: &mut CommandList, width: u32, height: u32) -> (target: OffscreenTarget)
        requires
            old(gl)@.next_id + 2 < u32::MAX,
        ensures
            target == Self::made(old(gl)@, width, height),
            target.wf(),
            final(gl)@ == Self::rec_new(old(gl)@, width, height),
    {
        let width = clamp_to_one(width);
        let height = clamp_to_one(height);

        let color = gl.create(ObjectKind::Texture);
        gl.bind_texture(Some(color));
        Self::set_sampling(gl, LINEAR);

        let depth = gl.create(ObjectKind::Texture);
        gl.bind_texture(Some(depth));
        // No filtering and no comparison, so that the depth can be fetched as it is.
        Self::set_sampling(gl, NEAREST);
        gl.tex_parameter(TEXTURE_COMPARE_MODE, NONE);

        let fbo = gl.create(ObjectKind::Framebuffer);

        let target = OffscreenTarget { fbo, color, depth, width, height };
        target.allocate(gl);
        target
    }

    fn allocate(&self, gl: &mut CommandList)
        ensures
            final(gl)@ == self.rec_allocate(old(gl)@),
    {
        let width = #[verifier::truncate] (self.width as i32);
        let height = #[verifier::truncate] (self.height as i32);
        gl.bind_texture(Some(self.color));
        gl.call(
            GlCall::TexImage2d {
                target: TEXTURE_2D,
                internal: RGBA8 as i32,
                width,
                height,
                format: RGBA,
                ty: UNSIGNED_BYTE,
            },
        );
        gl.bind_texture(Some(self.depth));
        gl.call(
            GlCall::TexImage2d {
                target: TEXTURE_2D,
                internal: DEPTH_COMPONENT32F as i32,
                width,
                height,
                format: DEPTH_COMPONENT,
                ty: FLOAT,
            },
        );
        gl.bind_framebuffer(Some(self.fbo));
        gl.call(
            GlCall::FramebufferTexture2d {
                target: FRAMEBUFFER,
                attachment: COLOR_ATTACHMENT0,
                texture: self.color,
                level: 0,
            },
        );
        gl.call(
            GlCall::FramebufferTexture2d {
                target: FRAMEBUFFER,
                attachment: DEPTH_ATTACHMENT,
                texture: self.depth,
                level: 0,
            },
        );
        gl.call(GlCall::ExpectFramebufferComplete { target: FRAMEBUFFER });
        gl.bind_framebuffer(None);
        gl.bind_texture(None);
    }

    /// Reallocate storage if the requested size changed (clamps zero to 1).
    pub fn resize(&mut self, gl: &mut CommandList, width: u32, height: u32)
        ensures
            *final(self) == old(self).sized(width, height),
            final(self).wf(),
            final(gl)@ == old(self).rec_resize(old(gl)@, width, height),
    {
        let width = clamp_to_one(width);
        let height = clamp_to_one(height);
        if width == self.width && height == self.height {
            return;
        }
        self.width = width;
        self.height = height;
        self.allocate(gl);
    }

    /// Bind this framebuffer and set the viewport to its size.
    pub fn bind(&self, gl: &mut CommandList)
        ensures
            final(gl)@ == self.rec_bind(old(gl)@),
    {
        gl.bind_framebuffer(Some(self.fbo));
        gl.call(
            GlCall::Viewport {
                width: #[verifier::truncate] (self.width as i32),
                height: #[verifier::truncate] (self.height as i32),
            },
        );
    }

    /// The color texture.
    pub fn color_texture(&self) -> (texture: u32)
        ensures
            texture == self.color,
    {
        self.color
    }

    /// The depth texture.
    pub fn depth_texture(&self) -> (texture: u32)
        ensures
            texture == self.depth,
    {
        self.depth
    }

    /// Blit the color attachment to the default framebuffer, whose viewport is
    /// `dst_w` by `dst_h`.
    pub fn blit_color_to_default(&self, gl: &mut CommandList, dst_w: u32, dst_h: u32)
        ensures
            final(gl)@ == self.rec_blit(old(gl)@, dst_w, dst_h),
    {
        gl.call(GlCall::BindFramebuffer { target: READ_FRAMEBUFFER, framebuffer: Some(self.fbo) });
        gl.call(GlCall::BindFramebuffer { target: DRAW_FRAMEBUFFER, framebuffer: None });
        gl.call(
            GlCall::BlitFramebuffer {
                src_width: #[verifier::truncate] (self.width as i32),
                src_height: #[verifier::truncate] (self.height as i32),
                dst_width: #[verifier::truncate] (dst_w as i32),
                dst_height: #[verifier::truncate] (dst_h as i32),
                mask: COLOR_BUFFER_BIT,
                filter: LINEAR,
            },
        );
        gl.bind_framebuffer(None);
    }

    /// Delete the framebuffer and its textures.
    pub fn cleanup(&self, gl: &mut CommandList)
        ensures
            final(gl)@ == self.rec_cleanup(old(gl)@),
    {
        gl.call(GlCall::Delete { kind: ObjectKind::Framebuffer, id: self.fbo });
        gl.call(GlCall::Delete { kind: ObjectKind::Texture, id: self.color });
        gl.call(GlCall::Delete { kind: ObjectKind::Texture, id: self.depth });
    }
}

/// Asking for the size that a target already has does nothing, so a target that
/// is resized every frame allocates only when the size changes.
pub proof fn resize_twice_allocates_once(
    target: OffscreenTarget,
    r: Recording,
    width: u32,
    height: u32,
)
    ensures
        target.sized(width, height).rec_resize(
            target.rec_resize(r, width, height),
            width,
            height,
        ) == target.rec_resize(r, width, height),
        target.sized(width, height).sized(width, height) == target.sized(width, height),
{
}

} // verus!
