//! What is drawn to: the storage of textures, what framebuffers consist of, the
//! depth test, and what has been cleared and copied.

use crate::batching::{batch_meshes, Drawable};
use crate::element::GpuElement;
use crate::frame_buffers::{BatchBuffers, InstanceBuffers};
use crate::framebuffer::OffscreenTarget;
use crate::gl::{
    GlCall, ObjectKind, Recording, BACK, CLAMP_TO_EDGE, COLOR_ATTACHMENT0, COLOR_BUFFER_BIT,
    CULL_FACE, DEPTH_ATTACHMENT, DEPTH_BUFFER_BIT, DEPTH_COMPONENT32F, DEPTH_TEST,
    DRAW_FRAMEBUFFER, FRAMEBUFFER, LINEAR, NEAREST, NEAREST_MIPMAP_NEAREST, NONE, R32F,
    READ_FRAMEBUFFER, RED, RGBA8, TEXTURE_COMPARE_MODE, TEXTURE_MAG_FILTER, TEXTURE_MIN_FILTER,
    TEXTURE_SWIZZLE_B, TEXTURE_SWIZZLE_G, TEXTURE_WRAP_S, TEXTURE_WRAP_T,
};
use crate::gl_buffer::{BufferUsage, GlBuffer};
use crate::hzb::{lemma_levels_bound, longer, mip_levels, Hzb};
use crate::materials::GpuMaterial;
use crate::renderer::{FrameView, GpuState, Renderer};
use crate::stats::QuerySet;
use vstd::arithmetic::power2::pow2;
use vstd::prelude::*;

verus! {

/// The storage of a texture.
pub struct Storage {
    pub format: int,
    pub levels: int,
    pub width: int,
    pub height: int,
}

/// A copy from one framebuffer to another.
pub struct Copied {
    pub from: Option<u32>,
    pub to: Option<u32>,
    pub src: (int, int),
    pub dst: (int, int),
    pub mask: u32,
    pub filter: u32,
}

/// Textures, framebuffers, and how is drawn to them.
#[verifier::ext_equal]
pub struct Targets {
    pub texture: Option<u32>,
    pub storage: Map<u32, Storage>,
    pub params: Map<(u32, u32), int>,
    pub drawn_to: Option<u32>,
    pub read_from: Option<u32>,
    /// The texture and the level at each attachment of a framebuffer.
    pub attached: Map<(u32, u32), (u32, int)>,
    pub enabled: Set<u32>,
    pub depth_func: u32,
    pub depth_range: (u32, u32),
    pub clear_depth: u32,
    pub clear_color: (u32, u32, u32, u32),
    pub culled_face: u32,
    /// What each level of a texture was last cleared to, as a color or as depth.
    pub colors: Map<(u32, int), (u32, u32, u32, u32)>,
    pub depths: Map<(u32, int), u32>,
    pub copies: Seq<Copied>,
}

impl Targets {
    /// A texture gets storage. A texture that nothing is bound to gets none.
    pub open spec fn store(self, storage: Storage) -> Targets {
        match self.texture {
            Some(t) => Targets { storage: self.storage.insert(t, storage), ..self },
            None => self,
        }
    }

    /// What is attached to the framebuffer that is drawn to.
    pub open spec fn attachment(self, attachment: u32) -> Option<(u32, int)> {
        match self.drawn_to {
            Some(f) => if self.attached.contains_key((f, attachment)) {
                Some(self.attached[(f, attachment)])
            } else {
                None
            },
            None => None,
        }
    }

    /// What is cleared.
    pub open spec fn clear(self, mask: u32) -> Targets {
        Targets {
            colors: match self.attachment(COLOR_ATTACHMENT0) {
                Some(a) => if mask & COLOR_BUFFER_BIT == COLOR_BUFFER_BIT {
                    self.colors.insert(a, self.clear_color)
                } else {
                    self.colors
                },
                None => self.colors,
            },
            depths: match self.attachment(DEPTH_ATTACHMENT) {
                Some(a) => if mask & DEPTH_BUFFER_BIT == DEPTH_BUFFER_BIT {
                    self.depths.insert(a, self.clear_depth)
                } else {
                    self.depths
                },
                None => self.depths,
            },
            ..self
        }
    }

    /// After one call.
    pub open spec fn step(self, c: GlCall) -> Targets {
        match c {
            GlCall::BindTexture { target, texture } => Targets { texture, ..self },
            GlCall::TexParameter { target, name, value } => match self.texture {
                Some(t) => Targets {
                    params: self.params.insert((t, name), value as int),
                    ..self
                },
                None => self,
            },
            GlCall::TexImage2d { target, internal, width, height, format, ty } => self.store(
                Storage {
                    format: internal as int,
                    levels: 1,
                    width: width as int,
                    height: height as int,
                },
            ),
            GlCall::TexStorage2d { target, levels, format, width, height } => self.store(
                Storage {
                    format: format as int,
                    levels: levels as int,
                    width: width as int,
                    height: height as int,
                },
            ),
            GlCall::BindFramebuffer { target, framebuffer } => if target == FRAMEBUFFER {
                Targets { drawn_to: framebuffer, read_from: framebuffer, ..self }
            } else if target == DRAW_FRAMEBUFFER {
                Targets { drawn_to: framebuffer, ..self }
            } else if target == READ_FRAMEBUFFER {
                Targets { read_from: framebuffer, ..self }
            } else {
                self
            },
            GlCall::FramebufferTexture2d { target, attachment, texture, level } => {
                match self.drawn_to {
                    Some(f) => Targets {
                        attached: self.attached.insert((f, attachment), (texture, level as int)),
                        ..self
                    },
                    None => self,
                }
            },
            GlCall::Enable { capability } => Targets {
                enabled: self.enabled.insert(capability),
                ..self
            },
            GlCall::DepthFunc { func } => Targets { depth_func: func, ..self },
            GlCall::DepthRange { near, far } => Targets { depth_range: (near, far), ..self },
            GlCall::ClearDepth { depth } => Targets { clear_depth: depth, ..self },
            GlCall::ClearColor { red, green, blue, alpha } => Targets {
                clear_color: (red, green, blue, alpha),
                ..self
            },
            GlCall::CullFaceMode { face } => Targets { culled_face: face, ..self },
            GlCall::Clear { mask } => self.clear(mask),
            GlCall::BlitFramebuffer { src_width, src_height, dst_width, dst_height, mask, filter } => {
                Targets {
                    copies: self.copies.push(
                        Copied {
                            from: self.read_from,
                            to: self.drawn_to,
                            src: (src_width as int, src_height as int),
                            dst: (dst_width as int, dst_height as int),
                            mask,
                            filter,
                        },
                    ),
                    ..self
                }
            },
            _ => self,
        }
    }

    pub open spec fn through(self, calls: Seq<GlCall>) -> Targets
        decreases calls.len(),
    {
        if calls.len() == 0 {
            self
        } else {
            self.through(calls.drop_last()).step(calls.last())
        }
    }

    /// After a whole recording.
    pub open spec fn after(self, r: Recording) -> Targets {
        self.through(r.calls)
    }
}

pub broadcast proof fn lemma_targets_call(t: Targets, r: Recording, c: GlCall)
    ensures
        #[trigger] t.after(r.call(c)) == t.after(r).step(c),
{
    assert(r.call(c).calls.drop_last() =~= r.calls);
}

pub broadcast proof fn lemma_targets_create(t: Targets, r: Recording, kind: ObjectKind)
    ensures
        #[trigger] t.after(r.create(kind)) == t.after(r),
{
    assert(r.create(kind).calls.drop_last() =~= r.calls);
}

pub broadcast proof fn lemma_targets_data(t: Targets, r: Recording, words: Seq<u32>)
    ensures
        #[trigger] t.after(r.data(words)) == t.after(r),
{
}

pub broadcast group group_targets {
    lemma_targets_call,
    lemma_targets_create,
    lemma_targets_data,
}

/// Whether a parameter of a texture has the given value.
pub open spec fn is_set(t: Targets, texture: u32, name: u32, value: u32) -> bool {
    t.params.contains_key((texture, name)) && t.params[(texture, name)] == value
}

/// Whether a texture is looked up in the given way, and not beyond its edges.
pub open spec fn is_sampled(t: Targets, texture: u32, min: u32, mag: u32) -> bool {
    &&& is_set(t, texture, TEXTURE_MIN_FILTER, min)
    &&& is_set(t, texture, TEXTURE_MAG_FILTER, mag)
    &&& is_set(t, texture, TEXTURE_WRAP_S, CLAMP_TO_EDGE)
    &&& is_set(t, texture, TEXTURE_WRAP_T, CLAMP_TO_EDGE)
}

/// Whether a texture has storage for one level.
pub open spec fn has_storage(
    t: Targets,
    texture: u32,
    format: u32,
    width: u32,
    height: u32,
) -> bool {
    &&& t.storage.contains_key(texture)
    &&& t.storage[texture].format == format
    &&& t.storage[texture].levels == 1
    &&& width <= i32::MAX ==> t.storage[texture].width == width
    &&& height <= i32::MAX ==> t.storage[texture].height == height
}

/// Whether a level of a texture is attached to a framebuffer.
pub open spec fn attaches(t: Targets, fbo: u32, attachment: u32, texture: u32, level: int) -> bool {
    t.attached.contains_key((fbo, attachment)) && t.attached[(fbo, attachment)] == (texture, level)
}

/// Whether a target can be drawn to: its framebuffer consists of a color texture
/// and a depth texture, both of its size.
pub open spec fn can_be_drawn_to(t: Targets, o: OffscreenTarget) -> bool {
    &&& attaches(t, o.fbo, COLOR_ATTACHMENT0, o.color, 0)
    &&& attaches(t, o.fbo, DEPTH_ATTACHMENT, o.depth, 0)
    &&& has_storage(t, o.color, RGBA8, o.width, o.height)
    &&& has_storage(t, o.depth, DEPTH_COMPONENT32F, o.width, o.height)
}

/// Whether the color of a target is shown smoothly, and its depth can be fetched
/// as it is.
pub open spec fn can_be_read(t: Targets, o: OffscreenTarget) -> bool {
    &&& is_sampled(t, o.color, LINEAR, LINEAR)
    &&& is_sampled(t, o.depth, NEAREST, NEAREST)
    &&& is_set(t, o.depth, TEXTURE_COMPARE_MODE, NONE)
}

proof fn lemma_allocated(t: Targets, o: OffscreenTarget, r: Recording)
    requires
        o.color != o.depth,
    ensures
        ({
            let t1 = t.after(o.rec_allocate(r));
            &&& can_be_drawn_to(t1, o)
            &&& t1.texture is None
            &&& t1.drawn_to is None
            &&& t1.params == t.after(r).params
            &&& forall|k: (u32, u32)| #[trigger]
                t1.attached.contains_key(k) ==> t.after(r).attached.contains_key(k) || k.0 == o.fbo
        }),
{
    broadcast use group_targets;

}

/// A new target can be drawn to and read, in the size that was asked for, and at
/// least one pixel. Nothing stays bound.
pub proof fn new_targets_are_complete(t: Targets, r: Recording, width: u32, height: u32)
    requires
        0 <= r.next_id,
        r.next_id + 2 < u32::MAX,
    ensures
        ({
            let o = OffscreenTarget::made(r, width, height);
            let t1 = t.after(OffscreenTarget::rec_new(r, width, height));
            &&& can_be_drawn_to(t1, o)
            &&& can_be_read(t1, o)
            &&& t1.texture is None
            &&& t1.drawn_to is None
            &&& width >= 1 ==> o.width == width
            &&& height >= 1 ==> o.height == height
            &&& o.width >= 1
            &&& o.height >= 1
        }),
{
    broadcast use group_targets;

    let o = OffscreenTarget::made(r, width, height);
    let r1 = OffscreenTarget::rec_objects(r);
    assert(can_be_read(t.after(r1), o));
    lemma_allocated(t, o, r1);
}

/// A target that was resized can be drawn to in its new size, through the same
/// framebuffer and with the same textures, and is read as before.
pub proof fn resized_targets_are_complete(
    t: Targets,
    o: OffscreenTarget,
    r: Recording,
    width: u32,
    height: u32,
)
    requires
        o.wf(),
        o.color != o.depth,
        can_be_drawn_to(t.after(r), o),
    ensures
        ({
            let after = o.sized(width, height);
            let t1 = t.after(o.rec_resize(r, width, height));
            &&& can_be_drawn_to(t1, after)
            &&& t1.params == t.after(r).params
            &&& width >= 1 ==> after.width == width
            &&& height >= 1 ==> after.height == height
            &&& (after.fbo, after.color, after.depth) == (o.fbo, o.color, o.depth)
            &&& forall|k: (u32, u32)| #[trigger]
                t1.attached.contains_key(k) ==> t.after(r).attached.contains_key(k) || k.0 == o.fbo
        }),
{
    lemma_allocated(t, o.sized(width, height), r);
}

/// A blit copies the color of the whole target to the default framebuffer, and
/// no depth. Afterwards the default framebuffer is bound.
pub proof fn blits_copy_the_color(
    t: Targets,
    o: OffscreenTarget,
    r: Recording,
    dst_w: u32,
    dst_h: u32,
)
    ensures
        ({
            let before = t.after(r);
            let after = t.after(o.rec_blit(r, dst_w, dst_h));
            let c = after.copies.last();
            &&& after.copies.len() == before.copies.len() + 1
            &&& after.copies.drop_last() == before.copies
            &&& c.from == Some(o.fbo)
            &&& c.to is None
            &&& o.width <= i32::MAX ==> c.src.0 == o.width
            &&& o.height <= i32::MAX ==> c.src.1 == o.height
            &&& dst_w <= i32::MAX ==> c.dst.0 == dst_w
            &&& dst_h <= i32::MAX ==> c.dst.1 == dst_h
            &&& c.mask & COLOR_BUFFER_BIT == COLOR_BUFFER_BIT
            &&& c.mask & DEPTH_BUFFER_BIT == 0
            &&& c.filter == LINEAR
            &&& after.drawn_to is None
            &&& after.read_from is None
        }),
{
    broadcast use group_targets;

    assert(0x4000u32 & 0x4000u32 == 0x4000u32) by (bit_vector);
    assert(0x4000u32 & 0x0100u32 == 0) by (bit_vector);
    let before = t.after(r);
    let after = t.after(o.rec_blit(r, dst_w, dst_h));
    assert(after.copies.drop_last() =~= before.copies);
}

/// Whether the depth test and everything that goes with it are the same.
pub open spec fn same_depth_test(a: Targets, b: Targets) -> bool {
    &&& b.enabled == a.enabled
    &&& b.depth_func == a.depth_func
    &&& b.depth_range == a.depth_range
    &&& b.clear_depth == a.clear_depth
    &&& b.culled_face == a.culled_face
}

/// Clearing of the levels of a pyramid, through a framebuffer.
proof fn lemma_clear_levels(t: Targets, r: Recording, fbo: u32, texture: u32, levels: int)
    requires
        0 <= levels <= 33,
        t.after(r).drawn_to == Some(fbo),
        !t.after(r).attached.contains_key((fbo, DEPTH_ATTACHMENT)),
    ensures
        ({
            let before = t.after(r);
            let t1 = t.after(Hzb::rec_clear(r, texture, levels));
            &&& forall|k: int|
                0 <= k < levels ==> {
                    &&& #[trigger] t1.colors.contains_key((texture, k))
                    &&& t1.colors[(texture, k)] == (0u32, 0u32, 0u32, 0u32)
                }
            &&& same_depth_test(before, t1)
            &&& t1.texture == before.texture
            &&& t1.drawn_to == before.drawn_to
            &&& t1.storage == before.storage
            &&& t1.params == before.params
            &&& t1.depths == before.depths
            &&& forall|k: (u32, u32)|
                #![trigger t1.attached.contains_key(k)]
                #![trigger t1.attached[k]]
                k != (fbo, COLOR_ATTACHMENT0) ==> {
                    &&& t1.attached.contains_key(k) == before.attached.contains_key(k)
                    &&& t1.attached[k] == before.attached[k]
                }
        }),
    decreases levels,
{
    broadcast use group_targets;

    assert(0x4000u32 & 0x4000u32 == 0x4000u32) by (bit_vector);
    assert(0x4000u32 & 0x0100u32 == 0) by (bit_vector);
    if levels > 0 {
        lemma_clear_levels(t, r, fbo, texture, levels - 1);
        let t0 = t.after(Hzb::rec_clear(r, texture, levels - 1));
        assert(!t0.attached.contains_key((fbo, DEPTH_ATTACHMENT)));
        let t1 = t.after(Hzb::rec_clear(r, texture, levels));
        assert(t1.colors == t0.colors.insert((texture, levels - 1), (0u32, 0u32, 0u32, 0u32)));
    }
}

/// Whether a pyramid has room for all of its levels, each of which holds the far
/// value, which hides nothing, and whether it is read as it is, and shown in gray.
pub open spec fn is_fresh_pyramid(t: Targets, hzb: Hzb) -> bool {
    &&& hzb.texture is Some
    &&& {
        let texture = hzb.texture->0;
        &&& t.storage.contains_key(texture)
        &&& t.storage[texture].format == R32F
        &&& t.storage[texture].levels == hzb.levels
        &&& hzb.width <= i32::MAX ==> t.storage[texture].width == hzb.width
        &&& hzb.height <= i32::MAX ==> t.storage[texture].height == hzb.height
        &&& is_sampled(t, texture, NEAREST_MIPMAP_NEAREST, NEAREST)
        &&& is_set(t, texture, TEXTURE_SWIZZLE_G, RED)
        &&& is_set(t, texture, TEXTURE_SWIZZLE_B, RED)
        &&& forall|k: int|
            0 <= k < hzb.levels ==> {
                &&& #[trigger] t.colors.contains_key((texture, k))
                &&& t.colors[(texture, k)] == (0u32, 0u32, 0u32, 0u32)
            }
    }
}

/// Whether what belongs to objects that are older than `next` is the same.
pub open spec fn same_elsewhere(a: Targets, b: Targets, next: int) -> bool {
    &&& forall|k: (u32, u32)|
        #![trigger b.attached.contains_key(k)]
        #![trigger b.attached[k]]
        k.0 < next ==> {
            &&& b.attached.contains_key(k) == a.attached.contains_key(k)
            &&& b.attached[k] == a.attached[k]
        }
    &&& forall|k: (u32, u32)|
        #![trigger b.params.contains_key(k)]
        #![trigger b.params[k]]
        k.0 < next ==> {
            &&& b.params.contains_key(k) == a.params.contains_key(k)
            &&& b.params[k] == a.params[k]
        }
    &&& forall|k: u32|
        #![trigger b.storage.contains_key(k)]
        #![trigger b.storage[k]]
        k < next ==> {
            &&& b.storage.contains_key(k) == a.storage.contains_key(k)
            &&& b.storage[k] == a.storage[k]
        }
}

/// A pyramid for another viewport is allocated with all its levels, each cleared
/// to the far value; it takes the size of the viewport. The depth test stays as
/// it is, and so do the older textures and framebuffers.
#[verifier::spinoff_prover]
#[verifier::rlimit(60)]
pub proof fn new_pyramids_hide_nothing(
    t: Targets,
    hzb: Hzb,
    r: Recording,
    width: u32,
    height: u32,
)
    requires
        0 <= r.next_id,
        r.next_id + 1 < u32::MAX,
        (hzb.width, hzb.height) != (width, height),
        !t.after(r).attached.contains_key(((r.next_id + 1) as u32, DEPTH_ATTACHMENT)),
    ensures
        ({
            let after = hzb.fitted(r, width, height);
            let t1 = t.after(hzb.rec_fit(r, width, height));
            &&& is_fresh_pyramid(t1, after)
            &&& (after.width, after.height) == (width, height)
            &&& after.texture == Some(r.next_id as u32)
            &&& same_depth_test(t.after(r), t1)
            &&& same_elsewhere(t.after(r), t1, r.next_id)
            &&& t1.depths == t.after(r).depths
            &&& t1.texture is None
            &&& forall|k: (u32, u32)| #[trigger]
                t1.attached.contains_key(k) ==> t.after(r).attached.contains_key(k) || k.0
                    == r.next_id + 1
        }),
{
    broadcast use group_targets;

    lemma_levels_bound(longer(width, height));
    let r0 = hzb.rec_drop(r);
    let r1 = Hzb::rec_storage(r0, width, height);
    let fbo = r1.next_id as u32;
    let r2 = r1.create(ObjectKind::Framebuffer).bind_framebuffer(Some(fbo));
    let texture = r.next_id as u32;
    assert(t.after(r0) == t.after(r));
    let ta = t.after(r2);
    assert(ta.drawn_to == Some(fbo));
    assert(ta.attached == t.after(r).attached);
    let levels = mip_levels(longer(width, height));
    lemma_clear_levels(t, r2, fbo, texture, levels);
    let t1 = t.after(hzb.rec_fit(r, width, height));
    let tb = t.after(Hzb::rec_clear(r2, texture, levels));
    assert(t1.colors == tb.colors);
    assert(t1.attached == tb.attached);
    assert(is_fresh_pyramid(t1, hzb.fitted(r, width, height)));
}

/// The value of a float that is not negative, in units of the smallest one.
pub open spec fn units(bits: u32) -> int {
    let exponent = (bits / 0x80_0000) as int;
    let fraction = (bits % 0x80_0000) as int;
    if exponent == 0 {
        fraction
    } else {
        (0x80_0000 + fraction) * pow2((exponent - 1) as nat)
    }
}

/// The depth of a point that is `z` of `whole` on the way from the near plane to
/// the far plane, in units of `whole`-ths.
pub open spec fn window_depth(range: (u32, u32), z: int, whole: int) -> int {
    units(range.0) * (whole - z) + units(range.1) * z
}

/// Whether a fragment passes the depth test against what is there.
pub open spec fn passes(func: u32, incoming: int, stored: int) -> bool {
    match func {
        0x0200 => false,
        0x0201 => incoming < stored,
        0x0202 => incoming == stored,
        0x0203 => incoming <= stored,
        0x0204 => incoming > stored,
        0x0205 => incoming != stored,
        0x0206 => incoming >= stored,
        _ => true,
    }
}

/// Whether the nearest fragment wins: it passes against the cleared depth and
/// against everything behind it, and nothing behind it passes against it. What
/// has been cleared hides nothing but what lies on the far plane.
pub open spec fn nearest_wins(t: Targets) -> bool {
    &&& t.enabled.contains(DEPTH_TEST)
    &&& forall|z: int, whole: int|
        #![trigger window_depth(t.depth_range, z, whole)]
        0 <= z < whole ==> passes(
            t.depth_func,
            window_depth(t.depth_range, z, whole),
            units(t.clear_depth) * whole,
        )
    &&& forall|near: int, far: int, whole: int|
        #![trigger window_depth(t.depth_range, near, whole), window_depth(
            t.depth_range,
            far,
            whole,
        )]
        0 <= near < far <= whole ==> {
            &&& passes(
                t.depth_func,
                window_depth(t.depth_range, near, whole),
                window_depth(t.depth_range, far, whole),
            )
            &&& !passes(
                t.depth_func,
                window_depth(t.depth_range, far, whole),
                window_depth(t.depth_range, near, whole),
            )
        }
}

/// Depth is reversed: the near plane has the depth 1 and the far plane 0.
pub open spec fn depth_is_reversed(t: Targets) -> bool {
    &&& units(t.depth_range.1) == 0
    &&& units(t.depth_range.0) == 0x80_0000 * pow2(126)
    &&& units(t.clear_depth) == units(t.depth_range.1)
}

proof fn lemma_reversed(t: Targets)
    requires
        t.enabled.contains(DEPTH_TEST),
        t.depth_func == 0x0204,
        t.depth_range == (0x3F80_0000u32, 0u32),
        t.clear_depth == 0,
    ensures
        nearest_wins(t),
        depth_is_reversed(t),
{
    let one = units(0x3F80_0000);
    assert(0x3F80_0000u32 / 0x80_0000 == 127);
    assert(0x3F80_0000u32 % 0x80_0000 == 0);
    assert(one == 0x80_0000 * pow2(126));
    vstd::arithmetic::power2::lemma_pow2_pos(126);
    assert(one > 0);
    assert(units(0) == 0);
    assert forall|z: int, whole: int|
        #![trigger window_depth(t.depth_range, z, whole)]
        0 <= z < whole implies passes(
        t.depth_func,
        window_depth(t.depth_range, z, whole),
        units(t.clear_depth) * whole,
    ) by {
        assert(one * (whole - z) + 0 * z > 0 * whole) by (nonlinear_arith)
            requires
                one > 0,
                z < whole,
        ;
    }
    assert forall|near: int, far: int, whole: int|
        #![trigger window_depth(t.depth_range, near, whole), window_depth(
            t.depth_range,
            far,
            whole,
        )]
        0 <= near < far <= whole implies {
        &&& passes(
            t.depth_func,
            window_depth(t.depth_range, near, whole),
            window_depth(t.depth_range, far, whole),
        )
        &&& !passes(
            t.depth_func,
            window_depth(t.depth_range, far, whole),
            window_depth(t.depth_range, near, whole),
        )
    } by {
        assert(one * (whole - near) + 0 * near > one * (whole - far) + 0 * far)
            by (nonlinear_arith)
            requires
                one > 0,
                near < far,
        ;
    }
}

/// Whether only the texture that is bound may be another one.
spec fn quiet(a: Targets, b: Targets) -> bool {
    b == Targets { texture: b.texture, ..a }
}

proof fn lemma_buffer<T: GpuElement>(
    t: Targets,
    buf: GlBuffer<T>,
    r: Recording,
    capacity: int,
    usage: BufferUsage,
    words: Seq<u32>,
    offset: int,
)
    ensures
        t.after(GlBuffer::<T>::rec_new(r, capacity, usage)) == t.after(r),
        t.after(buf.rec_grow(r, capacity, usage)) == t.after(r),
        t.after(buf.rec_upload(r, words, offset)) == t.after(r),
{
    broadcast use group_targets;

}

proof fn lemma_room(
    t: Targets,
    a: InstanceBuffers,
    b: BatchBuffers,
    r: Recording,
    n: int,
    m: int,
)
    ensures
        t.after(b.rec_roomy(a.rec_roomy(r, n), m)) == t.after(r),
{
    let usage = BufferUsage::DynamicDraw;
    let none = Seq::<u32>::empty();
    let r0 = a.rec_roomy(r, n);
    if n > a.instance.capacity {
        let cap = crate::arena::doubled_or(a.instance.capacity as int, n);
        lemma_buffer(t, a.instance, r, cap, usage, none, 0);
        let r1 = a.instance.rec_grow(r, cap, usage);
        lemma_buffer(t, a.culled, r1, cap, usage, none, 0);
        let r2 = a.culled.rec_grow(r1, cap, usage);
        lemma_buffer(t, a.culled_p2, r2, cap, usage, none, 0);
        let r3 = a.culled_p2.rec_grow(r2, cap, usage);
        lemma_buffer(t, a.bounding, r3, cap, usage, none, 0);
        let r4 = a.bounding.rec_grow(r3, cap, usage);
        lemma_buffer(t, a.batch_index, r4, cap, usage, none, 0);
        let r5 = a.batch_index.rec_grow(r4, cap, usage);
        lemma_buffer(t, a.visible, r5, cap, usage, none, 0);
    }
    if m > b.indirect.capacity {
        let cap = crate::arena::doubled_or(b.indirect.capacity as int, m);
        lemma_buffer(t, b.indirect, r0, cap, usage, none, 0);
        let r1 = b.indirect.rec_grow(r0, cap, usage);
        lemma_buffer(t, b.indirect_p2, r1, cap, usage, none, 0);
        let r2 = b.indirect_p2.rec_grow(r1, cap, usage);
        lemma_buffer(t, b.base, r2, cap, usage, none, 0);
    }
}

proof fn lemma_uploads(t: Targets, g: GpuState, r: Recording, drawables: Seq<Drawable>)
    ensures
        t.after(g.rec_upload(r, drawables)) == t.after(r),
{
    broadcast use group_targets;

    reveal(GpuState::rec_upload);
}

proof fn lemma_levels(t: Targets, hzb: Hzb, r: Recording, program: u32, levels: int)
    ensures
        t.after(hzb.rec_levels(r, program, levels)) == t.after(r),
    decreases levels,
{
    broadcast use group_targets;

    if levels > 1 {
        lemma_levels(t, hzb, r, program, levels - 1);
    }
}

#[verifier::spinoff_prover]
#[verifier::rlimit(60)]
proof fn lemma_phases(
    t: Targets,
    g: GpuState,
    r: Recording,
    n: int,
    m: int,
    view: FrameView,
    width: u32,
    height: u32,
)
    ensures
        quiet(t.after(r), t.after(g.rec_phases(r, n, m, view, width, height))),
{
    broadcast use group_targets;

    reveal(GpuState::rec_phases);
    let r1 = g.rec_cull_uniforms(r, n as u32, view, width, height);
    assert(t.after(r1) == t.after(r));
    let r2 = g.rec_cull(g.rec_cull_bindings(r1, false), false, n);
    assert(quiet(t.after(r), t.after(r2)));
    let drawn = g.rec_draw(r2, false, m, view);
    assert(t.after(drawn) == t.after(r2));
    let program = g.hzb_shader.program;
    let start = drawn.barrier(crate::gl::FETCH_AND_IMAGE_BITS).call(
        GlCall::UseProgram { program: Some(program) },
    ).call(GlCall::ActiveTexture { unit: crate::gl::TEXTURE0 }).bind_texture(
        Some(g.offscreen.depth),
    );
    assert(quiet(t.after(r), t.after(start)));
    lemma_levels(t, g.hzb, start, program, g.hzb.levels as int);
    let r3 = g.rec_build_hzb(drawn);
    assert(t.after(r3) == t.after(start));
    let r4 = r3.call(GlCall::UseProgram { program: Some(g.cull_shader.program) });
    let r5 = g.rec_cull(g.rec_cull_bindings(r4, true), true, n);
    assert(quiet(t.after(r), t.after(r5)));
    assert(t.after(g.rec_draw(r5, true, m, view)) == t.after(r5));
}

/// The start of a frame: the target can be drawn to in its size, and its depth
/// is cleared.
#[verifier::spinoff_prover]
#[verifier::rlimit(60)]
proof fn lemma_begin(t: Targets, g: Renderer, r: Recording, width: u32, height: u32)
    requires
        0 <= r.next_id,
        r.next_id + 1 < u32::MAX,
        g.gpu.offscreen.wf(),
        g.gpu.offscreen.color != g.gpu.offscreen.depth,
        g.gpu.offscreen.fbo < r.next_id,
        g.gpu.offscreen.color < r.next_id,
        g.gpu.offscreen.depth < r.next_id,
        can_be_drawn_to(t.after(r), g.gpu.offscreen),
        forall|k: (u32, u32)| #[trigger]
            t.after(r).attached.contains_key(k) ==> k.0 < r.next_id,
    ensures
        ({
            let o = g.gpu.offscreen.sized(width, height);
            let t1 = t.after(g.rec_begin(r, width, height));
            &&& same_depth_test(t.after(r), t1)
            &&& can_be_drawn_to(t1, o)
            &&& can_be_read(t.after(r), o) ==> can_be_read(t1, o)
            &&& forall|k: (u32, u32)| #[trigger]
                t1.attached.contains_key(k) ==> k.0 < g.rec_begin(r, width, height).next_id
            &&& t1.drawn_to == Some(o.fbo)
            &&& t1.depths.contains_key((o.depth, 0))
            &&& t1.depths[(o.depth, 0)] == t1.clear_depth
            &&& t1.colors.contains_key((o.color, 0))
            &&& t1.colors[(o.color, 0)] == t1.clear_color
            &&& (g.gpu.hzb.width, g.gpu.hzb.height) != (width, height) ==> is_fresh_pyramid(
                t1,
                g.begun(r, width, height).hzb,
            )
        }),
{
    broadcast use group_targets;

    assert(0x4100u32 & 0x4000u32 == 0x4000u32) by (bit_vector);
    assert(0x4100u32 & 0x0100u32 == 0x0100u32) by (bit_vector);
    let o = g.gpu.offscreen.sized(width, height);
    resized_targets_are_complete(t, g.gpu.offscreen, r, width, height);
    let r1 = g.gpu.offscreen.rec_resize(r, width, height);
    let ta = t.after(r1);
    assert(same_depth_test(t.after(r), ta));
    assert(r1.next_id == r.next_id);
    let r2 = g.gpu.hzb.rec_fit(r1, width, height);
    if (g.gpu.hzb.width, g.gpu.hzb.height) != (width, height) {
        assert(!ta.attached.contains_key(((r1.next_id + 1) as u32, DEPTH_ATTACHMENT)));
        lemma_fit_ids(g.gpu.hzb, r1, width, height);
        new_pyramids_hide_nothing(t, g.gpu.hzb, r1, width, height);
    }
    let tb = t.after(r2);
    assert(can_be_drawn_to(tb, o));
    let r3 = o.rec_bind(r2);
    let tc = t.after(r3);
    assert(tc.attachment(COLOR_ATTACHMENT0) == Some((o.color, 0int)));
    assert(tc.attachment(DEPTH_ATTACHMENT) == Some((o.depth, 0int)));
    let td = t.after(r3.call(GlCall::Clear { mask: crate::gl::COLOR_AND_DEPTH_BITS }));
    assert(td == tc.clear(crate::gl::COLOR_AND_DEPTH_BITS));
    let t1 = t.after(g.rec_begin(r, width, height));
    assert(t1 == td);
    if (g.gpu.hzb.width, g.gpu.hzb.height) != (width, height) {
        let hzb = g.begun(r, width, height).hzb;
        assert(is_fresh_pyramid(tb, hzb));
        assert(hzb.texture == Some(r.next_id as u32));
        assert forall|k: int| 0 <= k < hzb.levels implies {
            &&& #[trigger] t1.colors.contains_key((hzb.texture->0, k))
            &&& t1.colors[(hzb.texture->0, k)] == (0u32, 0u32, 0u32, 0u32)
        } by {
            assert(tb.colors.contains_key((hzb.texture->0, k)));
        }
    }
}

/// Whether the renderer's target is in order, and older than what is created
/// next, of which nothing has been used.
pub open spec fn target_in_order(t: Targets, g: GpuState, r: Recording) -> bool {
    &&& 0 <= r.next_id
    &&& g.offscreen.wf()
    &&& g.offscreen.color != g.offscreen.depth
    &&& g.offscreen.fbo < r.next_id
    &&& g.offscreen.color < r.next_id
    &&& g.offscreen.depth < r.next_id
    &&& can_be_drawn_to(t.after(r), g.offscreen)
    &&& can_be_read(t.after(r), g.offscreen)
    &&& forall|k: (u32, u32)| #[trigger]
        t.after(r).attached.contains_key(k) ==> k.0 < r.next_id
}

/// A frame draws to a target of its size whose depth has been cleared, and leaves
/// the depth test as it is: what the creation has set up holds for every frame. A
/// pyramid for another size hides nothing at first.
#[verifier::spinoff_prover]
#[verifier::rlimit(60)]
pub proof fn frames_draw_to_their_target(
    t: Targets,
    g: Renderer,
    r: Recording,
    drawables: Seq<Drawable>,
    view: FrameView,
    width: u32,
    height: u32,
)
    requires
        g.can_render(r, drawables, width, height),
        target_in_order(t, g.gpu, r),
    ensures
        ({
            let gpu = g.readied(r, drawables, width, height);
            let r1 = g.rec_render(r, drawables, view, width, height);
            let t1 = t.after(r1);
            &&& target_in_order(t, gpu, r1)
            &&& same_depth_test(t.after(r), t1)
            &&& t1.depths.contains_key((gpu.offscreen.depth, 0))
            &&& t1.depths[(gpu.offscreen.depth, 0)] == t.after(r).clear_depth
            &&& width >= 1 ==> gpu.offscreen.width == width
            &&& height >= 1 ==> gpu.offscreen.height == height
            &&& (g.gpu.hzb.width, g.gpu.hzb.height) != (width, height) ==> is_fresh_pyramid(
                t1,
                gpu.hzb,
            )
        }),
{
    lemma_begin(t, g, r, width, height);
    lemma_rest(t, g, r, drawables, view, width, height);
    lemma_ids(g, r, drawables, view, width, height);
    lemma_kept(
        t.after(r),
        t.after(g.rec_begin(r, width, height)),
        t.after(g.rec_render(r, drawables, view, width, height)),
        g.gpu.offscreen.sized(width, height),
    );
}

/// Whether nothing is different but what is bound.
spec fn only_bound(a: Targets, b: Targets) -> bool {
    b == Targets { texture: b.texture, drawn_to: b.drawn_to, read_from: b.read_from, ..a }
}

/// What a frame does after its start leaves the targets alone.
proof fn lemma_rest(
    t: Targets,
    g: Renderer,
    r: Recording,
    drawables: Seq<Drawable>,
    view: FrameView,
    width: u32,
    height: u32,
)
    ensures
        only_bound(
            t.after(g.rec_begin(r, width, height)),
            t.after(g.rec_render(r, drawables, view, width, height)),
        ),
{
    let n = drawables.len() as int;
    let m = batch_meshes(drawables).len() as int;
    let r1 = g.rec_begin(r, width, height);
    if n > 0 {
        let gpu = g.readied(r, drawables, width, height);
        lemma_room(t, g.gpu.per_instance, g.gpu.per_batch, r1, n, m);
        let r2 = g.gpu.per_batch.rec_roomy(g.gpu.per_instance.rec_roomy(r1, n), m);
        lemma_uploads(t, gpu, r2, drawables);
        let r3 = g.rec_prepare(r, drawables, width, height);
        lemma_phases(t, gpu, r3, n, m, view, width, height);
        lemma_end(t, gpu.rec_phases(r3, n, m, view, width, height));
    } else {
        lemma_end(t, r1);
        lemma_targets_call(
            t,
            QuerySet::rec_end(r1),
            GlCall::BindFramebuffer { target: FRAMEBUFFER, framebuffer: None },
        );
    }
}

proof fn lemma_kept(before: Targets, a: Targets, b: Targets, o: OffscreenTarget)
    requires
        only_bound(a, b),
    ensures
        can_be_drawn_to(a, o) ==> can_be_drawn_to(b, o),
        can_be_read(a, o) ==> can_be_read(b, o),
        same_depth_test(before, a) ==> same_depth_test(before, b),
        b.depths == a.depths,
        b.attached == a.attached,
        forall|hzb: Hzb| is_fresh_pyramid(a, hzb) ==> #[trigger] is_fresh_pyramid(b, hzb),
{
}

proof fn lemma_fit_ids(hzb: Hzb, r: Recording, width: u32, height: u32)
    requires
        (hzb.width, hzb.height) != (width, height),
    ensures
        hzb.rec_fit(r, width, height).next_id == r.next_id + 2,
{
    let r0 = hzb.rec_drop(r);
    let r1 = Hzb::rec_storage(r0, width, height);
    lemma_clear_ids(
        r1.create(ObjectKind::Framebuffer).bind_framebuffer(Some(r1.next_id as u32)),
        r0.next_id as u32,
        mip_levels(longer(width, height)),
    );
}

proof fn lemma_clear_ids(r: Recording, texture: u32, levels: int)
    ensures
        Hzb::rec_clear(r, texture, levels).next_id == r.next_id,
    decreases levels,
{
    if levels > 0 {
        lemma_clear_ids(r, texture, levels - 1);
    }
}

/// Object numbers only grow in a frame.
proof fn lemma_ids(
    g: Renderer,
    r: Recording,
    drawables: Seq<Drawable>,
    view: FrameView,
    width: u32,
    height: u32,
)
    ensures
        g.rec_render(r, drawables, view, width, height).next_id >= g.rec_begin(
            r,
            width,
            height,
        ).next_id,
        g.rec_begin(r, width, height).next_id >= r.next_id,
{
    let n = drawables.len() as int;
    let m = batch_meshes(drawables).len() as int;
    let r1 = g.rec_begin(r, width, height);
    let ra = g.gpu.offscreen.rec_resize(r, width, height);
    if (g.gpu.hzb.width, g.gpu.hzb.height) != (width, height) {
        lemma_fit_ids(g.gpu.hzb, ra, width, height);
    }
    if n > 0 {
        let gpu = g.readied(r, drawables, width, height);
        let r2 = g.gpu.per_batch.rec_roomy(g.gpu.per_instance.rec_roomy(r1, n), m);
        assert(r2.next_id >= r1.next_id);
        let r3 = g.rec_prepare(r, drawables, width, height);
        assert(r3.next_id == r2.next_id) by {
            reveal(GpuState::rec_upload);
        }
        crate::lifetimes::lemma_phases_ids(gpu, r3, n, m, view, width, height);
    }
}

proof fn lemma_end(t: Targets, r: Recording)
    ensures
        t.after(QuerySet::rec_end(r)) == t.after(r),
{
    broadcast use group_targets;

}

/// A new renderer shows what is nearest: depth is reversed, the nearest fragment
/// wins, faces are culled that look away, and its target can be drawn to.
#[verifier::spinoff_prover]
#[verifier::rlimit(60)]
pub proof fn new_renderers_show_the_nearest(
    t: Targets,
    r: Recording,
    default: GpuMaterial,
    g: Renderer,
)
    requires
        0 <= r.next_id,
        r.next_id + 24 < u32::MAX,
        g.is_new(r.next_id),
        forall|k: (u32, u32)| #[trigger]
            t.after(r).attached.contains_key(k) ==> k.0 < r.next_id,
    ensures
        ({
            let r1 = Renderer::rec_new(r, default);
            let t1 = t.after(r1);
            &&& nearest_wins(t1)
            &&& depth_is_reversed(t1)
            &&& t1.enabled.contains(CULL_FACE)
            &&& t1.culled_face == BACK
            &&& target_in_order(t, g.gpu, r1)
        }),
{
    lemma_state(t, r);
    let ra = Renderer::rec_state(r);
    let ta = t.after(ra);
    lemma_buffers(t, ra, default);
    let rc = Renderer::rec_materials(
        Renderer::rec_count_buffer(Renderer::rec_buffers(ra)),
        default,
    );
    new_targets_are_complete(t, rc, 1, 1);
    lemma_new_target(t, rc, 1, 1);
    let rd = OffscreenTarget::rec_new(rc, 1, 1);
    lemma_queries(t, rd);
    lemma_same_wins(ta, t.after(rd));
}

/// The fixed state.
proof fn lemma_state(t: Targets, r: Recording)
    ensures
        ({
            let t1 = t.after(Renderer::rec_state(r));
            &&& nearest_wins(t1)
            &&& depth_is_reversed(t1)
            &&& t1.enabled.contains(CULL_FACE)
            &&& t1.culled_face == BACK
            &&& t1.attached == t.after(r).attached
        }),
        Renderer::rec_state(r).next_id == r.next_id,
{
    broadcast use group_targets;

    lemma_reversed(t.after(Renderer::rec_state(r)));
}

/// The buffers of a renderer have nothing to do with targets.
#[verifier::spinoff_prover]
#[verifier::rlimit(60)]
proof fn lemma_buffers(t: Targets, r: Recording, default: GpuMaterial)
    ensures
        ({
            let r1 = Renderer::rec_materials(
                Renderer::rec_count_buffer(Renderer::rec_buffers(r)),
                default,
            );
            &&& t.after(r1) == t.after(r)
            &&& r1.next_id == r.next_id + 14
        }),
{
    broadcast use group_targets;

    let rb = Renderer::rec_buffers(r);
    assert(t.after(rb) == t.after(r));
    assert(rb.next_id == r.next_id + 12);
    let rc = Renderer::rec_count_buffer(rb);
    assert(t.after(rc) == t.after(rb));
}

proof fn lemma_queries(t: Targets, r: Recording)
    ensures
        t.after(QuerySet::rec_new(QuerySet::rec_new(r))) == t.after(r),
        QuerySet::rec_new(QuerySet::rec_new(r)).next_id == r.next_id + 8,
{
    broadcast use group_targets;

}

proof fn lemma_same_wins(a: Targets, b: Targets)
    requires
        same_depth_test(a, b),
        nearest_wins(a),
        depth_is_reversed(a),
    ensures
        nearest_wins(b),
        depth_is_reversed(b),
{
}

proof fn lemma_new_target(t: Targets, r: Recording, width: u32, height: u32)
    ensures
        ({
            let t1 = t.after(OffscreenTarget::rec_new(r, width, height));
            &&& same_depth_test(t.after(r), t1)
            &&& forall|k: (u32, u32)| #[trigger]
                t1.attached.contains_key(k) ==> t.after(r).attached.contains_key(k) || k.0 == (
                r.next_id + 2) as u32
            &&& t1.enabled == t.after(r).enabled
            &&& t1.culled_face == t.after(r).culled_face
        }),
        OffscreenTarget::rec_new(r, width, height).next_id == r.next_id + 3,
{
    broadcast use group_targets;

}

} // verus!
