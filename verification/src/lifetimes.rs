//! Which objects live, which queries run and how often was drawn after recorded
//! calls, and what the renderer promises of them.

use crate::batching::{batch_meshes, Drawable};
use crate::element::GpuElement;
use crate::frame_buffers::{BatchBuffers, InstanceBuffers};
use crate::gl::{
    GlCall, ObjectKind, Recording, FRAGMENT_SHADER_INVOCATIONS, PRIMITIVES_SUBMITTED, TIME_ELAPSED,
    VERTEX_SHADER_INVOCATIONS,
};
use crate::gl_buffer::{BufferUsage, GlBuffer};
use crate::hzb::{longer, mip_levels, Hzb};
use crate::materials::GpuMaterial;
use crate::renderer::{FrameView, GpuState, Renderer};
use crate::stats::{next_frame, queries_are_double_buffered, write_set, QuerySet};
use vstd::prelude::*;

verus! {

/// The objects that live, how many deletions were of something that does not
/// live, the targets whose queries run, the query that was begun last for each
/// target, and the number of calls that have drawn something.
#[verifier::ext_equal]
pub struct Lifetimes {
    pub live: Set<u32>,
    pub strays: nat,
    pub running: Set<u32>,
    pub begun: Map<u32, u32>,
    pub draws: nat,
}

impl Lifetimes {
    /// What lives and runs after one call.
    pub open spec fn step(self, c: GlCall) -> Lifetimes {
        match c {
            GlCall::Create { kind, id } => Lifetimes { live: self.live.insert(id), ..self },
            GlCall::Delete { kind, id } => Lifetimes {
                live: self.live.remove(id),
                strays: if self.live.contains(id) {
                    self.strays
                } else {
                    self.strays + 1
                },
                ..self
            },
            GlCall::BeginQuery { target, query } => Lifetimes {
                running: self.running.insert(target),
                begun: self.begun.insert(target, query),
                ..self
            },
            GlCall::EndQuery { target } => Lifetimes {
                running: self.running.remove(target),
                ..self
            },
            GlCall::MultiDrawElementsIndirectCount { mode, ty, max_draws } => Lifetimes {
                draws: self.draws + 1,
                ..self
            },
            _ => self,
        }
    }
}

/// What lives and runs after all of the calls.
pub open spec fn after_calls(past: Lifetimes, calls: Seq<GlCall>) -> Lifetimes
    decreases calls.len(),
{
    if calls.len() == 0 {
        past
    } else {
        after_calls(past, calls.drop_last()).step(calls.last())
    }
}

/// What lives and runs after a recording. `past` is what came of the calls that
/// were recorded and replayed before.
pub open spec fn lifetimes(past: Lifetimes, r: Recording) -> Lifetimes {
    after_calls(past, r.calls)
}

pub broadcast proof fn lemma_lifetimes_call(past: Lifetimes, r: Recording, c: GlCall)
    ensures
        #[trigger] lifetimes(past, r.call(c)) == lifetimes(past, r).step(c),
{
    assert(r.call(c).calls.drop_last() =~= r.calls);
}

pub broadcast proof fn lemma_lifetimes_create(past: Lifetimes, r: Recording, kind: ObjectKind)
    ensures
        #[trigger] lifetimes(past, r.create(kind)) == lifetimes(past, r).step(
            GlCall::Create { kind, id: r.next_id as u32 },
        ),
{
    assert(r.create(kind).calls.drop_last() =~= r.calls);
}

pub broadcast proof fn lemma_lifetimes_data(past: Lifetimes, r: Recording, words: Seq<u32>)
    ensures
        #[trigger] lifetimes(past, r.data(words)) == lifetimes(past, r),
{
}

pub broadcast group group_lifetimes {
    lemma_lifetimes_call,
    lemma_lifetimes_create,
    lemma_lifetimes_data,
}

proof fn lemma_new<T: GpuElement>(past: Lifetimes, r: Recording, capacity: int, usage: BufferUsage)
    ensures
        lifetimes(past, GlBuffer::<T>::rec_new(r, capacity, usage)) == lifetimes(past, r).step(
            GlCall::Create { kind: ObjectKind::Buffer, id: r.next_id as u32 },
        ),
        GlBuffer::<T>::rec_new(r, capacity, usage).next_id == r.next_id + 1,
{
    broadcast use group_lifetimes;

}

proof fn lemma_grow<T: GpuElement>(
    past: Lifetimes,
    buf: GlBuffer<T>,
    r: Recording,
    capacity: int,
    usage: BufferUsage,
)
    ensures
        lifetimes(past, buf.rec_grow(r, capacity, usage)) == lifetimes(past, r).step(
            GlCall::Create { kind: ObjectKind::Buffer, id: r.next_id as u32 },
        ).step(GlCall::Delete { kind: ObjectKind::Buffer, id: buf.handle }),
        buf.rec_grow(r, capacity, usage).next_id == r.next_id + 1,
{
    broadcast use group_lifetimes;

    lemma_new::<T>(past, r, capacity, usage);
}

/// An upload creates and deletes nothing.
pub proof fn lemma_upload<T: GpuElement>(
    past: Lifetimes,
    buf: GlBuffer<T>,
    r: Recording,
    words: Seq<u32>,
    offset: int,
)
    ensures
        lifetimes(past, buf.rec_upload(r, words, offset)) == lifetimes(past, r),
        buf.rec_upload(r, words, offset).next_id == r.next_id,
{
    broadcast use group_lifetimes;

}

/// A buffer that grows takes the place of the old one: one object comes, one
/// goes, and everything else stays.
pub proof fn growing_leaks_nothing<T: GpuElement>(
    past: Lifetimes,
    buf: GlBuffer<T>,
    r: Recording,
    capacity: int,
    usage: BufferUsage,
)
    requires
        buf.handle < r.next_id <= u32::MAX,
        lifetimes(past, r).live.contains(buf.handle),
    ensures
        ({
            let after = lifetimes(past, buf.rec_grow(r, capacity, usage));
            &&& after.live == lifetimes(past, r).live.remove(buf.handle).insert(r.next_id as u32)
            &&& after.strays == lifetimes(past, r).strays
        }),
{
    lemma_grow(past, buf, r, capacity, usage);
    assert(lifetimes(past, buf.rec_grow(r, capacity, usage)).live =~= lifetimes(
        past,
        r,
    ).live.remove(buf.handle).insert(r.next_id as u32));
}

/// Whether `objs` live and are different objects, and nothing that lives is as
/// new as `next`.
#[verifier::opaque]
pub open spec fn sound(live: Set<u32>, objs: Seq<u32>, next: int) -> bool {
    &&& 0 <= next
    &&& objs.no_duplicates()
    &&& forall|i: int| 0 <= i < objs.len() ==> live.contains(#[trigger] objs[i])
    &&& forall|id: u32| #[trigger] live.contains(id) ==> id < next
}

/// Whether `live` is `live0` with `objs` in the place of `objs0`.
#[verifier::opaque]
pub open spec fn replaces(
    live0: Set<u32>,
    objs0: Seq<u32>,
    live: Set<u32>,
    objs: Seq<u32>,
) -> bool {
    &&& forall|id: u32| #[trigger]
        live.contains(id) <==> (live0.contains(id) && !objs0.contains(id)) || objs.contains(id)
    &&& forall|id: u32| #[trigger]
        objs.contains(id) ==> objs0.contains(id) || !live0.contains(id)
}

/// Whether, from `r0` to `r`, the objects `objs` have come in the place of
/// `objs0`, and each deletion was of an object that lived.
#[verifier::opaque]
pub open spec fn kept(
    past: Lifetimes,
    r0: Recording,
    objs0: Seq<u32>,
    r: Recording,
    objs: Seq<u32>,
) -> bool {
    &&& sound(lifetimes(past, r).live, objs, r.next_id)
    &&& replaces(lifetimes(past, r0).live, objs0, lifetimes(past, r).live, objs)
    &&& lifetimes(past, r).strays == lifetimes(past, r0).strays
    &&& r0.next_id <= r.next_id
}

/// At first nothing has been replaced.
pub proof fn lemma_kept_start(past: Lifetimes, r: Recording, objs: Seq<u32>)
    requires
        sound(lifetimes(past, r).live, objs, r.next_id),
    ensures
        kept(past, r, objs, r, objs),
{
    reveal(kept);
    reveal(sound);
    reveal(replaces);
    let live = lifetimes(past, r).live;
    assert forall|id: u32| #[trigger] live.contains(id) <==> (live.contains(id) && !objs.contains(
        id,
    )) || objs.contains(id) by {
        if objs.contains(id) {
            let k = objs.index_of(id);
            assert(objs[k] == id);
        }
    }
}

/// Calls that create and delete nothing.
pub proof fn lemma_kept_same(
    past: Lifetimes,
    r0: Recording,
    objs0: Seq<u32>,
    r: Recording,
    objs: Seq<u32>,
    r1: Recording,
)
    requires
        kept(past, r0, objs0, r, objs),
        lifetimes(past, r1).live == lifetimes(past, r).live,
        lifetimes(past, r1).strays == lifetimes(past, r).strays,
        r.next_id <= r1.next_id,
    ensures
        kept(past, r0, objs0, r1, objs),
{
    reveal(kept);
    reveal(sound);
}

/// One object in the place of another.
proof fn lemma_swap(
    live0: Set<u32>,
    objs0: Seq<u32>,
    live: Set<u32>,
    objs: Seq<u32>,
    next: int,
    i: int,
)
    requires
        sound(live, objs, next),
        replaces(live0, objs0, live, objs),
        next <= u32::MAX,
        0 <= i < objs.len(),
    ensures
        sound(live.insert(next as u32).remove(objs[i]), objs.update(i, next as u32), next + 1),
        replaces(
            live0,
            objs0,
            live.insert(next as u32).remove(objs[i]),
            objs.update(i, next as u32),
        ),
        live.contains(objs[i]),
        objs[i] < next,
{
    reveal(sound);
    reveal(replaces);
    let live1 = live.insert(next as u32).remove(objs[i]);
    let objs1 = objs.update(i, next as u32);
    assert(objs.contains(objs[i]));
    assert(live.contains(objs[i]));
    assert(!live.contains(next as u32));
    assert forall|id: u32| objs1.contains(id) <==> id == next || (id != objs[i] && objs.contains(
        id,
    )) by {
        if id == next {
            assert(objs1[i] == id);
        }
        if objs.contains(id) && id != objs[i] {
            let k = objs.index_of(id);
            assert(objs1[k] == id);
        }
        if objs1.contains(id) && id != next {
            let k = objs1.index_of(id);
            assert(objs[k] == id);
            assert(objs.contains(id));
        }
    }
}

/// One more object.
proof fn lemma_add(live0: Set<u32>, objs0: Seq<u32>, live: Set<u32>, objs: Seq<u32>, next: int)
    requires
        sound(live, objs, next),
        replaces(live0, objs0, live, objs),
        next <= u32::MAX,
    ensures
        sound(live.insert(next as u32), objs.push(next as u32), next + 1),
        replaces(live0, objs0, live.insert(next as u32), objs.push(next as u32)),
{
    reveal(sound);
    reveal(replaces);
    let objs1 = objs.push(next as u32);
    assert(!live.contains(next as u32));
    assert forall|id: u32| objs1.contains(id) <==> id == next || objs.contains(id) by {
        if id == next {
            assert(objs1[objs.len() as int] == id);
        }
        if objs.contains(id) {
            let k = objs.index_of(id);
            assert(objs1[k] == id);
        }
        if objs1.contains(id) && id != next {
            let k = objs1.index_of(id);
            assert(objs[k] == id);
            assert(objs.contains(id));
        }
    }
}

/// A buffer that grows is replaced by a new one.
pub proof fn lemma_grow_kept<T: GpuElement>(
    past: Lifetimes,
    r0: Recording,
    objs0: Seq<u32>,
    buf: GlBuffer<T>,
    r: Recording,
    capacity: int,
    usage: BufferUsage,
    objs: Seq<u32>,
    i: int,
)
    requires
        kept(past, r0, objs0, r, objs),
        0 <= i < objs.len(),
        objs[i] == buf.handle,
        r.next_id <= u32::MAX,
    ensures
        kept(
            past,
            r0,
            objs0,
            buf.rec_grow(r, capacity, usage),
            objs.update(i, r.next_id as u32),
        ),
        buf.rec_grow(r, capacity, usage).next_id == r.next_id + 1,
{
    reveal(kept);
    lemma_grow(past, buf, r, capacity, usage);
    lemma_swap(
        lifetimes(past, r0).live,
        objs0,
        lifetimes(past, r).live,
        objs,
        r.next_id,
        i,
    );
}

/// Whether the same queries run and as much was drawn.
pub open spec fn same_runs(a: Lifetimes, b: Lifetimes) -> bool {
    &&& a.running == b.running
    &&& a.begun == b.begun
    &&& a.draws == b.draws
}

proof fn lemma_clear(past: Lifetimes, r: Recording, texture: u32, levels: int)
    ensures
        lifetimes(past, Hzb::rec_clear(r, texture, levels)) == lifetimes(past, r),
        Hzb::rec_clear(r, texture, levels).next_id == r.next_id,
    decreases levels,
{
    broadcast use group_lifetimes;

    if levels > 0 {
        lemma_clear(past, r, texture, levels - 1);
    }
}

proof fn lemma_levels(past: Lifetimes, hzb: Hzb, r: Recording, program: u32, levels: int)
    ensures
        lifetimes(past, hzb.rec_levels(r, program, levels)) == lifetimes(past, r),
        hzb.rec_levels(r, program, levels).next_id == r.next_id,
    decreases levels,
{
    broadcast use group_lifetimes;

    if levels > 1 {
        lemma_levels(past, hzb, r, program, levels - 1);
    }
}

/// Allocation of a pyramid: the framebuffer that clears it is gone afterwards.
proof fn lemma_allocate(past: Lifetimes, hzb: Hzb, r: Recording, width: u32, height: u32)
    requires
        hzb.texture matches Some(t) ==> t < r.next_id && lifetimes(past, r).live.contains(t),
        0 <= r.next_id < u32::MAX,
        !lifetimes(past, r).live.contains((r.next_id + 1) as u32),
    ensures
        ({
            let after = lifetimes(past, hzb.rec_allocate(r, width, height));
            &&& after.live == (match hzb.texture {
                Some(t) => lifetimes(past, r).live.insert(r.next_id as u32).remove(t),
                None => lifetimes(past, r).live.insert(r.next_id as u32),
            })
            &&& after.strays == lifetimes(past, r).strays
            &&& same_runs(after, lifetimes(past, r))
        }),
        hzb.rec_allocate(r, width, height).next_id == r.next_id + 2,
{
    broadcast use group_lifetimes;

    let r0 = hzb.rec_drop(r);
    let r1 = Hzb::rec_storage(r0, width, height);
    let fbo = r1.next_id as u32;
    lemma_clear(
        past,
        r1.create(ObjectKind::Framebuffer).bind_framebuffer(Some(fbo)),
        r0.next_id as u32,
        mip_levels(longer(width, height)),
    );
    assert(lifetimes(past, hzb.rec_allocate(r, width, height)).live =~= (match hzb.texture {
        Some(t) => lifetimes(past, r).live.insert(r.next_id as u32).remove(t),
        None => lifetimes(past, r).live.insert(r.next_id as u32),
    }));
}

/// The objects that a frame may replace: the buffers that grow, and the depth
/// pyramid.
pub open spec fn frame_objects(g: GpuState) -> Seq<u32> {
    seq![
        g.per_instance.instance.handle,
        g.per_instance.culled.handle,
        g.per_instance.culled_p2.handle,
        g.per_instance.bounding.handle,
        g.per_instance.batch_index.handle,
        g.per_instance.visible.handle,
        g.per_batch.indirect.handle,
        g.per_batch.indirect_p2.handle,
        g.per_batch.base.handle,
    ] + (match g.hzb.texture {
        Some(t) => seq![t],
        None => Seq::empty(),
    })
}

/// Whether the objects of a frame live, are different objects, and are older
/// than what is created from now on, of which nothing lives.
pub open spec fn frame_objects_live(past: Lifetimes, g: GpuState, r: Recording) -> bool {
    &&& frame_objects(g).no_duplicates()
    &&& forall|i: int|
        0 <= i < frame_objects(g).len() ==> {
            &&& #[trigger] frame_objects(g)[i] < r.next_id
            &&& lifetimes(past, r).live.contains(frame_objects(g)[i])
        }
    &&& forall|id: u32| #[trigger] lifetimes(past, r).live.contains(id) ==> id < r.next_id
}

spec fn instance_ids(b: InstanceBuffers) -> Seq<u32> {
    seq![
        b.instance.handle,
        b.culled.handle,
        b.culled_p2.handle,
        b.bounding.handle,
        b.batch_index.handle,
        b.visible.handle,
    ]
}

spec fn batch_ids(b: BatchBuffers) -> Seq<u32> {
    seq![b.indirect.handle, b.indirect_p2.handle, b.base.handle]
}

/// `objs` with others from `first` on.
spec fn put(objs: Seq<u32>, first: int, others: Seq<u32>) -> Seq<u32> {
    Seq::new(
        objs.len(),
        |i: int|
            if first <= i < first + others.len() {
                others[i - first]
            } else {
                objs[i]
            },
    )
}

proof fn lemma_instances_kept(
    past: Lifetimes,
    r0: Recording,
    objs0: Seq<u32>,
    b: InstanceBuffers,
    r: Recording,
    n: int,
    objs: Seq<u32>,
)
    requires
        kept(past, r0, objs0, r, objs),
        objs.len() >= 9,
        forall|i: int| 0 <= i < 6 ==> #[trigger] objs[i] == instance_ids(b)[i],
        0 <= r.next_id,
        r.next_id + 6 <= u32::MAX,
    ensures
        ({
            let r1 = b.rec_roomy(r, n);
            &&& kept(past, r0, objs0, r1, put(objs, 0, instance_ids(b.roomy(r, n))))
            &&& r.next_id <= r1.next_id <= r.next_id + 6
        }),
{
    let objs1 = put(objs, 0, instance_ids(b.roomy(r, n)));
    if n > b.instance.capacity {
        let cap = crate::arena::doubled_or(b.instance.capacity as int, n);
        let usage = BufferUsage::DynamicDraw;
        let next = r.next_id;
        assert(objs[0] == b.instance.handle && objs[1] == b.culled.handle && objs[2]
            == b.culled_p2.handle && objs[3] == b.bounding.handle && objs[4]
            == b.batch_index.handle && objs[5] == b.visible.handle);
        lemma_grow_kept(past, r0, objs0, b.instance, r, cap, usage, objs, 0);
        let r1 = b.instance.rec_grow(r, cap, usage);
        let o1 = objs.update(0, next as u32);
        lemma_grow_kept(past, r0, objs0, b.culled, r1, cap, usage, o1, 1);
        let r2 = b.culled.rec_grow(r1, cap, usage);
        let o2 = o1.update(1, (next + 1) as u32);
        lemma_grow_kept(past, r0, objs0, b.culled_p2, r2, cap, usage, o2, 2);
        let r3 = b.culled_p2.rec_grow(r2, cap, usage);
        let o3 = o2.update(2, (next + 2) as u32);
        lemma_grow_kept(past, r0, objs0, b.bounding, r3, cap, usage, o3, 3);
        let r4 = b.bounding.rec_grow(r3, cap, usage);
        let o4 = o3.update(3, (next + 3) as u32);
        lemma_grow_kept(past, r0, objs0, b.batch_index, r4, cap, usage, o4, 4);
        let r5 = b.batch_index.rec_grow(r4, cap, usage);
        let o5 = o4.update(4, (next + 4) as u32);
        lemma_grow_kept(past, r0, objs0, b.visible, r5, cap, usage, o5, 5);
        let o6 = o5.update(5, (next + 5) as u32);
        assert(objs1 =~= o6);
    } else {
        assert(objs1 =~= objs);
    }
}

proof fn lemma_batches_kept(
    past: Lifetimes,
    r0: Recording,
    objs0: Seq<u32>,
    b: BatchBuffers,
    r: Recording,
    m: int,
    objs: Seq<u32>,
)
    requires
        kept(past, r0, objs0, r, objs),
        objs.len() >= 9,
        forall|i: int| 6 <= i < 9 ==> #[trigger] objs[i] == batch_ids(b)[i - 6],
        0 <= r.next_id,
        r.next_id + 3 <= u32::MAX,
    ensures
        ({
            let r1 = b.rec_roomy(r, m);
            &&& kept(past, r0, objs0, r1, put(objs, 6, batch_ids(b.roomy(r, m))))
            &&& r.next_id <= r1.next_id <= r.next_id + 3
        }),
{
    let objs1 = put(objs, 6, batch_ids(b.roomy(r, m)));
    if m > b.indirect.capacity {
        let cap = crate::arena::doubled_or(b.indirect.capacity as int, m);
        let usage = BufferUsage::DynamicDraw;
        let next = r.next_id;
        assert(objs[6] == b.indirect.handle && objs[7] == b.indirect_p2.handle && objs[8]
            == b.base.handle);
        lemma_grow_kept(past, r0, objs0, b.indirect, r, cap, usage, objs, 6);
        let r1 = b.indirect.rec_grow(r, cap, usage);
        let o1 = objs.update(6, next as u32);
        lemma_grow_kept(past, r0, objs0, b.indirect_p2, r1, cap, usage, o1, 7);
        let r2 = b.indirect_p2.rec_grow(r1, cap, usage);
        let o2 = o1.update(7, (next + 1) as u32);
        lemma_grow_kept(past, r0, objs0, b.base, r2, cap, usage, o2, 8);
        let o3 = o2.update(8, (next + 2) as u32);
        assert(objs1 =~= o3);
    } else {
        assert(objs1 =~= objs);
    }
}

/// Growing begins, ends and draws nothing.
proof fn lemma_roomy_runs(
    past: Lifetimes,
    a: InstanceBuffers,
    b: BatchBuffers,
    r: Recording,
    n: int,
    m: int,
)
    ensures
        same_runs(
            lifetimes(past, b.rec_roomy(a.rec_roomy(r, n), m)),
            lifetimes(past, r),
        ),
{
    let usage = BufferUsage::DynamicDraw;
    if n > a.instance.capacity {
        let cap = crate::arena::doubled_or(a.instance.capacity as int, n);
        lemma_grow(past, a.instance, r, cap, usage);
        let r1 = a.instance.rec_grow(r, cap, usage);
        lemma_grow(past, a.culled, r1, cap, usage);
        let r2 = a.culled.rec_grow(r1, cap, usage);
        lemma_grow(past, a.culled_p2, r2, cap, usage);
        let r3 = a.culled_p2.rec_grow(r2, cap, usage);
        lemma_grow(past, a.bounding, r3, cap, usage);
        let r4 = a.bounding.rec_grow(r3, cap, usage);
        lemma_grow(past, a.batch_index, r4, cap, usage);
        let r5 = a.batch_index.rec_grow(r4, cap, usage);
        lemma_grow(past, a.visible, r5, cap, usage);
    }
    let r6 = a.rec_roomy(r, n);
    if m > b.indirect.capacity {
        let cap = crate::arena::doubled_or(b.indirect.capacity as int, m);
        lemma_grow(past, b.indirect, r6, cap, usage);
        let r7 = b.indirect.rec_grow(r6, cap, usage);
        lemma_grow(past, b.indirect_p2, r7, cap, usage);
        let r8 = b.indirect_p2.rec_grow(r7, cap, usage);
        lemma_grow(past, b.base, r8, cap, usage);
    }
}

proof fn lemma_frame_upload(past: Lifetimes, g: GpuState, r: Recording, drawables: Seq<Drawable>)
    ensures
        lifetimes(past, g.rec_upload(r, drawables)) == lifetimes(past, r),
        g.rec_upload(r, drawables).next_id == r.next_id,
{
    broadcast use group_lifetimes;

    reveal(GpuState::rec_upload);
}

proof fn lemma_phases(
    past: Lifetimes,
    g: GpuState,
    r: Recording,
    n: int,
    m: int,
    view: FrameView,
    width: u32,
    height: u32,
)
    ensures
        lifetimes(past, g.rec_phases(r, n, m, view, width, height)) == (Lifetimes {
            draws: lifetimes(past, r).draws + 2,
            ..lifetimes(past, r)
        }),
        g.rec_phases(r, n, m, view, width, height).next_id == r.next_id,
{
    broadcast use group_lifetimes;

    reveal(GpuState::rec_phases);
    let r1 = g.rec_cull_uniforms(r, n as u32, view, width, height);
    assert(lifetimes(past, r1) == lifetimes(past, r));
    let r2 = g.rec_cull(g.rec_cull_bindings(r1, false), false, n);
    assert(lifetimes(past, r2) == lifetimes(past, r));
    let drawn = g.rec_draw(r2, false, m, view);
    let once = Lifetimes { draws: lifetimes(past, r).draws + 1, ..lifetimes(past, r) };
    assert(lifetimes(past, drawn) == once);
    let program = g.hzb_shader.program;
    let start = drawn.barrier(crate::gl::FETCH_AND_IMAGE_BITS).call(
        GlCall::UseProgram { program: Some(program) },
    ).call(GlCall::ActiveTexture { unit: crate::gl::TEXTURE0 }).bind_texture(
        Some(g.offscreen.depth),
    );
    lemma_levels(past, g.hzb, start, program, g.hzb.levels as int);
    let r3 = g.rec_build_hzb(drawn);
    assert(lifetimes(past, r3) == once);
    let r4 = r3.call(GlCall::UseProgram { program: Some(g.cull_shader.program) });
    let r5 = g.rec_cull(g.rec_cull_bindings(r4, true), true, n);
    assert(lifetimes(past, r5) == once);
}

/// Culling and drawing create nothing.
pub proof fn lemma_phases_ids(
    g: GpuState,
    r: Recording,
    n: int,
    m: int,
    view: FrameView,
    width: u32,
    height: u32,
)
    ensures
        g.rec_phases(r, n, m, view, width, height).next_id == r.next_id,
{
    lemma_phases(arbitrary(), g, r, n, m, view, width, height);
}

proof fn lemma_begin_queries(past: Lifetimes, q: QuerySet, r: Recording)
    ensures
        lifetimes(past, q.rec_begin(r)) == (Lifetimes {
            running: lifetimes(past, r).running.insert(TIME_ELAPSED).insert(
                PRIMITIVES_SUBMITTED,
            ).insert(VERTEX_SHADER_INVOCATIONS).insert(FRAGMENT_SHADER_INVOCATIONS),
            begun: lifetimes(past, r).begun.insert(TIME_ELAPSED, q.time).insert(
                PRIMITIVES_SUBMITTED,
                q.prims,
            ).insert(VERTEX_SHADER_INVOCATIONS, q.vert).insert(FRAGMENT_SHADER_INVOCATIONS, q.frag),
            ..lifetimes(past, r)
        }),
        q.rec_begin(r).next_id == r.next_id,
{
    broadcast use group_lifetimes;

}

/// The start of a frame up to where the queries begin: the pyramid may be
/// replaced.
proof fn lemma_begin(past: Lifetimes, g: Renderer, r: Recording, width: u32, height: u32)
    requires
        frame_objects_live(past, g.gpu, r),
        0 <= r.next_id < u32::MAX,
    ensures
        ({
            let r1 = g.rec_begin(r, width, height);
            let g1 = g.begun(r, width, height);
            let other = (g.gpu.hzb.width, g.gpu.hzb.height) != (width, height);
            let q = g.writes();
            &&& r1.next_id == if other {
                r.next_id + 2
            } else {
                r.next_id
            }
            &&& lifetimes(past, r1).running == lifetimes(past, r).running.insert(
                TIME_ELAPSED,
            ).insert(PRIMITIVES_SUBMITTED).insert(VERTEX_SHADER_INVOCATIONS).insert(
                FRAGMENT_SHADER_INVOCATIONS,
            )
            &&& lifetimes(past, r1).begun == lifetimes(past, r).begun.insert(
                TIME_ELAPSED,
                q.time,
            ).insert(PRIMITIVES_SUBMITTED, q.prims).insert(
                VERTEX_SHADER_INVOCATIONS,
                q.vert,
            ).insert(FRAGMENT_SHADER_INVOCATIONS, q.frag)
            &&& lifetimes(past, r1).draws == lifetimes(past, r).draws
            &&& lifetimes(past, r1).strays == lifetimes(past, r).strays
            &&& lifetimes(past, r1).live == if other {
                match g.gpu.hzb.texture {
                    Some(t) => lifetimes(past, r).live.insert(r.next_id as u32).remove(t),
                    None => lifetimes(past, r).live.insert(r.next_id as u32),
                }
            } else {
                lifetimes(past, r).live
            }
            &&& g1.hzb.texture == if other {
                Some(r.next_id as u32)
            } else {
                g.gpu.hzb.texture
            }
        }),
{
    broadcast use group_lifetimes;

    let r1 = g.gpu.offscreen.rec_resize(r, width, height);
    assert(lifetimes(past, r1) == lifetimes(past, r));
    assert(r1.next_id == r.next_id);
    if (g.gpu.hzb.width, g.gpu.hzb.height) != (width, height) {
        assert(g.gpu.hzb.texture matches Some(t) ==> t == frame_objects(g.gpu)[9]);
        lemma_allocate(past, g.gpu.hzb, r1, width, height);
    }
    let r2 = g.gpu.hzb.rec_fit(r1, width, height);
    let r3 = g.gpu.offscreen.sized(width, height).rec_bind(r2).call(
        GlCall::Clear { mask: crate::gl::COLOR_AND_DEPTH_BITS },
    );
    assert(lifetimes(past, r3) == lifetimes(past, r2));
    lemma_begin_queries(past, g.writes(), r3);
}

/// The pyramid's place among the objects of a frame.
proof fn lemma_begin_kept(past: Lifetimes, g: Renderer, r: Recording, width: u32, height: u32)
    requires
        frame_objects_live(past, g.gpu, r),
        0 <= r.next_id < u32::MAX,
    ensures
        kept(
            past,
            r,
            frame_objects(g.gpu),
            g.rec_begin(r, width, height),
            frame_objects(g.begun(r, width, height)),
        ),
{
    let r1 = g.rec_begin(r, width, height);
    let live0 = lifetimes(past, r).live;
    let objs0 = frame_objects(g.gpu);
    let objs = frame_objects(g.begun(r, width, height));
    lemma_begin(past, g, r, width, height);
    assert(sound(live0, objs0, r.next_id)) by {
        reveal(sound);
    }
    lemma_kept_start(past, r, objs0);
    if (g.gpu.hzb.width, g.gpu.hzb.height) != (width, height) {
        assert(replaces(live0, objs0, live0, objs0)) by {
            reveal(kept);
        }
        match g.gpu.hzb.texture {
            Some(t) => {
                assert(objs0[9] == t);
                lemma_swap(live0, objs0, live0, objs0, r.next_id, 9);
                assert(objs =~= objs0.update(9, r.next_id as u32));
            },
            None => {
                lemma_add(live0, objs0, live0, objs0, r.next_id);
                assert(objs =~= objs0.push(r.next_id as u32));
            },
        }
        assert(sound(lifetimes(past, r1).live, objs, r1.next_id)) by {
            reveal(sound);
        }
        reveal(kept);
    } else {
        assert(objs =~= objs0);
        lemma_kept_same(past, r, objs0, r, objs0, r1);
    }
}

/// A frame up to where there is room for the drawables.
spec fn rec_room(
    g: Renderer,
    r: Recording,
    drawables: Seq<Drawable>,
    width: u32,
    height: u32,
) -> Recording {
    let r1 = g.rec_begin(r, width, height);
    if drawables.len() > 0 {
        g.gpu.per_batch.rec_roomy(
            g.gpu.per_instance.rec_roomy(r1, drawables.len() as int),
            batch_meshes(drawables).len() as int,
        )
    } else {
        r1
    }
}

/// What comes after that creates and deletes nothing, draws twice and ends the
/// queries.
proof fn lemma_rest(
    past: Lifetimes,
    g: Renderer,
    r: Recording,
    drawables: Seq<Drawable>,
    view: FrameView,
    width: u32,
    height: u32,
)
    ensures
        ({
            let before = rec_room(g, r, drawables, width, height);
            let after = g.rec_render(r, drawables, view, width, height);
            &&& lifetimes(past, after).live == lifetimes(past, before).live
            &&& lifetimes(past, after).strays == lifetimes(past, before).strays
            &&& lifetimes(past, after).begun == lifetimes(past, before).begun
            &&& after.next_id == before.next_id
            &&& lifetimes(past, after).running == lifetimes(past, before).running.remove(
                FRAGMENT_SHADER_INVOCATIONS,
            ).remove(VERTEX_SHADER_INVOCATIONS).remove(PRIMITIVES_SUBMITTED).remove(TIME_ELAPSED)
            &&& lifetimes(past, after).draws == lifetimes(past, before).draws + if drawables.len()
                > 0 {
                2int
            } else {
                0int
            }
        }),
{
    let n = drawables.len() as int;
    let m = batch_meshes(drawables).len() as int;
    let before = rec_room(g, r, drawables, width, height);
    if n > 0 {
        let gpu = g.readied(r, drawables, width, height);
        lemma_frame_upload(past, gpu, before, drawables);
        let r4 = gpu.rec_upload(before, drawables);
        assert(r4 == g.rec_prepare(r, drawables, width, height));
        lemma_phases(past, gpu, r4, n, m, view, width, height);
        lemma_end(past, gpu.rec_phases(r4, n, m, view, width, height));
    } else {
        lemma_end(past, before);
        lemma_call_keeps(past, QuerySet::rec_end(before));
    }
}

/// The objects of a frame with other buffers.
spec fn frame_ids(a: InstanceBuffers, b: BatchBuffers, pyramid: Seq<u32>) -> Seq<u32> {
    instance_ids(a) + batch_ids(b) + pyramid
}

spec fn pyramid_ids(hzb: Hzb) -> Seq<u32> {
    match hzb.texture {
        Some(t) => seq![t],
        None => Seq::empty(),
    }
}

proof fn lemma_frame_ids(g: GpuState)
    ensures
        frame_objects(g) == frame_ids(g.per_instance, g.per_batch, pyramid_ids(g.hzb)),
{
    assert(frame_objects(g) =~= frame_ids(g.per_instance, g.per_batch, pyramid_ids(g.hzb)));
}

proof fn lemma_put_instances(
    a: InstanceBuffers,
    b: BatchBuffers,
    pyramid: Seq<u32>,
    c: InstanceBuffers,
)
    ensures
        put(frame_ids(a, b, pyramid), 0, instance_ids(c)) == frame_ids(c, b, pyramid),
{
    assert(put(frame_ids(a, b, pyramid), 0, instance_ids(c)) =~= frame_ids(c, b, pyramid));
}

proof fn lemma_put_batches(
    a: InstanceBuffers,
    b: BatchBuffers,
    pyramid: Seq<u32>,
    c: BatchBuffers,
)
    ensures
        put(frame_ids(a, b, pyramid), 6, batch_ids(c)) == frame_ids(a, c, pyramid),
{
    assert(put(frame_ids(a, b, pyramid), 6, batch_ids(c)) =~= frame_ids(a, c, pyramid));
}

/// Making room replaces objects of the frame by new ones.
proof fn lemma_room(
    past: Lifetimes,
    g: Renderer,
    r: Recording,
    drawables: Seq<Drawable>,
    width: u32,
    height: u32,
)
    requires
        frame_objects_live(past, g.gpu, r),
        0 <= r.next_id,
        r.next_id + 11 < u32::MAX,
    ensures
        kept(
            past,
            r,
            frame_objects(g.gpu),
            rec_room(g, r, drawables, width, height),
            frame_objects(g.readied(r, drawables, width, height)),
        ),
{
    let objs0 = frame_objects(g.gpu);
    lemma_begin(past, g, r, width, height);
    lemma_begin_kept(past, g, r, width, height);
    if drawables.len() > 0 {
        let begun = g.begun(r, width, height);
        let r1 = g.rec_begin(r, width, height);
        lemma_frame_ids(begun);
        lemma_grown(
            past,
            r,
            objs0,
            begun.per_instance,
            begun.per_batch,
            pyramid_ids(begun.hzb),
            r1,
            drawables.len() as int,
            batch_meshes(drawables).len() as int,
        );
        lemma_frame_ids(g.readied(r, drawables, width, height));
    }
}

proof fn lemma_grown(
    past: Lifetimes,
    r0: Recording,
    objs0: Seq<u32>,
    a: InstanceBuffers,
    b: BatchBuffers,
    pyramid: Seq<u32>,
    r: Recording,
    n: int,
    m: int,
)
    requires
        kept(past, r0, objs0, r, frame_ids(a, b, pyramid)),
        0 <= r.next_id,
        r.next_id + 9 <= u32::MAX,
    ensures
        ({
            let r1 = a.rec_roomy(r, n);
            kept(
                past,
                r0,
                objs0,
                b.rec_roomy(r1, m),
                frame_ids(a.roomy(r, n), b.roomy(r1, m), pyramid),
            )
        }),
{
    lemma_instances_kept(past, r0, objs0, a, r, n, frame_ids(a, b, pyramid));
    let a1 = a.roomy(r, n);
    let r1 = a.rec_roomy(r, n);
    lemma_put_instances(a, b, pyramid, a1);
    lemma_batches_kept(past, r0, objs0, b, r1, m, frame_ids(a1, b, pyramid));
    lemma_put_batches(a1, b, pyramid, b.roomy(r1, m));
}

/// A frame replaces objects of its own by new ones.
pub proof fn lemma_frame_kept(
    past: Lifetimes,
    g: Renderer,
    r: Recording,
    drawables: Seq<Drawable>,
    view: FrameView,
    width: u32,
    height: u32,
)
    requires
        g.can_render(r, drawables, width, height),
        frame_objects_live(past, g.gpu, r),
    ensures
        kept(
            past,
            r,
            frame_objects(g.gpu),
            g.rec_render(r, drawables, view, width, height),
            frame_objects(g.readied(r, drawables, width, height)),
        ),
{
    assert(frame_objects(g.gpu)[0] < r.next_id);
    lemma_room(past, g, r, drawables, width, height);
    lemma_rest(past, g, r, drawables, view, width, height);
    lemma_kept_same(
        past,
        r,
        frame_objects(g.gpu),
        rec_room(g, r, drawables, width, height),
        frame_objects(g.readied(r, drawables, width, height)),
        g.rec_render(r, drawables, view, width, height),
    );
}

/// A frame leaks nothing and takes nothing away: afterwards the same objects
/// live as before, but for the buffers that had to grow and a depth pyramid that
/// had to change its size, which have been replaced. Nothing is deleted that does
/// not live.
///
/// What held of the objects before the frame holds again after it, so the same is
/// true of the next frame.
pub proof fn frames_leak_nothing(
    past: Lifetimes,
    g: Renderer,
    r: Recording,
    drawables: Seq<Drawable>,
    view: FrameView,
    width: u32,
    height: u32,
)
    requires
        g.can_render(r, drawables, width, height),
        frame_objects_live(past, g.gpu, r),
    ensures
        ({
            let after = g.rec_render(r, drawables, view, width, height);
            let gpu = g.readied(r, drawables, width, height);
            &&& lifetimes(past, after).live == lifetimes(past, r).live.difference(
                frame_objects(g.gpu).to_set(),
            ).union(frame_objects(gpu).to_set())
            &&& lifetimes(past, after).strays == lifetimes(past, r).strays
            &&& frame_objects_live(past, gpu, after)
        }),
{
    lemma_frame_kept(past, g, r, drawables, view, width, height);
    let after = g.rec_render(r, drawables, view, width, height);
    let gpu = g.readied(r, drawables, width, height);
    lemma_kept_live(past, r, frame_objects(g.gpu), after, frame_objects(gpu));
    assert(frame_objects_live(past, gpu, after)) by {
        reveal(kept);
        reveal(sound);
    }
}

/// What lives once objects have been replaced.
pub proof fn lemma_kept_live(
    past: Lifetimes,
    r0: Recording,
    objs0: Seq<u32>,
    r: Recording,
    objs: Seq<u32>,
)
    requires
        kept(past, r0, objs0, r, objs),
    ensures
        lifetimes(past, r).live == lifetimes(past, r0).live.difference(objs0.to_set()).union(
            objs.to_set(),
        ),
        lifetimes(past, r).strays == lifetimes(past, r0).strays,
{
    reveal(kept);
    reveal(replaces);
    assert(lifetimes(past, r).live =~= lifetimes(past, r0).live.difference(
        objs0.to_set(),
    ).union(objs.to_set()));
}

/// Making room begins the queries and draws nothing.
proof fn lemma_room_runs(
    past: Lifetimes,
    g: Renderer,
    r: Recording,
    drawables: Seq<Drawable>,
    width: u32,
    height: u32,
)
    requires
        frame_objects_live(past, g.gpu, r),
        0 <= r.next_id < u32::MAX,
    ensures
        same_runs(
            lifetimes(past, rec_room(g, r, drawables, width, height)),
            lifetimes(past, g.rec_begin(r, width, height)),
        ),
{
    lemma_begin(past, g, r, width, height);
    if drawables.len() > 0 {
        lemma_roomy_runs(
            past,
            g.gpu.per_instance,
            g.gpu.per_batch,
            g.rec_begin(r, width, height),
            drawables.len() as int,
            batch_meshes(drawables).len() as int,
        );
    }
}

/// A frame ends the queries that it begins: afterwards none of the four runs,
/// and those that have nothing to do with it run on.
pub proof fn frames_end_their_queries(
    past: Lifetimes,
    g: Renderer,
    r: Recording,
    drawables: Seq<Drawable>,
    view: FrameView,
    width: u32,
    height: u32,
)
    requires
        g.can_render(r, drawables, width, height),
        frame_objects_live(past, g.gpu, r),
    ensures
        lifetimes(past, g.rec_render(r, drawables, view, width, height)).running == lifetimes(
            past,
            r,
        ).running.difference(
            set![
                TIME_ELAPSED,
                PRIMITIVES_SUBMITTED,
                VERTEX_SHADER_INVOCATIONS,
                FRAGMENT_SHADER_INVOCATIONS,
            ],
        ),
{
    assert(frame_objects(g.gpu)[0] < r.next_id);
    lemma_begin(past, g, r, width, height);
    lemma_room_runs(past, g, r, drawables, width, height);
    lemma_rest(past, g, r, drawables, view, width, height);
    lemma_four_begun_and_ended(lifetimes(past, r).running);
}

/// Whether the queries that were begun last, for each thing that is measured,
/// are those of the set, and none of them runs any more.
pub open spec fn measured_last(l: Lifetimes, q: QuerySet) -> bool {
    &&& l.begun.contains_key(TIME_ELAPSED) && l.begun[TIME_ELAPSED] == q.time
    &&& l.begun.contains_key(PRIMITIVES_SUBMITTED) && l.begun[PRIMITIVES_SUBMITTED] == q.prims
    &&& l.begun.contains_key(VERTEX_SHADER_INVOCATIONS) && l.begun[VERTEX_SHADER_INVOCATIONS]
        == q.vert
    &&& l.begun.contains_key(FRAGMENT_SHADER_INVOCATIONS) && l.begun[FRAGMENT_SHADER_INVOCATIONS]
        == q.frag
    &&& !l.running.contains(TIME_ELAPSED)
    &&& !l.running.contains(PRIMITIVES_SUBMITTED)
    &&& !l.running.contains(VERTEX_SHADER_INVOCATIONS)
    &&& !l.running.contains(FRAGMENT_SHADER_INVOCATIONS)
}

/// The statistics of a frame are those that the frame before it has measured,
/// whatever either of them draws: a frame reads the queries that were the last
/// to be begun and ended before it, and not those that it begins itself. The
/// first frame reads none.
///
/// `first` renders a frame, `second` is what it is afterwards, and renders the
/// next one.
pub proof fn frames_report_the_frame_before(
    past: Lifetimes,
    first: Renderer,
    r: Recording,
    drawables: Seq<Drawable>,
    view: FrameView,
    width: u32,
    height: u32,
    second: Renderer,
)
    requires
        first.can_render(r, drawables, width, height),
        frame_objects_live(past, first.gpu, r),
        second.gpu == first.readied(r, drawables, width, height),
        second.query_frame == next_frame(first.query_frame),
        first.query_frame < usize::MAX,
    ensures
        second.reads() == Some(first.writes()),
        measured_last(
            lifetimes(past, first.rec_render(r, drawables, view, width, height)),
            first.writes(),
        ),
        second.writes() == second.gpu.stat_queries[1 - write_set(first.query_frame)],
        first.query_frame == 0 ==> first.reads() is None,
{
    assert(frame_objects(first.gpu)[0] < r.next_id);
    queries_are_double_buffered(first.query_frame);
    queries_are_double_buffered(second.query_frame);
    lemma_begin(past, first, r, width, height);
    lemma_room_runs(past, first, r, drawables, width, height);
    lemma_rest(past, first, r, drawables, view, width, height);
}

/// A frame draws everything in two calls, however many objects there are: one
/// for each phase. A frame without objects draws nothing.
pub proof fn frames_draw_twice(
    past: Lifetimes,
    g: Renderer,
    r: Recording,
    drawables: Seq<Drawable>,
    view: FrameView,
    width: u32,
    height: u32,
)
    requires
        g.can_render(r, drawables, width, height),
        frame_objects_live(past, g.gpu, r),
    ensures
        ({
            let after = lifetimes(past, g.rec_render(r, drawables, view, width, height));
            after.draws - lifetimes(past, r).draws == if drawables.len() > 0 {
                2int
            } else {
                0int
            }
        }),
{
    assert(frame_objects(g.gpu)[0] < r.next_id);
    lemma_begin(past, g, r, width, height);
    lemma_room_runs(past, g, r, drawables, width, height);
    lemma_rest(past, g, r, drawables, view, width, height);
}

proof fn lemma_four_begun_and_ended(s: Set<u32>)
    ensures
        s.insert(TIME_ELAPSED).insert(PRIMITIVES_SUBMITTED).insert(
            VERTEX_SHADER_INVOCATIONS,
        ).insert(FRAGMENT_SHADER_INVOCATIONS).remove(FRAGMENT_SHADER_INVOCATIONS).remove(
            VERTEX_SHADER_INVOCATIONS,
        ).remove(PRIMITIVES_SUBMITTED).remove(TIME_ELAPSED) == s.difference(
            set![
                TIME_ELAPSED,
                PRIMITIVES_SUBMITTED,
                VERTEX_SHADER_INVOCATIONS,
                FRAGMENT_SHADER_INVOCATIONS,
            ],
        ),
{
    assert(s.insert(TIME_ELAPSED).insert(PRIMITIVES_SUBMITTED).insert(
        VERTEX_SHADER_INVOCATIONS,
    ).insert(FRAGMENT_SHADER_INVOCATIONS).remove(FRAGMENT_SHADER_INVOCATIONS).remove(
        VERTEX_SHADER_INVOCATIONS,
    ).remove(PRIMITIVES_SUBMITTED).remove(TIME_ELAPSED) =~= s.difference(
        set![
            TIME_ELAPSED,
            PRIMITIVES_SUBMITTED,
            VERTEX_SHADER_INVOCATIONS,
            FRAGMENT_SHADER_INVOCATIONS,
        ],
    ));
}

proof fn lemma_end(past: Lifetimes, r: Recording)
    ensures
        lifetimes(past, QuerySet::rec_end(r)).live == lifetimes(past, r).live,
        lifetimes(past, QuerySet::rec_end(r)).strays == lifetimes(past, r).strays,
        lifetimes(past, QuerySet::rec_end(r)).begun == lifetimes(past, r).begun,
        lifetimes(past, QuerySet::rec_end(r)).draws == lifetimes(past, r).draws,
        lifetimes(past, QuerySet::rec_end(r)).running == lifetimes(past, r).running.remove(
            FRAGMENT_SHADER_INVOCATIONS,
        ).remove(VERTEX_SHADER_INVOCATIONS).remove(PRIMITIVES_SUBMITTED).remove(TIME_ELAPSED),
        QuerySet::rec_end(r).next_id == r.next_id,
{
    broadcast use group_lifetimes;

}

proof fn lemma_call_keeps(past: Lifetimes, r: Recording)
    ensures
        lifetimes(past, r.bind_framebuffer(None)) == lifetimes(past, r),
{
    broadcast use group_lifetimes;

}

pub open spec fn is_query_of(q: QuerySet, id: u32) -> bool {
    id == q.time || id == q.prims || id == q.vert || id == q.frag
}

/// Whether an object belongs to the renderer.
pub open spec fn owns(g: GpuState, id: u32) -> bool {
    ||| id == g.arena.vertex_buf.handle
    ||| id == g.arena.index_buf.handle
    ||| id == g.per_instance.instance.handle
    ||| id == g.per_instance.culled.handle
    ||| id == g.per_instance.culled_p2.handle
    ||| id == g.per_instance.bounding.handle
    ||| id == g.per_instance.batch_index.handle
    ||| id == g.per_instance.visible.handle
    ||| id == g.per_batch.indirect.handle
    ||| id == g.per_batch.indirect_p2.handle
    ||| id == g.per_batch.base.handle
    ||| id == g.draw_count
    ||| id == g.material_buf.handle
    ||| id == g.offscreen.fbo
    ||| id == g.offscreen.color
    ||| id == g.offscreen.depth
    ||| g.hzb.texture == Some(id)
    ||| is_query_of(g.stat_queries[0], id)
    ||| is_query_of(g.stat_queries[1], id)
    ||| id == g.vao
    ||| id == g.hzb_shader.program
    ||| id == g.cull_shader.program
    ||| id == g.main_shader.program
}

/// A new renderer owns what its creation has created, besides the programs that
/// it was given: nothing else was created, and all of it lives.
pub proof fn creation_leaks_nothing(
    past: Lifetimes,
    r: Recording,
    default: GpuMaterial,
    g: Renderer,
    id: u32,
)
    requires
        0 <= r.next_id,
        r.next_id + 24 < u32::MAX,
        g.is_new(r.next_id),
    ensures
        ({
            let after = Renderer::rec_new(r, default);
            &&& after.next_id == r.next_id + 25
            &&& lifetimes(past, after).live.contains(id) <==> lifetimes(past, r).live.contains(id)
                || r.next_id <= id < after.next_id
            &&& r.next_id <= id < after.next_id ==> owns(g.gpu, id)
            &&& lifetimes(past, after).strays == lifetimes(past, r).strays
        }),
{
    broadcast use group_lifetimes;

    let r1 = Renderer::rec_buffers(Renderer::rec_state(r));
    assert(r1.next_id == r.next_id + 12);
    assert(lifetimes(past, r1).live.contains(id) <==> lifetimes(past, r).live.contains(id)
        || r.next_id <= id < r.next_id + 12);
    let r2 = Renderer::rec_materials(Renderer::rec_count_buffer(r1), default);
    assert(r2.next_id == r.next_id + 14);
    assert(lifetimes(past, r2).live.contains(id) <==> lifetimes(past, r).live.contains(id)
        || r.next_id <= id < r.next_id + 14);
    assert(g.gpu.stat_queries[0] == QuerySet::numbered(r.next_id + 17));
    assert(g.gpu.stat_queries[1] == QuerySet::numbered(r.next_id + 21));
}

} // verus!
