//! What the renderer owns, from its creation to its end: whatever is done with
//! it, its objects live, and cleaning up deletes all of them, each once.

use crate::arena::{doubled_or, rec_roomy, roomy, GpuArena, PackedVertex};
use crate::batching::Drawable;
use crate::element::{all_words, GpuElement};
use crate::gl::{GlCall, ObjectKind, Recording};
use crate::gl_buffer::{BufferUsage, GlBuffer};
use crate::lifetimes::{
    creation_leaks_nothing, frame_objects, frame_objects_live, group_lifetimes, kept,
    is_query_of, lemma_frame_kept, lemma_grow_kept, lemma_kept_same, lemma_kept_start,
    lemma_upload, lifetimes, owns, replaces, sound, Lifetimes,
};
use crate::materials::GpuMaterial;
use crate::renderer::{FrameView, GpuState, Renderer};
use crate::shader::{rec_delete, Shader};
use crate::stats::{queries_are_double_buffered, QuerySet};
use vstd::prelude::*;
use vstd::seq_lib::lemma_no_dup_in_concat;

verus! {

/// The buffers of the arena.
pub open spec fn arena_objects(arena: GpuArena) -> Seq<u32> {
    seq![arena.vertex_buf.handle, arena.index_buf.handle]
}

/// The programs.
pub open spec fn programs(g: GpuState) -> Seq<u32> {
    seq![g.main_shader.program, g.cull_shader.program, g.hzb_shader.program]
}

/// The objects that are never replaced.
pub open spec fn fixed_objects(g: GpuState) -> Seq<u32> {
    seq![
        g.draw_count,
        g.offscreen.fbo,
        g.offscreen.color,
        g.offscreen.depth,
        g.stat_queries[0].time,
        g.stat_queries[0].prims,
        g.stat_queries[0].vert,
        g.stat_queries[0].frag,
        g.stat_queries[1].time,
        g.stat_queries[1].prims,
        g.stat_queries[1].vert,
        g.stat_queries[1].frag,
        g.vao,
    ]
}

/// Everything that the renderer owns.
pub open spec fn objects(g: GpuState) -> Seq<u32> {
    arena_objects(g.arena) + seq![g.material_buf.handle] + programs(g) + fixed_objects(g)
        + frame_objects(g)
}

proof fn lemma_objects(g: GpuState, id: u32)
    ensures
        objects(g).contains(id) <==> owns(g, id),
{
    broadcast use vstd::seq_lib::group_seq_properties;

    assert(arena_objects(g.arena).contains(id) <==> id == g.arena.vertex_buf.handle || id
        == g.arena.index_buf.handle);
    assert(fixed_objects(g).contains(id) <==> {
        ||| id == g.draw_count
        ||| id == g.offscreen.fbo
        ||| id == g.offscreen.color
        ||| id == g.offscreen.depth
        ||| is_query_of(g.stat_queries[0], id)
        ||| is_query_of(g.stat_queries[1], id)
        ||| id == g.vao
    });
}

/// Objects of one kind are replaced, and the others stay.
proof fn lemma_middle(
    past: Lifetimes,
    r0: Recording,
    r: Recording,
    left: Seq<u32>,
    before: Seq<u32>,
    after: Seq<u32>,
    right: Seq<u32>,
)
    requires
        sound(lifetimes(past, r0).live, left + before + right, r0.next_id),
        kept(past, r0, before, r, after),
    ensures
        kept(past, r0, left + before + right, r, left + after + right),
{
    reveal(kept);
    reveal(sound);
    reveal(replaces);
    let live0 = lifetimes(past, r0).live;
    let live = lifetimes(past, r).live;
    let all0 = left + before + right;
    let all = left + after + right;
    let nl = left.len() as int;
    let nb = before.len() as int;
    let na = after.len() as int;
    assert forall|id: u32| #[trigger] left.contains(id) implies live0.contains(id)
        && !before.contains(id) && !right.contains(id) by {
        let i = left.index_of(id);
        assert(all0[i] == id);
        if before.contains(id) {
            assert(all0[nl + before.index_of(id)] == id);
        }
        if right.contains(id) {
            assert(all0[nl + nb + right.index_of(id)] == id);
        }
    }
    assert forall|id: u32| #[trigger] right.contains(id) implies live0.contains(id)
        && !before.contains(id) by {
        let i = right.index_of(id);
        assert(all0[nl + nb + i] == id);
        if before.contains(id) {
            assert(all0[nl + before.index_of(id)] == id);
        }
    }
    assert forall|id: u32| #[trigger] all0.contains(id) <==> left.contains(id) || before.contains(
        id,
    ) || right.contains(id) by {
        lemma_three(left, before, right, id);
    }
    assert forall|id: u32| #[trigger] all.contains(id) <==> left.contains(id) || after.contains(id)
        || right.contains(id) by {
        lemma_three(left, after, right, id);
    }
    assert(left.no_duplicates()) by {
        assert forall|i: int, j: int| 0 <= i < left.len() && 0 <= j < left.len() && i
            != j implies left[i] != left[j] by {
            assert(all0[i] != all0[j]);
        }
    }
    assert(right.no_duplicates()) by {
        assert forall|i: int, j: int| 0 <= i < right.len() && 0 <= j < right.len() && i
            != j implies right[i] != right[j] by {
            assert(all0[nl + nb + i] != all0[nl + nb + j]);
        }
    }
    assert forall|i: int, j: int| 0 <= i < left.len() && 0 <= j < after.len() implies left[i]
        != after[j] by {
        assert(left.contains(left[i]));
        assert(after.contains(after[j]));
    }
    lemma_no_dup_in_concat(left, after);
    assert forall|i: int, j: int| 0 <= i < (left + after).len() && 0 <= j < right.len() implies (
    left + after)[i] != right[j] by {
        assert(right.contains(right[j]));
        if i < nl {
            assert(left.contains(left[i]));
        } else {
            assert(after.contains(after[i - nl]));
        }
    }
    lemma_no_dup_in_concat(left + after, right);
    assert forall|i: int| 0 <= i < all.len() implies live.contains(#[trigger] all[i]) by {
        assert(all.contains(all[i]));
    }
}

proof fn lemma_three(a: Seq<u32>, b: Seq<u32>, c: Seq<u32>, id: u32)
    ensures
        (a + b + c).contains(id) <==> a.contains(id) || b.contains(id) || c.contains(id),
{
    let all = a + b + c;
    if a.contains(id) {
        assert(all[a.index_of(id)] == id);
    }
    if b.contains(id) {
        assert(all[a.len() + b.index_of(id)] == id);
    }
    if c.contains(id) {
        assert(all[a.len() + b.len() + c.index_of(id)] == id);
    }
    if all.contains(id) {
        let k = all.index_of(id);
        if k < a.len() {
            assert(a[k] == id);
        } else if k < a.len() + b.len() {
            assert(b[k - a.len()] == id);
        } else {
            assert(c[k - a.len() - b.len()] == id);
        }
    }
}

/// Some of the objects.
proof fn lemma_part(live: Set<u32>, left: Seq<u32>, part: Seq<u32>, right: Seq<u32>, next: int)
    requires
        sound(live, left + part + right, next),
    ensures
        sound(live, part, next),
{
    reveal(sound);
    let all = left + part + right;
    let nl = left.len() as int;
    assert forall|i: int| 0 <= i < part.len() implies live.contains(#[trigger] part[i]) by {
        assert(live.contains(all[nl + i]));
    }
    assert forall|i: int, j: int|
        0 <= i < part.len() && 0 <= j < part.len() && i != j implies part[i] != part[j] by {
        assert(all[nl + i] != all[nl + j]);
    }
}

/// Making room in a buffer may replace it.
proof fn lemma_roomy_kept<T: GpuElement>(
    past: Lifetimes,
    r0: Recording,
    objs0: Seq<u32>,
    buf: GlBuffer<T>,
    r: Recording,
    required: int,
    usage: BufferUsage,
    objs: Seq<u32>,
    i: int,
)
    requires
        kept(past, r0, objs0, r, objs),
        0 <= i < objs.len(),
        objs[i] == buf.handle,
        r.next_id <= u32::MAX,
    ensures
        kept(
            past,
            r0,
            objs0,
            rec_roomy(buf, r, required, usage),
            objs.update(i, roomy(buf, r, required).handle),
        ),
        r.next_id <= rec_roomy(buf, r, required, usage).next_id <= r.next_id + 1,
{
    if required > buf.capacity {
        let cap = doubled_or(buf.capacity as int, required);
        lemma_grow_kept(past, r0, objs0, buf, r, cap, usage, objs, i);
    } else {
        assert(objs.update(i, buf.handle) =~= objs);
    }
}

/// Adding a mesh may replace the buffers of the arena.
proof fn lemma_push_kept(
    past: Lifetimes,
    arena: GpuArena,
    r: Recording,
    vertices: Seq<PackedVertex>,
    indices: Seq<u32>,
)
    requires
        sound(lifetimes(past, r).live, arena_objects(arena), r.next_id),
        r.next_id + 1 < u32::MAX,
    ensures
        kept(
            past,
            r,
            arena_objects(arena),
            arena.rec_push(r, vertices, indices),
            arena_objects(arena.pushed(r, vertices.len(), indices.len())),
        ),
{
    let objs = arena_objects(arena);
    let usage = BufferUsage::DynamicDraw;
    let after = arena.pushed(r, vertices.len(), indices.len());
    lemma_kept_start(past, r, objs);
    let nv = arena.next_vertex + vertices.len();
    let ni = arena.next_index + indices.len();
    lemma_roomy_kept(past, r, objs, arena.vertex_buf, r, nv, usage, objs, 0);
    let r1 = rec_roomy(arena.vertex_buf, r, nv, usage);
    let o1 = objs.update(0, after.vertex_buf.handle);
    lemma_roomy_kept(past, r, objs, arena.index_buf, r1, ni, usage, o1, 1);
    let r2 = rec_roomy(arena.index_buf, r1, ni, usage);
    let o2 = o1.update(1, after.index_buf.handle);
    assert(o2 =~= arena_objects(after));
    lemma_upload(past, after.vertex_buf, r2, all_words(vertices), arena.next_vertex as int);
    let r3 = after.vertex_buf.rec_upload(r2, all_words(vertices), arena.next_vertex as int);
    lemma_upload(past, after.index_buf, r3, all_words(indices), arena.next_index as int);
    lemma_kept_same(past, r, objs, r2, o2, arena.rec_push(r, vertices, indices));
}

/// Whether the renderer's objects live and are different objects, and nothing
/// that lives is as new as what is created next.
pub open spec fn owned(past: Lifetimes, g: GpuState, r: Recording) -> bool {
    sound(lifetimes(past, r).live, objects(g), r.next_id)
}

/// What lives and does not belong to the renderer.
pub open spec fn theirs(past: Lifetimes, g: GpuState, r: Recording) -> Set<u32> {
    lifetimes(past, r).live.difference(objects(g).to_set())
}

/// What is replaced was the renderer's and is the renderer's.
proof fn lemma_kept_theirs(
    past: Lifetimes,
    g0: GpuState,
    r0: Recording,
    g: GpuState,
    r: Recording,
)
    requires
        kept(past, r0, objects(g0), r, objects(g)),
    ensures
        owned(past, g, r),
        theirs(past, g, r) == theirs(past, g0, r0),
        lifetimes(past, r).strays == lifetimes(past, r0).strays,
{
    reveal(kept);
    reveal(replaces);
    assert(theirs(past, g, r) =~= theirs(past, g0, r0));
}

/// A frame never reads the queries that it is writing.
pub proof fn frames_read_other_queries(past: Lifetimes, g: Renderer, r: Recording, id: u32)
    requires
        owned(past, g.gpu, r),
        g.reads() is Some,
        is_query_of(g.writes(), id),
    ensures
        !is_query_of(g.reads()->0, id),
{
    reveal(sound);
    queries_are_double_buffered(g.query_frame);
    let objs = objects(g.gpu);
    let fixed = fixed_objects(g.gpu);
    assert forall|i: int| 0 <= i < 13 implies objs[6 + i] == #[trigger] fixed[i] by {}
    let a = g.gpu.stat_queries[0];
    let b = g.gpu.stat_queries[1];
    assert(fixed[4] == a.time && fixed[5] == a.prims && fixed[6] == a.vert && fixed[7] == a.frag);
    assert(fixed[8] == b.time && fixed[9] == b.prims && fixed[10] == b.vert && fixed[11]
        == b.frag);
    assert(g.reads() == Some(b) && g.writes() == a || g.reads() == Some(a) && g.writes() == b);
}

/// Adding a mesh keeps everything in order.
pub proof fn uploads_leak_nothing(
    past: Lifetimes,
    g: GpuState,
    r: Recording,
    vertices: Seq<PackedVertex>,
    indices: Seq<u32>,
)
    requires
        owned(past, g, r),
        r.next_id + 1 < u32::MAX,
    ensures
        ({
            let arena = g.arena.pushed(r, vertices.len(), indices.len());
            let g1 = GpuState { arena, ..g };
            let r1 = g.arena.rec_push(r, vertices, indices);
            &&& owned(past, g1, r1)
            &&& theirs(past, g1, r1) == theirs(past, g, r)
            &&& lifetimes(past, r1).strays == lifetimes(past, r).strays
        }),
{
    let arena = g.arena.pushed(r, vertices.len(), indices.len());
    let g1 = GpuState { arena, ..g };
    let r1 = g.arena.rec_push(r, vertices, indices);
    let none = Seq::<u32>::empty();
    let rest = seq![g.material_buf.handle] + programs(g) + fixed_objects(g) + frame_objects(g);
    assert(fixed_objects(g1) == fixed_objects(g));
    assert(frame_objects(g1) == frame_objects(g));
    assert(objects(g) =~= none + arena_objects(g.arena) + rest);
    assert(objects(g1) =~= none + arena_objects(arena) + rest);
    lemma_part(lifetimes(past, r).live, none, arena_objects(g.arena), rest, r.next_id);
    lemma_push_kept(past, g.arena, r, vertices, indices);
    lemma_middle(past, r, r1, none, arena_objects(g.arena), arena_objects(arena), rest);
    lemma_kept_theirs(past, g, r, g1, r1);
}

/// Adding a material keeps everything in order.
pub proof fn materials_leak_nothing(
    past: Lifetimes,
    g: Renderer,
    r: Recording,
    materials: int,
    idx: int,
    mat: GpuMaterial,
)
    requires
        owned(past, g.gpu, r),
        r.next_id < u32::MAX,
    ensures
        ({
            let material_buf = roomy(g.gpu.material_buf, r, materials);
            let g1 = GpuState { material_buf, ..g.gpu };
            let r1 = g.rec_material(r, materials, idx, mat);
            &&& owned(past, g1, r1)
            &&& theirs(past, g1, r1) == theirs(past, g.gpu, r)
            &&& lifetimes(past, r1).strays == lifetimes(past, r).strays
        }),
{
    let buf = g.gpu.material_buf;
    let material_buf = roomy(buf, r, materials);
    let g0 = g.gpu;
    let g1 = GpuState { material_buf, ..g0 };
    let r1 = g.rec_material(r, materials, idx, mat);
    let usage = BufferUsage::StaticDraw;
    let left = arena_objects(g0.arena);
    let right = programs(g0) + fixed_objects(g0) + frame_objects(g0);
    let old_one = seq![buf.handle];
    let new_one = seq![material_buf.handle];
    assert(fixed_objects(g1) == fixed_objects(g0));
    assert(frame_objects(g1) == frame_objects(g0));
    assert(objects(g0) =~= left + old_one + right);
    assert(objects(g1) =~= left + new_one + right);
    lemma_part(lifetimes(past, r).live, left, old_one, right, r.next_id);
    lemma_kept_start(past, r, old_one);
    lemma_roomy_kept(past, r, old_one, buf, r, materials, usage, old_one, 0);
    assert(old_one.update(0, material_buf.handle) =~= new_one);
    let r0 = rec_roomy(buf, r, materials, usage);
    lemma_upload(past, material_buf, r0, all_words(seq![mat]), idx);
    lemma_kept_same(past, r, old_one, r0, new_one, r1);
    lemma_middle(past, r, r1, left, old_one, new_one, right);
    lemma_kept_theirs(past, g0, r, g1, r1);
}

/// Changing a material keeps everything in order.
pub proof fn changes_leak_nothing(
    past: Lifetimes,
    g: GpuState,
    r: Recording,
    idx: int,
    mat: GpuMaterial,
)
    requires
        owned(past, g, r),
    ensures
        ({
            let r1 = g.material_buf.rec_upload(r, all_words(seq![mat]), idx);
            &&& owned(past, g, r1)
            &&& theirs(past, g, r1) == theirs(past, g, r)
            &&& lifetimes(past, r1).strays == lifetimes(past, r).strays
        }),
{
    lemma_upload(past, g.material_buf, r, all_words(seq![mat]), idx);
}

/// A frame keeps everything in order.
pub proof fn rendering_leaks_nothing(
    past: Lifetimes,
    g: Renderer,
    r: Recording,
    drawables: Seq<Drawable>,
    view: FrameView,
    width: u32,
    height: u32,
)
    requires
        owned(past, g.gpu, r),
        g.can_render(r, drawables, width, height),
    ensures
        ({
            let g1 = g.readied(r, drawables, width, height);
            let r1 = g.rec_render(r, drawables, view, width, height);
            &&& owned(past, g1, r1)
            &&& theirs(past, g1, r1) == theirs(past, g.gpu, r)
            &&& lifetimes(past, r1).strays == lifetimes(past, r).strays
        }),
{
    let g0 = g.gpu;
    let g1 = g.readied(r, drawables, width, height);
    let r1 = g.rec_render(r, drawables, view, width, height);
    let none = Seq::<u32>::empty();
    let rest = arena_objects(g0.arena) + seq![g0.material_buf.handle] + programs(g0)
        + fixed_objects(g0);
    assert(fixed_objects(g1) == fixed_objects(g0));
    assert(objects(g0) =~= rest + frame_objects(g0) + none);
    assert(objects(g1) =~= rest + frame_objects(g1) + none);
    lemma_part(lifetimes(past, r).live, rest, frame_objects(g0), none, r.next_id);
    assert(frame_objects_live(past, g0, r)) by {
        reveal(sound);
    }
    lemma_frame_kept(past, g, r, drawables, view, width, height);
    lemma_middle(past, r, r1, rest, frame_objects(g0), frame_objects(g1), none);
    lemma_kept_theirs(past, g0, r, g1, r1);
}

/// A program that the host has built takes the place of another, which is
/// deleted.
proof fn lemma_take_over(past: Lifetimes, r: Recording, objs: Seq<u32>, i: int, program: u32)
    requires
        sound(lifetimes(past, r).live, objs, r.next_id),
        0 <= i < objs.len(),
        lifetimes(past, r).live.contains(program),
        !objs.contains(program),
    ensures
        ({
            let r1 = rec_delete(r, ObjectKind::Program, objs[i]);
            let objs1 = objs.update(i, program);
            &&& sound(lifetimes(past, r1).live, objs1, r1.next_id)
            &&& lifetimes(past, r1).live.difference(objs1.to_set()) == lifetimes(
                past,
                r,
            ).live.difference(objs.to_set()).remove(program)
            &&& lifetimes(past, r1).strays == lifetimes(past, r).strays
            &&& r1.next_id == r.next_id
        }),
{
    broadcast use group_lifetimes;

    reveal(sound);
    let r1 = rec_delete(r, ObjectKind::Program, objs[i]);
    let objs1 = objs.update(i, program);
    let live = lifetimes(past, r).live;
    let live1 = lifetimes(past, r1).live;
    assert(live1 == live.remove(objs[i]));
    assert(objs.contains(objs[i]));
    assert forall|id: u32| objs1.contains(id) <==> id == program || (id != objs[i]
        && objs.contains(id)) by {
        if id == program {
            assert(objs1[i] == id);
        }
        if objs.contains(id) && id != objs[i] {
            let k = objs.index_of(id);
            assert(objs1[k] == id);
        }
        if objs1.contains(id) && id != program {
            let k = objs1.index_of(id);
            assert(objs[k] == id);
            assert(objs.contains(id));
        }
    }
    assert forall|k: int| 0 <= k < objs1.len() implies live1.contains(#[trigger] objs1[k]) by {
        if k != i {
            assert(objs[k] != objs[i]);
        }
    }
    assert forall|a: int, b: int| 0 <= a < objs1.len() && 0 <= b < objs1.len() && a
        != b implies objs1[a] != objs1[b] by {
        assert(objs.contains(objs[a]));
        assert(objs.contains(objs[b]));
    }
    assert(live1.difference(objs1.to_set()) =~= live.difference(objs.to_set()).remove(program));
}

/// What an attempt to build a program again has given: when its files were
/// modified, and the new program if there is one.
pub struct Rebuild {
    pub mtimes: Seq<i128>,
    pub program: Option<u32>,
}

impl Rebuild {
    /// A program is built again only when a file has changed.
    pub open spec fn called_for(self, shader: Shader) -> bool {
        self.program is Some ==> self.mtimes != shader.mtimes@
    }

    /// The new program, as a set.
    pub open spec fn built(self) -> Set<u32> {
        match self.program {
            Some(program) => set![program],
            None => Set::empty(),
        }
    }
}

/// What is recorded when programs are replaced.
pub open spec fn rec_reloads(
    g: GpuState,
    r: Recording,
    main: Rebuild,
    cull: Rebuild,
    hzb: Rebuild,
) -> Recording {
    g.hzb_shader.rec_reload(
        g.cull_shader.rec_reload(
            g.main_shader.rec_reload(r, main.mtimes, main.program),
            cull.mtimes,
            cull.program,
        ),
        hzb.mtimes,
        hzb.program,
    )
}

/// What is on the GPU once programs have been replaced.
pub open spec fn reloads(
    g: GpuState,
    main: Rebuild,
    cull: Rebuild,
    hzb: Rebuild,
    after: GpuState,
) -> bool {
    &&& g.main_shader.reloaded(main.mtimes, main.program, after.main_shader)
    &&& g.cull_shader.reloaded(cull.mtimes, cull.program, after.cull_shader)
    &&& g.hzb_shader.reloaded(hzb.mtimes, hzb.program, after.hzb_shader)
    &&& after == GpuState {
        main_shader: after.main_shader,
        cull_shader: after.cull_shader,
        hzb_shader: after.hzb_shader,
        ..g
    }
}

/// Whether the new programs are different objects of the host's.
pub open spec fn hands_over(host: Set<u32>, main: Rebuild, cull: Rebuild, hzb: Rebuild) -> bool {
    &&& main.built().disjoint(cull.built())
    &&& main.built().disjoint(hzb.built())
    &&& cull.built().disjoint(hzb.built())
    &&& main.built().union(cull.built()).union(hzb.built()).subset_of(host)
}

/// One program is replaced, or not.
proof fn lemma_reload(
    past: Lifetimes,
    r: Recording,
    shader: Shader,
    b: Rebuild,
    objs: Seq<u32>,
    i: int,
)
    requires
        sound(lifetimes(past, r).live, objs, r.next_id),
        0 <= i < objs.len(),
        objs[i] == shader.program,
        b.called_for(shader),
        b.built().subset_of(lifetimes(past, r).live.difference(objs.to_set())),
    ensures
        ({
            let r1 = shader.rec_reload(r, b.mtimes, b.program);
            let objs1 = objs.update(
                i,
                match b.program {
                    Some(program) => program,
                    None => objs[i],
                },
            );
            &&& sound(lifetimes(past, r1).live, objs1, r1.next_id)
            &&& lifetimes(past, r1).live.difference(objs1.to_set()) == lifetimes(
                past,
                r,
            ).live.difference(objs.to_set()).difference(b.built())
            &&& lifetimes(past, r1).strays == lifetimes(past, r).strays
            &&& r1.next_id == r.next_id
        }),
{
    let others = lifetimes(past, r).live.difference(objs.to_set());
    match b.program {
        Some(program) => {
            assert(b.built().contains(program));
            assert(others.contains(program));
            lemma_take_over(past, r, objs, i, program);
            assert(others.difference(b.built()) =~= others.remove(program));
        },
        None => {
            assert(objs.update(i, objs[i]) =~= objs);
            assert(others.difference(b.built()) =~= others);
        },
    }
}

/// Replacing programs keeps everything in order: what the host has built belongs
/// to the renderer from then on, and what it replaces is deleted.
pub proof fn reloads_leak_nothing(
    past: Lifetimes,
    g: GpuState,
    r: Recording,
    main: Rebuild,
    cull: Rebuild,
    hzb: Rebuild,
    after: GpuState,
)
    requires
        owned(past, g, r),
        main.called_for(g.main_shader),
        cull.called_for(g.cull_shader),
        hzb.called_for(g.hzb_shader),
        hands_over(theirs(past, g, r), main, cull, hzb),
        reloads(g, main, cull, hzb, after),
    ensures
        ({
            let r1 = rec_reloads(g, r, main, cull, hzb);
            &&& owned(past, after, r1)
            &&& theirs(past, after, r1) == theirs(past, g, r).difference(main.built()).difference(
                cull.built(),
            ).difference(hzb.built())
            &&& lifetimes(past, r1).strays == lifetimes(past, r).strays
            &&& r1.next_id == r.next_id
        }),
{
    let objs = objects(g);
    let left = arena_objects(g.arena) + seq![g.material_buf.handle];
    let right = fixed_objects(g) + frame_objects(g);
    assert(objs =~= left + programs(g) + right);
    assert(objs[3] == g.main_shader.program);
    assert(objs[4] == g.cull_shader.program);
    assert(objs[5] == g.hzb_shader.program);
    assert(main.built().subset_of(theirs(past, g, r)));
    assert(cull.built().subset_of(theirs(past, g, r)));
    assert(hzb.built().subset_of(theirs(past, g, r)));

    lemma_reload(past, r, g.main_shader, main, objs, 3);
    let r1 = g.main_shader.rec_reload(r, main.mtimes, main.program);
    let o1 = objs.update(3, after.main_shader.program);
    let t1 = theirs(past, g, r).difference(main.built());
    assert(lifetimes(past, r1).live.difference(o1.to_set()) == t1);
    assert(cull.built().subset_of(t1));

    lemma_reload(past, r1, g.cull_shader, cull, o1, 4);
    let r2 = g.cull_shader.rec_reload(r1, cull.mtimes, cull.program);
    let o2 = o1.update(4, after.cull_shader.program);
    let t2 = t1.difference(cull.built());
    assert(lifetimes(past, r2).live.difference(o2.to_set()) == t2);
    assert(hzb.built().subset_of(t2));

    lemma_reload(past, r2, g.hzb_shader, hzb, o2, 5);
    let o3 = o2.update(5, after.hzb_shader.program);
    assert(fixed_objects(after) == fixed_objects(g));
    assert(frame_objects(after) == frame_objects(g));
    assert(objects(after) =~= left + programs(after) + right);
    assert(o3 =~= left + programs(after) + right);
}

/// What lives once the objects have been deleted, one after another.
spec fn deleted(l: Lifetimes, ids: Seq<u32>) -> Lifetimes
    decreases ids.len(),
{
    if ids.len() == 0 {
        l
    } else {
        deleted(l, ids.drop_last()).step(
            GlCall::Delete { kind: ObjectKind::Buffer, id: ids.last() },
        )
    }
}

broadcast proof fn lemma_deleted_push(l: Lifetimes, ids: Seq<u32>, id: u32)
    ensures
        #[trigger] deleted(l, ids.push(id)) == deleted(l, ids).step(
            GlCall::Delete { kind: ObjectKind::Buffer, id },
        ),
{
    assert(ids.push(id).drop_last() =~= ids);
}

/// Different objects that live can be deleted one after another.
proof fn lemma_deleted(l: Lifetimes, ids: Seq<u32>)
    requires
        ids.no_duplicates(),
        forall|i: int| 0 <= i < ids.len() ==> l.live.contains(#[trigger] ids[i]),
    ensures
        deleted(l, ids).live == l.live.difference(ids.to_set()),
        deleted(l, ids).strays == l.strays,
    decreases ids.len(),
{
    if ids.len() > 0 {
        let before = ids.drop_last();
        assert forall|i: int| 0 <= i < before.len() implies l.live.contains(
            #[trigger] before[i],
        ) by {
            assert(before[i] == ids[i]);
        }
        lemma_deleted(l, before);
        assert(!before.contains(ids.last())) by {
            if before.contains(ids.last()) {
                let k = before.index_of(ids.last());
                assert(ids[k] == ids[ids.len() - 1]);
            }
        }
        assert(l.live.contains(ids[ids.len() - 1]));
        assert forall|id: u32| ids.contains(id) <==> before.contains(id) || id == ids.last() by {
            if ids.contains(id) && id != ids.last() {
                let k = ids.index_of(id);
                assert(before[k] == id);
            }
            if before.contains(id) {
                let k = before.index_of(id);
                assert(ids[k] == id);
            }
            assert(ids[ids.len() - 1] == ids.last());
        }
    }
    assert(deleted(l, ids).live =~= l.live.difference(ids.to_set()));
}

/// The objects in the order in which they are deleted.
spec fn deletion_order(g: GpuState) -> Seq<u32> {
    let arena = Seq::<u32>::empty().push(g.arena.vertex_buf.handle).push(g.arena.index_buf.handle);
    let first = arena.push(g.per_instance.instance.handle).push(g.per_instance.culled.handle).push(
        g.per_batch.indirect.handle,
    );
    let second = first.push(g.per_instance.culled_p2.handle).push(g.per_batch.indirect_p2.handle);
    let buffers = second.push(g.per_instance.bounding.handle).push(
        g.per_instance.batch_index.handle,
    ).push(g.per_batch.base.handle).push(g.per_instance.visible.handle).push(g.draw_count).push(
        g.material_buf.handle,
    );
    let targets = buffers.push(g.offscreen.fbo).push(g.offscreen.color).push(g.offscreen.depth);
    let a = g.stat_queries[0];
    let b = g.stat_queries[1];
    (match g.hzb.texture {
        Some(t) => targets.push(t),
        None => targets,
    }).push(a.time).push(a.prims).push(a.vert).push(a.frag).push(b.time).push(b.prims).push(
        b.vert,
    ).push(b.frag).push(g.vao).push(g.hzb_shader.program).push(g.cull_shader.program).push(
        g.main_shader.program,
    )
}

proof fn lemma_deletion_order(g: GpuState)
    requires
        objects(g).no_duplicates(),
    ensures
        deletion_order(g).no_duplicates(),
        deletion_order(g).to_set() == objects(g).to_set(),
{
    let order = deletion_order(g);
    assert forall|id: u32| order.contains(id) <==> objects(g).contains(id) by {
        broadcast use vstd::seq_lib::group_seq_properties;

        lemma_objects(g, id);
        assert(order.contains(id) <==> owns(g, id));
    }
    assert(order.to_set() =~= objects(g).to_set());
    objects(g).unique_seq_to_set();
    assert(order.len() == objects(g).len());
    order.lemma_no_dup_set_cardinality();
}

proof fn lemma_cleanup(past: Lifetimes, g: Renderer, r: Recording)
    ensures
        lifetimes(past, g.rec_cleanup(r)) == deleted(
            lifetimes(past, r),
            deletion_order(g.gpu),
        ),
{
    broadcast use {group_lifetimes, lemma_deleted_push};

    assert(deleted(lifetimes(past, r), Seq::empty()) == lifetimes(past, r));
}

/// Cleaning up deletes everything that belongs to the renderer, each object
/// once, and nothing else.
pub proof fn cleanup_deletes_everything(past: Lifetimes, g: Renderer, r: Recording)
    requires
        owned(past, g.gpu, r),
    ensures
        ({
            let after = lifetimes(past, g.rec_cleanup(r));
            &&& after.live == theirs(past, g.gpu, r)
            &&& after.strays == lifetimes(past, r).strays
            &&& forall|id: u32| #[trigger] objects(g.gpu).contains(id) <==> owns(g.gpu, id)
        }),
{
    reveal(sound);
    let order = deletion_order(g.gpu);
    let objs = objects(g.gpu);
    lemma_deletion_order(g.gpu);
    lemma_cleanup(past, g, r);
    assert forall|i: int| 0 <= i < order.len() implies lifetimes(past, r).live.contains(
        #[trigger] order[i],
    ) by {
        assert(order.to_set().contains(order[i]));
        assert(objs.to_set().contains(order[i]));
        let k = objs.index_of(order[i]);
        assert(objs[k] == order[i]);
    }
    lemma_deleted(lifetimes(past, r), order);
    assert forall|id: u32| #[trigger] objs.contains(id) <==> owns(g.gpu, id) by {
        lemma_objects(g.gpu, id);
    }
}

/// Whether three programs are different objects that live.
pub open spec fn programs_live(l: Lifetimes, ids: Seq<u32>) -> bool {
    &&& ids.no_duplicates()
    &&& forall|i: int| 0 <= i < ids.len() ==> l.live.contains(#[trigger] ids[i])
}

/// The objects that are created with a renderer, besides those of its frames.
proof fn lemma_new_numbers(g: Renderer, first: int)
    requires
        g.is_new(first),
        0 <= first,
        first + 24 < u32::MAX,
    ensures
        arena_objects(g.gpu.arena) == seq![(first + 1) as u32, (first + 2) as u32],
        g.gpu.material_buf.handle == first + 13,
        fixed_objects(g.gpu).len() == 13,
        fixed_objects(g.gpu).no_duplicates(),
        forall|i: int|
            0 <= i < 13 ==> {
                let id = #[trigger] fixed_objects(g.gpu)[i];
                id == first || id == first + 12 || first + 14 <= id < first + 25
            },
        frame_objects(g.gpu).len() == 9,
        frame_objects(g.gpu).no_duplicates(),
        forall|i: int|
            0 <= i < 9 ==> first + 3 <= #[trigger] frame_objects(g.gpu)[i] < first + 12,
{
    assert(g.gpu.stat_queries[0] == QuerySet::numbered(first + 17));
    assert(g.gpu.stat_queries[1] == QuerySet::numbered(first + 21));
    assert(arena_objects(g.gpu.arena) =~= seq![(first + 1) as u32, (first + 2) as u32]);
    let f = frame_objects(g.gpu);
    assert(f.len() == 9);
    assert(f[0] == first + 3 && f[1] == first + 4 && f[2] == first + 6 && f[3] == first + 8 && f[4]
        == first + 9 && f[5] == first + 11 && f[6] == first + 5 && f[7] == first + 7 && f[8]
        == first + 10);
}

/// A new renderer owns what it was given and what was created, and everything is
/// in order; what else lived before is the host's.
pub proof fn new_renderers_own_their_objects(
    past: Lifetimes,
    r: Recording,
    default: GpuMaterial,
    g: Renderer,
)
    requires
        0 <= r.next_id,
        r.next_id + 24 < u32::MAX,
        g.is_new(r.next_id),
        programs_live(lifetimes(past, r), programs(g.gpu)),
        forall|id: u32| #[trigger] lifetimes(past, r).live.contains(id) ==> id < r.next_id,
    ensures
        ({
            let after = Renderer::rec_new(r, default);
            &&& owned(past, g.gpu, after)
            &&& theirs(past, g.gpu, after) == lifetimes(past, r).live.difference(
                programs(g.gpu).to_set(),
            )
            &&& lifetimes(past, after).strays == lifetimes(past, r).strays
        }),
{
    let after = Renderer::rec_new(r, default);
    let first = r.next_id;
    let live = lifetimes(past, after).live;
    creation_leaks_nothing(past, r, default, g, 0);
    assert forall|id: u32| #[trigger] live.contains(id) <==> lifetimes(past, r).live.contains(id)
        || first <= id < first + 25 by {
        creation_leaks_nothing(past, r, default, g, id);
    }
    lemma_new_numbers(g, first);
    let a = arena_objects(g.gpu.arena);
    let b = seq![g.gpu.material_buf.handle];
    let c = programs(g.gpu);
    let d = fixed_objects(g.gpu);
    let e = frame_objects(g.gpu);
    assert forall|i: int| 0 <= i < 3 implies #[trigger] c[i] < first by {
        assert(lifetimes(past, r).live.contains(c[i]));
    }
    assert(a.no_duplicates());
    lemma_no_dup_in_concat(a, b);
    let ab = a + b;
    assert(ab[0] == first + 1 && ab[1] == first + 2 && ab[2] == first + 13);
    assert(ab.len() == 3);
    assert forall|i: int| 0 <= i < 3 implies first <= #[trigger] ab[i] by {}
    lemma_no_dup_in_concat(ab, c);
    let abc = ab + c;
    assert forall|i: int| 0 <= i < abc.len() implies {
        let id = #[trigger] abc[i];
        id < first || id == first + 1 || id == first + 2 || id == first + 13
    } by {
        if i >= 3 {
            assert(abc[i] == c[i - 3]);
        } else {
            assert(abc[i] == ab[i]);
        }
    }
    lemma_no_dup_in_concat(abc, d);
    let abcd = abc + d;
    assert forall|i: int| 0 <= i < abcd.len() implies {
        let id = #[trigger] abcd[i];
        id < first + 3 || first + 12 <= id < first + 25
    } by {
        if i >= 6 {
            assert(abcd[i] == d[i - 6]);
        } else {
            assert(abcd[i] == abc[i]);
        }
    }
    lemma_no_dup_in_concat(abcd, e);
    let objs = objects(g.gpu);
    assert(objs == abcd + e);
    assert forall|i: int| 0 <= i < objs.len() implies live.contains(#[trigger] objs[i]) by {
        if i >= 19 {
            assert(objs[i] == e[i - 19]);
        } else if i >= 6 {
            assert(objs[i] == d[i - 6]);
        } else if i >= 3 {
            assert(objs[i] == c[i - 3]);
        } else {
            assert(objs[i] == ab[i]);
        }
    }
    reveal(sound);
    assert forall|id: u32| objs.contains(id) <==> c.contains(id) || first <= id < first + 25 by {
        lemma_objects(g.gpu, id);
        if first <= id < first + 25 {
            creation_leaks_nothing(past, r, default, g, id);
        }
        if objs.contains(id) {
            let i = objs.index_of(id);
            if 3 <= i < 6 {
                assert(objs[i] == c[i - 3]);
                assert(c.contains(id));
            } else if i >= 19 {
                assert(objs[i] == e[i - 19]);
            } else if i >= 6 {
                assert(objs[i] == d[i - 6]);
            } else {
                assert(objs[i] == ab[i]);
            }
        }
        if c.contains(id) {
            assert(objs[3 + c.index_of(id)] == id);
        }
    }
    assert(theirs(past, g.gpu, after) =~= lifetimes(past, r).live.difference(c.to_set()));
}

} // verus!
