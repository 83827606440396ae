//! Whatever is done with a renderer between its creation and its end: the law
//! over whole runs of calls.

use crate::arena::{room_exists, PackedVertex};
use crate::batching::Drawable;
use crate::element::all_words;
use crate::gl::Recording;
use crate::lifetimes::{lifetimes, Lifetimes};
use crate::materials::GpuMaterial;
use crate::ownership::{
    changes_leak_nothing, cleanup_deletes_everything, hands_over, materials_leak_nothing,
    new_renderers_own_their_objects, objects, owned, programs, programs_live, rec_reloads, reloads,
    reloads_leak_nothing, rendering_leaks_nothing, theirs, uploads_leak_nothing, Rebuild,
};
use crate::renderer::{FrameView, GpuState, Renderer};
use vstd::prelude::*;

verus! {

/// A renderer, what it has recorded so far, and what came of the calls that were
/// recorded and replayed before.
pub struct Moment {
    pub renderer: Renderer,
    pub recording: Recording,
    pub past: Lifetimes,
}

impl Moment {
    /// Whether the renderer's objects live and are different objects.
    pub open spec fn in_order(self) -> bool {
        owned(self.past, self.renderer.gpu, self.recording)
    }

    /// What lives and is the host's.
    pub open spec fn host(self) -> Set<u32> {
        theirs(self.past, self.renderer.gpu, self.recording)
    }

    /// What lives and runs now.
    pub open spec fn now(self) -> Lifetimes {
        lifetimes(self.past, self.recording)
    }
}

/// What can be done with a renderer.
pub enum Act {
    /// [`Renderer::upload_mesh`].
    UploadMesh { vertices: Seq<PackedVertex>, indices: Seq<u32> },
    /// [`Renderer::add_static_material`] and [`Renderer::add_override_material`].
    AddMaterial { mat: GpuMaterial },
    /// [`Renderer::update_override_material`].
    ChangeMaterial { idx: u32, mat: GpuMaterial },
    /// [`Renderer::seal_static_materials`].
    SealMaterials,
    /// [`Renderer::render`].
    Render { drawables: Seq<Drawable>, view: FrameView, width: u32, height: u32 },
    /// [`Renderer::try_reload_shaders`].
    ReloadShaders { main: Rebuild, cull: Rebuild, hzb: Rebuild },
    /// The recorded calls are replayed, and the list is cleared.
    Replay,
    /// The host records calls of its own: it creates objects, and deletes objects
    /// that are not the renderer's.
    Host { come: Set<u32>, gone: Set<u32> },
}

impl Act {
    /// Whether it can be done, as the functions require it.
    pub open spec fn possible(self, m: Moment) -> bool {
        let g = m.renderer;
        let r = m.recording;
        match self {
            Act::UploadMesh { vertices, indices } => {
                &&& g.wf()
                &&& g.known(r)
                &&& g.gpu.arena.has_room(vertices.len(), indices.len())
                &&& r.next_id + 1 < u32::MAX
            },
            Act::AddMaterial { mat } => {
                &&& g.wf()
                &&& g.registry@.all.len() < u32::MAX
                &&& room_exists(g.gpu.material_buf, g.registry@.all.len() + 1int)
                &&& r.next_id < u32::MAX
            },
            Act::ChangeMaterial { idx, mat } => g.wf() && g.registry@.is_override(idx as int),
            Act::SealMaterials => g.wf(),
            Act::Render { drawables, view, width, height } => g.can_render(
                r,
                drawables,
                width,
                height,
            ),
            Act::ReloadShaders { main, cull, hzb } => {
                &&& g.wf()
                &&& main.called_for(g.gpu.main_shader)
                &&& cull.called_for(g.gpu.cull_shader)
                &&& hzb.called_for(g.gpu.hzb_shader)
                &&& hands_over(m.host(), main, cull, hzb)
            },
            Act::Replay => true,
            Act::Host { come, gone } => gone.subset_of(m.host()) && forall|id: u32| #[trigger]
                come.contains(id) ==> r.next_id <= id,
        }
    }

    /// Whether `after` is what comes of it, as the functions ensure it.
    pub open spec fn leads_to(self, m: Moment, after: Moment) -> bool {
        let g = m.renderer;
        let r = m.recording;
        &&& !(self is Replay) ==> after.past == m.past
        &&& match self {
            Act::UploadMesh { vertices, indices } => {
                &&& after.renderer == Renderer {
                    gpu: GpuState {
                        arena: g.gpu.arena.pushed(r, vertices.len(), indices.len()),
                        ..g.gpu
                    },
                    ..g
                }
                &&& after.recording == g.gpu.arena.rec_push(r, vertices, indices)
            },
            Act::AddMaterial { mat } => {
                let n = g.registry@.all.len() as int;
                &&& g.with_materials(r, g.registry@.with(mat), after.renderer)
                &&& after.recording == g.rec_material(r, n + 1, n, mat)
            },
            Act::ChangeMaterial { idx, mat } => {
                &&& after.renderer.registry@ == g.registry@.replaced(idx as int, mat)
                &&& after.renderer.gpu == g.gpu
                &&& after.recording == g.gpu.material_buf.rec_upload(
                    r,
                    all_words(seq![mat]),
                    idx as int,
                )
            },
            Act::SealMaterials => {
                &&& after.renderer.registry@ == g.registry@.sealed()
                &&& after.renderer.gpu == g.gpu
                &&& after.recording == r
            },
            Act::Render { drawables, view, width, height } => {
                &&& after.renderer.gpu == g.readied(r, drawables, width, height)
                &&& after.recording == g.rec_render(r, drawables, view, width, height)
            },
            Act::ReloadShaders { main, cull, hzb } => {
                &&& reloads(g.gpu, main, cull, hzb, after.renderer.gpu)
                &&& after.recording == rec_reloads(g.gpu, r, main, cull, hzb)
            },
            Act::Replay => {
                &&& after.renderer == g
                &&& after.recording == Recording {
                    calls: Seq::empty(),
                    payload: Seq::empty(),
                    next_id: r.next_id,
                }
                &&& after.past == m.now()
            },
            Act::Host { come, gone } => {
                &&& after.renderer == g
                &&& after.now().live == m.now().live.difference(gone).union(come)
                &&& after.now().strays == m.now().strays
                &&& r.next_id <= after.recording.next_id
                &&& forall|id: u32| #[trigger] come.contains(id) ==> id < after.recording.next_id
            },
        }
    }

    /// What is the host's afterwards: programs that were handed over are not.
    pub open spec fn leaves(self, host: Set<u32>) -> Set<u32> {
        match self {
            Act::ReloadShaders { main, cull, hzb } => host.difference(main.built()).difference(
                cull.built(),
            ).difference(hzb.built()),
            Act::Host { come, gone } => host.difference(gone).union(come),
            _ => host,
        }
    }
}

/// What the host does leaves the renderer's objects alone.
proof fn lemma_host(m: Moment, come: Set<u32>, gone: Set<u32>, after: Moment)
    requires
        m.in_order(),
        (Act::Host { come, gone }).possible(m),
        (Act::Host { come, gone }).leads_to(m, after),
    ensures
        after.in_order(),
        after.host() == m.host().difference(gone).union(come),
{
    reveal(crate::lifetimes::sound);
    let objs = objects(m.renderer.gpu);
    assert forall|i: int| 0 <= i < objs.len() implies after.now().live.contains(
        #[trigger] objs[i],
    ) by {
        assert(objs.contains(objs[i]));
        assert(m.now().live.contains(objs[i]));
        assert(!m.host().contains(objs[i]));
        assert(!gone.contains(objs[i]));
    }
    assert forall|id: u32| come.contains(id) implies !objs.contains(id) by {
        if objs.contains(id) {
            let i = objs.index_of(id);
            assert(m.now().live.contains(objs[i]));
        }
    }
    assert(after.host() =~= m.host().difference(gone).union(come));
}

/// Whatever is done, the renderer's objects live afterwards, nothing is deleted
/// that does not live, and of the host's objects the renderer has taken only what
/// it was given.
pub proof fn acts_keep_order(m: Moment, act: Act, after: Moment)
    requires
        m.in_order(),
        act.possible(m),
        act.leads_to(m, after),
    ensures
        after.in_order(),
        after.host() == act.leaves(m.host()),
        after.now().strays == m.now().strays,
{
    let g = m.renderer;
    let r = m.recording;
    match act {
        Act::UploadMesh { vertices, indices } => {
            uploads_leak_nothing(m.past, g.gpu, r, vertices, indices);
        },
        Act::AddMaterial { mat } => {
            let n = g.registry@.all.len() as int;
            materials_leak_nothing(m.past, g, r, n + 1, n, mat);
        },
        Act::ChangeMaterial { idx, mat } => {
            changes_leak_nothing(m.past, g.gpu, r, idx as int, mat);
        },
        Act::SealMaterials => {},
        Act::Render { drawables, view, width, height } => {
            rendering_leaks_nothing(m.past, g, r, drawables, view, width, height);
        },
        Act::ReloadShaders { main, cull, hzb } => {
            reloads_leak_nothing(m.past, g.gpu, r, main, cull, hzb, after.renderer.gpu);
        },
        Act::Replay => {
            assert(after.now() == m.now());
        },
        Act::Host { come, gone } => {
            lemma_host(m, come, gone, after);
        },
    }
}

/// Whether the moments follow each other by the acts.
pub open spec fn is_run(moments: Seq<Moment>, acts: Seq<Act>) -> bool {
    &&& moments.len() == acts.len() + 1
    &&& forall|i: int|
        0 <= i < acts.len() ==> (#[trigger] acts[i]).possible(moments[i]) && acts[i].leads_to(
            moments[i],
            moments[i + 1],
        )
}

/// What is the host's after all of the acts.
pub open spec fn left_by(acts: Seq<Act>, host: Set<u32>) -> Set<u32>
    decreases acts.len(),
{
    if acts.len() == 0 {
        host
    } else {
        acts.last().leaves(left_by(acts.drop_last(), host))
    }
}

proof fn lemma_run(moments: Seq<Moment>, acts: Seq<Act>)
    requires
        is_run(moments, acts),
        moments[0].in_order(),
    ensures
        moments.last().in_order(),
        moments.last().host() == left_by(acts, moments[0].host()),
        moments.last().now().strays == moments[0].now().strays,
    decreases acts.len(),
{
    if acts.len() > 0 {
        let n = acts.len() - 1;
        let ms = moments.drop_last();
        let before = acts.drop_last();
        assert forall|i: int| 0 <= i < before.len() implies (#[trigger] before[i]).possible(ms[i])
            && before[i].leads_to(ms[i], ms[i + 1]) by {
            assert(before[i] == acts[i]);
        }
        lemma_run(ms, before);
        assert(acts[n].possible(moments[n]));
        acts_keep_order(moments[n], acts[n], moments[n + 1]);
    }
}

/// Whatever was done with a renderer since it was created, cleaning up deletes
/// every object that it owns, each of them once, and nothing else: what lives
/// afterwards is the host's. On the way nothing was deleted that did not live.
///
/// The renderer was created with the given programs after `r`; everything that
/// lived before, and what the host has created since, is the host's, but for the
/// programs that it has handed over.
pub proof fn every_run_ends_clean(
    past: Lifetimes,
    r: Recording,
    default: GpuMaterial,
    moments: Seq<Moment>,
    acts: Seq<Act>,
)
    requires
        0 <= r.next_id,
        r.next_id + 24 < u32::MAX,
        forall|id: u32| #[trigger] lifetimes(past, r).live.contains(id) ==> id < r.next_id,
        is_run(moments, acts),
        moments[0].past == past,
        moments[0].recording == Renderer::rec_new(r, default),
        moments[0].renderer.is_new(r.next_id),
        programs_live(lifetimes(past, r), programs(moments[0].renderer.gpu)),
    ensures
        ({
            let last = moments.last();
            let end = lifetimes(last.past, last.renderer.rec_cleanup(last.recording));
            let given = programs(moments[0].renderer.gpu).to_set();
            &&& last.in_order()
            &&& end.live == last.now().live.difference(objects(last.renderer.gpu).to_set())
            &&& end.live == left_by(acts, lifetimes(past, r).live.difference(given))
            &&& end.strays == lifetimes(past, r).strays
        }),
{
    let first = moments[0];
    let last = moments.last();
    new_renderers_own_their_objects(past, r, default, first.renderer);
    lemma_run(moments, acts);
    cleanup_deletes_everything(last.past, last.renderer, last.recording);
}

} // verus!
