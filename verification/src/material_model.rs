//! The materials on the GPU are those of the registry.

use crate::arena::{grown, rec_roomy, room_exists, roomy};
use crate::element::{all_words, lemma_all_words_len, GpuElement};
use crate::gl::Recording;
use crate::gl_buffer::BufferUsage;
use crate::gpu_model::{
    backed, lemma_room_preserves, replayable, splice, upload_replaces_range, GpuMemory,
};
use crate::materials::GpuMaterial;
use crate::renderer::Renderer;
use vstd::prelude::*;

verus! {

/// Whether the material buffer holds the materials, each at its index.
pub open spec fn mirrors(g: Renderer, materials: Seq<GpuMaterial>, m: GpuMemory) -> bool {
    &&& backed(g.gpu.material_buf, m)
    &&& all_words(materials).is_prefix_of(m.buffers[g.gpu.material_buf.handle])
}

pub proof fn lemma_one(mat: GpuMaterial)
    ensures
        all_words(seq![mat]) == mat.words(),
{
    assert(seq![mat].drop_last() =~= Seq::empty());
    assert(all_words(Seq::<GpuMaterial>::empty()) =~= Seq::empty());
    assert(all_words(seq![mat]) =~= mat.words());
}

proof fn lemma_updated(materials: Seq<GpuMaterial>, idx: int, mat: GpuMaterial)
    requires
        0 <= idx < materials.len(),
    ensures
        all_words(materials.update(idx, mat)) == splice(
            all_words(materials),
            8 * idx,
            mat.words(),
        ),
    decreases materials.len(),
{
    let last = materials.len() - 1;
    lemma_all_words_len(materials);
    lemma_all_words_len(materials.drop_last());
    lemma_all_words_len(materials.update(idx, mat));
    mat.words_len();
    materials.last().words_len();
    if idx == last {
        assert(materials.update(idx, mat).drop_last() =~= materials.drop_last());
        assert(all_words(materials.update(idx, mat)) =~= splice(
            all_words(materials),
            8 * idx,
            mat.words(),
        ));
    } else {
        lemma_updated(materials.drop_last(), idx, mat);
        assert(materials.update(idx, mat).drop_last() =~= materials.drop_last().update(idx, mat));
        assert(all_words(materials.update(idx, mat)) =~= splice(
            all_words(materials),
            8 * idx,
            mat.words(),
        ));
    }
}

/// Adding a material keeps the buffer in step with the registry, even when it
/// has to grow: every material is at its index, the new one included.
pub proof fn added_materials_are_mirrored(
    m: GpuMemory,
    r: Recording,
    g: Renderer,
    mat: GpuMaterial,
    after: Renderer,
)
    requires
        replayable(r),
        r.payload.len() + 8 <= usize::MAX,
        g.wf(),
        mirrors(g, g.registry@.all, m.replay(r)),
        g.gpu.material_buf.handle < r.next_id < u32::MAX,
        room_exists(g.gpu.material_buf, g.registry@.all.len() + 1int),
        grown(g.gpu.material_buf.capacity as int, g.registry@.all.len() + 1int) * 32 <= i32::MAX,
        g.with_materials(r, g.registry@.with(mat), after),
    ensures
        ({
            let n = g.registry@.all.len() as int;
            let r1 = g.rec_material(r, n + 1, n, mat);
            replayable(r1) && mirrors(after, after.registry@.all, m.replay(r1))
        }),
{
    let all = g.registry@.all;
    let n = all.len() as int;
    let buf = g.gpu.material_buf;
    let usage = BufferUsage::StaticDraw;
    lemma_one(mat);
    mat.words_len();
    lemma_all_words_len(all);
    lemma_room_preserves(m, r, buf, n + 1, usage);
    let r1 = rec_roomy(buf, r, n + 1, usage);
    let larger = roomy(buf, r, n + 1);
    upload_replaces_range(m, r1, larger, seq![mat], n);
    let r2 = larger.rec_upload(r1, all_words(seq![mat]), n);
    let held = m.replay(r).buffers[buf.handle];
    let kept = m.replay(r1).buffers[larger.handle];
    let now = m.replay(r2).buffers[larger.handle];
    assert(r2 == g.rec_material(r, n + 1, n, mat));
    assert(now == splice(kept, n * 8, mat.words()));
    assert(kept.take(held.len() as int) == held);
    let words = all_words(all);
    assert(all.push(mat).drop_last() =~= all);
    assert(all_words(all.push(mat)) == words + mat.words());
    assert forall|i: int| 0 <= i < words.len() implies kept[i] == words[i] by {
        assert(held[i] == words[i]);
        assert(kept.take(held.len() as int)[i] == held[i]);
    }
    assert((words + mat.words()).is_prefix_of(now));
}

/// Changing a material keeps the buffer in step with the registry.
pub proof fn changed_materials_are_mirrored(
    m: GpuMemory,
    r: Recording,
    g: Renderer,
    idx: int,
    mat: GpuMaterial,
)
    requires
        replayable(r),
        r.payload.len() + 8 <= usize::MAX,
        g.wf(),
        mirrors(g, g.registry@.all, m.replay(r)),
        g.registry@.is_override(idx),
    ensures
        ({
            let r1 = g.gpu.material_buf.rec_upload(r, all_words(seq![mat]), idx);
            replayable(r1) && mirrors(g, g.registry@.replaced(idx, mat).all, m.replay(r1))
        }),
{
    let all = g.registry@.all;
    let buf = g.gpu.material_buf;
    lemma_one(mat);
    mat.words_len();
    lemma_all_words_len(all);
    lemma_all_words_len(all.update(idx, mat));
    lemma_updated(all, idx, mat);
    upload_replaces_range(m, r, buf, seq![mat], idx);
    let held = m.replay(r).buffers[buf.handle];
    let words = all_words(all);
    let now = splice(held, idx * 8, mat.words());
    assert forall|i: int| 0 <= i < words.len() implies #[trigger] now[i] == splice(
        words,
        8 * idx,
        mat.words(),
    )[i] by {
        assert(held[i] == words[i]);
    }
    assert(all_words(all.update(idx, mat)).is_prefix_of(now));
}

} // verus!
