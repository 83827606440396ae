//! From the scene to what is drawn: every entity with a transform and a mesh.

use crate::arena::BoundingSphere;
use crate::batching::Drawable;
use crate::components::{Mesh, Transform};
use crate::scene::{lists, EntityData, Row, Scene};
use vstd::prelude::*;

verus! {

/// An entity that is drawn.
#[derive(Clone, Copy, Debug)]
pub struct Renderable {
    pub id: u64,
    pub transform: Transform,
    pub mesh: Mesh,
    /// The material index, or the default.
    pub material: Option<u32>,
}

/// Whether an entity is drawn.
pub open spec fn is_drawn(d: EntityData) -> bool {
    d.transform is Some && d.mesh is Some
}

/// What is drawn of an entity.
pub open spec fn renderable(id: u64, d: EntityData) -> Renderable {
    Renderable { id, transform: d.transform->0, mesh: d.mesh->0, material: d.material }
}

/// The entities of a list that are drawn, in its order.
pub open spec fn renderables_of(rows: Seq<Row>) -> Seq<Renderable>
    decreases rows.len(),
{
    if rows.len() == 0 {
        Seq::empty()
    } else {
        let before = renderables_of(rows.drop_last());
        if is_drawn(rows.last().data()) {
            before.push(renderable(rows.last().id, rows.last().data()))
        } else {
            before
        }
    }
}

/// Whether the renderables are the entities of the scene that are drawn, each of
/// them once.
pub open spec fn covers(renderables: Seq<Renderable>, scene: Map<u64, EntityData>) -> bool {
    &&& forall|i: int|
        0 <= i < renderables.len() ==> {
            let r = #[trigger] renderables[i];
            scene.contains_key(r.id) && is_drawn(scene[r.id]) && r == renderable(r.id, scene[r.id])
        }
    &&& forall|i: int, j: int|
        0 <= i < j < renderables.len() ==> (#[trigger] renderables[i]).id
            != (#[trigger] renderables[j]).id
    &&& forall|id: u64| #[trigger]
        scene.contains_key(id) && is_drawn(scene[id]) ==> exists|i: int|
            0 <= i < renderables.len() && (#[trigger] renderables[i]).id == id
}

spec fn comes_from(rows: Seq<Row>, r: Renderable) -> bool {
    exists|j: int|
        0 <= j < rows.len() && is_drawn((#[trigger] rows[j]).data()) && r == renderable(
            rows[j].id,
            rows[j].data(),
        )
}

proof fn lemma_renderables(rows: Seq<Row>)
    requires
        forall|i: int, j: int|
            0 <= i < j < rows.len() ==> (#[trigger] rows[i]).id != (#[trigger] rows[j]).id,
    ensures
        forall|i: int|
            0 <= i < renderables_of(rows).len() ==> comes_from(
                rows,
                #[trigger] renderables_of(rows)[i],
            ),
        forall|i: int, j: int|
            0 <= i < j < renderables_of(rows).len() ==> (#[trigger] renderables_of(rows)[i]).id
                != (#[trigger] renderables_of(rows)[j]).id,
        forall|j: int|
            0 <= j < rows.len() && is_drawn((#[trigger] rows[j]).data()) ==> exists|i: int|
                0 <= i < renderables_of(rows).len() && (#[trigger] renderables_of(rows)[i]).id
                    == rows[j].id,
    decreases rows.len(),
{
    if rows.len() != 0 {
        let shorter = rows.drop_last();
        assert forall|i: int, j: int| 0 <= i < j < shorter.len() implies (#[trigger] shorter[i]).id
            != (#[trigger] shorter[j]).id by {
            assert(shorter[i] == rows[i] && shorter[j] == rows[j]);
        }
        lemma_renderables(shorter);
        let before = renderables_of(shorter);
        let after = renderables_of(rows);
        let last = rows[rows.len() - 1];
        assert forall|i: int| 0 <= i < after.len() implies comes_from(
            rows,
            #[trigger] after[i],
        ) by {
            if i < before.len() {
                assert(after[i] == before[i]);
                assert(comes_from(shorter, before[i]));
                let j = choose|j: int|
                    0 <= j < shorter.len() && is_drawn((#[trigger] shorter[j]).data())
                        && before[i] == renderable(shorter[j].id, shorter[j].data());
                assert(rows[j] == shorter[j]);
            } else {
                assert(last == rows.last());
            }
        }
        assert forall|i: int, j: int| 0 <= i < j < after.len() implies (#[trigger] after[i]).id != (
        #[trigger] after[j]).id by {
            assert(after[i] == before[i]);
            assert(comes_from(shorter, before[i]));
            let k = choose|k: int|
                0 <= k < shorter.len() && is_drawn((#[trigger] shorter[k]).data()) && before[i]
                    == renderable(shorter[k].id, shorter[k].data());
            assert(rows[k] == shorter[k]);
            if j < before.len() {
                assert(after[j] == before[j]);
            } else {
                assert(rows[k].id != last.id);
            }
        }
        assert forall|j: int| 0 <= j < rows.len() && is_drawn(
            (#[trigger] rows[j]).data(),
        ) implies exists|i: int|
            0 <= i < after.len() && (#[trigger] after[i]).id == rows[j].id by {
            if j < shorter.len() {
                assert(shorter[j] == rows[j]);
                let i = choose|i: int|
                    0 <= i < before.len() && (#[trigger] before[i]).id == shorter[j].id;
                assert(after[i] == before[i]);
            } else {
                assert(after[before.len() as int].id == last.id);
            }
        }
    }
}

proof fn lemma_covers(rows: Seq<Row>, scene: Map<u64, EntityData>)
    requires
        lists(rows, scene),
    ensures
        covers(renderables_of(rows), scene),
{
    lemma_renderables(rows);
    let all = renderables_of(rows);
    assert forall|i: int| 0 <= i < all.len() implies {
        let r = #[trigger] all[i];
        scene.contains_key(r.id) && is_drawn(scene[r.id]) && r == renderable(r.id, scene[r.id])
    } by {
        assert(comes_from(rows, all[i]));
        let j = choose|j: int|
            0 <= j < rows.len() && is_drawn((#[trigger] rows[j]).data()) && all[i] == renderable(
                rows[j].id,
                rows[j].data(),
            );
        assert(scene.contains_key(rows[j].id));
    }
    assert forall|id: u64| #[trigger] scene.contains_key(id) && is_drawn(
        scene[id],
    ) implies exists|i: int| 0 <= i < all.len() && (#[trigger] all[i]).id == id by {
        let j = choose|j: int| 0 <= j < rows.len() && (#[trigger] rows[j]).id == id;
        assert(is_drawn(rows[j].data()));
        let i = choose|i: int| 0 <= i < all.len() && (#[trigger] all[i]).id == rows[j].id;
        assert(all[i].id == id);
    }
}

/// The entities of a list that are drawn, in its order.
pub fn renderables(rows: &Vec<Row>) -> (out: Vec<Renderable>)
    ensures
        out@ == renderables_of(rows@),
{
    let mut out: Vec<Renderable> = Vec::new();
    let mut i: usize = 0;
    assert(out@ =~= renderables_of(rows@.take(0)));
    while i < rows.len()
        invariant
            i <= rows@.len(),
            out@ == renderables_of(rows@.take(i as int)),
        decreases rows@.len() - i,
    {
        let row = &rows[i];
        assert(rows@.take(i + 1).drop_last() =~= rows@.take(i as int));
        if let (Some(transform), Some(mesh)) = (row.transform, row.mesh) {
            out.push(Renderable { id: row.id, transform, mesh, material: row.material });
        }
        assert(out@ =~= renderables_of(rows@.take(i + 1)));
        i = i + 1;
    }
    assert(rows@.take(rows@.len() as int) =~= rows@);
    out
}

impl Scene {
    /// The entities that are drawn, each of them once, in some order.
    pub fn renderables(&mut self) -> (out: Vec<Renderable>)
        requires
            old(self).wf(),
        ensures
            final(self).wf(),
            final(self)@ == old(self)@,
            covers(out@, old(self)@),
    {
        let rows = self.rows();
        proof {
            lemma_covers(rows@, self@);
        }
        renderables(&rows)
    }
}

/// What is drawn of the renderables, given the model matrix and the bounds of
/// each.
pub open spec fn drawables_of(
    renderables: Seq<Renderable>,
    models: Seq<[u32; 16]>,
    bounds: Seq<BoundingSphere>,
) -> Seq<Drawable> {
    Seq::new(
        renderables.len(),
        |i: int|
            Drawable {
                mesh: renderables[i].mesh.0,
                bounds: bounds[i],
                material: renderables[i].material,
                model: models[i],
            },
    )
}

/// What is drawn of the renderables, given the model matrix and the bounds of
/// each.
pub fn assemble(
    renderables: &Vec<Renderable>,
    models: &Vec<[u32; 16]>,
    bounds: &Vec<BoundingSphere>,
) -> (out: Vec<Drawable>)
    requires
        models@.len() == renderables@.len(),
        bounds@.len() == renderables@.len(),
    ensures
        out@ == drawables_of(renderables@, models@, bounds@),
{
    let mut out: Vec<Drawable> = Vec::new();
    let mut i: usize = 0;
    while i < renderables.len()
        invariant
            i <= renderables@.len() == models@.len() == bounds@.len(),
            out@ == drawables_of(renderables@, models@, bounds@).take(i as int),
        decreases renderables@.len() - i,
    {
        let r = renderables[i];
        out.push(
            Drawable { mesh: r.mesh.0, bounds: bounds[i], material: r.material, model: models[i] },
        );
        assert(out@ =~= drawables_of(renderables@, models@, bounds@).take(i + 1));
        i = i + 1;
    }
    assert(out@ =~= drawables_of(renderables@, models@, bounds@));
    out
}

} // verus!
