//! The bounds of the meshes.

use crate::arena::{BoundingSphere, MeshAlloc};
use crate::batching::{key_bits, keys_are_unique, MeshKey};
use crate::drawables::Renderable;
use std::collections::HashMap;
use vstd::prelude::*;

verus! {

broadcast use vstd::std_specs::hash::group_hash_axioms;

/// The bounding sphere of each mesh, around its own origin.
pub struct MeshBounds {
    spheres: HashMap<u128, BoundingSphere>,
}

impl View for MeshBounds {
    type V = Map<MeshAlloc, BoundingSphere>;

    closed spec fn view(&self) -> Map<MeshAlloc, BoundingSphere> {
        Map::new(
            |alloc: MeshAlloc| self.spheres@.contains_key(key_bits(alloc) as u128),
            |alloc: MeshAlloc| self.spheres@[key_bits(alloc) as u128],
        )
    }
}

proof fn lemma_key(a: MeshAlloc, b: MeshAlloc)
    ensures
        key_bits(a) as u128 == key_bits(b) as u128 <==> a == b,
        0 <= key_bits(a) <= u128::MAX,
{
    if key_bits(a) as u128 == key_bits(b) as u128 {
        keys_are_unique(a, b);
    }
}

/// No meshes.
pub open spec fn no_bounds() -> Map<MeshAlloc, BoundingSphere> {
    Map::empty()
}

impl MeshBounds {
    pub fn new() -> (bounds: MeshBounds)
        ensures
            bounds@ == no_bounds(),
    {
        let bounds = MeshBounds { spheres: HashMap::new() };
        assert(bounds@ =~= no_bounds());
        bounds
    }

    /// Take note of the bounds of a mesh.
    pub fn register(&mut self, alloc: MeshAlloc, sphere: BoundingSphere)
        ensures
            final(self)@ == old(self)@.insert(alloc, sphere),
    {
        let key = MeshKey::from(alloc);
        self.spheres.insert(key.bits, sphere);
        proof {
            assert forall|a: MeshAlloc| #[trigger] self@.contains_key(a) <==> old(self)@.insert(
                alloc,
                sphere,
            ).contains_key(a) by {
                lemma_key(a, alloc);
                lemma_key(alloc, a);
            }
            assert forall|a: MeshAlloc| self@.contains_key(a) implies #[trigger] self@[a] == old(
                self,
            )@.insert(alloc, sphere)[a] by {
                lemma_key(a, alloc);
                lemma_key(alloc, a);
            }
            assert(self@ =~= old(self)@.insert(alloc, sphere));
        }
    }

    /// The bounds of a mesh, if it is known.
    pub fn get(&self, alloc: MeshAlloc) -> (sphere: Option<BoundingSphere>)
        ensures
            sphere is Some <==> self@.contains_key(alloc),
            sphere matches Some(s) ==> s == self@[alloc],
    {
        proof {
            lemma_key(alloc, alloc);
        }
        match self.spheres.get(&MeshKey::from(alloc).bits) {
            Some(sphere) => Some(*sphere),
            None => None,
        }
    }

    /// Whether the meshes of all renderables are known.
    pub open spec fn knows(self, renderables: Seq<Renderable>) -> bool {
        forall|i: int|
            0 <= i < renderables.len() ==> self@.contains_key((#[trigger] renderables[i]).mesh.0)
    }

    /// The bounds of what is drawn: for each renderable, those of its mesh.
    /// Nothing, if a mesh is not known.
    pub fn bounds(&self, renderables: &Vec<Renderable>) -> (bounds: Option<Vec<BoundingSphere>>)
        ensures
            bounds is Some <==> self.knows(renderables@),
            bounds matches Some(b) ==> {
                &&& b@.len() == renderables@.len()
                &&& forall|i: int|
                    0 <= i < b@.len() ==> #[trigger] b@[i] == self@[renderables@[i].mesh.0]
            },
    {
        let mut bounds: Vec<BoundingSphere> = Vec::new();
        let mut i: usize = 0;
        while i < renderables.len()
            invariant
                i <= renderables@.len(),
                bounds@.len() == i,
                forall|j: int|
                    0 <= j < i ==> self@.contains_key((#[trigger] renderables@[j]).mesh.0),
                forall|j: int|
                    0 <= j < i ==> #[trigger] bounds@[j] == self@[renderables@[j].mesh.0],
            decreases renderables@.len() - i,
        {
            match self.get(renderables[i].mesh.0) {
                Some(sphere) => {
                    bounds.push(sphere);
                },
                None => {
                    assert(!self@.contains_key(renderables@[i as int].mesh.0));
                    return None;
                },
            }
            i = i + 1;
        }
        Some(bounds)
    }
}

/// What is drawn has the bounds that its mesh was registered with last, whatever
/// other meshes were registered since.
pub proof fn registered_bounds_are_found(
    table: Map<MeshAlloc, BoundingSphere>,
    alloc: MeshAlloc,
    sphere: BoundingSphere,
    other: MeshAlloc,
    elsewhere: BoundingSphere,
)
    requires
        other != alloc,
    ensures
        table.insert(alloc, sphere)[alloc] == sphere,
        table.insert(alloc, sphere).insert(other, elsewhere)[alloc] == sphere,
{
}

} // verus!
