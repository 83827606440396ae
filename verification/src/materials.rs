//! Materials and their indices.

use crate::element::GpuElement;
use vstd::prelude::*;

verus! {

/// Surface parameters, as float bit patterns; two words of padding follow them.
#[derive(Clone, Copy, Debug)]
pub struct GpuMaterial {
    pub base_color: [u32; 4],
    pub roughness: u32,
    pub metallic: u32,
}

impl GpuElement for GpuMaterial {
    open spec fn words_each() -> nat {
        8
    }

    open spec fn words(&self) -> Seq<u32> {
        self.base_color@ + seq![self.roughness, self.metallic, 0, 0]
    }

    proof fn words_len(&self) {
    }

    fn word_count() -> (n: usize) {
        8
    }

    fn append_words(&self, out: &mut Vec<u32>) {
        out.push(self.base_color[0]);
        out.push(self.base_color[1]);
        out.push(self.base_color[2]);
        out.push(self.base_color[3]);
        out.push(self.roughness);
        out.push(self.metallic);
        out.push(0);
        out.push(0);
        assert(out@ =~= old(out)@ + self.words());
    }
}

/// What a registry holds: its materials by index, and where the static ones end
/// once they have been sealed.
#[verifier::ext_equal]
pub struct Materials {
    pub all: Seq<GpuMaterial>,
    pub static_end: Option<int>,
}

impl Materials {
    /// Index 0 is always taken, indices fit 32 bits, and the static materials
    /// come first.
    pub open spec fn wf(self) -> bool {
        &&& 1 <= self.all.len() <= u32::MAX
        &&& self.static_end is Some ==> 1 <= self.static_end->0 <= self.all.len()
    }

    /// Whether a material was added after the static ones had been sealed.
    pub open spec fn is_override(self, idx: int) -> bool {
        self.static_end is Some && self.static_end->0 <= idx < self.all.len()
    }

    pub open spec fn with(self, mat: GpuMaterial) -> Materials {
        Materials { all: self.all.push(mat), ..self }
    }

    pub open spec fn sealed(self) -> Materials {
        if self.static_end is Some {
            self
        } else {
            Materials { static_end: Some(self.all.len() as int), ..self }
        }
    }

    pub open spec fn replaced(self, idx: int, mat: GpuMaterial) -> Materials {
        Materials { all: self.all.update(idx, mat), ..self }
    }
}

/// Materials by index. Static materials are added first and never change; once
/// they are sealed, overrides can be added, and those can be changed.
pub struct MaterialRegistry {
    materials: Vec<GpuMaterial>,
    static_end: Option<usize>,
}

impl View for MaterialRegistry {
    type V = Materials;

    closed spec fn view(&self) -> Materials {
        Materials {
            all: self.materials@,
            static_end: match self.static_end {
                Some(n) => Some(n as int),
                None => None,
            },
        }
    }
}

impl MaterialRegistry {
    /// A registry that holds only the default material, at index 0.
    pub fn new(default: GpuMaterial) -> (registry: MaterialRegistry)
        ensures
            registry@ == (Materials { all: seq![default], static_end: None }),
            registry@.wf(),
    {
        let mut materials: Vec<GpuMaterial> = Vec::new();
        materials.push(default);
        assert(materials@ =~= seq![default]);
        MaterialRegistry { materials, static_end: None }
    }

    /// The number of materials.
    pub fn len(&self) -> (n: usize)
        ensures
            n == self@.all.len(),
    {
        self.materials.len()
    }

    /// Add a static material; returns its index.
    pub fn add_static(&mut self, mat: GpuMaterial) -> (idx: u32)
        requires
            old(self)@.wf(),
            old(self)@.static_end is None,
            old(self)@.all.len() < u32::MAX,
        ensures
            idx == old(self)@.all.len(),
            final(self)@ == old(self)@.with(mat),
            final(self)@.wf(),
    {
        let idx = self.materials.len() as u32;
        self.materials.push(mat);
        idx
    }

    /// Close the static materials; returns how many there are.
    pub fn seal(&mut self) -> (end: usize)
        requires
            old(self)@.wf(),
        ensures
            final(self)@ == old(self)@.sealed(),
            final(self)@.wf(),
            final(self)@.static_end == Some(end as int),
    {
        match self.static_end {
            Some(end) => end,
            None => {
                let end = self.materials.len();
                self.static_end = Some(end);
                end
            },
        }
    }

    /// Add an override; returns its index.
    pub fn add_override(&mut self, mat: GpuMaterial) -> (idx: u32)
        requires
            old(self)@.wf(),
            old(self)@.static_end is Some,
            old(self)@.all.len() < u32::MAX,
        ensures
            idx == old(self)@.all.len(),
            final(self)@ == old(self)@.with(mat),
            final(self)@.wf(),
            final(self)@.is_override(idx as int),
    {
        let idx = self.materials.len() as u32;
        self.materials.push(mat);
        idx
    }

    /// Change an override; returns what it now is.
    pub fn update_override(&mut self, idx: u32, mat: GpuMaterial) -> (stored: GpuMaterial)
        requires
            old(self)@.wf(),
            old(self)@.is_override(idx as int),
        ensures
            stored == mat,
            final(self)@ == old(self)@.replaced(idx as int, mat),
            final(self)@.wf(),
    {
        self.materials.set(idx as usize, mat);
        mat
    }

    /// The material at an index.
    pub fn get(&self, idx: u32) -> (mat: Option<&GpuMaterial>)
        ensures
            mat is Some <==> idx < self@.all.len(),
            mat is Some ==> *mat->0 == self@.all[idx as int],
    {
        if (idx as usize) < self.materials.len() {
            Some(&self.materials[idx as usize])
        } else {
            None
        }
    }

    /// Where the static materials end, once they have been sealed.
    pub fn static_end(&self) -> (end: Option<usize>)
        ensures
            end is Some <==> self@.static_end is Some,
            end is Some ==> end->0 == self@.static_end->0,
    {
        self.static_end
    }

    /// Whether the material at an index is an override.
    pub fn is_override(&self, idx: u32) -> (yes: bool)
        ensures
            yes == self@.is_override(idx as int),
    {
        match self.static_end {
            Some(end) => end <= idx as usize && (idx as usize) < self.materials.len(),
            None => false,
        }
    }
}

/// Sealed static materials keep their values: no override that is added or
/// changed later touches them.
pub proof fn static_materials_never_change(m: Materials, idx: int, target: int, mat: GpuMaterial)
    requires
        m.wf(),
        m.static_end is Some,
        0 <= idx < m.static_end->0,
        m.is_override(target),
    ensures
        m.with(mat).all[idx] == m.all[idx],
        m.replaced(target, mat).all[idx] == m.all[idx],
        !m.with(mat).is_override(idx),
        !m.replaced(target, mat).is_override(idx),
{
}

} // verus!
