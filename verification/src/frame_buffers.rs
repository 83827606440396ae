//! The buffers that are filled anew for every frame.

use crate::arena::{doubled_or, grown, room_exists, BoundingSphere, DrawCommand, InstanceData};
use crate::element::GpuElement;
use crate::gl::{CommandList, Recording};
use crate::gl_buffer::{BufferUsage, GlBuffer};
use vstd::prelude::*;

verus! {

/// The buffer that replaces `buf` when it grows.
pub open spec fn regrown<T: GpuElement>(buf: GlBuffer<T>, id: int, capacity: int) -> GlBuffer<T> {
    GlBuffer { handle: id as u32, capacity: capacity as usize, marker: buf.marker }
}

proof fn lemma_smaller_fits(capacity: int, small: int, large: int)
    requires
        0 <= capacity,
        0 <= small <= large,
        capacity * large <= usize::MAX,
    ensures
        capacity * small <= usize::MAX,
{
    assert(capacity * small <= capacity * large) by (nonlinear_arith)
        requires
            0 <= capacity,
            small <= large,
    ;
}

/// The buffers with one element for each object: those culling reads, and those
/// it writes in either phase. They all have the same capacity.
pub struct InstanceBuffers {
    pub instance: GlBuffer<InstanceData>,
    pub culled: GlBuffer<InstanceData>,
    pub culled_p2: GlBuffer<InstanceData>,
    pub bounding: GlBuffer<BoundingSphere>,
    pub batch_index: GlBuffer<u32>,
    pub visible: GlBuffer<u32>,
}

impl InstanceBuffers {
    pub open spec fn wf(self) -> bool {
        &&& self.instance.wf()
        &&& self.culled.wf()
        &&& self.culled_p2.wf()
        &&& self.bounding.wf()
        &&& self.batch_index.wf()
        &&& self.visible.wf()
        &&& self.culled.capacity == self.instance.capacity
        &&& self.culled_p2.capacity == self.instance.capacity
        &&& self.bounding.capacity == self.instance.capacity
        &&& self.batch_index.capacity == self.instance.capacity
        &&& self.visible.capacity == self.instance.capacity
    }

    /// The buffers once there is room for `n` objects.
    pub open spec fn roomy(self, r: Recording, n: int) -> InstanceBuffers {
        let cap = doubled_or(self.instance.capacity as int, n);
        if n > self.instance.capacity {
            InstanceBuffers {
                instance: regrown(self.instance, r.next_id, cap),
                culled: regrown(self.culled, r.next_id + 1, cap),
                culled_p2: regrown(self.culled_p2, r.next_id + 2, cap),
                bounding: regrown(self.bounding, r.next_id + 3, cap),
                batch_index: regrown(self.batch_index, r.next_id + 4, cap),
                visible: regrown(self.visible, r.next_id + 5, cap),
            }
        } else {
            self
        }
    }

    /// Making room for `n` objects: all the buffers grow together.
    pub open spec fn rec_roomy(self, r: Recording, n: int) -> Recording {
        let cap = doubled_or(self.instance.capacity as int, n);
        let usage = BufferUsage::DynamicDraw;
        if n > self.instance.capacity {
            let r1 = self.instance.rec_grow(r, cap, usage);
            let r2 = self.culled.rec_grow(r1, cap, usage);
            let r3 = self.culled_p2.rec_grow(r2, cap, usage);
            let r4 = self.bounding.rec_grow(r3, cap, usage);
            let r5 = self.batch_index.rec_grow(r4, cap, usage);
            self.visible.rec_grow(r5, cap, usage)
        } else {
            r
        }
    }

    /// Make room for `n` objects.
    pub fn ensure(&mut self, gl: &mut CommandList, n: usize)
        requires
            old(self).wf(),
            room_exists(old(self).instance, n as int),
            old(gl)@.next_id + 5 < u32::MAX,
        ensures
            final(self).wf(),
            *final(self) == old(self).roomy(old(gl)@, n as int),
            final(self).instance.capacity == grown(old(self).instance.capacity as int, n as int),
            n <= final(self).instance.capacity,
            final(gl)@ == old(self).rec_roomy(old(gl)@, n as int),
    {
        if n > self.instance.capacity {
            let ghost wanted = doubled_or(self.instance.capacity as int, n as int);
            proof {
                lemma_smaller_fits(wanted, 1, 144);
                lemma_smaller_fits(wanted, 4, 144);
                lemma_smaller_fits(wanted, 16, 144);
            }
            let doubled = self.instance.capacity * 2;
            let cap = if doubled > n {
                doubled
            } else {
                n
            };
            self.instance.grow(gl, cap, BufferUsage::DynamicDraw);
            self.culled.grow(gl, cap, BufferUsage::DynamicDraw);
            self.culled_p2.grow(gl, cap, BufferUsage::DynamicDraw);
            self.bounding.grow(gl, cap, BufferUsage::DynamicDraw);
            self.batch_index.grow(gl, cap, BufferUsage::DynamicDraw);
            self.visible.grow(gl, cap, BufferUsage::DynamicDraw);
        }
    }
}

/// The buffers with one element for each batch: the draw commands of either
/// phase, and where the instances start. They all have the same capacity.
pub struct BatchBuffers {
    pub indirect: GlBuffer<DrawCommand>,
    pub indirect_p2: GlBuffer<DrawCommand>,
    pub base: GlBuffer<u32>,
}

impl BatchBuffers {
    pub open spec fn wf(self) -> bool {
        &&& self.indirect.wf()
        &&& self.indirect_p2.wf()
        &&& self.base.wf()
        &&& self.indirect_p2.capacity == self.indirect.capacity
        &&& self.base.capacity == self.indirect.capacity
    }

    /// The buffers once there is room for `m` batches.
    pub open spec fn roomy(self, r: Recording, m: int) -> BatchBuffers {
        let cap = doubled_or(self.indirect.capacity as int, m);
        if m > self.indirect.capacity {
            BatchBuffers {
                indirect: regrown(self.indirect, r.next_id, cap),
                indirect_p2: regrown(self.indirect_p2, r.next_id + 1, cap),
                base: regrown(self.base, r.next_id + 2, cap),
            }
        } else {
            self
        }
    }

    /// Making room for `m` batches: all the buffers grow together.
    pub open spec fn rec_roomy(self, r: Recording, m: int) -> Recording {
        let cap = doubled_or(self.indirect.capacity as int, m);
        let usage = BufferUsage::DynamicDraw;
        if m > self.indirect.capacity {
            let r1 = self.indirect.rec_grow(r, cap, usage);
            let r2 = self.indirect_p2.rec_grow(r1, cap, usage);
            self.base.rec_grow(r2, cap, usage)
        } else {
            r
        }
    }

    /// Make room for `m` batches.
    pub fn ensure(&mut self, gl: &mut CommandList, m: usize)
        requires
            old(self).wf(),
            room_exists(old(self).indirect, m as int),
            old(gl)@.next_id + 2 < u32::MAX,
        ensures
            final(self).wf(),
            *final(self) == old(self).roomy(old(gl)@, m as int),
            final(self).indirect.capacity == grown(old(self).indirect.capacity as int, m as int),
            m <= final(self).indirect.capacity,
            final(gl)@ == old(self).rec_roomy(old(gl)@, m as int),
    {
        if m > self.indirect.capacity {
            let ghost wanted = doubled_or(self.indirect.capacity as int, m as int);
            proof {
                lemma_smaller_fits(wanted, 1, 20);
                lemma_smaller_fits(wanted, 4, 20);
            }
            let doubled = self.indirect.capacity * 2;
            let cap = if doubled > m {
                doubled
            } else {
                m
            };
            self.indirect.grow(gl, cap, BufferUsage::DynamicDraw);
            self.indirect_p2.grow(gl, cap, BufferUsage::DynamicDraw);
            self.base.grow(gl, cap, BufferUsage::DynamicDraw);
        }
    }
}

} // verus!
