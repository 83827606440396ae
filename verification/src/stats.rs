//! Queries that measure what the GPU does in a frame, and the statistics they
//! give.

use crate::gl::{
    CommandList, GlCall, ObjectKind, Recording, FRAGMENT_SHADER_INVOCATIONS, PRIMITIVES_SUBMITTED,
    TIME_ELAPSED, VERTEX_SHADER_INVOCATIONS,
};
use crate::shader::rec_delete;
use vstd::prelude::*;

verus! {

/// One set of queries for the statistics of a frame.
#[derive(Clone, Copy, Debug, PartialEq, Eq, Structural)]
pub struct QuerySet {
    pub time: u32,
    pub prims: u32,
    pub vert: u32,
    pub frag: u32,
}

impl QuerySet {
    pub open spec fn numbered(first: int) -> QuerySet {
        QuerySet {
            time: first as u32,
            prims: (first + 1) as u32,
            vert: (first + 2) as u32,
            frag: (first + 3) as u32,
        }
    }

    pub open spec fn rec_new(r: Recording) -> Recording {
        r.create(ObjectKind::Query).create(ObjectKind::Query).create(ObjectKind::Query).create(
            ObjectKind::Query,
        )
    }

    pub fn new(gl: &mut CommandList) -> (set: QuerySet)
        requires
            old(gl)@.next_id + 3 < u32::MAX,
        ensures
            set == Self::numbered(old(gl)@.next_id),
            final(gl)@ == Self::rec_new(old(gl)@),
    {
        let time = gl.create(ObjectKind::Query);
        let prims = gl.create(ObjectKind::Query);
        let vert = gl.create(ObjectKind::Query);
        let frag = gl.create(ObjectKind::Query);
        QuerySet { time, prims, vert, frag }
    }

    pub open spec fn rec_begin(self, r: Recording) -> Recording {
        r.call(GlCall::BeginQuery { target: TIME_ELAPSED, query: self.time }).call(
            GlCall::BeginQuery { target: PRIMITIVES_SUBMITTED, query: self.prims },
        ).call(GlCall::BeginQuery { target: VERTEX_SHADER_INVOCATIONS, query: self.vert }).call(
            GlCall::BeginQuery { target: FRAGMENT_SHADER_INVOCATIONS, query: self.frag },
        )
    }

    pub fn begin(&self, gl: &mut CommandList)
        ensures
            final(gl)@ == self.rec_begin(old(gl)@),
    {
        gl.call(GlCall::BeginQuery { target: TIME_ELAPSED, query: self.time });
        gl.call(GlCall::BeginQuery { target: PRIMITIVES_SUBMITTED, query: self.prims });
        gl.call(GlCall::BeginQuery { target: VERTEX_SHADER_INVOCATIONS, query: self.vert });
        gl.call(GlCall::BeginQuery { target: FRAGMENT_SHADER_INVOCATIONS, query: self.frag });
    }

    pub open spec fn rec_end(r: Recording) -> Recording {
        r.call(GlCall::EndQuery { target: FRAGMENT_SHADER_INVOCATIONS }).call(
            GlCall::EndQuery { target: VERTEX_SHADER_INVOCATIONS },
        ).call(GlCall::EndQuery { target: PRIMITIVES_SUBMITTED }).call(
            GlCall::EndQuery { target: TIME_ELAPSED },
        )
    }

    pub fn end(gl: &mut CommandList)
        ensures
            final(gl)@ == Self::rec_end(old(gl)@),
    {
        gl.call(GlCall::EndQuery { target: FRAGMENT_SHADER_INVOCATIONS });
        gl.call(GlCall::EndQuery { target: VERTEX_SHADER_INVOCATIONS });
        gl.call(GlCall::EndQuery { target: PRIMITIVES_SUBMITTED });
        gl.call(GlCall::EndQuery { target: TIME_ELAPSED });
    }

    pub open spec fn rec_cleanup(self, r: Recording) -> Recording {
        let r1 = rec_delete(r, ObjectKind::Query, self.time);
        let r2 = rec_delete(r1, ObjectKind::Query, self.prims);
        let r3 = rec_delete(r2, ObjectKind::Query, self.vert);
        rec_delete(r3, ObjectKind::Query, self.frag)
    }

    pub fn cleanup(&self, gl: &mut CommandList)
        ensures
            final(gl)@ == self.rec_cleanup(old(gl)@),
    {
        gl.call(GlCall::Delete { kind: ObjectKind::Query, id: self.time });
        gl.call(GlCall::Delete { kind: ObjectKind::Query, id: self.prims });
        gl.call(GlCall::Delete { kind: ObjectKind::Query, id: self.vert });
        gl.call(GlCall::Delete { kind: ObjectKind::Query, id: self.frag });
    }
}

/// Per-frame GPU pipeline statistics.
///
/// The measured fields are those of the previous frame, whatever this frame
/// draws; in the first frame they are 0.
#[derive(Clone, Copy, Debug, PartialEq, Eq, Structural)]
pub struct PipelineStats {
    pub entities: usize,
    pub batches: usize,
    pub primitives_submitted: u64,
    pub vertex_invocations: u64,
    pub fragment_invocations: u64,
    pub gpu_time_ns: u64,
}

impl Default for PipelineStats {
    fn default() -> (stats: PipelineStats)
        ensures
            stats == (PipelineStats {
                entities: 0,
                batches: 0,
                primitives_submitted: 0,
                vertex_invocations: 0,
                fragment_invocations: 0,
                gpu_time_ns: 0,
            }),
    {
        PipelineStats {
            entities: 0,
            batches: 0,
            primitives_submitted: 0,
            vertex_invocations: 0,
            fragment_invocations: 0,
            gpu_time_ns: 0,
        }
    }
}

/// What the queries of a set have measured.
#[derive(Clone, Copy, Debug, PartialEq, Eq, Structural)]
pub struct QueryResults {
    pub time: u32,
    pub prims: u32,
    pub vert: u32,
    pub frag: u32,
}

/// A recorded frame, and the queries whose results belong into its statistics.
#[derive(Clone, Copy, Debug, PartialEq, Eq, Structural)]
pub struct RenderedFrame {
    pub entities: usize,
    pub batches: usize,
    pub read: Option<QuerySet>,
}

impl RenderedFrame {
    /// The statistics of the frame, given the results of the queries.
    pub fn stats(&self, results: Option<QueryResults>) -> (stats: PipelineStats)
        ensures
            stats.entities == self.entities,
            stats.batches == self.batches,
            results matches Some(q) ==> {
                &&& stats.primitives_submitted == q.prims
                &&& stats.vertex_invocations == q.vert
                &&& stats.fragment_invocations == q.frag
                &&& stats.gpu_time_ns == q.time
            },
            results is None ==> {
                &&& stats.primitives_submitted == 0
                &&& stats.vertex_invocations == 0
                &&& stats.fragment_invocations == 0
                &&& stats.gpu_time_ns == 0
            },
    {
        match results {
            Some(q) => PipelineStats {
                entities: self.entities,
                batches: self.batches,
                primitives_submitted: q.prims as u64,
                vertex_invocations: q.vert as u64,
                fragment_invocations: q.frag as u64,
                gpu_time_ns: q.time as u64,
            },
            None => PipelineStats {
                entities: self.entities,
                batches: self.batches,
                primitives_submitted: 0,
                vertex_invocations: 0,
                fragment_invocations: 0,
                gpu_time_ns: 0,
            },
        }
    }
}

/// The set of queries that a frame writes.
pub open spec fn write_set(query_frame: usize) -> int {
    query_frame as int % 2
}

/// The set of queries that a frame reads.
pub open spec fn read_set(query_frame: usize) -> int {
    1 - write_set(query_frame)
}

/// The number of the frame after a frame.
pub open spec fn next_frame(query_frame: usize) -> usize {
    if query_frame == usize::MAX {
        0
    } else {
        (query_frame + 1) as usize
    }
}

/// A frame reads the queries that the frame before it wrote, and never those
/// that it is writing itself.
pub proof fn queries_are_double_buffered(query_frame: usize)
    ensures
        read_set(query_frame) != write_set(query_frame),
        read_set(next_frame(query_frame)) == write_set(query_frame),
{
    assert(usize::MAX % 2 == 1) by {
        if usize::BITS == 32 {
            assert(usize::MAX == 0xFFFF_FFFF);
        } else {
            assert(usize::MAX == 0xFFFF_FFFF_FFFF_FFFF);
        }
    }
}

} // verus!
