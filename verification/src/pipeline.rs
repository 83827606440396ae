//! What the GPU is told to do: the work of a recording, each piece with
//! everything it finds bound when it is done.
//!
//! A small mathematical model of the state that dispatches and draws read: the
//! program and its uniforms, the buffers, textures and images that are bound, the
//! vertex array, the framebuffer and the queries that run. Each recorded call
//! takes the state from one to the next; a call that does work is written down
//! together with the state that it works with.

use crate::gl::{
    GlCall, ObjectKind, Recording, Uniform, DRAW_FRAMEBUFFER, DRAW_INDIRECT_BUFFER,
    ELEMENT_ARRAY_BUFFER, FRAMEBUFFER, PARAMETER_BUFFER, READ_FRAMEBUFFER, SHADER_STORAGE_BUFFER,
};
use crate::gpu_model::{refers_within, replayable};
use vstd::prelude::*;

verus! {

/// The value of a uniform.
pub enum Value {
    Float(u32),
    Uint(u32),
    /// Two floats, given as integers.
    FloatsOf(u32, u32),
    Uints(u32, u32),
    Floats(u32, u32, u32),
    /// The words of a matrix or of a list of vectors.
    Words(Seq<u32>),
}

/// A level of a texture that is bound as an image.
pub struct Image {
    pub texture: u32,
    pub level: int,
    pub access: u32,
}

/// What dispatches and draws read.
#[verifier::ext_equal]
pub struct Pipeline {
    pub program: Option<u32>,
    pub uniforms: Map<(u32, Uniform), Value>,
    /// The buffers at the binding points for shader storage.
    pub storage: Map<u32, u32>,
    pub indirect: Option<u32>,
    pub parameter: Option<u32>,
    pub array: Option<u32>,
    /// The index buffer of each vertex array.
    pub elements: Map<Option<u32>, Option<u32>>,
    pub unit: u32,
    pub textures: Map<u32, Option<u32>>,
    pub images: Map<u32, Image>,
    pub drawn_to: Option<u32>,
    pub read_from: Option<u32>,
    pub viewport: (int, int),
    /// The query that runs for each thing that is measured.
    pub running: Map<u32, u32>,
}

impl Pipeline {
    /// A uniform can be set only on the program that is in use.
    pub open spec fn set(self, program: u32, name: Uniform, value: Value) -> Pipeline {
        if self.program == Some(program) {
            Pipeline { uniforms: self.uniforms.insert((program, name), value), ..self }
        } else {
            self
        }
    }

    /// The state after one call.
    pub open spec fn step(self, c: GlCall, payload: Seq<u32>) -> Pipeline {
        match c {
            GlCall::UseProgram { program } => Pipeline { program, ..self },
            GlCall::Uniform1Float { program, name, x } => self.set(program, name, Value::Float(x)),
            GlCall::Uniform1Uint { program, name, x } => self.set(program, name, Value::Uint(x)),
            GlCall::Uniform2FloatOf { program, name, x, y } => self.set(
                program,
                name,
                Value::FloatsOf(x, y),
            ),
            GlCall::Uniform2Uint { program, name, x, y } => self.set(
                program,
                name,
                Value::Uints(x, y),
            ),
            GlCall::Uniform3Float { program, name, x, y, z } => self.set(
                program,
                name,
                Value::Floats(x, y, z),
            ),
            GlCall::UniformMatrix4 { program, name, start, count } => self.set(
                program,
                name,
                Value::Words(payload.subrange(start as int, start + count)),
            ),
            GlCall::Uniform4FloatSlice { program, name, start, count } => self.set(
                program,
                name,
                Value::Words(payload.subrange(start as int, start + count)),
            ),
            GlCall::BindBufferBase { target, index, buffer } => if target
                == SHADER_STORAGE_BUFFER {
                Pipeline { storage: self.storage.insert(index, buffer), ..self }
            } else {
                self
            },
            GlCall::BindBuffer { target, buffer } => if target == DRAW_INDIRECT_BUFFER {
                Pipeline { indirect: buffer, ..self }
            } else if target == PARAMETER_BUFFER {
                Pipeline { parameter: buffer, ..self }
            } else if target == ELEMENT_ARRAY_BUFFER {
                Pipeline { elements: self.elements.insert(self.array, buffer), ..self }
            } else {
                self
            },
            GlCall::BindVertexArray { array } => Pipeline { array, ..self },
            GlCall::ActiveTexture { unit } => Pipeline { unit, ..self },
            GlCall::BindTexture { target, texture } => Pipeline {
                textures: self.textures.insert(self.unit, texture),
                ..self
            },
            GlCall::BindImageTexture { unit, texture, level, access, format } => Pipeline {
                images: self.images.insert(unit, Image { texture, level: level as int, access }),
                ..self
            },
            GlCall::BindFramebuffer { target, framebuffer } => if target == FRAMEBUFFER {
                Pipeline { drawn_to: framebuffer, read_from: framebuffer, ..self }
            } else if target == DRAW_FRAMEBUFFER {
                Pipeline { drawn_to: framebuffer, ..self }
            } else if target == READ_FRAMEBUFFER {
                Pipeline { read_from: framebuffer, ..self }
            } else {
                self
            },
            GlCall::Viewport { width, height } => Pipeline {
                viewport: (width as int, height as int),
                ..self
            },
            GlCall::BeginQuery { target, query } => Pipeline {
                running: self.running.insert(target, query),
                ..self
            },
            GlCall::EndQuery { target } => Pipeline {
                running: self.running.remove(target),
                ..self
            },
            _ => self,
        }
    }
}

/// A piece of work, and what it works with.
pub struct Work {
    pub call: GlCall,
    pub at: Pipeline,
}

/// Whether a call does work that reads the state.
pub open spec fn is_work(c: GlCall) -> bool {
    c is DispatchCompute || c is MultiDrawElementsIndirectCount || c is Clear
        || c is BlitFramebuffer || c is MemoryBarrier
}

/// The state, and the work that has been done.
#[verifier::ext_equal]
pub struct Trace {
    pub now: Pipeline,
    pub log: Seq<Work>,
}

impl Trace {
    pub open spec fn step(self, c: GlCall, payload: Seq<u32>) -> Trace {
        Trace {
            now: self.now.step(c, payload),
            log: if is_work(c) {
                self.log.push(Work { call: c, at: self.now })
            } else {
                self.log
            },
        }
    }

    /// After a whole recording.
    pub open spec fn follow(self, r: Recording) -> Trace
        decreases r.calls.len(),
    {
        if r.calls.len() == 0 {
            self
        } else {
            self.follow(Recording { calls: r.calls.drop_last(), ..r }).step(
                r.calls.last(),
                r.payload,
            )
        }
    }
}

pub broadcast proof fn lemma_follow_call(t: Trace, r: Recording, c: GlCall)
    ensures
        #[trigger] t.follow(r.call(c)) == t.follow(r).step(c, r.payload),
{
    assert(r.call(c).calls.drop_last() =~= r.calls);
    assert(Recording { calls: r.calls, ..r.call(c) } == r);
}

proof fn lemma_follow_ids(t: Trace, r: Recording, next_id: int)
    ensures
        t.follow(Recording { next_id, ..r }) == t.follow(r),
    decreases r.calls.len(),
{
    if r.calls.len() != 0 {
        lemma_follow_ids(t, Recording { calls: r.calls.drop_last(), ..r }, next_id);
    }
}

pub broadcast proof fn lemma_follow_create(t: Trace, r: Recording, kind: ObjectKind)
    ensures
        #[trigger] t.follow(r.create(kind)) == t.follow(r),
{
    assert(r.create(kind).calls.drop_last() =~= r.calls);
    lemma_follow_ids(t, r, r.next_id + 1);
}

pub broadcast proof fn lemma_follow_data(t: Trace, r: Recording, words: Seq<u32>)
    requires
        replayable(r),
    ensures
        #[trigger] t.follow(r.data(words)) == t.follow(r),
    decreases r.calls.len(),
{
    if r.calls.len() != 0 {
        let shorter = Recording { calls: r.calls.drop_last(), ..r };
        assert(replayable(shorter)) by {
            assert forall|i: int| 0 <= i < shorter.calls.len() implies refers_within(
                #[trigger] shorter.calls[i],
                shorter.payload.len() as int,
            ) by {
                assert(shorter.calls[i] == r.calls[i]);
            }
        }
        lemma_follow_data(t, shorter, words);
        let c = r.calls.last();
        assert(refers_within(r.calls[r.calls.len() - 1], r.payload.len() as int));
        assert(shorter.data(words) == (Recording {
            calls: r.data(words).calls.drop_last(),
            ..r.data(words)
        }));
        match c {
            GlCall::UniformMatrix4 { start, count, .. } => {
                assert(r.data(words).payload.subrange(start as int, start + count)
                    =~= r.payload.subrange(start as int, start + count));
            },
            GlCall::Uniform4FloatSlice { start, count, .. } => {
                assert(r.data(words).payload.subrange(start as int, start + count)
                    =~= r.payload.subrange(start as int, start + count));
            },
            _ => {},
        }
    }
}

pub broadcast group group_follow {
    lemma_follow_call,
    lemma_follow_create,
    lemma_follow_data,
}

} // verus!
