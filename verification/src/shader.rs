//! Shader programs: building them stage by stage, setting their uniforms, and
//! replacing them when their source files change.

use crate::gl::{CommandList, GlCall, ObjectKind, Recording, Uniform};
use crate::programs::{started, BuildState};
use std::collections::HashMap;
use vstd::prelude::*;

verus! {

broadcast use vstd::std_specs::hash::group_hash_axioms;

/// The source files of a program.
pub enum Sources {
    Graphics { vert: String, frag: String },
    Compute { comp: String },
}

/// How far the building of a program has come, and what is waited for.
///
/// Each state but the last two has recorded calls whose outcome decides how it
/// goes on: whether an object could be created, compiled or linked.
#[allow(inconsistent_fields)]
#[derive(Clone, Copy, Debug, PartialEq, Eq, Structural)]
pub enum ProgramBuild {
    CreatingVertex { vert: u32 },
    CompilingVertex { vert: u32 },
    CreatingFragment { vert: u32, frag: u32 },
    CompilingFragment { vert: u32, frag: u32 },
    CreatingCompute { comp: u32 },
    CompilingCompute { comp: u32 },
    CreatingProgram { first: u32, second: Option<u32>, program: u32 },
    Linking { program: u32 },
    Built { program: u32 },
    Failed,
}

/// Handing the source to a stage and compiling it.
pub open spec fn rec_compile(r: Recording, shader: u32) -> Recording {
    r.call(GlCall::ShaderSource { shader }).call(GlCall::CompileShader { shader })
}

pub open spec fn rec_delete(r: Recording, kind: ObjectKind, id: u32) -> Recording {
    r.call(GlCall::Delete { kind, id })
}

/// Taking a stage out of a linked program and deleting it.
pub open spec fn rec_release(r: Recording, program: u32, shader: u32, kind: ObjectKind) -> Recording {
    rec_delete(r.call(GlCall::DetachShader { program, shader }), kind, shader)
}

/// Linking the stages into the program, after which the stages are deleted.
pub open spec fn rec_link(r: Recording, program: u32, first: u32, second: Option<u32>) -> Recording {
    let attached = r.call(GlCall::AttachShader { program, shader: first });
    match second {
        Some(frag) => rec_release(
            rec_release(
                attached.call(GlCall::AttachShader { program, shader: frag }).call(
                    GlCall::LinkProgram { program },
                ),
                program,
                first,
                ObjectKind::VertexShader,
            ),
            program,
            frag,
            ObjectKind::FragmentShader,
        ),
        None => rec_release(
            attached.call(GlCall::LinkProgram { program }),
            program,
            first,
            ObjectKind::ComputeShader,
        ),
    }
}

impl ProgramBuild {
    /// The state that follows when what was waited for has succeeded or not.
    pub open spec fn next(self, r: Recording, ok: bool) -> ProgramBuild {
        match self {
            ProgramBuild::Built { .. } | ProgramBuild::Failed => self,
            _ => if !ok {
                ProgramBuild::Failed
            } else {
                match self {
                    ProgramBuild::CreatingVertex { vert } => ProgramBuild::CompilingVertex { vert },
                    ProgramBuild::CompilingVertex { vert } => ProgramBuild::CreatingFragment {
                        vert,
                        frag: r.next_id as u32,
                    },
                    ProgramBuild::CreatingFragment { vert, frag } => {
                        ProgramBuild::CompilingFragment { vert, frag }
                    },
                    ProgramBuild::CompilingFragment { vert, frag } => {
                        ProgramBuild::CreatingProgram {
                            first: vert,
                            second: Some(frag),
                            program: r.next_id as u32,
                        }
                    },
                    ProgramBuild::CreatingCompute { comp } => ProgramBuild::CompilingCompute {
                        comp,
                    },
                    ProgramBuild::CompilingCompute { comp } => ProgramBuild::CreatingProgram {
                        first: comp,
                        second: None,
                        program: r.next_id as u32,
                    },
                    ProgramBuild::CreatingProgram { program, .. } => ProgramBuild::Linking {
                        program,
                    },
                    ProgramBuild::Linking { program } => ProgramBuild::Built { program },
                    _ => self,
                }
            },
        }
    }

    /// What is recorded on the way to that state.
    pub open spec fn rec_next(self, r: Recording, ok: bool) -> Recording {
        match self {
            ProgramBuild::CreatingVertex { vert } => if ok {
                rec_compile(r, vert)
            } else {
                r
            },
            ProgramBuild::CompilingVertex { vert } => if ok {
                r.create(ObjectKind::FragmentShader)
            } else {
                rec_delete(r, ObjectKind::VertexShader, vert)
            },
            ProgramBuild::CreatingFragment { vert, frag } => if ok {
                rec_compile(r, frag)
            } else {
                rec_delete(r, ObjectKind::VertexShader, vert)
            },
            ProgramBuild::CompilingFragment { vert, frag } => if ok {
                r.create(ObjectKind::Program)
            } else {
                rec_delete(
                    rec_delete(r, ObjectKind::FragmentShader, frag),
                    ObjectKind::VertexShader,
                    vert,
                )
            },
            ProgramBuild::CreatingCompute { comp } => if ok {
                rec_compile(r, comp)
            } else {
                r
            },
            ProgramBuild::CompilingCompute { comp } => if ok {
                r.create(ObjectKind::Program)
            } else {
                rec_delete(r, ObjectKind::ComputeShader, comp)
            },
            ProgramBuild::CreatingProgram { first, second, program } => if ok {
                rec_link(r, program, first, second)
            } else {
                r
            },
            ProgramBuild::Linking { program } => if ok {
                r
            } else {
                rec_delete(r, ObjectKind::Program, program)
            },
            ProgramBuild::Built { .. } | ProgramBuild::Failed => r,
        }
    }

    /// The objects that exist and that this build still has to delete or to hand
    /// over, the one being created included where that went well.
    pub open spec fn holds(self, created: bool) -> Set<u32> {
        match self {
            ProgramBuild::CreatingVertex { vert } => if created {
                set![vert]
            } else {
                Set::empty()
            },
            ProgramBuild::CompilingVertex { vert } => set![vert],
            ProgramBuild::CreatingFragment { vert, frag } => if created {
                set![vert, frag]
            } else {
                set![vert]
            },
            ProgramBuild::CompilingFragment { vert, frag } => set![vert, frag],
            ProgramBuild::CreatingCompute { comp } => if created {
                set![comp]
            } else {
                Set::empty()
            },
            ProgramBuild::CompilingCompute { comp } => set![comp],
            ProgramBuild::CreatingProgram { first, second, program } => {
                let stages = match second {
                    Some(frag) => set![first, frag],
                    None => set![first],
                };
                if created {
                    stages.insert(program)
                } else {
                    stages
                }
            },
            ProgramBuild::Linking { program } => set![program],
            ProgramBuild::Built { program } => set![program],
            ProgramBuild::Failed => Set::empty(),
        }
    }

    /// Start building a program of a vertex and a fragment stage.
    pub fn start_graphics(gl: &mut CommandList) -> (build: ProgramBuild)
        requires
            old(gl)@.next_id < u32::MAX,
        ensures
            build == (ProgramBuild::CreatingVertex { vert: old(gl)@.next_id as u32 }),
            (BuildState { build, recording: final(gl)@ }) == started(old(gl)@, true),
            final(gl)@ == old(gl)@.create(ObjectKind::VertexShader),
    {
        ProgramBuild::CreatingVertex { vert: gl.create(ObjectKind::VertexShader) }
    }

    /// Start building a program of a compute stage.
    pub fn start_compute(gl: &mut CommandList) -> (build: ProgramBuild)
        requires
            old(gl)@.next_id < u32::MAX,
        ensures
            build == (ProgramBuild::CreatingCompute { comp: old(gl)@.next_id as u32 }),
            (BuildState { build, recording: final(gl)@ }) == started(old(gl)@, false),
            final(gl)@ == old(gl)@.create(ObjectKind::ComputeShader),
    {
        ProgramBuild::CreatingCompute { comp: gl.create(ObjectKind::ComputeShader) }
    }

    /// Go on with the build, now that what was waited for has succeeded or not.
    pub fn step(self, gl: &mut CommandList, ok: bool) -> (next: ProgramBuild)
        requires
            old(gl)@.next_id < u32::MAX,
        ensures
            next == self.next(old(gl)@, ok),
            final(gl)@ == self.rec_next(old(gl)@, ok),
    {
        match self {
            ProgramBuild::CreatingVertex { vert } => {
                if ok {
                    compile(gl, vert);
                    ProgramBuild::CompilingVertex { vert }
                } else {
                    ProgramBuild::Failed
                }
            },
            ProgramBuild::CompilingVertex { vert } => {
                if ok {
                    let frag = gl.create(ObjectKind::FragmentShader);
                    ProgramBuild::CreatingFragment { vert, frag }
                } else {
                    gl.call(GlCall::Delete { kind: ObjectKind::VertexShader, id: vert });
                    ProgramBuild::Failed
                }
            },
            ProgramBuild::CreatingFragment { vert, frag } => {
                if ok {
                    compile(gl, frag);
                    ProgramBuild::CompilingFragment { vert, frag }
                } else {
                    gl.call(GlCall::Delete { kind: ObjectKind::VertexShader, id: vert });
                    ProgramBuild::Failed
                }
            },
            ProgramBuild::CompilingFragment { vert, frag } => {
                if ok {
                    let program = gl.create(ObjectKind::Program);
                    ProgramBuild::CreatingProgram { first: vert, second: Some(frag), program }
                } else {
                    gl.call(GlCall::Delete { kind: ObjectKind::FragmentShader, id: frag });
                    gl.call(GlCall::Delete { kind: ObjectKind::VertexShader, id: vert });
                    ProgramBuild::Failed
                }
            },
            ProgramBuild::CreatingCompute { comp } => {
                if ok {
                    compile(gl, comp);
                    ProgramBuild::CompilingCompute { comp }
                } else {
                    ProgramBuild::Failed
                }
            },
            ProgramBuild::CompilingCompute { comp } => {
                if ok {
                    let program = gl.create(ObjectKind::Program);
                    ProgramBuild::CreatingProgram { first: comp, second: None, program }
                } else {
                    gl.call(GlCall::Delete { kind: ObjectKind::ComputeShader, id: comp });
                    ProgramBuild::Failed
                }
            },
            ProgramBuild::CreatingProgram { first, second, program } => {
                if ok {
                    link(gl, program, first, second);
                    ProgramBuild::Linking { program }
                } else {
                    ProgramBuild::Failed
                }
            },
            ProgramBuild::Linking { program } => {
                if ok {
                    ProgramBuild::Built { program }
                } else {
                    gl.call(GlCall::Delete { kind: ObjectKind::Program, id: program });
                    ProgramBuild::Failed
                }
            },
            ProgramBuild::Built { .. } | ProgramBuild::Failed => self,
        }
    }
}

fn compile(gl: &mut CommandList, shader: u32)
    ensures
        final(gl)@ == rec_compile(old(gl)@, shader),
{
    gl.call(GlCall::ShaderSource { shader });
    gl.call(GlCall::CompileShader { shader });
}

fn link(gl: &mut CommandList, program: u32, first: u32, second: Option<u32>)
    ensures
        final(gl)@ == rec_link(old(gl)@, program, first, second),
{
    gl.call(GlCall::AttachShader { program, shader: first });
    match second {
        Some(frag) => {
            gl.call(GlCall::AttachShader { program, shader: frag });
            gl.call(GlCall::LinkProgram { program });
            gl.call(GlCall::DetachShader { program, shader: first });
            gl.call(GlCall::Delete { kind: ObjectKind::VertexShader, id: first });
            gl.call(GlCall::DetachShader { program, shader: frag });
            gl.call(GlCall::Delete { kind: ObjectKind::FragmentShader, id: frag });
        },
        None => {
            gl.call(GlCall::LinkProgram { program });
            gl.call(GlCall::DetachShader { program, shader: first });
            gl.call(GlCall::Delete { kind: ObjectKind::ComputeShader, id: first });
        },
    }
}

/// Whether the calls from `from` on delete the object.
pub open spec fn deletes(calls: Seq<GlCall>, from: int, id: u32) -> bool {
    exists|i: int|
        from <= i < calls.len() && (match #[trigger] calls[i] {
            GlCall::Delete { id: deleted, .. } => deleted == id,
            _ => false,
        })
}

/// A build leaks nothing: an object that it held and does not hold after a step
/// was deleted by that step, the object it was creating included. The one
/// exception is a program object that cannot be created: its stages are then
/// left alone.
pub proof fn builds_leak_nothing(build: ProgramBuild, r: Recording, ok: bool, id: u32)
    requires
        build.holds(ok).contains(id),
        build is CreatingProgram ==> ok,
    ensures
        build.next(r, ok).holds(false).contains(id) || deletes(
            build.rec_next(r, ok).calls,
            r.calls.len() as int,
            id,
        ),
{
    let calls = build.rec_next(r, ok).calls;
    let n = r.calls.len() as int;
    if !build.next(r, ok).holds(false).contains(id) {
        match build {
            ProgramBuild::CompilingVertex { vert } => {
                assert(calls[n] == (GlCall::Delete { kind: ObjectKind::VertexShader, id }));
            },
            ProgramBuild::CreatingFragment { vert, frag } => {
                assert(calls[n] == (GlCall::Delete { kind: ObjectKind::VertexShader, id }));
            },
            ProgramBuild::CompilingFragment { vert, frag } => {
                assert(calls[n] == (GlCall::Delete { kind: ObjectKind::FragmentShader, id: frag }));
                assert(calls[n + 1] == (GlCall::Delete {
                    kind: ObjectKind::VertexShader,
                    id: vert,
                }));
            },
            ProgramBuild::CompilingCompute { comp } => {
                assert(calls[n] == (GlCall::Delete { kind: ObjectKind::ComputeShader, id }));
            },
            ProgramBuild::CreatingProgram { first, second, program } => {
                match second {
                    Some(frag) => {
                        assert(calls[n + 4] == (GlCall::Delete {
                            kind: ObjectKind::VertexShader,
                            id: first,
                        }));
                        assert(calls[n + 6] == (GlCall::Delete {
                            kind: ObjectKind::FragmentShader,
                            id: frag,
                        }));
                    },
                    None => {
                        assert(calls[n + 3] == (GlCall::Delete {
                            kind: ObjectKind::ComputeShader,
                            id: first,
                        }));
                    },
                }
            },
            ProgramBuild::Linking { program } => {
                assert(calls[n] == (GlCall::Delete { kind: ObjectKind::Program, id }));
            },
            _ => {},
        }
    }
}

/// How many steps a build can still take.
pub open spec fn steps_left(build: ProgramBuild) -> int {
    match build {
        ProgramBuild::CreatingVertex { .. } => 6,
        ProgramBuild::CompilingVertex { .. } => 5,
        ProgramBuild::CreatingFragment { .. } => 4,
        ProgramBuild::CompilingFragment { .. } => 3,
        ProgramBuild::CreatingCompute { .. } => 4,
        ProgramBuild::CompilingCompute { .. } => 3,
        ProgramBuild::CreatingProgram { .. } => 2,
        ProgramBuild::Linking { .. } => 1,
        ProgramBuild::Built { .. } | ProgramBuild::Failed => 0,
    }
}

/// Every build ends: each step brings it nearer to a program or to failure, and
/// one that has ended records nothing more.
pub proof fn builds_end(build: ProgramBuild, r: Recording, ok: bool)
    ensures
        steps_left(build) > 0 ==> steps_left(build.next(r, ok)) < steps_left(build),
        steps_left(build) == 0 ==> build.next(r, ok) == build && build.rec_next(r, ok) == r,
        steps_left(build) == 0 <==> build is Built || build is Failed,
{
}

/// The locations of uniforms, remembered from when they were first looked up.
pub struct UniformCache {
    locations: HashMap<u64, Option<u32>>,
}

/// Uniforms of one program are numbered together.
pub open spec fn location_key(program: u32, name: Uniform) -> u64 {
    (program * 16 + name.number()) as u64
}

proof fn lemma_location_key(p: u32, a: Uniform, q: u32, b: Uniform)
    ensures
        location_key(p, a) == location_key(q, b) <==> p == q && a == b,
{
}

impl UniformCache {
    /// What is remembered of a uniform: nothing, or where it is, which may be
    /// nowhere.
    pub closed spec fn cached(self, program: u32, name: Uniform) -> Option<Option<u32>> {
        let key = location_key(program, name);
        if self.locations@.contains_key(key) {
            Some(self.locations@[key])
        } else {
            None
        }
    }

    /// Nothing is remembered.
    pub fn new() -> (cache: UniformCache)
        ensures
            forall|program: u32, name: Uniform| #[trigger]
                cache.cached(program, name) == None::<Option<u32>>,
    {
        UniformCache { locations: HashMap::new() }
    }

    /// The location of a uniform, if it has been looked up before.
    pub fn get(&self, program: u32, name: Uniform) -> (known: Option<Option<u32>>)
        ensures
            known == self.cached(program, name),
    {
        let key = program as u64 * 16 + name.index();
        match self.locations.get(&key) {
            Some(location) => Some(*location),
            None => None,
        }
    }

    /// Remember the location of a uniform.
    pub fn remember(&mut self, program: u32, name: Uniform, location: Option<u32>)
        ensures
            forall|p: u32, u: Uniform| #[trigger]
                final(self).cached(p, u) == if p == program && u == name {
                    Some(location)
                } else {
                    old(self).cached(p, u)
                },
    {
        let key = program as u64 * 16 + name.index();
        self.locations.insert(key, location);
        proof {
            assert forall|p: u32, u: Uniform| #[trigger] self.cached(p, u) == if p == program && u
                == name {
                Some(location)
            } else {
                old(self).cached(p, u)
            } by {
                lemma_location_key(p, u, program, name);
            }
        }
    }

    /// Forget the locations of a program that is gone.
    pub fn forget(&mut self, program: u32)
        ensures
            forall|p: u32, u: Uniform| #[trigger]
                final(self).cached(p, u) == if p == program {
                    None::<Option<u32>>
                } else {
                    old(self).cached(p, u)
                },
    {
        let mut i: u64 = 0;
        while i < 11
            invariant
                i <= 11,
                forall|p: u32, u: Uniform| #[trigger]
                    self.cached(p, u) == if p == program && u.number() < i {
                        None::<Option<u32>>
                    } else {
                        old(self).cached(p, u)
                    },
            decreases 11 - i,
        {
            let ghost before = *self;
            let key = program as u64 * 16 + i;
            self.locations.remove(&key);
            proof {
                assert forall|p: u32, u: Uniform| #[trigger] self.cached(p, u) == if p == program
                    && u.number() < i + 1 {
                    None::<Option<u32>>
                } else {
                    old(self).cached(p, u)
                } by {
                    assert(before.cached(p, u) == if p == program && u.number() < i {
                        None::<Option<u32>>
                    } else {
                        old(self).cached(p, u)
                    });
                    assert(location_key(p, u) == key <==> p == program && u.number() == i);
                }
            }
            i = i + 1;
        }
    }
}

/// A program with the files it was built from.
pub struct Shader {
    pub program: u32,
    pub sources: Sources,
    /// When each file was last modified, in nanoseconds since the epoch.
    pub mtimes: Vec<i128>,
}

impl Shader {
    pub open spec fn source_count(self) -> int {
        match self.sources {
            Sources::Graphics { .. } => 2,
            Sources::Compute { .. } => 1,
        }
    }

    /// One modification time is known for each source file.
    pub open spec fn wf(self) -> bool {
        self.mtimes@.len() == self.source_count()
    }

    /// A program of a vertex and a fragment stage.
    pub fn new_graphics(
        program: u32,
        vert: String,
        frag: String,
        vert_mtime: i128,
        frag_mtime: i128,
    ) -> (shader: Shader)
        ensures
            shader.wf(),
            shader.program == program,
            shader.sources == (Sources::Graphics { vert, frag }),
            shader.mtimes@ == seq![vert_mtime, frag_mtime],
    {
        let mut mtimes: Vec<i128> = Vec::new();
        mtimes.push(vert_mtime);
        mtimes.push(frag_mtime);
        assert(mtimes@ =~= seq![vert_mtime, frag_mtime]);
        Shader { program, sources: Sources::Graphics { vert, frag }, mtimes }
    }

    /// A program of a compute stage.
    pub fn new_compute(program: u32, comp: String, comp_mtime: i128) -> (shader: Shader)
        ensures
            shader.wf(),
            shader.program == program,
            shader.sources == (Sources::Compute { comp }),
            shader.mtimes@ == seq![comp_mtime],
    {
        let mut mtimes: Vec<i128> = Vec::new();
        mtimes.push(comp_mtime);
        assert(mtimes@ =~= seq![comp_mtime]);
        Shader { program, sources: Sources::Compute { comp }, mtimes }
    }

    /// The source files, in the order of their stages.
    pub fn paths(&self) -> (paths: Vec<String>)
        ensures
            paths@.map_values(|p: String| p@) == (match self.sources {
                Sources::Graphics { vert, frag } => seq![vert@, frag@],
                Sources::Compute { comp } => seq![comp@],
            }),
    {
        let mut paths: Vec<String> = Vec::new();
        match &self.sources {
            Sources::Graphics { vert, frag } => {
                paths.push(vert.clone());
                paths.push(frag.clone());
                assert(paths@.map_values(|p: String| p@) =~= seq![vert@, frag@]);
            },
            Sources::Compute { comp } => {
                paths.push(comp.clone());
                assert(paths@.map_values(|p: String| p@) =~= seq![comp@]);
            },
        }
        paths
    }

    /// Use the program from here on.
    pub fn bind(&self, gl: &mut CommandList)
        ensures
            final(gl)@ == old(gl)@.call(GlCall::UseProgram { program: Some(self.program) }),
    {
        gl.call(GlCall::UseProgram { program: Some(self.program) });
    }

    /// Whether any source file has changed since the program was last built, or
    /// since building it was last tried.
    pub fn is_stale(&self, mtimes: &Vec<i128>) -> (stale: bool)
        ensures
            stale == (mtimes@ != self.mtimes@),
    {
        if mtimes.len() != self.mtimes.len() {
            return true;
        }
        let mut i: usize = 0;
        while i < mtimes.len()
            invariant
                i <= mtimes@.len() == self.mtimes@.len(),
                forall|j: int| 0 <= j < i ==> mtimes@[j] == self.mtimes@[j],
            decreases mtimes@.len() - i,
        {
            if mtimes[i] != self.mtimes[i] {
                return true;
            }
            i = i + 1;
        }
        assert(mtimes@ =~= self.mtimes@);
        false
    }

    /// The shader after an attempt to build it again.
    pub open spec fn reloaded(
        self,
        mtimes: Seq<i128>,
        rebuilt: Option<u32>,
        after: Shader,
    ) -> bool {
        &&& after.sources == self.sources
        &&& after.mtimes@ == mtimes
        &&& after.program == (match rebuilt {
            Some(program) => if mtimes != self.mtimes@ {
                program
            } else {
                self.program
            },
            None => self.program,
        })
    }

    /// Deletion of the program that was replaced.
    pub open spec fn rec_reload(
        self,
        r: Recording,
        mtimes: Seq<i128>,
        rebuilt: Option<u32>,
    ) -> Recording {
        if mtimes != self.mtimes@ && rebuilt is Some {
            rec_delete(r, ObjectKind::Program, self.program)
        } else {
            r
        }
    }

    /// Replace the program by `rebuilt` if any source file has changed. Returns
    /// true if it was replaced. If the changed sources could not be built, the
    /// existing program is kept. The modification times are taken over either
    /// way, so that a bad save is not tried again on every frame.
    pub fn try_reload(
        &mut self,
        gl: &mut CommandList,
        mtimes: Vec<i128>,
        rebuilt: Option<u32>,
        uniforms: &mut UniformCache,
    ) -> (replaced: bool)
        requires
            rebuilt is Some ==> mtimes@ != old(self).mtimes@,
        ensures
            replaced == (mtimes@ != old(self).mtimes@ && rebuilt is Some),
            old(self).reloaded(mtimes@, rebuilt, *final(self)),
            final(gl)@ == old(self).rec_reload(old(gl)@, mtimes@, rebuilt),
            forall|p: u32, u: Uniform| #[trigger]
                final(uniforms).cached(p, u) == if replaced && p == old(self).program {
                    None::<Option<u32>>
                } else {
                    old(uniforms).cached(p, u)
                },
    {
        if !self.is_stale(&mtimes) {
            return false;
        }
        self.mtimes = mtimes;
        match rebuilt {
            Some(program) => {
                gl.call(GlCall::Delete { kind: ObjectKind::Program, id: self.program });
                uniforms.forget(self.program);
                self.program = program;
                true
            },
            None => false,
        }
    }

    /// Delete the program.
    pub fn cleanup(&self, gl: &mut CommandList)
        ensures
            final(gl)@ == rec_delete(old(gl)@, ObjectKind::Program, self.program),
    {
        gl.call(GlCall::Delete { kind: ObjectKind::Program, id: self.program });
    }

    pub fn set_f32(&self, gl: &mut CommandList, name: Uniform, v: u32)
        ensures
            final(gl)@ == old(gl)@.call(
                GlCall::Uniform1Float { program: self.program, name, x: v },
            ),
    {
        gl.call(GlCall::Uniform1Float { program: self.program, name, x: v });
    }

    pub fn set_u32(&self, gl: &mut CommandList, name: Uniform, v: u32)
        ensures
            final(gl)@ == old(gl)@.call(GlCall::Uniform1Uint { program: self.program, name, x: v }),
    {
        gl.call(GlCall::Uniform1Uint { program: self.program, name, x: v });
    }

    /// Two floats, given as the integers whose values they are.
    pub fn set_vec2(&self, gl: &mut CommandList, name: Uniform, x: u32, y: u32)
        ensures
            final(gl)@ == old(gl)@.call(
                GlCall::Uniform2FloatOf { program: self.program, name, x, y },
            ),
    {
        gl.call(GlCall::Uniform2FloatOf { program: self.program, name, x, y });
    }

    pub fn set_uvec2(&self, gl: &mut CommandList, name: Uniform, x: u32, y: u32)
        ensures
            final(gl)@ == old(gl)@.call(GlCall::Uniform2Uint { program: self.program, name, x, y }),
    {
        gl.call(GlCall::Uniform2Uint { program: self.program, name, x, y });
    }

    pub fn set_vec3(&self, gl: &mut CommandList, name: Uniform, v: [u32; 3])
        ensures
            final(gl)@ == old(gl)@.call(
                GlCall::Uniform3Float { program: self.program, name, x: v[0], y: v[1], z: v[2] },
            ),
    {
        gl.call(
            GlCall::Uniform3Float { program: self.program, name, x: v[0], y: v[1], z: v[2] },
        );
    }

    pub open spec fn rec_mat4(self, r: Recording, name: Uniform, m: Seq<u32>) -> Recording {
        r.data(m).call(
            GlCall::UniformMatrix4 {
                program: self.program,
                name,
                start: r.payload.len() as usize,
                count: m.len() as usize,
            },
        )
    }

    /// A column-major matrix.
    pub fn set_mat4(&self, gl: &mut CommandList, name: Uniform, m: &[u32; 16])
        ensures
            final(gl)@ == self.rec_mat4(old(gl)@, name, m@),
    {
        let start = gl.push_words(m);
        gl.call(GlCall::UniformMatrix4 { program: self.program, name, start, count: 16 });
    }

    pub open spec fn rec_vec4_slice(self, r: Recording, name: Uniform, data: Seq<u32>) -> Recording {
        r.data(data).call(
            GlCall::Uniform4FloatSlice {
                program: self.program,
                name,
                start: r.payload.len() as usize,
                count: data.len() as usize,
            },
        )
    }

    /// For array uniforms: pass the vectors one after another.
    pub fn set_vec4_slice(&self, gl: &mut CommandList, name: Uniform, data: &[u32])
        ensures
            final(gl)@ == self.rec_vec4_slice(old(gl)@, name, data@),
    {
        let start = gl.push_words(data);
        gl.call(
            GlCall::Uniform4FloatSlice { program: self.program, name, start, count: data.len() },
        );
    }
}

/// What a reload does, whether or not the changed sources could be built: once it
/// is over, the program is up to date with its files, so that a bad save is not
/// tried again; a program that was built replaces the old one, which is deleted,
/// and otherwise the old one stays and nothing is deleted.
pub proof fn reloads_settle(
    shader: Shader,
    r: Recording,
    mtimes: Seq<i128>,
    rebuilt: Option<u32>,
    after: Shader,
)
    requires
        shader.reloaded(mtimes, rebuilt, after),
        mtimes != shader.mtimes@,
    ensures
        after.mtimes@ == mtimes,
        after.sources == shader.sources,
        rebuilt matches Some(program) ==> {
            &&& after.program == program
            &&& deletes(
                shader.rec_reload(r, mtimes, rebuilt).calls,
                r.calls.len() as int,
                shader.program,
            )
            &&& shader.rec_reload(r, mtimes, rebuilt).calls.len() == r.calls.len() + 1
        },
        rebuilt is None ==> {
            &&& after.program == shader.program
            &&& shader.rec_reload(r, mtimes, rebuilt) == r
        },
        after.rec_reload(r, mtimes, Some(after.program)) == r,
{
    let r1 = shader.rec_reload(r, mtimes, rebuilt);
    if rebuilt is Some {
        assert(r1.calls[r.calls.len() as int] == (GlCall::Delete {
            kind: ObjectKind::Program,
            id: shader.program,
        }));
    }
}

} // verus!
