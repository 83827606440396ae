//! What programs consist of: which stages were compiled, attached and linked.

use crate::gl::{GlCall, ObjectKind, Recording};
use crate::shader::{rec_compile, rec_link, ProgramBuild};
use vstd::prelude::*;

verus! {

/// Shader objects and programs.
#[verifier::ext_equal]
pub struct Programs {
    /// What each object was created as.
    pub kinds: Map<u32, ObjectKind>,
    pub sourced: Set<u32>,
    pub compiled: Set<u32>,
    /// The stages that are attached to a program.
    pub attached: Map<u32, Set<u32>>,
    /// The stages that a program was linked from.
    pub linked: Map<u32, Set<u32>>,
}

impl Programs {
    pub open spec fn stages(self, program: u32) -> Set<u32> {
        if self.attached.contains_key(program) {
            self.attached[program]
        } else {
            Set::empty()
        }
    }

    /// After one call. A stage is compiled from the source it has, and a program
    /// is linked from the compiled stages that are attached to it at that time.
    pub open spec fn step(self, c: GlCall) -> Programs {
        match c {
            GlCall::Create { kind, id } => Programs {
                kinds: self.kinds.insert(id, kind),
                sourced: self.sourced.remove(id),
                compiled: self.compiled.remove(id),
                attached: self.attached.insert(id, Set::empty()),
                linked: self.linked.remove(id),
            },
            GlCall::ShaderSource { shader } => Programs {
                sourced: self.sourced.insert(shader),
                compiled: self.compiled.remove(shader),
                ..self
            },
            GlCall::CompileShader { shader } => if self.sourced.contains(shader) {
                Programs { compiled: self.compiled.insert(shader), ..self }
            } else {
                self
            },
            GlCall::AttachShader { program, shader } => Programs {
                attached: self.attached.insert(program, self.stages(program).insert(shader)),
                ..self
            },
            GlCall::DetachShader { program, shader } => Programs {
                attached: self.attached.insert(program, self.stages(program).remove(shader)),
                ..self
            },
            GlCall::LinkProgram { program } => Programs {
                linked: self.linked.insert(
                    program,
                    self.stages(program).intersect(self.compiled),
                ),
                ..self
            },
            _ => self,
        }
    }

    pub open spec fn through(self, calls: Seq<GlCall>) -> Programs
        decreases calls.len(),
    {
        if calls.len() == 0 {
            self
        } else {
            self.through(calls.drop_last()).step(calls.last())
        }
    }

    /// After a whole recording.
    pub open spec fn after(self, r: Recording) -> Programs {
        self.through(r.calls)
    }

    /// Whether a program was linked from exactly one vertex stage and one
    /// fragment stage, none of which is attached any more.
    pub open spec fn is_graphics(self, program: u32) -> bool {
        &&& self.kinds.contains_key(program) && self.kinds[program] == ObjectKind::Program
        &&& self.linked.contains_key(program)
        &&& self.stages(program) == Set::<u32>::empty()
        &&& exists|v: u32, f: u32|
            {
                &&& #[trigger] self.is_a(v, ObjectKind::VertexShader)
                &&& #[trigger] self.is_a(f, ObjectKind::FragmentShader)
                &&& self.linked[program] == set![v, f]
            }
    }

    /// Whether a program was linked from exactly one compute stage, which is not
    /// attached any more.
    pub open spec fn is_compute(self, program: u32) -> bool {
        &&& self.kinds.contains_key(program) && self.kinds[program] == ObjectKind::Program
        &&& self.linked.contains_key(program)
        &&& self.stages(program) == Set::<u32>::empty()
        &&& exists|c: u32|
            #[trigger] self.is_a(c, ObjectKind::ComputeShader) && self.linked[program] == set![c]
    }

    pub open spec fn is_a(self, id: u32, kind: ObjectKind) -> bool {
        self.kinds.contains_key(id) && self.kinds[id] == kind
    }
}

pub broadcast proof fn lemma_programs_call(p: Programs, r: Recording, c: GlCall)
    ensures
        #[trigger] p.after(r.call(c)) == p.after(r).step(c),
{
    assert(r.call(c).calls.drop_last() =~= r.calls);
}

pub broadcast proof fn lemma_programs_create(p: Programs, r: Recording, kind: ObjectKind)
    ensures
        #[trigger] p.after(r.create(kind)) == p.after(r).step(
            GlCall::Create { kind, id: r.next_id as u32 },
        ),
{
    assert(r.create(kind).calls.drop_last() =~= r.calls);
}

pub broadcast group group_programs {
    lemma_programs_call,
    lemma_programs_create,
}

/// A build, and what has been recorded for it.
pub struct BuildState {
    pub build: ProgramBuild,
    pub recording: Recording,
}

/// A build that has just started.
pub open spec fn started(r: Recording, graphics: bool) -> BuildState {
    let id = r.next_id as u32;
    if graphics {
        BuildState {
            build: ProgramBuild::CreatingVertex { vert: id },
            recording: r.create(ObjectKind::VertexShader),
        }
    } else {
        BuildState {
            build: ProgramBuild::CreatingCompute { comp: id },
            recording: r.create(ObjectKind::ComputeShader),
        }
    }
}

/// A build after it was told, one after another, what came of its calls.
pub open spec fn after_steps(start: BuildState, oks: Seq<bool>) -> BuildState
    decreases oks.len(),
{
    if oks.len() == 0 {
        start
    } else {
        let s = after_steps(start, oks.drop_last());
        BuildState {
            build: s.build.next(s.recording, oks.last()),
            recording: s.build.rec_next(s.recording, oks.last()),
        }
    }
}

/// Whether a stage was created as such and its source compiled.
spec fn is_ready(p: Programs, id: u32, kind: ObjectKind) -> bool {
    p.is_a(id, kind) && p.compiled.contains(id)
}

/// How many objects a build may still create.
spec fn to_create(build: ProgramBuild) -> int {
    match build {
        ProgramBuild::CreatingVertex { .. } | ProgramBuild::CompilingVertex { .. } => 2,
        ProgramBuild::CreatingFragment { .. } | ProgramBuild::CompilingFragment { .. } => 1,
        ProgramBuild::CreatingCompute { .. } | ProgramBuild::CompilingCompute { .. } => 1,
        _ => 0,
    }
}

/// What holds in every state of a build.
spec fn on_course(p: Programs, s: BuildState, graphics: bool) -> bool {
    let next = s.recording.next_id;
    &&& 0 <= next
    &&& next + to_create(s.build) < u32::MAX
    &&& match s.build {
        ProgramBuild::CreatingVertex { vert } => {
            &&& graphics
            &&& vert < next
            &&& p.is_a(vert, ObjectKind::VertexShader)
        },
        ProgramBuild::CompilingVertex { vert } => {
            &&& graphics
            &&& vert < next
            &&& is_ready(p, vert, ObjectKind::VertexShader)
        },
        ProgramBuild::CreatingFragment { vert, frag } => {
            &&& graphics
            &&& vert < frag < next
            &&& is_ready(p, vert, ObjectKind::VertexShader)
            &&& p.is_a(frag, ObjectKind::FragmentShader)
        },
        ProgramBuild::CompilingFragment { vert, frag } => {
            &&& graphics
            &&& vert < frag < next
            &&& is_ready(p, vert, ObjectKind::VertexShader)
            &&& is_ready(p, frag, ObjectKind::FragmentShader)
        },
        ProgramBuild::CreatingCompute { comp } => {
            &&& !graphics
            &&& comp < next
            &&& p.is_a(comp, ObjectKind::ComputeShader)
        },
        ProgramBuild::CompilingCompute { comp } => {
            &&& !graphics
            &&& comp < next
            &&& is_ready(p, comp, ObjectKind::ComputeShader)
        },
        ProgramBuild::CreatingProgram { first, second, program } => {
            &&& p.is_a(program, ObjectKind::Program)
            &&& p.stages(program) == Set::<u32>::empty()
            &&& graphics == second is Some
            &&& match second {
                Some(frag) => {
                    &&& first < frag < program < next
                    &&& is_ready(p, first, ObjectKind::VertexShader)
                    &&& is_ready(p, frag, ObjectKind::FragmentShader)
                },
                None => {
                    &&& first < program < next
                    &&& is_ready(p, first, ObjectKind::ComputeShader)
                },
            }
        },
        ProgramBuild::Linking { program } | ProgramBuild::Built { program } => if graphics {
            p.is_graphics(program)
        } else {
            p.is_compute(program)
        },
        ProgramBuild::Failed => true,
    }
}

proof fn lemma_linked(p: Programs, r: Recording, program: u32, first: u32, second: Option<u32>)
    requires
        p.after(r).is_a(program, ObjectKind::Program),
        p.after(r).stages(program) == Set::<u32>::empty(),
        match second {
            Some(frag) => {
                &&& first < frag < program
                &&& is_ready(p.after(r), first, ObjectKind::VertexShader)
                &&& is_ready(p.after(r), frag, ObjectKind::FragmentShader)
            },
            None => first < program && is_ready(p.after(r), first, ObjectKind::ComputeShader),
        },
    ensures
        second is Some ==> p.after(rec_link(r, program, first, second)).is_graphics(program),
        second is None ==> p.after(rec_link(r, program, first, second)).is_compute(program),
{
    broadcast use group_programs;

    let p0 = p.after(r);
    let p1 = p.after(rec_link(r, program, first, second));
    assert(p1.kinds == p0.kinds);
    match second {
        Some(frag) => {
            assert(p1.linked[program] =~= set![first, frag]);
            assert(p1.stages(program) =~= Set::<u32>::empty());
            assert(p1.is_a(first, ObjectKind::VertexShader));
            assert(p1.is_a(frag, ObjectKind::FragmentShader));
        },
        None => {
            assert(p1.linked[program] =~= set![first]);
            assert(p1.stages(program) =~= Set::<u32>::empty());
            assert(p1.is_a(first, ObjectKind::ComputeShader));
        },
    }
}

proof fn lemma_compiled(p: Programs, r: Recording, shader: u32)
    ensures
        ({
            let p0 = p.after(r);
            let p1 = p.after(rec_compile(r, shader));
            &&& p1.compiled.contains(shader)
            &&& forall|id: u32| p0.compiled.contains(id) ==> #[trigger] p1.compiled.contains(id)
            &&& p1.kinds == p0.kinds
        }),
{
    broadcast use group_programs;

}

proof fn lemma_step(p: Programs, s: BuildState, ok: bool, graphics: bool)
    requires
        on_course(p.after(s.recording), s, graphics),
    ensures
        ({
            let t = BuildState {
                build: s.build.next(s.recording, ok),
                recording: s.build.rec_next(s.recording, ok),
            };
            on_course(p.after(t.recording), t, graphics)
        }),
{
    broadcast use group_programs;

    let r = s.recording;
    if ok {
        match s.build {
            ProgramBuild::CreatingVertex { vert } => {
                lemma_compiled(p, r, vert);
            },
            ProgramBuild::CreatingFragment { vert, frag } => {
                lemma_compiled(p, r, frag);
            },
            ProgramBuild::CreatingCompute { comp } => {
                lemma_compiled(p, r, comp);
            },
            ProgramBuild::CreatingProgram { first, second, program } => {
                lemma_linked(p, r, program, first, second);
            },
            _ => {},
        }
    }
}

proof fn lemma_steps(p: Programs, start: BuildState, oks: Seq<bool>, graphics: bool)
    requires
        on_course(p.after(start.recording), start, graphics),
    ensures
        on_course(
            p.after(after_steps(start, oks).recording),
            after_steps(start, oks),
            graphics,
        ),
    decreases oks.len(),
{
    if oks.len() > 0 {
        lemma_steps(p, start, oks.drop_last(), graphics);
        lemma_step(p, after_steps(start, oks.drop_last()), oks.last(), graphics);
    }
}

/// A program is linked from the stages it is meant to have, each of them compiled
/// from its source: a graphics program from a vertex stage and a fragment stage,
/// a compute program from a compute stage. It is linked while they are attached,
/// and they are taken out afterwards.
pub proof fn linked_programs_have_their_stages(
    p: Programs,
    r: Recording,
    graphics: bool,
    oks: Seq<bool>,
)
    requires
        0 <= r.next_id,
        r.next_id + 3 < u32::MAX,
    ensures
        ({
            let s = after_steps(started(r, graphics), oks);
            let after = p.after(s.recording);
            match s.build {
                ProgramBuild::Linking { program } | ProgramBuild::Built { program } => if graphics {
                    after.is_graphics(program)
                } else {
                    after.is_compute(program)
                },
                _ => true,
            }
        }),
{
    broadcast use group_programs;

    let s = started(r, graphics);
    assert(on_course(p.after(s.recording), s, graphics));
    lemma_steps(p, s, oks, graphics);
}

/// How many answers a build needs.
pub open spec fn answers(graphics: bool) -> int {
    if graphics {
        6
    } else {
        4
    }
}

/// How far a build is, if nothing has gone wrong.
spec fn progress(build: ProgramBuild, graphics: bool) -> int {
    match build {
        ProgramBuild::CreatingVertex { .. } => 0,
        ProgramBuild::CompilingVertex { .. } => 1,
        ProgramBuild::CreatingFragment { .. } => 2,
        ProgramBuild::CompilingFragment { .. } => 3,
        ProgramBuild::CreatingCompute { .. } => 0,
        ProgramBuild::CompilingCompute { .. } => 1,
        ProgramBuild::CreatingProgram { .. } => answers(graphics) - 2,
        ProgramBuild::Linking { .. } => answers(graphics) - 1,
        _ => answers(graphics),
    }
}

spec fn all_true(oks: Seq<bool>, n: int) -> bool {
    forall|i: int| 0 <= i < n ==> #[trigger] oks[i]
}

proof fn lemma_progress(r: Recording, graphics: bool, oks: Seq<bool>)
    ensures
        ({
            let b = after_steps(started(r, graphics), oks).build;
            let n = answers(graphics);
            let heard = if oks.len() < n {
                oks.len() as int
            } else {
                n
            };
            &&& b is Failed <==> !all_true(oks, heard)
            &&& b is Built <==> oks.len() >= n && all_true(oks, n)
            &&& !(b is Failed) ==> progress(b, graphics) == heard
            &&& graphics ==> !(b is CreatingCompute || b is CompilingCompute)
            &&& !graphics ==> !(b is CreatingVertex || b is CompilingVertex || b is CreatingFragment
                || b is CompilingFragment)
        }),
    decreases oks.len(),
{
    if oks.len() > 0 {
        let before = oks.drop_last();
        lemma_progress(r, graphics, before);
        let n = answers(graphics);
        let h0 = if before.len() < n {
            before.len() as int
        } else {
            n
        };
        assert(all_true(before, h0) <==> all_true(oks, h0)) by {
            if all_true(before, h0) {
                assert forall|i: int| 0 <= i < h0 implies #[trigger] oks[i] by {
                    assert(before[i]);
                }
            }
            if all_true(oks, h0) {
                assert forall|i: int| 0 <= i < h0 implies #[trigger] before[i] by {
                    assert(oks[i]);
                }
            }
        }
        if before.len() < n {
            let last = before.len() as int;
            assert(oks[last] == oks.last());
            assert(all_true(oks, h0 + 1) <==> all_true(oks, h0) && oks.last());
        }
    }
}

/// A program is built exactly if everything that had to succeed has: creating and
/// compiling each stage, creating the program, and linking it. A build fails at
/// the first thing that goes wrong.
pub proof fn only_successes_build(r: Recording, graphics: bool, oks: Seq<bool>)
    ensures
        after_steps(started(r, graphics), oks).build is Built <==> oks.len() >= answers(graphics)
            && forall|i: int| 0 <= i < answers(graphics) ==> #[trigger] oks[i],
        after_steps(started(r, graphics), oks).build is Failed <==> exists|i: int|
            0 <= i < oks.len() && i < answers(graphics) && !#[trigger] oks[i],
{
    lemma_progress(r, graphics, oks);
}

} // verus!
