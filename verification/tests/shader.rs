use gl_renderer::gl::{CommandList, GlCall, ObjectKind, Uniform};
use gl_renderer::shader::{ProgramBuild, Shader, UniformCache};

fn calls(gl: &CommandList) -> Vec<GlCall> {
    (0..gl.len()).map(|i| gl.get(i)).collect()
}

/// The objects that are created and not deleted.
fn live(gl: &CommandList) -> Vec<u32> {
    let mut live: Vec<u32> = Vec::new();
    for c in calls(gl) {
        match c {
            GlCall::Create { id, .. } => live.push(id),
            GlCall::Delete { id, .. } => live.retain(|&x| x != id),
            _ => {}
        }
    }
    live
}

fn build(gl: &mut CommandList, start: ProgramBuild, outcomes: &[bool]) -> ProgramBuild {
    outcomes.iter().fold(start, |b, &ok| b.step(gl, ok))
}

#[test]
fn graphics_program_is_built() {
    let mut gl = CommandList::new();
    let start = ProgramBuild::start_graphics(&mut gl);
    let end = build(&mut gl, start, &[true; 6]);
    assert_eq!(end, ProgramBuild::Built { program: 3 });
    assert_eq!(live(&gl), vec![3]);
    assert_eq!(
        calls(&gl),
        vec![
            GlCall::Create { kind: ObjectKind::VertexShader, id: 1 },
            GlCall::ShaderSource { shader: 1 },
            GlCall::CompileShader { shader: 1 },
            GlCall::Create { kind: ObjectKind::FragmentShader, id: 2 },
            GlCall::ShaderSource { shader: 2 },
            GlCall::CompileShader { shader: 2 },
            GlCall::Create { kind: ObjectKind::Program, id: 3 },
            GlCall::AttachShader { program: 3, shader: 1 },
            GlCall::AttachShader { program: 3, shader: 2 },
            GlCall::LinkProgram { program: 3 },
            GlCall::DetachShader { program: 3, shader: 1 },
            GlCall::Delete { kind: ObjectKind::VertexShader, id: 1 },
            GlCall::DetachShader { program: 3, shader: 2 },
            GlCall::Delete { kind: ObjectKind::FragmentShader, id: 2 },
        ]
    );
}

#[test]
fn compute_program_is_built() {
    let mut gl = CommandList::new();
    let start = ProgramBuild::start_compute(&mut gl);
    let end = build(&mut gl, start, &[true; 4]);
    assert_eq!(end, ProgramBuild::Built { program: 2 });
    assert_eq!(live(&gl), vec![2]);
}

#[test]
fn failed_stages_leave_nothing_behind() {
    for failing in [1, 3] {
        let mut gl = CommandList::new();
        let start = ProgramBuild::start_graphics(&mut gl);
        let mut outcomes = vec![true; failing];
        outcomes.push(false);
        assert_eq!(build(&mut gl, start, &outcomes), ProgramBuild::Failed);
        assert!(live(&gl).is_empty());
    }
    let mut gl = CommandList::new();
    let start = ProgramBuild::start_compute(&mut gl);
    assert_eq!(build(&mut gl, start, &[true, false]), ProgramBuild::Failed);
    assert!(live(&gl).is_empty());
}

#[test]
fn failed_link_leaves_nothing_behind() {
    let mut gl = CommandList::new();
    let start = ProgramBuild::start_graphics(&mut gl);
    let end = build(&mut gl, start, &[true, true, true, true, true, false]);
    assert_eq!(end, ProgramBuild::Failed);
    assert!(live(&gl).is_empty());
}

#[test]
fn fragment_stage_that_cannot_be_created_frees_the_vertex_stage() {
    let mut gl = CommandList::new();
    let start = ProgramBuild::start_graphics(&mut gl);
    assert_eq!(build(&mut gl, start, &[true, true, false]), ProgramBuild::Failed);
    assert_eq!(gl.get(gl.len() - 1), GlCall::Delete { kind: ObjectKind::VertexShader, id: 1 });
}

#[test]
fn finished_builds_stay_finished() {
    let mut gl = CommandList::new();
    let done = ProgramBuild::Built { program: 9 };
    assert_eq!(done.step(&mut gl, false), done);
    assert_eq!(ProgramBuild::Failed.step(&mut gl, true), ProgramBuild::Failed);
    assert_eq!(gl.len(), 0);
}

#[test]
fn uniform_locations_are_remembered() {
    let mut cache = UniformCache::new();
    assert_eq!(cache.get(1, Uniform::Phase), None);
    cache.remember(1, Uniform::Phase, Some(5));
    cache.remember(1, Uniform::EyePos, None);
    cache.remember(2, Uniform::Phase, Some(7));
    assert_eq!(cache.get(1, Uniform::Phase), Some(Some(5)));
    assert_eq!(cache.get(1, Uniform::EyePos), Some(None));
    assert_eq!(cache.get(1, Uniform::SrcSize), None);
    cache.forget(1);
    assert_eq!(cache.get(1, Uniform::Phase), None);
    assert_eq!(cache.get(1, Uniform::EyePos), None);
    assert_eq!(cache.get(2, Uniform::Phase), Some(Some(7)));
}

#[test]
fn changed_sources_replace_the_program() {
    let mut gl = CommandList::new();
    let mut cache = UniformCache::new();
    let mut shader =
        Shader::new_graphics(4, String::from("a.vert"), String::from("a.frag"), 10, 20);
    assert_eq!(shader.paths(), vec!["a.vert", "a.frag"]);
    cache.remember(4, Uniform::ViewProj, Some(1));
    assert!(!shader.is_stale(&vec![10, 20]));
    assert!(!shader.try_reload(&mut gl, vec![10, 20], None, &mut cache));
    assert!(shader.is_stale(&vec![10, 21]));
    assert!(shader.try_reload(&mut gl, vec![10, 21], Some(5), &mut cache));
    assert_eq!(shader.program, 5);
    assert_eq!(cache.get(4, Uniform::ViewProj), None);
    assert_eq!(calls(&gl), vec![GlCall::Delete { kind: ObjectKind::Program, id: 4 }]);
}

#[test]
fn a_bad_save_is_tried_once() {
    let mut gl = CommandList::new();
    let mut cache = UniformCache::new();
    let mut shader = Shader::new_compute(4, String::from("c.comp"), 1);
    assert_eq!(shader.paths(), vec!["c.comp"]);
    assert!(!shader.try_reload(&mut gl, vec![2], None, &mut cache));
    assert_eq!(shader.program, 4);
    assert!(!shader.is_stale(&vec![2]));
    assert_eq!(gl.len(), 0);
}

#[test]
fn uniforms_are_recorded() {
    let mut gl = CommandList::new();
    let shader = Shader::new_compute(3, String::from("c.comp"), 0);
    shader.bind(&mut gl);
    shader.set_f32(&mut gl, Uniform::ProjXScale, 0x3F80_0000);
    shader.set_u32(&mut gl, Uniform::Phase, 1);
    shader.set_vec2(&mut gl, Uniform::ScreenSize, 640, 480);
    shader.set_uvec2(&mut gl, Uniform::SrcSize, 2, 3);
    shader.set_vec3(&mut gl, Uniform::EyePos, [1, 2, 3]);
    shader.set_mat4(&mut gl, Uniform::ViewProj, &[7; 16]);
    shader.set_vec4_slice(&mut gl, Uniform::FrustumPlanes, &[1, 2, 3, 4]);
    shader.cleanup(&mut gl);
    assert_eq!(
        calls(&gl),
        vec![
            GlCall::UseProgram { program: Some(3) },
            GlCall::Uniform1Float { program: 3, name: Uniform::ProjXScale, x: 0x3F80_0000 },
            GlCall::Uniform1Uint { program: 3, name: Uniform::Phase, x: 1 },
            GlCall::Uniform2FloatOf { program: 3, name: Uniform::ScreenSize, x: 640, y: 480 },
            GlCall::Uniform2Uint { program: 3, name: Uniform::SrcSize, x: 2, y: 3 },
            GlCall::Uniform3Float { program: 3, name: Uniform::EyePos, x: 1, y: 2, z: 3 },
            GlCall::UniformMatrix4 { program: 3, name: Uniform::ViewProj, start: 0, count: 16 },
            GlCall::Uniform4FloatSlice {
                program: 3,
                name: Uniform::FrustumPlanes,
                start: 16,
                count: 4,
            },
            GlCall::Delete { kind: ObjectKind::Program, id: 3 },
        ]
    );
}
