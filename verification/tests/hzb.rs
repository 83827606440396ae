use gl_renderer::gl::{CommandList, GlCall, ObjectKind, Uniform, READ_ONLY, WRITE_ONLY};
use gl_renderer::hzb::Hzb;
use gl_renderer::shader::Shader;

fn calls(gl: &CommandList) -> Vec<GlCall> {
    (0..gl.len()).map(|i| gl.get(i)).collect()
}

#[test]
fn levels_are_those_of_the_logarithm() {
    for (w, h) in [(1, 1), (2, 1), (3, 2), (4, 4), (5, 1), (255, 256), (1600, 900), (1023, 1024)] {
        let mut gl = CommandList::new();
        let mut hzb = Hzb::new();
        hzb.fit(&mut gl, w, h);
        let expected = ((w.max(h) as f32).log2().floor() as i32 + 1).max(1) as u32;
        assert_eq!(hzb.levels, expected);
        assert_eq!(hzb.last_level(), expected - 1);
    }
}

fn levels_of(width: u32, height: u32) -> u32 {
    let mut hzb = Hzb::new();
    hzb.fit(&mut CommandList::new(), width, height);
    hzb.levels
}

#[test]
fn levels_are_counted_in_single_precision() {
    assert_eq!(levels_of(1 << 21, 1), 22);
    assert_eq!(levels_of((1 << 21) - 1, 1), 22);
    assert_eq!(levels_of((1 << 21) - 2, 1), 21);
    assert_eq!(levels_of(1, (1 << 24) - 11), 25);
    assert_eq!(levels_of(1, (1 << 24) - 12), 24);
    assert_eq!(levels_of(u32::MAX, 7), 33);
    let expected = |side: u32| ((side as f32).log2().floor() as i32 + 1).max(1) as u32;
    for k in 1..33u32 {
        let power = 1u64 << k;
        let reach = (power >> 20).max(40);
        let edge = power - 23 * (power >> 25);
        for side in [edge - 1, edge, edge + 1] {
            if side <= u32::MAX as u64 {
                assert_eq!(levels_of(side as u32, 1), expected(side as u32), "{side}");
            }
        }
        for step in 0..200u64 {
            for side in [power - (step * reach / 200).min(power - 1), power - step.min(power - 1)] {
                for side in [side, side.saturating_sub(1).max(1), side + 1] {
                    if side <= u32::MAX as u64 {
                        let side = side as u32;
                        assert_eq!(levels_of(side, 1), expected(side), "{side}");
                    }
                }
            }
        }
    }
}

#[test]
fn allocation_clears_every_level() {
    let mut gl = CommandList::new();
    let mut hzb = Hzb::new();
    hzb.fit(&mut gl, 8, 3);
    assert_eq!((hzb.texture, hzb.levels, hzb.width, hzb.height), (Some(1), 4, 8, 3));
    let cleared: Vec<i32> = calls(&gl)
        .iter()
        .filter_map(|c| match c {
            GlCall::FramebufferTexture2d { texture: 1, level, .. } => Some(*level),
            _ => None,
        })
        .collect();
    assert_eq!(cleared, vec![0, 1, 2, 3]);
    assert_eq!(gl.get(gl.len() - 1), GlCall::Delete { kind: ObjectKind::Framebuffer, id: 2 });
}

#[test]
fn same_size_is_kept_and_other_size_replaces() {
    let mut gl = CommandList::new();
    let mut hzb = Hzb::new();
    hzb.fit(&mut gl, 0, 0);
    assert_eq!(hzb.texture, None);
    hzb.fit(&mut gl, 4, 4);
    gl.clear();
    hzb.fit(&mut gl, 4, 4);
    assert_eq!(gl.len(), 0);
    hzb.fit(&mut gl, 4, 5);
    assert_eq!(gl.get(0), GlCall::Delete { kind: ObjectKind::Texture, id: 1 });
    assert_eq!(hzb.texture, Some(3));
}

#[test]
fn levels_are_built_one_from_another() {
    let mut gl = CommandList::new();
    let mut hzb = Hzb::new();
    hzb.fit(&mut gl, 20, 3);
    gl.clear();
    let shader = Shader::new_compute(9, String::from("h.comp"), 0);
    hzb.build(&mut gl, &shader);
    let sizes: Vec<(u32, u32)> = calls(&gl)
        .iter()
        .filter_map(|c| match c {
            GlCall::Uniform2Uint { program: 9, name: Uniform::SrcSize, x, y } => Some((*x, *y)),
            _ => None,
        })
        .collect();
    assert_eq!(sizes, vec![(20, 3), (20, 3), (10, 1), (5, 1), (2, 1)]);
    let groups: Vec<(u32, u32)> = calls(&gl)
        .iter()
        .filter_map(|c| match c {
            GlCall::DispatchCompute { x, y, z: 1 } => Some((*x, *y)),
            _ => None,
        })
        .collect();
    assert_eq!(groups, vec![(3, 1), (2, 1), (1, 1), (1, 1), (1, 1)]);
    let reads: Vec<i32> = calls(&gl)
        .iter()
        .filter_map(|c| match c {
            GlCall::BindImageTexture { unit: 1, level, access, .. } if *access == READ_ONLY => {
                Some(*level)
            }
            _ => None,
        })
        .collect();
    assert_eq!(reads, vec![0, 1, 2, 3]);
    let writes: Vec<i32> = calls(&gl)
        .iter()
        .filter_map(|c| match c {
            GlCall::BindImageTexture { unit: 2, level, access, .. } if *access == WRITE_ONLY => {
                Some(*level)
            }
            _ => None,
        })
        .collect();
    assert_eq!(writes, vec![0, 1, 2, 3, 4]);
}
