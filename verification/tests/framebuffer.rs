use gl_renderer::framebuffer::OffscreenTarget;
use gl_renderer::gl::{
    CommandList, GlCall, ObjectKind, COLOR_BUFFER_BIT, DEPTH_COMPONENT, DEPTH_COMPONENT32F,
    DRAW_FRAMEBUFFER, FLOAT, FRAMEBUFFER, LINEAR, READ_FRAMEBUFFER, RGBA, RGBA8, TEXTURE_2D,
    UNSIGNED_BYTE,
};

fn calls(gl: &CommandList) -> Vec<GlCall> {
    (0..gl.len()).map(|i| gl.get(i)).collect()
}

#[test]
fn new_target_has_its_textures() {
    let mut gl = CommandList::new();
    let target = OffscreenTarget::new(&mut gl, 640, 480);
    assert_eq!((target.color_texture(), target.depth_texture(), target.fbo), (1, 2, 3));
    assert_eq!((target.width, target.height), (640, 480));
    let images: Vec<GlCall> =
        calls(&gl).into_iter().filter(|c| matches!(c, GlCall::TexImage2d { .. })).collect();
    assert_eq!(
        images,
        vec![
            GlCall::TexImage2d {
                target: TEXTURE_2D,
                internal: RGBA8 as i32,
                width: 640,
                height: 480,
                format: RGBA,
                ty: UNSIGNED_BYTE,
            },
            GlCall::TexImage2d {
                target: TEXTURE_2D,
                internal: DEPTH_COMPONENT32F as i32,
                width: 640,
                height: 480,
                format: DEPTH_COMPONENT,
                ty: FLOAT,
            },
        ]
    );
}

#[test]
fn empty_target_gets_one_pixel() {
    let mut gl = CommandList::new();
    let mut target = OffscreenTarget::new(&mut gl, 0, 7);
    assert_eq!((target.width, target.height), (1, 7));
    gl.clear();
    target.resize(&mut gl, 5, 0);
    assert_eq!((target.width, target.height), (5, 1));
    assert!(gl.len() > 0);
}

#[test]
fn resizing_to_the_same_size_does_nothing() {
    let mut gl = CommandList::new();
    let mut target = OffscreenTarget::new(&mut gl, 10, 10);
    gl.clear();
    target.resize(&mut gl, 10, 10);
    assert_eq!(gl.len(), 0);
    target.resize(&mut gl, 20, 10);
    let once = gl.len();
    target.resize(&mut gl, 20, 10);
    assert_eq!(gl.len(), once);
    assert!(calls(&gl).contains(&GlCall::ExpectFramebufferComplete { target: FRAMEBUFFER }));
}

#[test]
fn binding_sets_the_viewport() {
    let mut gl = CommandList::new();
    let target = OffscreenTarget::new(&mut gl, 30, 20);
    gl.clear();
    target.bind(&mut gl);
    assert_eq!(
        calls(&gl),
        vec![
            GlCall::BindFramebuffer { target: FRAMEBUFFER, framebuffer: Some(3) },
            GlCall::Viewport { width: 30, height: 20 },
        ]
    );
}

#[test]
fn color_is_copied_to_the_window() {
    let mut gl = CommandList::new();
    let target = OffscreenTarget::new(&mut gl, 30, 20);
    gl.clear();
    target.blit_color_to_default(&mut gl, 60, 40);
    assert_eq!(
        calls(&gl),
        vec![
            GlCall::BindFramebuffer { target: READ_FRAMEBUFFER, framebuffer: Some(3) },
            GlCall::BindFramebuffer { target: DRAW_FRAMEBUFFER, framebuffer: None },
            GlCall::BlitFramebuffer {
                src_width: 30,
                src_height: 20,
                dst_width: 60,
                dst_height: 40,
                mask: COLOR_BUFFER_BIT,
                filter: LINEAR,
            },
            GlCall::BindFramebuffer { target: FRAMEBUFFER, framebuffer: None },
        ]
    );
}

#[test]
fn target_is_deleted_whole() {
    let mut gl = CommandList::new();
    let target = OffscreenTarget::new(&mut gl, 1, 1);
    gl.clear();
    target.cleanup(&mut gl);
    assert_eq!(
        calls(&gl),
        vec![
            GlCall::Delete { kind: ObjectKind::Framebuffer, id: 3 },
            GlCall::Delete { kind: ObjectKind::Texture, id: 1 },
            GlCall::Delete { kind: ObjectKind::Texture, id: 2 },
        ]
    );
}
