use gl_renderer::gl;
use gl_renderer::gl::{CommandList, GlCall, ObjectKind, Uniform};

#[test]
fn constants_are_those_of_opengl() {
    assert_eq!(gl::ARRAY_BUFFER, glow::ARRAY_BUFFER);
    assert_eq!(gl::ELEMENT_ARRAY_BUFFER, glow::ELEMENT_ARRAY_BUFFER);
    assert_eq!(gl::SHADER_STORAGE_BUFFER, glow::SHADER_STORAGE_BUFFER);
    assert_eq!(gl::DRAW_INDIRECT_BUFFER, glow::DRAW_INDIRECT_BUFFER);
    assert_eq!(gl::PARAMETER_BUFFER, 0x80EE);
    assert_eq!(gl::COPY_READ_BUFFER, glow::COPY_READ_BUFFER);
    assert_eq!(gl::COPY_WRITE_BUFFER, glow::COPY_WRITE_BUFFER);
    assert_eq!(gl::STATIC_DRAW, glow::STATIC_DRAW);
    assert_eq!(gl::DYNAMIC_DRAW, glow::DYNAMIC_DRAW);
    assert_eq!(gl::STREAM_DRAW, glow::STREAM_DRAW);
    assert_eq!(gl::MAP_WRITE_BIT, glow::MAP_WRITE_BIT);
    assert_eq!(gl::MAP_INVALIDATE_RANGE_BIT, glow::MAP_INVALIDATE_RANGE_BIT);
    assert_eq!(gl::MAP_FLUSH_EXPLICIT_BIT, glow::MAP_FLUSH_EXPLICIT_BIT);
    assert_eq!(gl::TEXTURE_2D, glow::TEXTURE_2D);
    assert_eq!(gl::TEXTURE0, glow::TEXTURE0);
    assert_eq!(gl::TEXTURE_MIN_FILTER, glow::TEXTURE_MIN_FILTER);
    assert_eq!(gl::TEXTURE_MAG_FILTER, glow::TEXTURE_MAG_FILTER);
    assert_eq!(gl::TEXTURE_WRAP_S, glow::TEXTURE_WRAP_S);
    assert_eq!(gl::TEXTURE_WRAP_T, glow::TEXTURE_WRAP_T);
    assert_eq!(gl::TEXTURE_COMPARE_MODE, glow::TEXTURE_COMPARE_MODE);
    assert_eq!(gl::TEXTURE_SWIZZLE_G, glow::TEXTURE_SWIZZLE_G);
    assert_eq!(gl::TEXTURE_SWIZZLE_B, glow::TEXTURE_SWIZZLE_B);
    assert_eq!(gl::LINEAR, glow::LINEAR);
    assert_eq!(gl::NEAREST, glow::NEAREST);
    assert_eq!(gl::NEAREST_MIPMAP_NEAREST, glow::NEAREST_MIPMAP_NEAREST);
    assert_eq!(gl::CLAMP_TO_EDGE, glow::CLAMP_TO_EDGE);
    assert_eq!(gl::NONE, glow::NONE);
    assert_eq!(gl::RED, glow::RED);
    assert_eq!(gl::RGBA8, glow::RGBA8);
    assert_eq!(gl::RGBA, glow::RGBA);
    assert_eq!(gl::UNSIGNED_BYTE, glow::UNSIGNED_BYTE);
    assert_eq!(gl::DEPTH_COMPONENT32F, glow::DEPTH_COMPONENT32F);
    assert_eq!(gl::DEPTH_COMPONENT, glow::DEPTH_COMPONENT);
    assert_eq!(gl::FLOAT, glow::FLOAT);
    assert_eq!(gl::R32F, glow::R32F);
}

#[test]
fn constants_of_drawing_are_those_of_opengl() {
    assert_eq!(gl::FRAMEBUFFER, glow::FRAMEBUFFER);
    assert_eq!(gl::READ_FRAMEBUFFER, glow::READ_FRAMEBUFFER);
    assert_eq!(gl::DRAW_FRAMEBUFFER, glow::DRAW_FRAMEBUFFER);
    assert_eq!(gl::COLOR_ATTACHMENT0, glow::COLOR_ATTACHMENT0);
    assert_eq!(gl::DEPTH_ATTACHMENT, glow::DEPTH_ATTACHMENT);
    assert_eq!(gl::COLOR_BUFFER_BIT, glow::COLOR_BUFFER_BIT);
    assert_eq!(gl::DEPTH_BUFFER_BIT, glow::DEPTH_BUFFER_BIT);
    assert_eq!(gl::COLOR_AND_DEPTH_BITS, glow::COLOR_BUFFER_BIT | glow::DEPTH_BUFFER_BIT);
    assert_eq!(gl::DEPTH_TEST, glow::DEPTH_TEST);
    assert_eq!(gl::GREATER, glow::GREATER);
    assert_eq!(gl::CULL_FACE, glow::CULL_FACE);
    assert_eq!(gl::BACK, glow::BACK);
    assert_eq!(gl::TIME_ELAPSED, glow::TIME_ELAPSED);
    assert_eq!(gl::PRIMITIVES_SUBMITTED, glow::PRIMITIVES_SUBMITTED);
    assert_eq!(gl::VERTEX_SHADER_INVOCATIONS, glow::VERTEX_SHADER_INVOCATIONS);
    assert_eq!(gl::FRAGMENT_SHADER_INVOCATIONS, glow::FRAGMENT_SHADER_INVOCATIONS);
    assert_eq!(gl::SHADER_STORAGE_BARRIER_BIT, glow::SHADER_STORAGE_BARRIER_BIT);
    assert_eq!(gl::COMMAND_BARRIER_BIT, glow::COMMAND_BARRIER_BIT);
    assert_eq!(gl::TEXTURE_FETCH_BARRIER_BIT, glow::TEXTURE_FETCH_BARRIER_BIT);
    assert_eq!(gl::SHADER_IMAGE_ACCESS_BARRIER_BIT, glow::SHADER_IMAGE_ACCESS_BARRIER_BIT);
    assert_eq!(
        gl::STORAGE_AND_COMMAND_BITS,
        glow::SHADER_STORAGE_BARRIER_BIT | glow::COMMAND_BARRIER_BIT
    );
    assert_eq!(
        gl::FETCH_AND_IMAGE_BITS,
        glow::TEXTURE_FETCH_BARRIER_BIT | glow::SHADER_IMAGE_ACCESS_BARRIER_BIT
    );
    assert_eq!(gl::TRIANGLES, glow::TRIANGLES);
    assert_eq!(gl::UNSIGNED_INT, glow::UNSIGNED_INT);
    assert_eq!(gl::READ_ONLY, glow::READ_ONLY);
    assert_eq!(gl::WRITE_ONLY, glow::WRITE_ONLY);
}

#[test]
fn objects_are_numbered_from_one() {
    let mut list = CommandList::new();
    assert_eq!(list.create(ObjectKind::Buffer), 1);
    assert_eq!(list.create(ObjectKind::Texture), 2);
    list.clear();
    assert_eq!(list.len(), 0);
    assert_eq!(list.create(ObjectKind::Query), 3);
    assert_eq!(list.get(0), GlCall::Create { kind: ObjectKind::Query, id: 3 });
}

#[test]
fn payload_bytes_are_those_of_the_words() {
    let mut list = CommandList::new();
    list.push_words(&[7, 0x0102_0304, 0xFFFF_FFFE]);
    let expected: Vec<u8> = [0x0102_0304u32, 0xFFFF_FFFE]
        .iter()
        .flat_map(|w| w.to_ne_bytes())
        .collect();
    assert_eq!(list.bytes(1, 2), expected.as_slice());
    assert_eq!(list.bytes(0, 0).len(), 0);
    assert_eq!(list.words(2, 1), [0xFFFF_FFFE]);
}

#[test]
fn uniforms_have_their_names() {
    assert_eq!(Uniform::TotalDraws.text(), "u_total_draws");
    assert_eq!(Uniform::FrustumPlanes.text(), "u_frustum_planes[0]");
    assert_eq!(Uniform::ViewProj.text(), "u_view_proj");
    assert_eq!(Uniform::ScreenSize.text(), "u_screen_size");
    assert_eq!(Uniform::HzbMaxLevel.text(), "u_hzb_max_level");
    assert_eq!(Uniform::ProjXScale.text(), "u_proj_x_scale");
    assert_eq!(Uniform::ProjYScale.text(), "u_proj_y_scale");
    assert_eq!(Uniform::EyePos.text(), "u_eye_pos");
    assert_eq!(Uniform::Phase.text(), "u_phase");
    assert_eq!(Uniform::SrcSize.text(), "u_src_size");
    assert_eq!(Uniform::IsFirst.text(), "u_is_first");
}
