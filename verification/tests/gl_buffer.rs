use gl_renderer::arena::{ensure_room, InstanceData};
use gl_renderer::gl::{
    CommandList, GlCall, ObjectKind, ARRAY_BUFFER, COPY_READ_BUFFER, COPY_WRITE_BUFFER,
    DRAW_INDIRECT_BUFFER, DYNAMIC_DRAW, ELEMENT_ARRAY_BUFFER, SHADER_STORAGE_BUFFER, STATIC_DRAW,
    STREAM_DRAW,
};
use gl_renderer::gl_buffer::{BufferTarget, BufferUsage, GlBuffer};

fn calls(gl: &CommandList) -> Vec<GlCall> {
    (0..gl.len()).map(|i| gl.get(i)).collect()
}

#[test]
fn targets_and_usages_have_their_names() {
    assert_eq!(BufferTarget::ShaderStorage.gl_target(), SHADER_STORAGE_BUFFER);
    assert_eq!(BufferTarget::ElementArray.gl_target(), ELEMENT_ARRAY_BUFFER);
    assert_eq!(BufferTarget::DrawIndirect.gl_target(), DRAW_INDIRECT_BUFFER);
    assert_eq!(BufferUsage::StaticDraw.gl_usage(), STATIC_DRAW);
    assert_eq!(BufferUsage::DynamicDraw.gl_usage(), DYNAMIC_DRAW);
    assert_eq!(BufferUsage::StreamDraw.gl_usage(), STREAM_DRAW);
}

#[test]
fn new_buffer_is_allocated() {
    let mut gl = CommandList::new();
    let buf: GlBuffer<u32> = GlBuffer::new(&mut gl, 10, BufferUsage::StaticDraw);
    assert_eq!(buf.byte_capacity(), 40);
    assert_eq!(
        calls(&gl),
        vec![
            GlCall::Create { kind: ObjectKind::Buffer, id: 1 },
            GlCall::BindBuffer { target: ARRAY_BUFFER, buffer: Some(1) },
            GlCall::BufferDataSize { target: ARRAY_BUFFER, size: 40, usage: STATIC_DRAW },
            GlCall::BindBuffer { target: ARRAY_BUFFER, buffer: None },
        ]
    );
}

#[test]
fn buffer_from_data_holds_it() {
    let mut gl = CommandList::new();
    let buf = GlBuffer::from_data(&mut gl, &[5u32, 6, 7], BufferUsage::StreamDraw);
    assert_eq!(buf.capacity, 3);
    assert_eq!(
        gl.get(2),
        GlCall::BufferData { target: ARRAY_BUFFER, start: 0, count: 3, usage: STREAM_DRAW }
    );
    assert_eq!(gl.words(0, 3), [5, 6, 7]);
}

#[test]
fn uploads_go_to_their_offset() {
    let mut gl = CommandList::new();
    let buf: GlBuffer<InstanceData> = GlBuffer::new(&mut gl, 4, BufferUsage::DynamicDraw);
    gl.clear();
    let data = InstanceData { model: [1; 16], normal: [2; 16], material_index: 3 };
    buf.upload_subrange(&mut gl, &[data, data], 2);
    assert_eq!(
        gl.get(1),
        GlCall::BufferSubData { target: ARRAY_BUFFER, offset: 288, start: 0, count: 72 }
    );
}

#[test]
fn mapped_upload_unmaps() {
    let mut gl = CommandList::new();
    let buf: GlBuffer<u32> = GlBuffer::new(&mut gl, 8, BufferUsage::DynamicDraw);
    gl.clear();
    buf.mapped_upload(&mut gl, 2, &[9, 8]);
    assert_eq!(
        calls(&gl),
        vec![
            GlCall::BindBuffer { target: ARRAY_BUFFER, buffer: Some(1) },
            GlCall::MapAndWrite {
                target: ARRAY_BUFFER,
                offset: 8,
                length: 8,
                access: 6,
                start: 0,
                count: 2,
            },
            GlCall::UnmapBuffer { target: ARRAY_BUFFER },
            GlCall::BindBuffer { target: ARRAY_BUFFER, buffer: None },
        ]
    );
}

#[test]
fn explicit_flush_covers_what_was_written() {
    let mut gl = CommandList::new();
    let buf: GlBuffer<u32> = GlBuffer::new(&mut gl, 8, BufferUsage::DynamicDraw);
    gl.clear();
    buf.mapped_upload_explicit_flush(&mut gl, 4, &[1, 2, 3]);
    assert_eq!(
        gl.get(1),
        GlCall::MapAndWrite {
            target: ARRAY_BUFFER,
            offset: 16,
            length: 12,
            access: 0x16,
            start: 0,
            count: 3,
        }
    );
    assert_eq!(gl.get(2), GlCall::FlushMappedRange { target: ARRAY_BUFFER, offset: 0, length: 12 });
    assert_eq!(gl.get(3), GlCall::UnmapBuffer { target: ARRAY_BUFFER });
}

#[test]
fn growing_copies_and_deletes() {
    let mut gl = CommandList::new();
    let mut buf: GlBuffer<u32> = GlBuffer::new(&mut gl, 2, BufferUsage::DynamicDraw);
    gl.clear();
    buf.grow(&mut gl, 5, BufferUsage::DynamicDraw);
    assert_eq!((buf.handle, buf.capacity), (2, 5));
    assert_eq!(
        calls(&gl)[4..],
        [
            GlCall::BindBuffer { target: COPY_READ_BUFFER, buffer: Some(1) },
            GlCall::BindBuffer { target: COPY_WRITE_BUFFER, buffer: Some(2) },
            GlCall::CopyBufferSubData {
                src: COPY_READ_BUFFER,
                dst: COPY_WRITE_BUFFER,
                src_offset: 0,
                dst_offset: 0,
                size: 8,
            },
            GlCall::BindBuffer { target: COPY_READ_BUFFER, buffer: None },
            GlCall::BindBuffer { target: COPY_WRITE_BUFFER, buffer: None },
            GlCall::Delete { kind: ObjectKind::Buffer, id: 1 },
        ]
    );
}

#[test]
fn room_is_made_only_when_needed() {
    let mut gl = CommandList::new();
    let mut buf: GlBuffer<u32> = GlBuffer::new(&mut gl, 4, BufferUsage::DynamicDraw);
    gl.clear();
    ensure_room(&mut buf, &mut gl, 4, BufferUsage::DynamicDraw);
    assert_eq!(gl.len(), 0);
    ensure_room(&mut buf, &mut gl, 5, BufferUsage::DynamicDraw);
    assert_eq!(buf.capacity, 8);
    ensure_room(&mut buf, &mut gl, 100, BufferUsage::DynamicDraw);
    assert_eq!(buf.capacity, 100);
}

#[test]
fn binding_and_unbinding() {
    let mut gl = CommandList::new();
    let buf: GlBuffer<u32> = GlBuffer::new(&mut gl, 1, BufferUsage::DynamicDraw);
    gl.clear();
    buf.bind_as_ssbo(&mut gl, 6);
    buf.bind_as_ibo(&mut gl);
    buf.bind_as_indirect(&mut gl);
    GlBuffer::<u32>::unbind_ibo(&mut gl);
    GlBuffer::<u32>::unbind_indirect(&mut gl);
    buf.cleanup(&mut gl);
    assert_eq!(
        calls(&gl),
        vec![
            GlCall::BindBufferBase { target: SHADER_STORAGE_BUFFER, index: 6, buffer: 1 },
            GlCall::BindBuffer { target: ELEMENT_ARRAY_BUFFER, buffer: Some(1) },
            GlCall::BindBuffer { target: DRAW_INDIRECT_BUFFER, buffer: Some(1) },
            GlCall::BindBuffer { target: ELEMENT_ARRAY_BUFFER, buffer: None },
            GlCall::BindBuffer { target: DRAW_INDIRECT_BUFFER, buffer: None },
            GlCall::Delete { kind: ObjectKind::Buffer, id: 1 },
        ]
    );
}
