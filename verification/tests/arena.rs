use gl_renderer::arena::{pack_half2, GpuArena, MeshAlloc, PackedVertex};
use gl_renderer::element::GpuElement;
use gl_renderer::gl::{CommandList, GlCall, ARRAY_BUFFER, ELEMENT_ARRAY_BUFFER, SHADER_STORAGE_BUFFER};
use gl_renderer::{BoundingSphere, DrawCommand, InstanceData};

fn calls(gl: &CommandList) -> Vec<GlCall> {
    (0..gl.len()).map(|i| gl.get(i)).collect()
}

#[test]
fn halves_are_packed_low_first() {
    assert_eq!(pack_half2(0x3C00, 0xC000), 0xC000_3C00);
    assert_eq!(pack_half2(0xFFFF, 0), 0x0000_FFFF);
}

#[test]
fn packed_halves_come_back() {
    let word = pack_half2(half::f16::from_f32(0.5).to_bits(), half::f16::from_f32(-1.0).to_bits());
    assert_eq!(half::f16::from_bits(word as u16).to_f32(), 0.5);
    assert_eq!(half::f16::from_bits((word >> 16) as u16).to_f32(), -1.0);
}

#[test]
fn vertex_takes_five_words() {
    let v = PackedVertex::new([1, 2, 3], [4, 5, 6], [7, 8]);
    let mut words: Vec<u32> = Vec::new();
    v.append_words(&mut words);
    assert_eq!(words, vec![0x0002_0001, 3, 0x0005_0004, 6, 0x0008_0007]);
    assert_eq!(PackedVertex::word_count(), 5);
}

#[test]
fn draw_command_of_an_allocation() {
    let alloc = MeshAlloc { vertex_offset: 24, vertex_count: 10, index_offset: 36, index_count: 60 };
    let c = alloc.draw_command(7);
    assert_eq!(c.count, 60);
    assert_eq!(c.instance_count, 1);
    assert_eq!(c.first_index, 36);
    assert_eq!(c.base_vertex, 24);
    assert_eq!(c.base_instance, 7);
    let none = alloc.draw_command_instanced(0, 3);
    assert_eq!(none.instance_count, 0);
    assert_eq!(none.base_instance, 3);
}

#[test]
fn command_layout_is_twenty_bytes() {
    let c = DrawCommand { count: 1, instance_count: 2, first_index: 3, base_vertex: u32::MAX, base_instance: 5 };
    let mut words: Vec<u32> = Vec::new();
    c.append_words(&mut words);
    assert_eq!(words, vec![1, 2, 3, 0xFFFF_FFFF, 5]);
}

#[test]
fn instance_is_padded() {
    let mut model = [0u32; 16];
    model[3] = 9;
    let data = InstanceData { model, normal: [1; 16], material_index: 4 };
    let mut words: Vec<u32> = Vec::new();
    data.append_words(&mut words);
    assert_eq!(words.len(), 36);
    assert_eq!(words[3], 9);
    assert_eq!(words[16..32], [1u32; 16]);
    assert_eq!(words[32..], [4, 0, 0, 0]);
    let mut sphere: Vec<u32> = Vec::new();
    BoundingSphere { x: 1, y: 2, z: 3, radius: 4 }.append_words(&mut sphere);
    assert_eq!(sphere, vec![1, 2, 3, 4]);
}

#[test]
fn meshes_follow_each_other() {
    let mut gl = CommandList::new();
    let mut arena = GpuArena::new(&mut gl, 64, 128);
    let v = PackedVertex::new([0; 3], [0; 3], [0; 2]);
    let first = arena.push_mesh(&mut gl, &[v; 24], &[0; 36]);
    let second = arena.push_mesh(&mut gl, &[v; 10], &[0; 12]);
    assert_eq!((first.vertex_offset, first.vertex_count), (0, 24));
    assert_eq!((first.index_offset, first.index_count), (0, 36));
    assert_eq!((second.vertex_offset, second.vertex_count), (24, 10));
    assert_eq!((second.index_offset, second.index_count), (36, 12));
    assert_eq!((arena.next_vertex, arena.next_index), (34, 48));
}

#[test]
fn arena_doubles_when_full() {
    let mut gl = CommandList::new();
    let mut arena = GpuArena::new(&mut gl, 4, 8);
    gl.clear();
    let v = PackedVertex::new([0; 3], [0; 3], [0; 2]);
    arena.push_mesh(&mut gl, &[v; 5], &[0; 3]);
    assert_eq!(arena.vertex_buf.capacity, 8);
    assert_eq!(arena.index_buf.capacity, 8);
    let copied = calls(&gl).iter().any(|c| matches!(c, GlCall::CopyBufferSubData { size: 80, .. }));
    assert!(copied);
    arena.push_mesh(&mut gl, &[v; 20], &[0; 3]);
    assert_eq!(arena.vertex_buf.capacity, 25);
}

#[test]
fn second_mesh_is_uploaded_behind_the_first() {
    let mut gl = CommandList::new();
    let mut arena = GpuArena::new(&mut gl, 64, 64);
    let v = PackedVertex::new([1, 2, 3], [4, 5, 6], [7, 8]);
    arena.push_mesh(&mut gl, &[v; 3], &[0, 1, 2]);
    gl.clear();
    arena.push_mesh(&mut gl, &[v], &[2, 1, 0]);
    let uploads: Vec<(i32, usize, usize)> = calls(&gl)
        .iter()
        .filter_map(|c| match c {
            GlCall::BufferSubData { offset, start, count, .. } => Some((*offset, *start, *count)),
            _ => None,
        })
        .collect();
    assert_eq!(uploads, vec![(60, 0, 5), (12, 5, 3)]);
    assert_eq!(gl.words(5, 3), [2, 1, 0]);
}

#[test]
fn binding_and_cleaning_up_the_arena() {
    let mut gl = CommandList::new();
    let arena = GpuArena::new(&mut gl, 1, 1);
    gl.clear();
    arena.bind(&mut gl, 0);
    assert_eq!(
        calls(&gl),
        vec![
            GlCall::BindBufferBase { target: SHADER_STORAGE_BUFFER, index: 0, buffer: 1 },
            GlCall::BindBuffer { target: ELEMENT_ARRAY_BUFFER, buffer: Some(2) },
        ]
    );
    gl.clear();
    arena.cleanup(&mut gl);
    assert_eq!(gl.len(), 2);
    assert_ne!(ARRAY_BUFFER, ELEMENT_ARRAY_BUFFER);
}
