use gl_renderer::arena::{BoundingSphere, MeshAlloc, PackedVertex};
use gl_renderer::batching::Drawable;
use gl_renderer::element::GpuElement;
use gl_renderer::gl::{CommandList, GlCall, ObjectKind, Uniform, STATIC_DRAW};
use gl_renderer::materials::{GpuMaterial, MaterialRegistry};
use gl_renderer::renderer::{FrameView, Renderer};
use gl_renderer::shader::{Shader, UniformCache};
use gl_renderer::stats::{PipelineStats, QueryResults, QuerySet};
use std::collections::{HashMap, HashSet};

/// Buffers, as a driver would keep them.
struct Gpu {
    buffers: HashMap<u32, Vec<u32>>,
    bound: HashMap<u32, Option<u32>>,
    live: HashSet<u32>,
    running: HashSet<u32>,
    draws: Vec<i32>,
}

impl Gpu {
    fn new() -> Gpu {
        Gpu {
            buffers: HashMap::new(),
            bound: HashMap::new(),
            live: HashSet::new(),
            running: HashSet::new(),
            draws: Vec::new(),
        }
    }

    fn at(&mut self, target: u32) -> &mut Vec<u32> {
        let id = self.bound[&target].unwrap();
        self.buffers.get_mut(&id).unwrap()
    }

    fn replay(&mut self, gl: &mut CommandList) {
        for i in 0..gl.len() {
            match gl.get(i) {
                GlCall::Create { kind, id } => {
                    assert!(self.live.insert(id));
                    if kind == ObjectKind::Buffer {
                        self.buffers.insert(id, Vec::new());
                    }
                }
                GlCall::Delete { id, .. } => {
                    assert!(self.live.remove(&id));
                    self.buffers.remove(&id);
                }
                GlCall::BindBuffer { target, buffer } => {
                    self.bound.insert(target, buffer);
                }
                GlCall::BufferDataSize { target, size, .. } => {
                    *self.at(target) = vec![0xDEAD; size as usize / 4];
                }
                GlCall::BufferData { target, start, count, .. } => {
                    let words = gl.words(start, count).to_vec();
                    *self.at(target) = words;
                }
                GlCall::BufferSubData { target, offset, start, count } => {
                    let words = gl.words(start, count).to_vec();
                    let from = offset as usize / 4;
                    self.at(target)[from..from + count].copy_from_slice(&words);
                }
                GlCall::CopyBufferSubData { src, dst, size, .. } => {
                    let n = size as usize / 4;
                    let words = self.at(src)[..n].to_vec();
                    self.at(dst)[..n].copy_from_slice(&words);
                }
                GlCall::BeginQuery { target, .. } => assert!(self.running.insert(target)),
                GlCall::EndQuery { target } => assert!(self.running.remove(&target)),
                GlCall::MultiDrawElementsIndirectCount { max_draws, .. } => {
                    self.draws.push(max_draws);
                }
                _ => {}
            }
        }
        gl.clear();
    }
}

fn material(mark: u32) -> GpuMaterial {
    GpuMaterial { base_color: [mark; 4], roughness: mark, metallic: mark }
}

fn shader(gl: &mut CommandList) -> Shader {
    let program = gl.create(ObjectKind::Program);
    Shader::new_compute(program, String::from("x.comp"), 0)
}

fn renderer(gl: &mut CommandList) -> Renderer {
    let main = shader(gl);
    let cull = shader(gl);
    let hzb = shader(gl);
    Renderer::new(gl, main, cull, hzb, material(1))
}

fn view() -> FrameView {
    FrameView {
        view_proj: [1; 16],
        planes: [2; 24],
        eye_pos: [3, 4, 5],
        proj_x_scale: 6,
        proj_y_scale: 7,
    }
}

fn drawable(offset: u32, mark: u32) -> Drawable {
    Drawable {
        mesh: MeshAlloc {
            vertex_offset: offset,
            vertex_count: 3,
            index_offset: offset,
            index_count: 3,
        },
        bounds: BoundingSphere { x: mark, y: mark, z: mark, radius: mark },
        material: Some(mark),
        model: [mark; 16],
    }
}

fn words<T: GpuElement>(data: &[T]) -> Vec<u32> {
    let mut out: Vec<u32> = Vec::new();
    for d in data {
        d.append_words(&mut out);
    }
    out
}

#[test]
fn new_renderer_has_the_default_material() {
    let mut gl = CommandList::new();
    let mut gpu = Gpu::new();
    let r = renderer(&mut gl);
    gpu.replay(&mut gl);
    assert_eq!(gpu.live.len(), 28);
    assert_eq!(gpu.buffers[&r.gpu.material_buf.handle][..8], [1, 1, 1, 1, 1, 1, 0, 0]);
    assert_eq!(gpu.buffers[&r.gpu.draw_count], vec![0]);
    assert_eq!(r.hzb_texture(), None);
    assert_eq!(r.hzb_levels(), 0);
    assert_eq!(r.hzb_size(), (0, 0));
    assert_eq!(r.material(0).unwrap().roughness, 1);
    assert!(r.material(1).is_none());
    assert_eq!(r.static_material_end(), None);
}

#[test]
fn creation_sets_the_fixed_state() {
    let mut gl = CommandList::new();
    renderer(&mut gl);
    let all: Vec<GlCall> = (0..gl.len()).map(|i| gl.get(i)).collect();
    assert!(all.contains(&GlCall::ClearDepth { depth: 0.0f32.to_bits() }));
    assert!(all.contains(&GlCall::DepthRange { near: 1.0f32.to_bits(), far: 0.0f32.to_bits() }));
    assert!(all.contains(&GlCall::ClearColor {
        red: 0.08f32.to_bits(),
        green: 0.10f32.to_bits(),
        blue: 0.14f32.to_bits(),
        alpha: 1.0f32.to_bits(),
    }));
    assert!(all.contains(&GlCall::BufferDataSize {
        target: gl_renderer::gl::ARRAY_BUFFER,
        size: 512,
        usage: STATIC_DRAW,
    }));
}

#[test]
fn uploaded_meshes_are_in_the_arena() {
    let mut gl = CommandList::new();
    let mut gpu = Gpu::new();
    let mut r = renderer(&mut gl);
    let v = PackedVertex::new([1, 2, 3], [4, 5, 6], [7, 8]);
    let a = r.upload_mesh(&mut gl, &[v; 4], &[0, 1, 2]);
    let b = r.upload_mesh(&mut gl, &[v; 2], &[1, 0, 1]);
    gpu.replay(&mut gl);
    assert_eq!((a.vertex_offset, b.vertex_offset, b.index_offset), (0, 4, 3));
    let vertices = &gpu.buffers[&r.gpu.arena.vertex_buf.handle];
    assert_eq!(vertices[20..30], words(&[v; 2])[..]);
    assert_eq!(gpu.buffers[&r.gpu.arena.index_buf.handle][..6], [0, 1, 2, 1, 0, 1]);
}

#[test]
fn frame_uploads_are_what_the_gpu_holds() {
    let mut gl = CommandList::new();
    let mut gpu = Gpu::new();
    let mut r = renderer(&mut gl);
    let objects = [drawable(9, 10), drawable(5, 11), drawable(9, 12)];
    let frame = r.render(&mut gl, &objects, &view(), 64, 32);
    gpu.replay(&mut gl);
    assert_eq!((frame.entities, frame.batches, frame.read), (3, 2, None));
    let instances = &gpu.buffers[&r.gpu.per_instance.instance.handle];
    assert_eq!(instances[..108], words(&r.batches.instances)[..]);
    assert_eq!(instances[36 + 32], 11);
    assert_eq!(gpu.buffers[&r.gpu.per_instance.batch_index.handle][..3], [0, 1, 0]);
    assert_eq!(gpu.buffers[&r.gpu.per_batch.base.handle][..2], [0, 2]);
    assert_eq!(gpu.buffers[&r.gpu.per_batch.indirect.handle][..10], [3, 0, 9, 9, 0, 3, 0, 5, 5, 2]);
    assert_eq!(gpu.buffers[&r.gpu.per_batch.indirect_p2.handle][..10], [3, 0, 9, 9, 0, 3, 0, 5, 5, 2]);
    assert_eq!(gpu.buffers[&r.gpu.per_instance.visible.handle][..3], [0, 0, 0]);
    assert_eq!(gpu.buffers[&r.gpu.draw_count], vec![2]);
    assert_eq!(gpu.draws, vec![2, 2]);
    assert!(gpu.running.is_empty());
}

#[test]
fn empty_frame_draws_nothing() {
    let mut gl = CommandList::new();
    let mut gpu = Gpu::new();
    let mut r = renderer(&mut gl);
    let frame = r.render(&mut gl, &[], &view(), 0, 0);
    let last = gl.get(gl.len() - 1);
    gpu.replay(&mut gl);
    assert_eq!(frame.stats(None), PipelineStats::default());
    assert!(gpu.draws.is_empty());
    assert!(gpu.running.is_empty());
    assert_eq!(
        last,
        GlCall::BindFramebuffer { target: gl_renderer::gl::FRAMEBUFFER, framebuffer: None }
    );
    assert_eq!(r.query_frame, 1);
}

#[test]
fn frame_buffers_grow_together() {
    let mut gl = CommandList::new();
    let mut gpu = Gpu::new();
    let mut r = renderer(&mut gl);
    let objects: Vec<Drawable> = (0..1025).map(|i| drawable(i, i)).collect();
    r.render(&mut gl, &objects, &view(), 8, 8);
    gpu.replay(&mut gl);
    let i = &r.gpu.per_instance;
    let b = &r.gpu.per_batch;
    assert_eq!([i.instance.capacity, i.culled.capacity, i.culled_p2.capacity], [2048; 3]);
    assert_eq!([i.bounding.capacity, i.batch_index.capacity, i.visible.capacity], [2048; 3]);
    assert_eq!([b.indirect.capacity, b.indirect_p2.capacity, b.base.capacity], [2048; 3]);
    let living = gpu.live.len();
    r.render(&mut gl, &objects, &view(), 8, 8);
    gpu.replay(&mut gl);
    assert_eq!(gpu.live.len(), living);
    assert_eq!(gpu.buffers[&r.gpu.per_instance.batch_index.handle][1024], 1024);
}

#[test]
fn groups_cover_all_objects() {
    for (n, groups) in [(1, 1), (64, 1), (65, 2)] {
        let mut gl = CommandList::new();
        let mut r = renderer(&mut gl);
        gl.clear();
        let objects: Vec<Drawable> = (0..n).map(|i| drawable(0, i)).collect();
        r.render(&mut gl, &objects, &view(), 1, 1);
        let dispatched: Vec<u32> = (0..gl.len())
            .filter_map(|i| match gl.get(i) {
                GlCall::DispatchCompute { x, .. } => Some(x),
                _ => None,
            })
            .collect();
        assert_eq!(dispatched, vec![groups, 1, groups]);
    }
}

#[test]
fn phases_run_in_order() {
    let mut gl = CommandList::new();
    let mut r = renderer(&mut gl);
    gl.clear();
    r.render(&mut gl, &[drawable(0, 1)], &view(), 16, 16);
    let mut seen: Vec<&str> = Vec::new();
    for i in 0..gl.len() {
        match gl.get(i) {
            GlCall::Uniform1Uint { name: Uniform::Phase, x: 0, .. } => seen.push("cull 0"),
            GlCall::Uniform1Uint { name: Uniform::Phase, x: 1, .. } => seen.push("cull 1"),
            GlCall::MultiDrawElementsIndirectCount { .. } => seen.push("draw"),
            GlCall::Uniform1Uint { name: Uniform::IsFirst, x: 1, .. } => seen.push("pyramid"),
            _ => {}
        }
    }
    assert_eq!(seen, vec!["cull 0", "draw", "pyramid", "cull 1", "draw"]);
}

#[test]
fn statistics_are_of_the_frame_before() {
    let mut gl = CommandList::new();
    let mut r = renderer(&mut gl);
    let sets = r.gpu.stat_queries;
    let written = |gl: &CommandList| -> Vec<u32> {
        (0..gl.len())
            .filter_map(|i| match gl.get(i) {
                GlCall::BeginQuery { query, .. } => Some(query),
                _ => None,
            })
            .collect()
    };
    let all = |q: QuerySet| -> Vec<u32> { vec![q.time, q.prims, q.vert, q.frag] };
    gl.clear();
    assert_eq!(r.render(&mut gl, &[drawable(0, 1)], &view(), 4, 4).read, None);
    assert_eq!(written(&gl), all(sets[0]));
    gl.clear();
    let second = r.render(&mut gl, &[drawable(0, 1)], &view(), 4, 4);
    assert_eq!(written(&gl), all(sets[1]));
    assert_eq!(second.read, Some(sets[0]));
    let stats = second.stats(Some(QueryResults { time: 1, prims: 2, vert: 3, frag: 4 }));
    assert_eq!(
        stats,
        PipelineStats {
            entities: 1,
            batches: 1,
            primitives_submitted: 2,
            vertex_invocations: 3,
            fragment_invocations: 4,
            gpu_time_ns: 1,
        }
    );
}

#[test]
fn pyramid_follows_the_viewport() {
    let mut gl = CommandList::new();
    let mut r = renderer(&mut gl);
    r.render(&mut gl, &[drawable(0, 1)], &view(), 100, 50);
    assert_eq!(r.hzb_size(), (100, 50));
    assert_eq!(r.hzb_levels(), 7);
    let first = r.hzb_texture();
    r.render(&mut gl, &[drawable(0, 1)], &view(), 100, 50);
    assert_eq!(r.hzb_texture(), first);
    r.render(&mut gl, &[drawable(0, 1)], &view(), 101, 50);
    assert_ne!(r.hzb_texture(), first);
    assert_eq!((r.gpu.offscreen.width, r.gpu.offscreen.height), (101, 50));
    assert_eq!(r.color_texture(), r.gpu.offscreen.color);
}

#[test]
fn materials_can_be_overridden_after_sealing() {
    let mut gl = CommandList::new();
    let mut gpu = Gpu::new();
    let mut r = renderer(&mut gl);
    assert_eq!(r.add_static_material(&mut gl, material(2)), 1);
    assert_eq!(r.seal_static_materials(), 2);
    assert_eq!(r.seal_static_materials(), 2);
    assert_eq!(r.add_override_material(&mut gl, material(3)), 2);
    assert!(r.is_override_material(2));
    assert!(!r.is_override_material(1));
    assert!(!r.is_override_material(3));
    r.update_override_material(&mut gl, 2, material(4));
    gpu.replay(&mut gl);
    let buf = &gpu.buffers[&r.gpu.material_buf.handle];
    assert_eq!((buf[0], buf[8], buf[16]), (1, 2, 4));
    assert_eq!(r.material(2).unwrap().metallic, 4);
    assert_eq!(r.material(1).unwrap().metallic, 2);
    assert_eq!(r.static_material_end(), Some(2));
}

#[test]
fn material_buffer_doubles() {
    let mut gl = CommandList::new();
    let mut gpu = Gpu::new();
    let mut r = renderer(&mut gl);
    for i in 1..17 {
        assert_eq!(r.add_static_material(&mut gl, material(i + 1)), i);
    }
    gpu.replay(&mut gl);
    assert_eq!(r.gpu.material_buf.capacity, 32);
    let buf = &gpu.buffers[&r.gpu.material_buf.handle];
    for i in 0..17 {
        assert_eq!(buf[8 * i], i as u32 + 1);
    }
}

#[test]
fn registry_starts_with_the_default() {
    let registry = MaterialRegistry::new(material(9));
    assert_eq!(registry.len(), 1);
    assert_eq!(registry.get(0).unwrap().roughness, 9);
    assert!(!registry.is_override(0));
}

#[test]
fn reloading_any_shader_counts() {
    let mut gl = CommandList::new();
    let mut cache = UniformCache::new();
    let mut r = renderer(&mut gl);
    gl.clear();
    cache.remember(2, Uniform::Phase, Some(1));
    let none = || (vec![0i128], None);
    assert!(!r.try_reload_shaders(&mut gl, &mut cache, none(), none(), none()));
    assert!(!r.try_reload_shaders(&mut gl, &mut cache, (vec![5], None), none(), none()));
    assert!(r.try_reload_shaders(
        &mut gl,
        &mut cache,
        (vec![5], None),
        (vec![6], Some(90)),
        none()
    ));
    assert_eq!(r.gpu.cull_shader.program, 90);
    assert_eq!(r.gpu.main_shader.program, 1);
    assert_eq!(cache.get(2, Uniform::Phase), None);
    assert_eq!(gl.len(), 1);
    assert_eq!(gl.get(0), GlCall::Delete { kind: ObjectKind::Program, id: 2 });
}

#[test]
fn cleaning_up_leaves_nothing() {
    let mut gl = CommandList::new();
    let mut gpu = Gpu::new();
    let mut r = renderer(&mut gl);
    r.render(&mut gl, &[drawable(0, 1)], &view(), 9, 9);
    let objects: Vec<Drawable> = (0..3000).map(|i| drawable(i, i)).collect();
    r.render(&mut gl, &objects, &view(), 10, 9);
    r.cleanup(&mut gl);
    gpu.replay(&mut gl);
    assert!(gpu.live.is_empty());
}

#[test]
fn statistics_of_an_empty_frame_are_of_the_frame_before() {
    let mut gl = CommandList::new();
    let mut r = renderer(&mut gl);
    let sets = r.gpu.stat_queries;
    assert_eq!(r.render(&mut gl, &[], &view(), 4, 4).read, None);
    assert_eq!(r.render(&mut gl, &[drawable(0, 1)], &view(), 4, 4).read, Some(sets[0]));
    let empty = r.render(&mut gl, &[], &view(), 4, 4);
    assert_eq!(empty.read, Some(sets[1]));
    assert_eq!(
        empty.stats(Some(QueryResults { time: 1_500, prims: 12, vert: 24, frag: 99 })),
        PipelineStats {
            entities: 0,
            batches: 0,
            primitives_submitted: 12,
            vertex_invocations: 24,
            fragment_invocations: 99,
            gpu_time_ns: 1_500,
        }
    );
    assert_eq!(r.render(&mut gl, &[drawable(0, 1)], &view(), 4, 4).read, Some(sets[0]));
}

#[test]
fn a_long_run_ends_clean() {
    let mut gl = CommandList::new();
    let mut gpu = Gpu::new();
    let mut cache = UniformCache::new();
    let of_host = gl.create(ObjectKind::Texture);
    let mut r = renderer(&mut gl);
    let v = PackedVertex::new([1, 2, 3], [4, 5, 6], [7, 8]);
    for round in 0..4u32 {
        r.upload_mesh(&mut gl, &vec![v; 30_000], &vec![0; 60_000]);
        for i in 0..10 {
            r.add_static_material(&mut gl, material(i));
        }
        let objects: Vec<Drawable> = (0..round * 1_000).map(|i| drawable(i, i)).collect();
        r.render(&mut gl, &objects, &view(), 16 + round, 9);
        gpu.replay(&mut gl);
        let program = gl.create(ObjectKind::Program);
        assert!(r.try_reload_shaders(
            &mut gl,
            &mut cache,
            (vec![0], None),
            (vec![round as i128 + 1], Some(program)),
            (vec![0], None)
        ));
        gpu.replay(&mut gl);
        assert_eq!(gpu.live.len(), 30);
    }
    r.seal_static_materials();
    let last = r.add_override_material(&mut gl, material(5));
    r.update_override_material(&mut gl, last, material(6));
    r.cleanup(&mut gl);
    gpu.replay(&mut gl);
    assert_eq!(gpu.live.into_iter().collect::<Vec<u32>>(), vec![of_host]);
}

#[test]
fn many_meshes_read_back() {
    let mut gl = CommandList::new();
    let mut gpu = Gpu::new();
    let mut r = renderer(&mut gl);
    let mut placed: Vec<(MeshAlloc, u16)> = Vec::new();
    for k in 0..40u16 {
        let v = PackedVertex::new([k; 3], [k; 3], [k; 2]);
        let m = r.upload_mesh(&mut gl, &vec![v; 5_000], &vec![k as u32; 7_000]);
        placed.push((m, k));
        gpu.replay(&mut gl);
    }
    let vertices = &gpu.buffers[&r.gpu.arena.vertex_buf.handle];
    let indices = &gpu.buffers[&r.gpu.arena.index_buf.handle];
    for (m, k) in placed {
        assert_eq!((m.vertex_offset, m.vertex_count), (k as u32 * 5_000, 5_000));
        assert_eq!((m.index_offset, m.index_count), (k as u32 * 7_000, 7_000));
        let v = PackedVertex::new([k; 3], [k; 3], [k; 2]);
        let start = 5 * m.vertex_offset as usize;
        assert_eq!(vertices[start..start + 25_000], words(&vec![v; 5_000])[..]);
        let start = m.index_offset as usize;
        assert_eq!(indices[start..start + 7_000], vec![k as u32; 7_000][..]);
    }
}
