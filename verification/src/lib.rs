//! A small modern OpenGL renderer and its scene editor, without the driver.
//!
//! Meshes are sub-allocated from one shared arena and pulled from it by the
//! shaders; the objects of a scene are grouped by mesh, culled on the GPU in two
//! phases and drawn with one indirect call for each phase.
//!
//! The crate never talks to a driver, a window or an interpreter. OpenGL calls
//! are recorded as data ([`gl::CommandList`]), in order and with everything they
//! upload, and the host replays them; floating-point values pass through as bit
//! patterns. What the calls do is stated and proved over the recordings:
//! [`gpu_model`], [`frame_model`], [`frame_memory`] and [`material_model`] say
//! what ends up in GPU memory, [`lifetimes`] and [`ownership`] which objects live.
//! [`arena_runs`], [`script_runs`] and [`runs`] hold the laws over any number of
//! calls. What is drawn, and how, is the subject of [`pipeline`] and
//! [`frame_work`] (the work of a frame), [`drawn_objects`] (each object of it),
//! [`targets`] (where it goes, and the depth test) and [`programs`] (what draws
//! it); [`script_effects`] says what scripts see and change.
//!
//! The scene itself is a `hecs` world ([`scene`]), and loaded scripts are kept in
//! an `lru` cache ([`script_cache`]).

pub mod arena;
pub mod arena_runs;
pub mod batching;
pub mod bounds;
pub mod camera;
pub mod components;
pub mod creation;
pub mod drawables;
pub mod drawn_objects;
pub mod editor;
pub mod element;
pub mod frame_buffers;
pub mod frame_memory;
pub mod frame_model;
pub mod frame_work;
pub mod framebuffer;
pub mod geometry;
pub mod gl;
pub mod gl_buffer;
pub mod gl_init;
pub mod gpu_model;
pub mod hzb;
pub mod lifetimes;
pub mod material_model;
pub mod materials;
pub mod ownership;
pub mod paths;
pub mod pipeline;
pub mod programs;
pub mod renderer;
pub mod runs;
pub mod scene;
pub mod script_cache;
pub mod script_effects;
pub mod script_pass;
pub mod script_runs;
pub mod scripting;
pub mod shader;
pub mod stats;
pub mod targets;
pub mod text;

pub use arena::{BoundingSphere, DrawCommand, GpuArena, InstanceData, MeshAlloc, PackedVertex};
pub use batching::{Drawable, MeshKey};
pub use components::{Material, Mesh, Name, Script, Transform};
pub use framebuffer::OffscreenTarget;
pub use geometry::{generate_cube, generate_sphere};
pub use gl::CommandList;
pub use materials::{GpuMaterial, MaterialRegistry};
pub use renderer::Renderer;
pub use scene::Scene;
pub use stats::PipelineStats;
