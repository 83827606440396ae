# gl_renderer

A small modern OpenGL renderer and its scene editor. The library under `src/` is
verified with Verus: what it does is stated in `requires` and `ensures` clauses
and proved. The host under `app/` is ordinary Rust around it: windows, files, the
driver, the Python interpreter, and everything that is computed with floats.

## How it fits together

The library never talks to a driver. It records OpenGL calls into a
`CommandList`, in order, with the data they upload; `app/replay.rs` makes them.
Objects are known by numbers that the list hands out. Floats pass through as bit
patterns.

| Module | What it holds |
|---|---|
| `gl`, `gl_buffer`, `element` | recorded calls, typed buffers, what a buffer can hold |
| `arena`, `bounds` | packed vertices, the shared vertex and index arena, draw commands, the bounds of meshes |
| `geometry` | the cube and the UV sphere |
| `framebuffer`, `hzb` | the offscreen target and the depth pyramid |
| `shader` | building programs, uniforms, replacing programs whose sources changed |
| `materials`, `batching`, `frame_buffers`, `stats`, `renderer` | a frame, from objects to calls |
| `components`, `scene`, `drawables` | entities and their components, kept in a `hecs` world |
| `paths`, `script_cache`, `script_pass`, `scripting` | scripts: finding, loading, calling, writing back |
| `gl_init`, `camera`, `editor`, `text` | what the window, input and panels do |
| `gpu_model`, `frame_model`, `frame_memory`, `material_model`, `creation`, `lifetimes`, `ownership` | what recorded calls do to GPU memory and objects |
| `arena_runs`, `script_runs`, `runs` | laws over any number of calls |

## What is trusted

Proofs rest on a few items whose contracts are not proved: the casts of
`bytemuck`, the operations of a `hecs` world (`scene`) and of an `lru` cache
(`script_cache`), and how the machine takes a path apart (`paths`). Each says in
its comment which function it calls and what it claims of it.

## Running

The host picks what to run by its first argument: nothing for the editor,
`spinning` for the standalone demo, `stress` for the headless stress test. It
expects the shader sources under `shaders/` and scripts under `scripts/`.
