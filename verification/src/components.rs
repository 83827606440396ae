//! Components. Scene objects are entities composed of a `Transform` (how it
//! moves) and a `Mesh` (which arena allocation to draw), and may have a name, a
//! script and a material.

use crate::arena::MeshAlloc;
use vstd::prelude::*;

verus! {

/// Animated placement of an object in the world, as float bit patterns.
#[derive(Clone, Copy, Debug, PartialEq, Eq)]
pub struct Transform {
    pub position: [u32; 3],
    pub rotation_axis: [u32; 3],
    pub rotation_speed: u32,
    pub scale: u32,
}

/// Tags an entity with the shared-arena allocation it draws from.
#[derive(Clone, Copy, Debug, PartialEq, Eq, Structural)]
pub struct Mesh(pub MeshAlloc);

/// Optional display name, shown in the editor's scene hierarchy.
#[derive(Debug)]
pub struct Name(pub String);

/// Attaches a Python script to an entity. The path is relative to the working
/// directory (e.g. `"scripts/orbit.py"`). The script host calls
/// `on_update(entity, scene, t, dt)` on this entity every frame, provided that it
/// is a scene object: an entity without a transform or without a mesh is left
/// out.
#[derive(Debug)]
pub struct Script(pub String);

/// Gives an entity a material other than the default, by its index.
#[derive(Clone, Copy, Debug, PartialEq, Eq, Structural)]
pub struct Material(pub u32);

} // verus!
