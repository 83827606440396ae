//! Mesh generators.

use crate::arena::{high_half, low_half, vertex_layout, PackedVertex};
use vstd::prelude::*;

verus! {

/// A vector of small integers.
#[derive(Clone, Copy, Debug, PartialEq, Eq, Structural)]
pub struct IVec3 {
    pub x: i32,
    pub y: i32,
    pub z: i32,
}

/// A vector of integers of any size.
pub struct Vector {
    pub x: int,
    pub y: int,
    pub z: int,
}

impl View for IVec3 {
    type V = Vector;

    open spec fn view(&self) -> Vector {
        Vector { x: self.x as int, y: self.y as int, z: self.z as int }
    }
}

impl Vector {
    pub open spec fn cross(self, o: Vector) -> Vector {
        Vector {
            x: self.y * o.z - o.y * self.z,
            y: self.z * o.x - o.z * self.x,
            z: self.x * o.y - o.x * self.y,
        }
    }

    pub open spec fn dot(self, o: Vector) -> int {
        self.x * o.x + self.y * o.y + self.z * o.z
    }

    pub open spec fn plus(self, o: Vector) -> Vector {
        Vector { x: self.x + o.x, y: self.y + o.y, z: self.z + o.z }
    }

    pub open spec fn minus(self, o: Vector) -> Vector {
        Vector { x: self.x - o.x, y: self.y - o.y, z: self.z - o.z }
    }

    pub open spec fn times(self, k: int) -> Vector {
        Vector { x: self.x * k, y: self.y * k, z: self.z * k }
    }

    /// One of the six unit vectors along the axes.
    pub open spec fn is_axis(self) -> bool {
        ||| self.x == 0 && self.y == 0 && (self.z == 1 || self.z == -1)
        ||| self.y == 0 && self.z == 0 && (self.x == 1 || self.x == -1)
        ||| self.z == 0 && self.x == 0 && (self.y == 1 || self.y == -1)
    }
}

pub open spec fn two_to(n: nat) -> int
    decreases n,
{
    if n == 0 {
        1
    } else {
        2 * two_to((n - 1) as nat)
    }
}

/// The value of a finite half-precision float, in units of 2^-24 (its smallest
/// positive value).
pub open spec fn half_value(h: u16) -> int {
    let sign = h / 0x8000;
    let exponent = (h / 0x400) % 0x20;
    let mantissa = h % 0x400;
    let magnitude = if exponent == 0 {
        mantissa as int
    } else {
        (0x400 + mantissa) * two_to((exponent - 1) as nat)
    };
    if sign == 1 {
        -magnitude
    } else {
        magnitude
    }
}

/// One half, in units of 2^-24.
pub const ONE_HALF: u32 = 0x80_0000;

/// The half-precision pattern of `k` halves.
pub open spec fn half_pattern(k: int) -> u16 {
    if k == -2 {
        0xBC00
    } else if k == -1 {
        0xB800
    } else if k == 0 {
        0x0000
    } else if k == 1 {
        0x3800
    } else {
        0x3C00
    }
}

/// The pattern of `k` halves has the value of `k` halves.
pub proof fn half_pattern_value(k: int)
    requires
        -2 <= k <= 2,
    ensures
        half_value(half_pattern(k)) == k * ONE_HALF,
{
    reveal_with_fuel(two_to, 16);
}

fn half_bits(k: i32) -> (h: u16)
    requires
        -2 <= k <= 2,
    ensures
        h == half_pattern(k as int),
{
    if k == -2 {
        0xBC00
    } else if k == -1 {
        0xB800
    } else if k == 0 {
        0x0000
    } else if k == 1 {
        0x3800
    } else {
        0x3C00
    }
}

/// The axis that a face's tangent is built from: up, unless the normal is
/// vertical.
pub open spec fn helper_axis(n: Vector) -> Vector {
    if n.y == 0 {
        Vector { x: 0, y: 1, z: 0 }
    } else {
        Vector { x: 1, y: 0, z: 0 }
    }
}

pub open spec fn tangent(n: Vector) -> Vector {
    helper_axis(n).cross(n)
}

pub open spec fn bitangent(n: Vector) -> Vector {
    n.cross(tangent(n))
}

/// `a` times a unit factor, without a product.
spec fn unit_times(a: int, u: int) -> int {
    if u == 1 {
        a
    } else if u == -1 {
        -a
    } else {
        0
    }
}

proof fn lemma_unit_times(a: int, u: int)
    requires
        u == 0 || u == 1 || u == -1,
    ensures
        a * u == unit_times(a, u),
        u * a == unit_times(a, u),
{
    assert(a * u == (if u == 1 {
        a
    } else if u == -1 {
        -a
    } else {
        0
    }) && u * a == a * u) by (nonlinear_arith)
        requires
            u == 0 || u == 1 || u == -1,
    ;
}

/// The products that make up the cross and dot product with an axis.
proof fn lemma_axis_products(a: Vector, u: Vector)
    requires
        u.is_axis(),
    ensures
        a.cross(u) == (Vector {
            x: unit_times(a.y, u.z) - unit_times(a.z, u.y),
            y: unit_times(a.z, u.x) - unit_times(a.x, u.z),
            z: unit_times(a.x, u.y) - unit_times(a.y, u.x),
        }),
        a.dot(u) == unit_times(a.x, u.x) + unit_times(a.y, u.y) + unit_times(a.z, u.z),
{
    lemma_unit_times(a.x, u.x);
    lemma_unit_times(a.x, u.y);
    lemma_unit_times(a.x, u.z);
    lemma_unit_times(a.y, u.x);
    lemma_unit_times(a.y, u.y);
    lemma_unit_times(a.y, u.z);
    lemma_unit_times(a.z, u.x);
    lemma_unit_times(a.z, u.y);
    lemma_unit_times(a.z, u.z);
}

/// The tangent frame of an axis-aligned normal: with the normal it is a
/// right-handed frame of unit vectors along the axes.
pub proof fn tangent_frame_is_orthonormal(n: Vector)
    requires
        n.is_axis(),
    ensures
        tangent(n).is_axis(),
        bitangent(n).is_axis(),
        tangent(n).dot(n) == 0,
        bitangent(n).dot(n) == 0,
        tangent(n).dot(bitangent(n)) == 0,
        tangent(n).cross(bitangent(n)) == n,
{
    lemma_axis_products(helper_axis(n), n);
    lemma_axis_products(n, tangent(n));
    lemma_axis_products(tangent(n), n);
    lemma_axis_products(bitangent(n), n);
    lemma_axis_products(tangent(n), bitangent(n));
}

fn cross(a: IVec3, b: IVec3) -> (c: IVec3)
    requires
        a@.is_axis(),
        b@.is_axis(),
    ensures
        c@ == a@.cross(b@),
{
    IVec3 { x: a.y * b.z - b.y * a.z, y: a.z * b.x - b.z * a.x, z: a.x * b.y - b.x * a.y }
}

/// Two tangent axes for the axis-aligned normal `n`.
fn tangent_frame(n: IVec3) -> (frame: (IVec3, IVec3))
    requires
        n@.is_axis(),
    ensures
        frame.0@ == tangent(n@),
        frame.1@ == bitangent(n@),
{
    proof {
        tangent_frame_is_orthonormal(n@);
    }
    let up = if n.y == 0 {
        IVec3 { x: 0, y: 1, z: 0 }
    } else {
        IVec3 { x: 1, y: 0, z: 0 }
    };
    let t = cross(up, n);
    let b = cross(n, t);
    (t, b)
}

/// The outward normal of each face: +Z, -Z, +X, -X, +Y, -Y.
pub open spec fn face_normal(face: int) -> Vector {
    if face == 0 {
        Vector { x: 0, y: 0, z: 1 }
    } else if face == 1 {
        Vector { x: 0, y: 0, z: -1 }
    } else if face == 2 {
        Vector { x: 1, y: 0, z: 0 }
    } else if face == 3 {
        Vector { x: -1, y: 0, z: 0 }
    } else if face == 4 {
        Vector { x: 0, y: 1, z: 0 }
    } else {
        Vector { x: 0, y: -1, z: 0 }
    }
}

fn normal_of(face: usize) -> (n: IVec3)
    requires
        face < 6,
    ensures
        n@ == face_normal(face as int),
        n@.is_axis(),
{
    if face == 0 {
        IVec3 { x: 0, y: 0, z: 1 }
    } else if face == 1 {
        IVec3 { x: 0, y: 0, z: -1 }
    } else if face == 2 {
        IVec3 { x: 1, y: 0, z: 0 }
    } else if face == 3 {
        IVec3 { x: -1, y: 0, z: 0 }
    } else if face == 4 {
        IVec3 { x: 0, y: 1, z: 0 }
    } else {
        IVec3 { x: 0, y: -1, z: 0 }
    }
}

/// Where a corner of a face quad lies along the tangent, in halves.
pub open spec fn corner_s(corner: int) -> int {
    if corner == 1 || corner == 2 {
        1
    } else {
        -1
    }
}

/// Where a corner of a face quad lies along the bitangent, in halves.
pub open spec fn corner_t(corner: int) -> int {
    if corner == 2 || corner == 3 {
        1
    } else {
        -1
    }
}

/// The position of a cube vertex, in halves: the face's center plus the corner
/// in the face's tangent frame.
pub open spec fn cube_position(face: int, corner: int) -> Vector {
    let n = face_normal(face);
    n.plus(tangent(n).times(corner_s(corner)).plus(bitangent(n).times(corner_t(corner))))
}

proof fn lemma_times_sign(v: Vector, k: int)
    requires
        k == 1 || k == -1,
    ensures
        v.times(k) == if k == 1 {
            v
        } else {
            Vector { x: -v.x, y: -v.y, z: -v.z }
        },
{
    lemma_unit_times(v.x, k);
    lemma_unit_times(v.y, k);
    lemma_unit_times(v.z, k);
}

/// Whether every coordinate is plus or minus one half.
pub open spec fn is_cube_corner(v: Vector) -> bool {
    &&& v.x == 1 || v.x == -1
    &&& v.y == 1 || v.y == -1
    &&& v.z == 1 || v.z == -1
}

/// Every vertex of the cube is one of its corners, and lies on the outer plane
/// of its face.
pub proof fn cube_vertices_are_corners(face: int, corner: int)
    requires
        0 <= face < 6,
        0 <= corner < 4,
    ensures
        is_cube_corner(cube_position(face, corner)),
        cube_position(face, corner).dot(face_normal(face)) == 1,
{
    let n = face_normal(face);
    tangent_frame_is_orthonormal(n);
    lemma_times_sign(tangent(n), corner_s(corner));
    lemma_times_sign(bitangent(n), corner_t(corner));
    lemma_dot_normal(cube_position(face, corner), face);
}

/// The component of a vector along the normal of a face.
pub open spec fn along_normal(v: Vector, face: int) -> int {
    if face == 0 {
        v.z
    } else if face == 1 {
        -v.z
    } else if face == 2 {
        v.x
    } else if face == 3 {
        -v.x
    } else if face == 4 {
        v.y
    } else {
        -v.y
    }
}

proof fn lemma_dot_normal(v: Vector, face: int)
    ensures
        v.dot(face_normal(face)) == along_normal(v, face),
{
    lemma_axis_products(v, face_normal(face));
}

pub open spec fn half_patterns(v: Vector) -> Seq<u16> {
    seq![half_pattern(v.x), half_pattern(v.y), half_pattern(v.z)]
}

/// The vertex at a corner of a face: its UV runs from 0 to 1 along each tangent
/// axis.
pub open spec fn cube_vertex(face: int, corner: int) -> PackedVertex {
    PackedVertex::of(
        half_patterns(cube_position(face, corner)),
        half_patterns(face_normal(face).times(2)),
        seq![half_pattern(corner_s(corner) + 1), half_pattern(corner_t(corner) + 1)],
    )
}

/// The vertices of the cube: four corners for each face.
pub open spec fn cube_vertices() -> Seq<PackedVertex> {
    Seq::new(24, |i: int| cube_vertex(i / 4, i % 4))
}

/// The corners of the two triangles of a quad.
pub open spec fn quad_corner(i: int) -> int {
    if i == 0 || i == 3 {
        0
    } else if i == 1 {
        1
    } else if i == 2 || i == 4 {
        2
    } else {
        3
    }
}

/// The indices of the cube: two triangles for each face.
pub open spec fn cube_indices() -> Seq<u32> {
    Seq::new(36, |i: int| (4 * (i / 6) + quad_corner(i % 6)) as u32)
}

fn make_cube_vertex(face: usize, corner: usize) -> (v: PackedVertex)
    requires
        face < 6,
        corner < 4,
    ensures
        v == cube_vertex(face as int, corner as int),
{
    let n = normal_of(face);
    let (t, b) = tangent_frame(n);
    let s: i32 = if corner == 1 || corner == 2 {
        1
    } else {
        -1
    };
    let u: i32 = if corner == 2 || corner == 3 {
        1
    } else {
        -1
    };
    proof {
        tangent_frame_is_orthonormal(n@);
        cube_vertices_are_corners(face as int, corner as int);
        lemma_times_sign(t@, s as int);
        lemma_times_sign(b@, u as int);
        assert(t@.times(s as int) == Vector { x: t.x * s, y: t.y * s, z: t.z * s });
        assert(b@.times(u as int) == Vector { x: b.x * u, y: b.y * u, z: b.z * u });
    }
    let pos = [
        half_bits(n.x + (t.x * s + b.x * u)),
        half_bits(n.y + (t.y * s + b.y * u)),
        half_bits(n.z + (t.z * s + b.z * u)),
    ];
    let norm = [half_bits(n.x * 2), half_bits(n.y * 2), half_bits(n.z * 2)];
    let uv = [half_bits(s + 1), half_bits(u + 1)];
    assert(pos@ =~= half_patterns(cube_position(face as int, corner as int)));
    assert(norm@ =~= half_patterns(face_normal(face as int).times(2)));
    assert(uv@ =~= seq![
        half_pattern(corner_s(corner as int) + 1),
        half_pattern(corner_t(corner as int) + 1),
    ]);
    PackedVertex::new(pos, norm, uv)
}

/// Generate a unit cube (12 triangles, 24 unique vertices for flat normals, 36
/// indices).
pub fn generate_cube() -> (mesh: (Vec<PackedVertex>, Vec<u32>))
    ensures
        mesh.0@ == cube_vertices(),
        mesh.1@ == cube_indices(),
{
    let mut vertices: Vec<PackedVertex> = Vec::with_capacity(24);
    let mut indices: Vec<u32> = Vec::with_capacity(36);
    let mut face: usize = 0;
    while face < 6
        invariant
            face <= 6,
            vertices@ == cube_vertices().take(4 * face),
            indices@ == cube_indices().take(6 * face),
        decreases 6 - face,
    {
        let base = (face * 4) as u32;
        indices.push(base);
        indices.push(base + 1);
        indices.push(base + 2);
        indices.push(base);
        indices.push(base + 2);
        indices.push(base + 3);
        let mut corner: usize = 0;
        while corner < 4
            invariant
                face < 6,
                corner <= 4,
                vertices@ == cube_vertices().take(4 * face + corner),
            decreases 4 - corner,
        {
            vertices.push(make_cube_vertex(face, corner));
            assert((4 * face + corner) / 4 == face as int);
            assert((4 * face + corner) % 4 == corner as int);
            assert(vertices@ =~= cube_vertices().take(4 * face + corner + 1));
            corner = corner + 1;
        }
        assert(indices@ =~= cube_indices().take(6 * (face + 1)));
        face = face + 1;
    }
    assert(cube_vertices().take(24) =~= cube_vertices());
    assert(cube_indices().take(36) =~= cube_indices());
    (vertices, indices)
}

/// Unpacking a cube vertex gives its position and its normal.
pub proof fn cube_vertex_decodes(face: int, corner: int)
    requires
        0 <= face < 6,
        0 <= corner < 4,
    ensures
        ({
            let v = cube_vertex(face, corner);
            let p = cube_position(face, corner);
            let n = face_normal(face);
            &&& half_value(low_half(v.pos_xy)) == p.x * ONE_HALF
            &&& half_value(high_half(v.pos_xy)) == p.y * ONE_HALF
            &&& half_value(low_half(v.pos_z)) == p.z * ONE_HALF
            &&& half_value(low_half(v.norm_xy)) == 2 * n.x * ONE_HALF
            &&& half_value(high_half(v.norm_xy)) == 2 * n.y * ONE_HALF
            &&& half_value(low_half(v.norm_z)) == 2 * n.z * ONE_HALF
        }),
{
    let p = cube_position(face, corner);
    let n = face_normal(face);
    cube_vertices_are_corners(face, corner);
    vertex_layout(
        half_patterns(p),
        half_patterns(n.times(2)),
        seq![half_pattern(corner_s(corner) + 1), half_pattern(corner_t(corner) + 1)],
    );
    half_pattern_value(p.x);
    half_pattern_value(p.y);
    half_pattern_value(p.z);
    half_pattern_value(n.x * 2);
    half_pattern_value(n.y * 2);
    half_pattern_value(n.z * 2);
}

/// The corner of the cube that an index names.
pub open spec fn indexed_position(i: int) -> Vector {
    let v = cube_indices()[i] as int;
    cube_position(v / 4, v % 4)
}

/// Every triangle of the cube winds counter-clockwise when it is seen from
/// outside: the cross product of its edges points along the outward normal of
/// its face, so that culling back faces removes only what is hidden.
pub proof fn cube_triangles_face_outward(triangle: int)
    requires
        0 <= triangle < 12,
    ensures
        ({
            let p0 = indexed_position(3 * triangle);
            let p1 = indexed_position(3 * triangle + 1);
            let p2 = indexed_position(3 * triangle + 2);
            p1.minus(p0).cross(p2.minus(p0)) == face_normal(triangle / 2).times(4)
        }),
{
    let face = triangle / 2;
    let n = face_normal(face);
    let first = triangle % 2 == 0;
    tangent_frame_is_orthonormal(n);
    let c1: int = if first { 1 } else { 2 };
    let c2: int = if first { 2 } else { 3 };
    assert(cube_indices()[3 * triangle] == 4 * face);
    assert(cube_indices()[3 * triangle + 1] == 4 * face + c1);
    assert(cube_indices()[3 * triangle + 2] == 4 * face + c2);
    let p0 = cube_position(face, 0);
    let p1 = cube_position(face, c1);
    let p2 = cube_position(face, c2);
    lemma_times_sign(tangent(n), 1);
    lemma_times_sign(tangent(n), -1);
    lemma_times_sign(bitangent(n), 1);
    lemma_times_sign(bitangent(n), -1);
    let t = tangent(n);
    let b = bitangent(n);
    if first {
        assert(p1.minus(p0) == t.times(2));
        assert(p2.minus(p0) == t.times(2).plus(b.times(2)));
    } else {
        assert(p1.minus(p0) == t.times(2).plus(b.times(2)));
        assert(p2.minus(p0) == b.times(2));
    }
    lemma_quad_cross(t, b);
}

proof fn lemma_quad_cross(t: Vector, b: Vector)
    ensures
        t.times(2).cross(t.times(2).plus(b.times(2))) == t.cross(b).times(4),
        t.times(2).plus(b.times(2)).cross(b.times(2)) == t.cross(b).times(4),
{
    assert((t.y * 2) * (t.z * 2 + b.z * 2) - (t.y * 2 + b.y * 2) * (t.z * 2) == (t.y * b.z - b.y
        * t.z) * 4) by (nonlinear_arith);
    assert((t.z * 2) * (t.x * 2 + b.x * 2) - (t.z * 2 + b.z * 2) * (t.x * 2) == (t.z * b.x - b.z
        * t.x) * 4) by (nonlinear_arith);
    assert((t.x * 2) * (t.y * 2 + b.y * 2) - (t.x * 2 + b.x * 2) * (t.y * 2) == (t.x * b.y - b.x
        * t.y) * 4) by (nonlinear_arith);
    assert((t.y * 2 + b.y * 2) * (b.z * 2) - (b.y * 2) * (t.z * 2 + b.z * 2) == (t.y * b.z - b.y
        * t.z) * 4) by (nonlinear_arith);
    assert((t.z * 2 + b.z * 2) * (b.x * 2) - (b.z * 2) * (t.x * 2 + b.x * 2) == (t.z * b.x - b.z
        * t.x) * 4) by (nonlinear_arith);
    assert((t.x * 2 + b.x * 2) * (b.y * 2) - (b.x * 2) * (t.y * 2 + b.y * 2) == (t.x * b.y - b.x
        * t.y) * 4) by (nonlinear_arith);
}

/// The number of vertices of a UV sphere.
pub open spec fn sphere_size(stacks: int, slices: int) -> int {
    (stacks + 1) * (slices + 1)
}

/// Where the vertex of a stack and a slice stands.
pub open spec fn grid_at(stack: int, slice: int, slices: int) -> int {
    stack * (slices + 1) + slice
}

/// Where the `i`-th index of the quad between two stacks and two slices stands.
pub open spec fn quad_at(stack: int, slice: int, i: int, slices: int) -> int {
    6 * (stack * slices + slice) + i
}

/// The `i`-th index of a quad: top left, bottom left, top right; top right,
/// bottom left, bottom right.
pub open spec fn quad_index(stack: int, slice: int, i: int, slices: int) -> int {
    if i == 0 {
        grid_at(stack, slice, slices)
    } else if i == 1 || i == 4 {
        grid_at(stack + 1, slice, slices)
    } else if i == 2 || i == 3 {
        grid_at(stack, slice + 1, slices)
    } else {
        grid_at(stack + 1, slice + 1, slices)
    }
}

/// Whether `indices` are those of a sphere: six for each quad of the grid, quad
/// by quad along each stack.
pub open spec fn sphere_indices(indices: Seq<u32>, stacks: int, slices: int) -> bool {
    &&& indices.len() == 6 * (stacks * slices)
    &&& forall|stack: int, slice: int, i: int|
        0 <= stack < stacks && 0 <= slice < slices && 0 <= i < 6
            ==> indices[#[trigger] quad_at(stack, slice, i, slices)] == quad_index(
            stack,
            slice,
            i,
            slices,
        )
}

proof fn lemma_grid_bound(a: int, b: int, height: int, width: int)
    requires
        0 <= a < height,
        0 <= b < width,
    ensures
        0 <= a * width + b < height * width,
{
    assert(0 <= a * width + b < height * width) by (nonlinear_arith)
        requires
            0 <= a < height,
            0 <= b < width,
    ;
}

/// Every index of a sphere names one of its vertices.
pub proof fn sphere_indices_in_range(stack: int, slice: int, i: int, stacks: int, slices: int)
    requires
        0 <= stack < stacks,
        0 <= slice < slices,
        0 <= i < 6,
    ensures
        0 <= quad_index(stack, slice, i, slices) < sphere_size(stacks, slices),
{
    lemma_grid_bound(stack, slice, stacks + 1, slices + 1);
    lemma_grid_bound(stack + 1, slice, stacks + 1, slices + 1);
    lemma_grid_bound(stack, slice + 1, stacks + 1, slices + 1);
    lemma_grid_bound(stack + 1, slice + 1, stacks + 1, slices + 1);
}

/// The slice and the stack of a vertex, by its index.
pub open spec fn grid_point(index: int, slices: int) -> (int, int) {
    (index % (slices + 1), index / (slices + 1))
}

/// Where the `i`-th index of a quad leads.
pub open spec fn corner(indices: Seq<u32>, stack: int, slice: int, i: int, slices: int) -> (
    int,
    int,
) {
    grid_point(indices[quad_at(stack, slice, i, slices)] as int, slices)
}

/// Twice the area of a triangle in the grid, negative where its corners go round
/// from the top down to the bottom and back on the right.
pub open spec fn doubled_area(a: (int, int), b: (int, int), c: (int, int)) -> int {
    (b.0 - a.0) * (c.1 - a.1) - (b.1 - a.1) * (c.0 - a.0)
}

proof fn lemma_grid_point(stack: int, slice: int, slices: int)
    requires
        0 <= stack,
        0 <= slice <= slices,
    ensures
        grid_point(grid_at(stack, slice, slices), slices) == (slice, stack),
{
    let n = slices + 1;
    assert((stack * n + slice) / n == stack && (stack * n + slice) % n == slice)
        by (nonlinear_arith)
        requires
            0 <= stack,
            0 <= slice < n,
    ;
}

/// The triangles of a sphere cover its grid: each quad between two stacks and two
/// slices is made of two triangles, each of half its size. All triangles go round
/// the same way, so that all of them look outward or none does, and all four
/// corners of the quad, such as (`x`, `y`), are used.
pub proof fn sphere_triangles_cover_the_grid(
    indices: Seq<u32>,
    stacks: int,
    slices: int,
    stack: int,
    slice: int,
    x: int,
    y: int,
)
    requires
        sphere_indices(indices, stacks, slices),
        0 <= stack < stacks,
        0 <= slice < slices,
    ensures
        ({
            let p = Seq::new(6, |i: int| corner(indices, stack, slice, i, slices));
            &&& doubled_area(p[0], p[1], p[2]) == -1
            &&& doubled_area(p[3], p[4], p[5]) == -1
            &&& forall|i: int|
                0 <= i < 6 ==> slice <= (#[trigger] p[i]).0 <= slice + 1 && stack <= p[i].1 <= stack
                    + 1
            &&& slice <= x <= slice + 1 && stack <= y <= stack + 1 ==> p.contains((x, y))
        }),
{
    let p = Seq::new(6, |i: int| corner(indices, stack, slice, i, slices));
    lemma_grid_point(stack, slice, slices);
    lemma_grid_point(stack + 1, slice, slices);
    lemma_grid_point(stack, slice + 1, slices);
    lemma_grid_point(stack + 1, slice + 1, slices);
    assert(p[0] == (slice, stack));
    assert(p[1] == (slice, stack + 1));
    assert(p[2] == (slice + 1, stack));
    assert(p[3] == (slice + 1, stack));
    assert(p[4] == (slice, stack + 1));
    assert(p[5] == (slice + 1, stack + 1));
    assert(doubled_area(p[0], p[1], p[2]) == -1) by (nonlinear_arith)
        requires
            p[0] == (slice, stack),
            p[1] == (slice, stack + 1),
            p[2] == (slice + 1, stack),
    ;
    assert(doubled_area(p[3], p[4], p[5]) == -1) by (nonlinear_arith)
        requires
            p[3] == (slice + 1, stack),
            p[4] == (slice, stack + 1),
            p[5] == (slice + 1, stack + 1),
    ;
    if slice <= x <= slice + 1 && stack <= y <= stack + 1 {
        let i: int = if x == slice {
            if y == stack {
                0
            } else {
                1
            }
        } else if y == stack {
            2
        } else {
            5
        };
        assert(p[i] == (x, y));
    }
}

/// Generate a UV sphere with `stacks` latitude bands and `slices` longitude
/// segments. `vertex` gives the vertex at a stack, from 0 at the top to `stacks`
/// at the bottom, and a slice, from 0 to `slices` round the axis.
pub fn generate_sphere<F: Fn(u32, u32) -> PackedVertex>(stacks: u32, slices: u32, vertex: F) -> (mesh: (
    Vec<PackedVertex>,
    Vec<u32>,
))
    requires
        forall|stack: u32, slice: u32|
            stack <= stacks && slice <= slices ==> #[trigger] vertex.requires((stack, slice)),
        stacks > 0 && slices > 0 ==> sphere_size(stacks as int, slices as int) <= 0x1_0000_0000,
    ensures
        mesh.0@.len() == sphere_size(stacks as int, slices as int),
        forall|stack: u32, slice: u32|
            stack <= stacks && slice <= slices ==> vertex.ensures(
                (stack, slice),
                mesh.0@[#[trigger] grid_at(stack as int, slice as int, slices as int)],
            ),
        sphere_indices(mesh.1@, stacks as int, slices as int),
{
    let mut vertices: Vec<PackedVertex> = Vec::new();
    let mut indices: Vec<u32> = Vec::new();

    let mut stack: u64 = 0;
    while stack <= stacks as u64
        invariant
            stack <= stacks + 1,
            vertices@.len() == stack * (slices + 1),
            forall|i: u32, j: u32|
                i <= stacks && j <= slices ==> #[trigger] vertex.requires((i, j)),
            forall|i: u32, j: u32|
                i < stack && j <= slices ==> vertex.ensures(
                    (i, j),
                    vertices@[#[trigger] grid_at(i as int, j as int, slices as int)],
                ),
        decreases stacks + 1 - stack,
    {
        let mut slice: u64 = 0;
        while slice <= slices as u64
            invariant
                stack <= stacks,
                slice <= slices + 1,
                vertices@.len() == stack * (slices + 1) + slice,
                forall|i: u32, j: u32|
                    i <= stacks && j <= slices ==> #[trigger] vertex.requires((i, j)),
                forall|i: u32, j: u32|
                    (i < stack && j <= slices || i == stack && j < slice) ==> vertex.ensures(
                        (i, j),
                        vertices@[#[trigger] grid_at(i as int, j as int, slices as int)],
                    ),
            decreases slices + 1 - slice,
        {
            let ghost before = vertices@;
            let v = vertex(stack as u32, slice as u32);
            vertices.push(v);
            assert forall|i: u32, j: u32|
                (i < stack && j <= slices || i == stack && j < slice + 1) implies vertex.ensures(
                (i, j),
                vertices@[#[trigger] grid_at(i as int, j as int, slices as int)],
            ) by {
                if i < stack {
                    lemma_grid_bound(i as int, j as int, stack as int, slices + 1);
                    assert(vertices@[grid_at(i as int, j as int, slices as int)]
                        == before[grid_at(i as int, j as int, slices as int)]);
                } else if j < slice {
                    lemma_grid_bound(i as int, j as int, stack + 1, slices + 1);
                    assert(vertices@[grid_at(i as int, j as int, slices as int)]
                        == before[grid_at(i as int, j as int, slices as int)]);
                }
            }
            slice = slice + 1;
        }
        assert(stack * (slices + 1) + (slices + 1) == (stack + 1) * (slices + 1))
            by (nonlinear_arith);
        stack = stack + 1;
    }

    let mut stack: u32 = 0;
    while stack < stacks
        invariant
            stack <= stacks,
            stacks > 0 && slices > 0 ==> sphere_size(stacks as int, slices as int)
                <= 0x1_0000_0000,
            indices@.len() == 6 * (stack * slices),
            forall|s: int, t: int, i: int|
                0 <= s < stack && 0 <= t < slices && 0 <= i < 6
                    ==> indices@[#[trigger] quad_at(s, t, i, slices as int)] == quad_index(
                    s,
                    t,
                    i,
                    slices as int,
                ),
        decreases stacks - stack,
    {
        let mut slice: u32 = 0;
        while slice < slices
            invariant
                stack < stacks,
                slice <= slices,
                stacks > 0 && slices > 0 ==> sphere_size(stacks as int, slices as int)
                    <= 0x1_0000_0000,
                indices@.len() == 6 * (stack * slices + slice),
                forall|s: int, t: int, i: int|
                    (0 <= s < stack && 0 <= t < slices || s == stack && 0 <= t < slice) && 0 <= i
                        < 6 ==> indices@[#[trigger] quad_at(s, t, i, slices as int)] == quad_index(
                        s,
                        t,
                        i,
                        slices as int,
                    ),
            decreases slices - slice,
        {
            let ghost before = indices@;
            proof {
                sphere_indices_in_range(
                    stack as int,
                    slice as int,
                    0,
                    stacks as int,
                    slices as int,
                );
                sphere_indices_in_range(
                    stack as int,
                    slice as int,
                    1,
                    stacks as int,
                    slices as int,
                );
                sphere_indices_in_range(
                    stack as int,
                    slice as int,
                    2,
                    stacks as int,
                    slices as int,
                );
                sphere_indices_in_range(
                    stack as int,
                    slice as int,
                    5,
                    stacks as int,
                    slices as int,
                );
                assert(slices + 1 <= sphere_size(stacks as int, slices as int) - 1)
                    by (nonlinear_arith)
                    requires
                        sphere_size(stacks as int, slices as int) == (stacks + 1) * (slices + 1),
                        stacks >= 1,
                        slices >= 1,
                ;
                assert(0 <= stack * (slices + 1)) by (nonlinear_arith);
                assert((stack + 1) * (slices + 1) == stack * (slices + 1) + slices + 1)
                    by (nonlinear_arith);
            }
            let row_len = slices + 1;
            let tl = stack * row_len + slice;
            let tr = stack * row_len + slice + 1;
            let bl = (stack + 1) * row_len + slice;
            let br = (stack + 1) * row_len + slice + 1;

            indices.push(tl);
            indices.push(bl);
            indices.push(tr);
            indices.push(tr);
            indices.push(bl);
            indices.push(br);
            assert forall|s: int, t: int, i: int|
                (0 <= s < stack && 0 <= t < slices || s == stack && 0 <= t < slice + 1) && 0 <= i
                    < 6 implies indices@[#[trigger] quad_at(s, t, i, slices as int)] == quad_index(
                s,
                t,
                i,
                slices as int,
            ) by {
                if s < stack {
                    lemma_grid_bound(s, t, stack as int, slices as int);
                    assert(indices@[quad_at(s, t, i, slices as int)] == before[quad_at(
                        s,
                        t,
                        i,
                        slices as int,
                    )]);
                } else if t < slice {
                    lemma_grid_bound(s, t, stack + 1, slices as int);
                    assert(indices@[quad_at(s, t, i, slices as int)] == before[quad_at(
                        s,
                        t,
                        i,
                        slices as int,
                    )]);
                }
            }
            slice = slice + 1;
        }
        assert(stack * slices + slices == (stack + 1) * slices) by (nonlinear_arith);
        stack = stack + 1;
    }

    (vertices, indices)
}

} // verus!
