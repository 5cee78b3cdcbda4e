//! Unit-cube topology: eight corners, six quad faces listed
//! counter-clockwise from outside, and their outward axis normals. Corner
//! coordinates are kept in half-units (each is -1 or +1, i.e. ±0.5), so
//! the geometry is exact integers.

use vstd::prelude::*;

verus! {

/// Stable identity of each of the six faces.
#[derive(Debug, Clone, Copy, PartialEq, Eq, Hash, Structural)]
pub enum FaceId {
    /// +Z
    Front,
    /// -Z
    Back,
    /// +X
    Right,
    /// -X
    Left,
    /// +Y
    Top,
    /// -Y
    Bottom,
}

/// An integer 3-vector.
pub type IVec3 = (i8, i8, i8);

/// One face: four corner indices (counter-clockwise seen from outside),
/// its outward unit normal, and its identity.
#[derive(Debug, Clone, Copy)]
pub struct FaceTopo {
    pub id: FaceId,
    pub indices: [usize; 4],
    pub normal: IVec3,
}

/// Sign of bit `b` of `i`: +1 when set, -1 when clear.
pub open spec fn bit_sign(i: int, b: int) -> int {
    if (i / b) % 2 == 1 {
        1
    } else {
        -1
    }
}

/// Corner `i` in half-units: bit 0 selects x, bit 1 y, bit 2 z.
pub open spec fn corner_spec(i: int) -> (int, int, int) {
    (bit_sign(i, 1), bit_sign(i, 2), bit_sign(i, 4))
}

/// The six faces in the order the renderers walk them.
pub open spec fn cube_faces() -> Seq<(FaceId, Seq<usize>, (int, int, int))> {
    seq![
        (FaceId::Front, seq![4usize, 5, 7, 6], (0, 0, 1)),
        (FaceId::Back, seq![1usize, 0, 2, 3], (0, 0, -1)),
        (FaceId::Right, seq![5usize, 1, 3, 7], (1, 0, 0)),
        (FaceId::Left, seq![0usize, 4, 6, 2], (-1, 0, 0)),
        (FaceId::Top, seq![6usize, 7, 3, 2], (0, 1, 0)),
        (FaceId::Bottom, seq![0usize, 1, 5, 4], (0, -1, 0)),
    ]
}

/// The plain form of a face.
pub open spec fn face_view(f: FaceTopo) -> (FaceId, Seq<usize>, (int, int, int)) {
    (f.id, f.indices@, (f.normal.0 as int, f.normal.1 as int, f.normal.2 as int))
}

pub open spec fn dot(a: (int, int, int), b: (int, int, int)) -> int {
    a.0 * b.0 + a.1 * b.1 + a.2 * b.2
}

pub open spec fn sub3(a: (int, int, int), b: (int, int, int)) -> (int, int, int) {
    (a.0 - b.0, a.1 - b.1, a.2 - b.2)
}

pub open spec fn cross(a: (int, int, int), b: (int, int, int)) -> (int, int, int) {
    (a.1 * b.2 - a.2 * b.1, a.2 * b.0 - a.0 * b.2, a.0 * b.1 - a.1 * b.0)
}

/// Corner `i` of the unit cube, in half-units.
pub fn corner(i: usize) -> (c: IVec3)
    requires
        i < 8,
    ensures
        (c.0 as int, c.1 as int, c.2 as int) == corner_spec(i as int),
{
    let x: i8 = if i % 2 == 1 { 1 } else { -1 };
    let y: i8 = if (i / 2) % 2 == 1 { 1 } else { -1 };
    let z: i8 = if (i / 4) % 2 == 1 { 1 } else { -1 };
    (x, y, z)
}

/// The eight corners, index `i` at position `i`.
pub fn unit_cube_corners() -> (cs: [IVec3; 8])
    ensures
        forall|i: int| 0 <= i < 8 ==> ((#[trigger] cs@[i]).0 as int, cs@[i].1 as int, cs@[i].2 as int)
            == corner_spec(i),
{
    let cs = [corner(0), corner(1), corner(2), corner(3), corner(4), corner(5), corner(6), corner(7)];
    assert(forall|i: int| 0 <= i < 8 ==> ((#[trigger] cs@[i]).0 as int, cs@[i].1 as int, cs@[i].2 as int)
        == corner_spec(i)) by {
        assert(cs@[0] == cs[0]);
    }
    cs
}

/// The six faces of the unit cube.
pub fn unit_cube_faces() -> (fs: [FaceTopo; 6])
    ensures
        fs@.map_values(|f: FaceTopo| face_view(f)) == cube_faces(),
{
    let fs = [
        FaceTopo { id: FaceId::Front, indices: [4, 5, 7, 6], normal: (0, 0, 1) },
        FaceTopo { id: FaceId::Back, indices: [1, 0, 2, 3], normal: (0, 0, -1) },
        FaceTopo { id: FaceId::Right, indices: [5, 1, 3, 7], normal: (1, 0, 0) },
        FaceTopo { id: FaceId::Left, indices: [0, 4, 6, 2], normal: (-1, 0, 0) },
        FaceTopo { id: FaceId::Top, indices: [6, 7, 3, 2], normal: (0, 1, 0) },
        FaceTopo { id: FaceId::Bottom, indices: [0, 1, 5, 4], normal: (0, -1, 0) },
    ];
    proof {
        assert(fs@.map_values(|f: FaceTopo| face_view(f)) =~= cube_faces()) by {
            assert(fs@[0].indices@ =~= seq![4usize, 5, 7, 6]);
            assert(fs@[1].indices@ =~= seq![1usize, 0, 2, 3]);
            assert(fs@[2].indices@ =~= seq![5usize, 1, 3, 7]);
            assert(fs@[3].indices@ =~= seq![0usize, 4, 6, 2]);
            assert(fs@[4].indices@ =~= seq![6usize, 7, 3, 2]);
            assert(fs@[5].indices@ =~= seq![0usize, 1, 5, 4]);
        }
    }
    fs
}

/// Whether a face is sound: its normal is an axis unit vector; its four
/// corners are distinct corners of the cube lying on the plane one
/// half-unit out along the normal (so the face centroid points outward);
/// and its first three corners wind counter-clockwise seen from outside,
/// which the back-face cull depends on.
pub open spec fn face_sound(f: (FaceId, Seq<usize>, (int, int, int))) -> bool {
    let (id, ix, n) = f;
    &&& ix.len() == 4
    &&& ix[0] < 8 && ix[1] < 8 && ix[2] < 8 && ix[3] < 8
    &&& ix[0] != ix[1] && ix[0] != ix[2] && ix[0] != ix[3]
    &&& ix[1] != ix[2] && ix[1] != ix[3] && ix[2] != ix[3]
    &&& (n.0 == 0 || n.1 == 0) && (n.1 == 0 || n.2 == 0) && (n.0 == 0 || n.2 == 0)
    &&& face_geometry_ok(ix, n)
}

/// The metric part of [`face_sound`]: unit normal, corners on the face
/// plane, counter-clockwise winding.
pub open spec fn face_geometry_ok(ix: Seq<usize>, n: (int, int, int)) -> bool {
    let c0 = corner_spec(ix[0] as int);
    let c1 = corner_spec(ix[1] as int);
    let c2 = corner_spec(ix[2] as int);
    let c3 = corner_spec(ix[3] as int);
    &&& dot(n, n) == 1
    &&& dot(c0, n) == 1 && dot(c1, n) == 1 && dot(c2, n) == 1 && dot(c3, n) == 1
    &&& dot(cross(sub3(c1, c0), sub3(c2, c0)), n) > 0
}

/// The cube's geometry is sound: every face is sound, and the six faces
/// carry six distinct ids and six distinct normals.
pub proof fn lemma_cube_faces_sound(k: int)
    requires
        0 <= k < 6,
    ensures
        face_sound(cube_faces()[k]),
        forall|m: int| 0 <= m < 6 && m != k ==> (#[trigger] cube_faces()[m]).0 != cube_faces()[k].0
            && cube_faces()[m].2 != cube_faces()[k].2,
{
    let f = cube_faces();
    assert(corner_spec(0) == (-1int, -1int, -1int));
    assert(corner_spec(1) == (1int, -1int, -1int));
    assert(corner_spec(2) == (-1int, 1int, -1int));
    assert(corner_spec(3) == (1int, 1int, -1int));
    assert(corner_spec(4) == (-1int, -1int, 1int));
    assert(corner_spec(5) == (1int, -1int, 1int));
    assert(corner_spec(6) == (-1int, 1int, 1int));
    assert(corner_spec(7) == (1int, 1int, 1int));
    let ix = f[k].1;
    let n = f[k].2;
    if k == 0 {
        assert(ix =~= seq![4usize, 5, 7, 6]);
        assert(n == (0int, 0int, 1int));
        assert(face_geometry_ok(ix, n)) by (nonlinear_arith)
            requires
                corner_spec(ix[0] as int) == (-1int, -1int, 1int),
                corner_spec(ix[1] as int) == (1int, -1int, 1int),
                corner_spec(ix[2] as int) == (1int, 1int, 1int),
                corner_spec(ix[3] as int) == (-1int, 1int, 1int),
                n == (0int, 0int, 1int),
        ;
    } else if k == 1 {
        assert(ix =~= seq![1usize, 0, 2, 3]);
        assert(n == (0int, 0int, -1int));
        assert(face_geometry_ok(ix, n)) by (nonlinear_arith)
            requires
                corner_spec(ix[0] as int) == (1int, -1int, -1int),
                corner_spec(ix[1] as int) == (-1int, -1int, -1int),
                corner_spec(ix[2] as int) == (-1int, 1int, -1int),
                corner_spec(ix[3] as int) == (1int, 1int, -1int),
                n == (0int, 0int, -1int),
        ;
    } else if k == 2 {
        assert(ix =~= seq![5usize, 1, 3, 7]);
        assert(n == (1int, 0int, 0int));
        assert(face_geometry_ok(ix, n)) by (nonlinear_arith)
            requires
                corner_spec(ix[0] as int) == (1int, -1int, 1int),
                corner_spec(ix[1] as int) == (1int, -1int, -1int),
                corner_spec(ix[2] as int) == (1int, 1int, -1int),
                corner_spec(ix[3] as int) == (1int, 1int, 1int),
                n == (1int, 0int, 0int),
        ;
    } else if k == 3 {
        assert(ix =~= seq![0usize, 4, 6, 2]);
        assert(n == (-1int, 0int, 0int));
        assert(face_geometry_ok(ix, n)) by (nonlinear_arith)
            requires
                corner_spec(ix[0] as int) == (-1int, -1int, -1int),
                corner_spec(ix[1] as int) == (-1int, -1int, 1int),
                corner_spec(ix[2] as int) == (-1int, 1int, 1int),
                corner_spec(ix[3] as int) == (-1int, 1int, -1int),
                n == (-1int, 0int, 0int),
        ;
    } else if k == 4 {
        assert(ix =~= seq![6usize, 7, 3, 2]);
        assert(n == (0int, 1int, 0int));
        assert(face_geometry_ok(ix, n)) by (nonlinear_arith)
            requires
                corner_spec(ix[0] as int) == (-1int, 1int, 1int),
                corner_spec(ix[1] as int) == (1int, 1int, 1int),
                corner_spec(ix[2] as int) == (1int, 1int, -1int),
                corner_spec(ix[3] as int) == (-1int, 1int, -1int),
                n == (0int, 1int, 0int),
        ;
    } else {
        assert(ix =~= seq![0usize, 1, 5, 4]);
        assert(n == (0int, -1int, 0int));
        assert(face_geometry_ok(ix, n)) by (nonlinear_arith)
            requires
                corner_spec(ix[0] as int) == (-1int, -1int, -1int),
                corner_spec(ix[1] as int) == (1int, -1int, -1int),
                corner_spec(ix[2] as int) == (1int, -1int, 1int),
                corner_spec(ix[3] as int) == (-1int, -1int, 1int),
                n == (0int, -1int, 0int),
        ;
    }
    assert(face_sound(f[k]));
}

} // verus!
