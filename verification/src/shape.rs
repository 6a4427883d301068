//! The shape decoder: a textual shape spec becomes a concrete collision
//! shape, or fails with a geometry fault.  A cuboid is given by full extents
//! in the file and halved here, exactly once; a mesh must carry a whole
//! number of triangles, at least one vertex, and indices inside the vertex
//! list.

use vstd::prelude::*;

use crate::dec::{lemma_halve_exact, spec_halve};
use crate::record::{ShapeSpec, ShapeSpecV, Vec3};

verus! {

/// Why a whole cell file is refused: malformed text, or a bad shape spec.
#[derive(Clone, Copy, Debug, PartialEq, Eq, Structural)]
pub enum CellError {
    SyntaxError,
    GeometryError,
}

/// An engine-ready collision shape.
#[derive(Clone, Debug, PartialEq)]
pub enum Collider {
    Cuboid { half_extents: Vec3 },
    Trimesh { vertices: Vec<Vec3>, indices: Vec<u16> }
}

pub enum ColliderV {
    Cuboid { half_extents: Vec3 },
    Trimesh { vertices: Seq<Vec3>, indices: Seq<u16> }
}

impl View for Collider {
    type V = ColliderV;

    open spec fn view(&self) -> ColliderV {
        match self {
            Collider::Cuboid { half_extents } => ColliderV::Cuboid { half_extents: *half_extents },
            Collider::Trimesh { vertices, indices } => ColliderV::Trimesh {
                vertices: vertices@,
                indices: indices@,
            }
        }
    }
}

/// A mesh spec is sound when it has vertices, whole triangles, and no index
/// past the vertex list.
pub open spec fn mesh_ok(vertices: Seq<Vec3>, indices: Seq<u16>) -> bool {
    &&& vertices.len() > 0
    &&& indices.len() % 3 == 0
    &&& forall|i: int| 0 <= i < indices.len() ==> (#[trigger] indices[i]) < vertices.len()
}

/// What the shape decoder returns for every spec: the halved cuboid, the
/// checked mesh, or the geometry fault.
pub open spec fn spec_decode_shape(c: ShapeSpecV) -> Result<ColliderV, CellError> {
    match c {
        ShapeSpecV::Cuboid(e) => Ok(
            ColliderV::Cuboid {
                half_extents: Vec3 {
                    x: spec_halve(e.x),
                    y: spec_halve(e.y),
                    z: spec_halve(e.z),
                }
            },
        ),
        ShapeSpecV::Mesh { vertices, indices } => {
            if mesh_ok(vertices, indices) {
                Ok(ColliderV::Trimesh { vertices, indices })
            } else {
                Err(CellError::GeometryError)
            }
        }}
}

/// Decode one shape spec.  A cuboid never fails; a mesh fails exactly when
/// `mesh_ok` does not hold of it.
pub fn decode_shape(spec: ShapeSpec) -> (r: Result<Collider, CellError>)
    requires
        spec@.wf(),
    ensures
        match r {
            Ok(c) => spec_decode_shape(spec@) == Ok::<ColliderV, CellError>(c@),
            Err(e) => spec_decode_shape(spec@) == Err::<ColliderV, CellError>(e),
        },
{
    match spec {
        ShapeSpec::Cuboid(e) => Ok(
            Collider::Cuboid {
                half_extents: Vec3 { x: e.x.halve(), y: e.y.halve(), z: e.z.halve() }
        },
        ),
        ShapeSpec::Mesh { vertices, indices } => {
            if vertices.len() == 0 || indices.len() % 3 != 0 || !indices_in_range(
                &vertices,
                &indices,
            ) {
                Err(CellError::GeometryError)
            } else {
                Ok(Collider::Trimesh { vertices, indices })
            }
        }}
}

/// Whether every triangle index points into the vertex list.
fn indices_in_range(vertices: &Vec<Vec3>, indices: &Vec<u16>) -> (r: bool)
    ensures
        r == (forall|i: int| 0 <= i < indices@.len() ==> (#[trigger] indices@[i])
            < vertices@.len()),
{
    let mut i: usize = 0;
    while i < indices.len()
        invariant
            0 <= i <= indices@.len(),
            forall|j: int| 0 <= j < i ==> (#[trigger] indices@[j]) < vertices@.len(),
        decreases indices@.len() - i,
    {
        if indices[i] as usize >= vertices.len() {
            proof {
                assert(indices@[i as int] >= vertices@.len());
            }
            return false;
        }
        i += 1;
    }
    true
}

/// For every cuboid spec with component-wise positive extents, the decoded
/// shape's half extents are exactly half of the given full extents: twice
/// each half extent equals the extent, as exact rationals.
pub proof fn lemma_cuboid_half_extents(e: Vec3)
    requires
        e.wf(),
        e.x.num() > 0,
        e.y.num() > 0,
        e.z.num() > 0,
    ensures
        spec_decode_shape(ShapeSpecV::Cuboid(e)) matches Ok(c) && c matches ColliderV::Cuboid {
            half_extents} && half_extents.x.is_half_of(e.x) && half_extents.y.is_half_of(e.y)
            && half_extents.z.is_half_of(e.z),
{
    lemma_halve_exact(e.x);
    lemma_halve_exact(e.y);
    lemma_halve_exact(e.z);
}

} // verus!
