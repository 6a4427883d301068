//! The structured record a cell file parses into, before any shape or
//! attribute decoding.  The record keeps exactly what the file said: cuboid
//! extents are still full extents and attribute payloads are still text.

use vstd::prelude::*;

use crate::dec::Dec;

verus! {

/// An exact three-component vector of decimal scalars.
#[derive(Clone, Copy, Debug, PartialEq, Eq, Structural)]
pub struct Vec3 {
    pub x: Dec,
    pub y: Dec,
    pub z: Dec,
}

impl Vec3 {
    pub open spec fn wf(self) -> bool {
        self.x.wf() && self.y.wf() && self.z.wf()
    }
}

/// The physics-body kind of a cell; `Static` when the file says nothing.
#[derive(Clone, Copy, Debug, PartialEq, Eq, Structural)]
pub enum BodyKind {
    Static,
    Dynamic,
    Kinematic,
}

/// The collision-shape spec as written in the file: a cuboid by full
/// extents, or an indexed triangle mesh.
#[derive(Clone, Debug, PartialEq)]
pub enum ShapeSpec {
    Cuboid(Vec3),
    Mesh { vertices: Vec<Vec3>, indices: Vec<u16> },
}

pub enum ShapeSpecV {
    Cuboid(Vec3),
    Mesh { vertices: Seq<Vec3>, indices: Seq<u16> },
}

impl View for ShapeSpec {
    type V = ShapeSpecV;

    open spec fn view(&self) -> ShapeSpecV {
        match self {
            ShapeSpec::Cuboid(e) => ShapeSpecV::Cuboid(*e),
            ShapeSpec::Mesh { vertices, indices } => ShapeSpecV::Mesh {
                vertices: vertices@,
                indices: indices@,
            },
        }
    }
}

impl ShapeSpecV {
    pub open spec fn wf(self) -> bool {
        match self {
            ShapeSpecV::Cuboid(e) => e.wf(),
            ShapeSpecV::Mesh { vertices, indices } => forall|i: int|
                0 <= i < vertices.len() ==> (#[trigger] vertices[i]).wf(),
        }
    }
}

/// One `components` entry: an attribute type name and its payload text.
#[derive(Clone, Debug, PartialEq)]
pub struct AttrEntry {
    pub name: Vec<u8>,
    pub payload: Vec<u8>,
}

pub struct AttrEntryV {
    pub name: Seq<u8>,
    pub payload: Seq<u8>,
}

impl View for AttrEntry {
    type V = AttrEntryV;

    open spec fn view(&self) -> AttrEntryV {
        AttrEntryV { name: self.name@, payload: self.payload@ }
    }
}

/// Text that a quoted string can carry: no double quote anywhere.
pub open spec fn text_ok(s: Seq<u8>) -> bool {
    forall|i: int| 0 <= i < s.len() ==> s[i] != 34
}

/// Everything one cell file says, field for field.
#[derive(Clone, Debug, PartialEq)]
pub struct CellRecord {
    /// Path of the visual sub-scene resource.
    pub scene: Vec<u8>,
    /// The collision-shape spec, still undecoded.
    pub collider: ShapeSpec,
    /// Where the shape hangs as a child; `None`: on the object itself.
    pub collider_offset: Option<Vec3>,
    pub body: BodyKind,
    pub scale: Dec,
    /// Named extra attributes, in file order.
    pub components: Vec<AttrEntry>,
    /// Collision-layer masks: membership and filter.
    pub layer: Option<(u32, u32)>,
}

pub struct CellRecordV {
    pub scene: Seq<u8>,
    pub collider: ShapeSpecV,
    pub collider_offset: Option<Vec3>,
    pub body: BodyKind,
    pub scale: Dec,
    pub components: Seq<AttrEntryV>,
    pub layer: Option<(u32, u32)>,
}

impl View for CellRecord {
    type V = CellRecordV;

    open spec fn view(&self) -> CellRecordV {
        CellRecordV {
            scene: self.scene@,
            collider: self.collider@,
            collider_offset: self.collider_offset,
            body: self.body,
            scale: self.scale,
            components: self.components@.map_values(|e: AttrEntry| e@),
            layer: self.layer,
        }
    }
}

impl CellRecordV {
    /// What the parser guarantees of every record it returns, and what the
    /// serializer needs to write one back.
    pub open spec fn wf(self) -> bool {
        &&& text_ok(self.scene)
        &&& self.collider.wf()
        &&& (self.collider_offset matches Some(v) ==> v.wf())
        &&& self.scale.wf()
        &&& forall|i: int|
            0 <= i < self.components.len() ==> text_ok((#[trigger] self.components[i]).name)
                && text_ok(self.components[i].payload)
    }
}

} // verus!
