//! The cell decoder: raw file bytes, plus the attribute registry, become an
//! immutable cell asset.  A syntax or geometry fault refuses the whole file;
//! a bad attribute entry is skipped, reported, and never blocks the rest.

use vstd::prelude::*;

use crate::dec::Dec;
use crate::parse::{parse_cell_text, spec_cell_text};
use crate::record::{AttrEntry, AttrEntryV, BodyKind, CellRecordV, Vec3};
use crate::registry::{
    spec_decode_attribute, spec_resolve, AttributeError, AttributeRegistry, BoxedAttribute,
    BoxedAttributeV, TypeDescriptorV, decode_attribute};
use crate::shape::{decode_shape, spec_decode_shape, CellError, Collider, ColliderV};

verus! {

/// An immutable cell asset, fully decoded.
#[derive(Debug)]
pub struct Cell {
    /// Path of the visual sub-scene resource, resolved lazily by the host.
    pub scene: Vec<u8>,
    /// The engine-ready collision shape.
    pub collider: Collider,
    /// Where the shape hangs as a child; `None`: on the object itself.
    pub collider_offset: Option<Vec3>,
    pub body: BodyKind,
    pub scale: Dec,
    /// The decoded extra attributes, in file order, bad entries dropped.
    pub components: Vec<BoxedAttribute>,
    /// Collision-layer masks: membership and filter.
    pub layer: Option<(u32, u32)>,
}

pub struct CellV {
    pub scene: Seq<u8>,
    pub collider: ColliderV,
    pub collider_offset: Option<Vec3>,
    pub body: BodyKind,
    pub scale: Dec,
    pub components: Seq<BoxedAttributeV>,
    pub layer: Option<(u32, u32)>,
}

impl View for Cell {
    type V = CellV;

    open spec fn view(&self) -> CellV {
        CellV {
            scene: self.scene@,
            collider: self.collider@,
            collider_offset: self.collider_offset,
            body: self.body,
            scale: self.scale,
            components: self.components@.map_values(|a: BoxedAttribute| a@),
            layer: self.layer,
        }
    }
}

/// One attribute entry that decoding dropped, kept for the log.
#[derive(Debug)]
pub struct SkippedAttribute {
    pub name: Vec<u8>,
    pub payload: Vec<u8>,
    pub error: AttributeError,
}

pub struct SkippedAttributeV {
    pub name: Seq<u8>,
    pub payload: Seq<u8>,
    pub error: AttributeError,
}

impl View for SkippedAttribute {
    type V = SkippedAttributeV;

    open spec fn view(&self) -> SkippedAttributeV {
        SkippedAttributeV { name: self.name@, payload: self.payload@, error: self.error }
    }
}

/// The decoded attributes of the entries from index `k` on: bad entries are
/// dropped, good ones keep their order.
pub open spec fn spec_decode_attrs(
    reg: Seq<TypeDescriptorV>,
    entries: Seq<AttrEntryV>,
    k: int,
) -> Seq<BoxedAttributeV>
    decreases entries.len() - k,
{
    if k < 0 || k >= entries.len() {
        Seq::empty()
    } else {
        let rest = spec_decode_attrs(reg, entries, k + 1);
        match spec_decode_attribute(reg, entries[k].name, entries[k].payload) {
            Ok(a) => seq![a] + rest,
            Err(_) => rest,
        }
    }
}

/// The entries that decoding dropped, from index `k` on, with their faults.
pub open spec fn spec_skipped_attrs(
    reg: Seq<TypeDescriptorV>,
    entries: Seq<AttrEntryV>,
    k: int,
) -> Seq<SkippedAttributeV>
    decreases entries.len() - k,
{
    if k < 0 || k >= entries.len() {
        Seq::empty()
    } else {
        let rest = spec_skipped_attrs(reg, entries, k + 1);
        match spec_decode_attribute(reg, entries[k].name, entries[k].payload) {
            Ok(_) => rest,
            Err(e) => seq![
                SkippedAttributeV { name: entries[k].name, payload: entries[k].payload, error: e },
            ] + rest,
        }
    }
}

/// What the whole decode returns for every input: the parsed record with
/// its shape decoded and its attributes resolved, or the first fatal fault.
pub open spec fn spec_decode_cell(text: Seq<u8>, reg: Seq<TypeDescriptorV>) -> Result<
    CellV,
    CellError,
> {
    match spec_cell_text(text) {
        None => Err(CellError::SyntaxError),
        Some(r) => match spec_decode_shape(r.collider) {
            Err(e) => Err(e),
            Ok(col) => Ok(
                CellV {
                    scene: r.scene,
                    collider: col,
                    collider_offset: r.collider_offset,
                    body: r.body,
                    scale: r.scale,
                    components: spec_decode_attrs(reg, r.components, 0),
                    layer: r.layer,
                },
            ),
        }
    }
}

/// Decode the attribute entries from index `k` on.
fn decode_attrs(reg: &AttributeRegistry, entries: &Vec<AttrEntry>, k: usize) -> (r: (
    Vec<BoxedAttribute>,
    Vec<SkippedAttribute>,
))
    requires
        k <= entries.len(),
    ensures
        r.0@.map_values(|a: BoxedAttribute| a@) == spec_decode_attrs(
            reg@,
            entries@.map_values(|e: AttrEntry| e@),
            k as int,
        ),
        r.1@.map_values(|a: SkippedAttribute| a@) == spec_skipped_attrs(
            reg@,
            entries@.map_values(|e: AttrEntry| e@),
            k as int,
        ),
    decreases entries.len() - k,
{
    let ghost ev = entries@.map_values(|e: AttrEntry| e@);
    if k >= entries.len() {
        let a: Vec<BoxedAttribute> = Vec::new();
        let b: Vec<SkippedAttribute> = Vec::new();
        proof {
            assert(a@.map_values(|x: BoxedAttribute| x@) =~= Seq::<BoxedAttributeV>::empty());
            assert(b@.map_values(|x: SkippedAttribute| x@) =~= Seq::<SkippedAttributeV>::empty());
        }
        (a, b)
    } else {
        let entry = &entries[k];
        proof {
            assert(ev[k as int] == entries@[k as int]@);
        }
        let decoded = decode_attribute(reg, &entry.name, &entry.payload);
        let (mut oks, mut skips) = decode_attrs(reg, entries, k + 1);
        match decoded {
            Ok(a) => {
                oks.insert(0, a);
                proof {
                    assert(oks@.map_values(|x: BoxedAttribute| x@) =~= seq![
                        spec_decode_attribute(reg@, ev[k as int].name, ev[k as int].payload)
                            .unwrap(),
                    ] + spec_decode_attrs(reg@, ev, k + 1));
                }
            },
            Err(e) => {
                let entry2 = &entries[k];
                skips.insert(
                    0,
                    SkippedAttribute {
                        name: crate::bytes::copy_range(&entry2.name, 0, entry2.name.len()),
                        payload: crate::bytes::copy_range(&entry2.payload, 0, entry2.payload.len()),
                        error: e,
                    },
                );
                proof {
                    assert(entry2.name@.subrange(0, entry2.name@.len() as int) =~= entry2.name@);
                    assert(entry2.payload@.subrange(0, entry2.payload@.len() as int)
                        =~= entry2.payload@);
                    assert(skips@.map_values(|x: SkippedAttribute| x@) =~= seq![
                        SkippedAttributeV {
                            name: ev[k as int].name,
                            payload: ev[k as int].payload,
                            error: e,
                        },
                    ] + spec_skipped_attrs(reg@, ev, k + 1));
                }
            }}
        (oks, skips)
    }
}

/// Decode one cell file.
///
/// Success is owed exactly when the text parses and its shape spec is
/// sound; then every field of the asset is the parsed record's, the cuboid
/// extents halved, and the attribute list holds exactly the entries the
/// registry could decode, in file order.  A malformed file gives
/// `SyntaxError`, a bad shape `GeometryError`, and nothing is published.
pub fn decode_cell(data: &Vec<u8>, reg: &AttributeRegistry) -> (r: Result<
    (Cell, Vec<SkippedAttribute>),
    CellError,
>)
    ensures
        match r {
            Ok(t) => spec_decode_cell(data@, reg@) == Ok::<CellV, CellError>(t.0@)
                && t.1@.map_values(|a: SkippedAttribute| a@) == spec_skipped_attrs(
                reg@,
                spec_cell_text(data@).unwrap().components,
                0,
            ),
            Err(e) => spec_decode_cell(data@, reg@) == Err::<CellV, CellError>(e),
        },
{
    match parse_cell_text(data) {
        None => Err(CellError::SyntaxError),
        Some(record) => {
            proof {
                crate::parse::lemma_cell_text_wf(data@);
            }
            let (oks, skips) = decode_attrs(reg, &record.components, 0);
            match decode_shape(record.collider) {
                Err(e) => Err(e),
                Ok(col) => Ok(
                    (
                        Cell {
                            scene: record.scene,
                            collider: col,
                            collider_offset: record.collider_offset,
                            body: record.body,
                            scale: record.scale,
                            components: oks,
                            layer: record.layer,
                        },
                        skips,
                    ),
                ),
            }
        }}
}

/// Dropping one unknown name drops exactly that entry: when entry `k` is
/// the only one whose type name the registry does not know and every other
/// entry decodes, the decoded list holds every other entry's attribute, in
/// order, and nothing else.
pub proof fn lemma_unknown_attribute_dropped(
    reg: Seq<TypeDescriptorV>,
    entries: Seq<AttrEntryV>,
    k: int,
)
    requires
        0 <= k < entries.len(),
        spec_resolve(reg, entries[k].name) is None,
        forall|j: int|
            0 <= j < entries.len() && j != k ==> spec_decode_attribute(
                reg,
                (#[trigger] entries[j]).name,
                entries[j].payload,
            ) is Ok,
    ensures
        spec_decode_attrs(reg, entries, 0).len() == entries.len() - 1,
        forall|j: int|
            0 <= j < k ==> spec_decode_attrs(reg, entries, 0)[j] == spec_decode_attribute(
                reg,
                (#[trigger] entries[j]).name,
                entries[j].payload,
            ).unwrap(),
        forall|j: int|
            k <= j < entries.len() - 1 ==> spec_decode_attrs(reg, entries, 0)[j]
                == spec_decode_attribute(
                reg,
                (#[trigger] entries[j + 1]).name,
                entries[j + 1].payload,
            ).unwrap(),
{
    lemma_attrs_drop_one(reg, entries, k, 0);
}

/// The decoded suffix from `i` on, when `k` is the single bad entry.
proof fn lemma_attrs_drop_one(reg: Seq<TypeDescriptorV>, entries: Seq<AttrEntryV>, k: int, i: int)
    requires
        0 <= i <= entries.len(),
        0 <= k < entries.len(),
        spec_resolve(reg, entries[k].name) is None,
        forall|j: int|
            0 <= j < entries.len() && j != k ==> spec_decode_attribute(
                reg,
                (#[trigger] entries[j]).name,
                entries[j].payload,
            ) is Ok,
    ensures
        spec_decode_attrs(reg, entries, i).len() == if i <= k {
            entries.len() - i - 1
        } else {
            entries.len() - i
        },
        forall|j: int|
            i <= j < k ==> spec_decode_attrs(reg, entries, i)[j - i] == spec_decode_attribute(
                reg,
                (#[trigger] entries[j]).name,
                entries[j].payload,
            ).unwrap(),
        forall|j: int|
            (if i <= k {
                k
            } else {
                i
            }) <= j < entries.len() - 1 && i <= j + 1 ==> spec_decode_attrs(reg, entries, i)[
                if i <= k {
                    j - i
                } else {
                    j + 1 - i
                }
            ] == spec_decode_attribute(
                reg,
                (#[trigger] entries[j + 1]).name,
                entries[j + 1].payload,
            ).unwrap(),
    decreases entries.len() - i,
{
    if i < entries.len() {
        lemma_attrs_drop_one(reg, entries, k, i + 1);
    }
}

/// Round trip at the asset level: decode a valid cell text, write its
/// record back, decode again, and the two assets agree field for field,
/// whatever the registry holds.
pub proof fn lemma_asset_roundtrip(s: Seq<u8>, reg: Seq<TypeDescriptorV>, r: CellRecordV)
    requires
        spec_cell_text(s) == Some(r),
    ensures
        spec_decode_cell(crate::ser::ser_cell(r), reg) == spec_decode_cell(s, reg),
{
    crate::codec::lemma_decode_reserialize_decode(s, r);
}

} // verus!
