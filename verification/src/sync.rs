//! The scene synchronizer: on every load or change notification, each live
//! object referencing the affected asset is rebuilt wholesale: children
//! despawned, the old shape cleared, the visual reference and body kind
//! re-attached, the shape re-hung (on a single child when the asset gives
//! an offset), and the pending-attributes marker set exactly when the asset
//! carries attributes.

use vstd::prelude::*;

use crate::bytes::copy_range;
use crate::decode::{Cell, CellV};
use crate::live::{ChildNode, ChildNodeV, LiveObject, LiveObjectV};
use crate::record::Vec3;
use crate::shape::Collider;
use crate::store::{event_id, spec_get, AssetEvent, CellStore};

verus! {

/// What one synchronization does to one object, for every object and
/// asset: everything but the object's identity, asset reference and
/// applied attributes is rebuilt from the asset alone.
pub open spec fn spec_update(o: LiveObjectV, c: CellV) -> LiveObjectV {
    LiveObjectV {
        id: o.id,
        asset: o.asset,
        scene: Some(c.scene),
        body: Some(c.body),
        shape: if c.collider_offset is Some {
            None
        } else {
            Some(c.collider)
        },
        layer: if c.collider_offset is Some {
            None
        } else {
            c.layer
        },
        children: match c.collider_offset {
            Some(off) => seq![ChildNodeV { offset: off, shape: c.collider, layer: c.layer }],
            None => Seq::empty(),
        },
        pending: c.components.len() > 0,
        attrs: o.attrs,
    }
}

/// A fresh vector with the same bytes.
fn copy_bytes(v: &Vec<u8>) -> (r: Vec<u8>)
    ensures
        r@ == v@,
{
    let r = copy_range(v, 0, v.len());
    proof {
        assert(v@.subrange(0, v@.len() as int) =~= v@);
    }
    r
}

/// A fresh vector with the same copyable elements.
fn copy_vec<T: Copy>(v: &Vec<T>) -> (r: Vec<T>)
    ensures
        r@ == v@,
{
    let mut out: Vec<T> = Vec::new();
    let mut i: usize = 0;
    while i < v.len()
        invariant
            0 <= i <= v@.len(),
            out@ == v@.subrange(0, i as int),
        decreases v@.len() - i,
    {
        out.push(v[i]);
        proof {
            assert(v@.subrange(0, (i + 1) as int) =~= v@.subrange(0, i as int).push(v@[i as int]));
        }
        i += 1;
    }
    proof {
        assert(v@.subrange(0, v@.len() as int) =~= v@);
    }
    out
}

impl Collider {
    /// A fresh shape equal to this one.
    pub fn duplicate(&self) -> (r: Collider)
        ensures
            r@ == self@,
    {
        match self {
            Collider::Cuboid { half_extents } => Collider::Cuboid { half_extents: *half_extents },
            Collider::Trimesh { vertices, indices } => Collider::Trimesh {
                vertices: copy_vec(vertices),
                indices: copy_vec(indices),
            }
        }
    }
}

/// Rebuild one live object from its asset, wholesale.
///
/// Afterwards the object is exactly `spec_update` of what it was: at most
/// one node holds the collision shape; with an offset the shape hangs on
/// exactly one child at that offset and the object itself bears only the
/// visual reference; without one the shape sits on the object and no child
/// exists.  The marker is present exactly when the asset carries
/// attributes.  Already-applied attributes stay untouched.
pub fn update_cell(obj: &mut LiveObject, asset: &Cell)
    ensures
        final(obj)@ == spec_update(old(obj)@, asset@),
{
    obj.scene = Some(copy_bytes(&asset.scene));
    obj.body = Some(asset.body);
    match asset.collider_offset {
        Some(off) => {
            obj.shape = None;
            obj.layer = None;
            let mut children: Vec<ChildNode> = Vec::new();
            children.push(
                ChildNode { offset: off, shape: asset.collider.duplicate(), layer: asset.layer },
            );
            obj.children = children;
            proof {
                assert(obj.children@.map_values(|ch: ChildNode| ch@) =~= seq![
                    ChildNodeV {
                        offset: off,
                        shape: asset@.collider,
                        layer: asset@.layer,
                    },
                ]);
            }
        },
        None => {
            obj.shape = Some(asset.collider.duplicate());
            obj.layer = asset.layer;
            obj.children = Vec::new();
            proof {
                assert(obj.children@.map_values(|ch: ChildNode| ch@) =~= Seq::<
                    ChildNodeV,
                >::empty());
            }
        }}
    obj.pending = asset.components.len() > 0;
}

/// One object under one event: rebuilt when it references the event's
/// asset and the store resolves it; skipped silently otherwise.
pub open spec fn spec_sync_one(o: LiveObjectV, store: Seq<(u64, CellV)>, id: u64) -> LiveObjectV {
    if o.asset == id {
        match spec_get(store, id) {
            Some(c) => spec_update(o, c),
            None => o,
        }
    } else {
        o
    }
}

/// The whole object set under a list of events, processed in order.
pub open spec fn spec_sync_events(
    objs: Seq<LiveObjectV>,
    store: Seq<(u64, CellV)>,
    events: Seq<AssetEvent>,
    k: int,
) -> Seq<LiveObjectV>
    decreases events.len() - k,
{
    if k < 0 || k >= events.len() {
        objs
    } else {
        spec_sync_events(
            objs.map_values(|o: LiveObjectV| spec_sync_one(o, store, event_id(events[k]))),
            store,
            events,
            k + 1,
        )
    }
}

/// Process one event: every object referencing the event's asset is
/// rebuilt from the stored asset; every other object, and every object
/// whose asset the store cannot resolve yet, is untouched.
pub fn sync_event(objects: &mut Vec<LiveObject>, store: &CellStore, event: AssetEvent)
    ensures
        final(objects)@.len() == old(objects)@.len(),
        forall|i: int|
            0 <= i < old(objects)@.len() ==> (#[trigger] final(objects)@[i])@ == spec_sync_one(
                old(objects)@[i]@,
                store@,
                event_id(event),
            ),
{
    let id = match event {
        AssetEvent::Added { id } => id,
        AssetEvent::Modified { id } => id,
        AssetEvent::LoadedWithDependencies { id } => id};
    let mut i: usize = 0;
    while i < objects.len()
        invariant
            0 <= i <= objects@.len(),
            objects@.len() == old(objects)@.len(),
            id == event_id(event),
            forall|j: int|
                0 <= j < i ==> (#[trigger] objects@[j])@ == spec_sync_one(
                    old(objects)@[j]@,
                    store@,
                    id,
                ),
            forall|j: int| i <= j < objects@.len() ==> objects@[j] == old(objects)@[j],
        decreases objects@.len() - i,
    {
        if objects[i].asset == id {
            match store.get(id) {
                Some(cell) => {
                    let obj = &mut objects[i];
                    update_cell(obj, cell);
                },
                None => {}}
        }
        i += 1;
    }
}

/// React to a batch of load and change notifications, in order.  This is
/// the synchronizer's whole pass: `Added`, `Modified` and
/// `LoadedWithDependencies` all cause the same wholesale rebuild.
pub fn onload_cell(events: &Vec<AssetEvent>, objects: &mut Vec<LiveObject>, store: &CellStore)
    ensures
        final(objects)@.map_values(|o: LiveObject| o@) == spec_sync_events(
            old(objects)@.map_values(|o: LiveObject| o@),
            store@,
            events@,
            0,
        ),
{
    let ghost orig = objects@.map_values(|o: LiveObject| o@);
    let mut k: usize = 0;
    while k < events.len()
        invariant
            0 <= k <= events@.len(),
            orig == old(objects)@.map_values(|o: LiveObject| o@),
            spec_sync_events(objects@.map_values(|o: LiveObject| o@), store@, events@, k as int)
                == spec_sync_events(orig, store@, events@, 0),
        decreases events@.len() - k,
    {
        let ghost before = objects@.map_values(|o: LiveObject| o@);
        sync_event(objects, store, events[k]);
        proof {
            assert(objects@.map_values(|o: LiveObject| o@) =~= before.map_values(
                |o: LiveObjectV| spec_sync_one(o, store@, event_id(events@[k as int])),
            ));
        }
        k += 1;
    }
}

/// React to objects whose asset reference itself changed: each named
/// object is rebuilt when its asset resolves, and skipped silently
/// otherwise (the asset may still be loading, or the object gone).
pub fn onchange_cell(objects: &mut Vec<LiveObject>, store: &CellStore, changed: &Vec<u64>)
    ensures
        final(objects)@.len() == old(objects)@.len(),
        forall|i: int|
            0 <= i < old(objects)@.len() ==> (#[trigger] final(objects)@[i])@ == (
            if changed@.contains(old(objects)@[i].id) {
                match spec_get(store@, old(objects)@[i]@.asset) {
                    Some(c) => spec_update(old(objects)@[i]@, c),
                    None => old(objects)@[i]@,
                }
            } else {
                old(objects)@[i]@
            }),
{
    let mut i: usize = 0;
    while i < objects.len()
        invariant
            0 <= i <= objects@.len(),
            objects@.len() == old(objects)@.len(),
            forall|j: int|
                0 <= j < i ==> (#[trigger] objects@[j])@ == (
                if changed@.contains(old(objects)@[j].id) {
                    match spec_get(store@, old(objects)@[j]@.asset) {
                        Some(c) => spec_update(old(objects)@[j]@, c),
                        None => old(objects)@[j]@,
                    }
                } else {
                    old(objects)@[j]@
                }),
            forall|j: int| i <= j < objects@.len() ==> objects@[j] == old(objects)@[j],
        decreases objects@.len() - i,
    {
        let mut is_changed = false;
        let mut k: usize = 0;
        let oid = objects[i].id;
        while k < changed.len()
            invariant
                0 <= k <= changed@.len(),
                is_changed == exists|m: int| 0 <= m < k && changed@[m] == oid,
            decreases changed@.len() - k,
        {
            if changed[k] == oid {
                is_changed = true;
            }
            k += 1;
        }
        proof {
            assert(is_changed == changed@.contains(oid));
        }
        if is_changed {
            let asset_id = objects[i].asset;
            match store.get(asset_id) {
                Some(cell) => {
                    let obj = &mut objects[i];
                    update_cell(obj, cell);
                },
                None => {}}
        }
        i += 1;
    }
}

/// With a collider offset, synchronization yields exactly one child, at
/// that offset, bearing the collision shape and the layer masks, while the
/// object itself bears only the visual reference and body kind.
pub proof fn lemma_offset_child(o: LiveObjectV, c: CellV, off: Vec3)
    requires
        c.collider_offset == Some(off),
    ensures
        spec_update(o, c).children.len() == 1,
        spec_update(o, c).children[0] == (ChildNodeV {
            offset: off,
            shape: c.collider,
            layer: c.layer,
        }),
        spec_update(o, c).shape is None,
        spec_update(o, c).scene == Some(c.scene),
        spec_update(o, c).shape_holders() == 1,
{
}

/// Without a collider offset, synchronization yields no children at all
/// and attaches the collision shape directly to the object.
pub proof fn lemma_no_offset_no_child(o: LiveObjectV, c: CellV)
    requires
        c.collider_offset is None,
    ensures
        spec_update(o, c).children.len() == 0,
        spec_update(o, c).shape == Some(c.collider),
        spec_update(o, c).shape_holders() == 1,
{
}

/// Re-synchronizing against the same asset changes nothing: the rebuild is
/// wholesale and idempotent, so a reload ends with no duplicate children
/// and no duplicate collision shape.
pub proof fn lemma_sync_idempotent(o: LiveObjectV, c: CellV)
    ensures
        spec_update(spec_update(o, c), c) == spec_update(o, c),
        spec_update(o, c).shape_holders() == 1,
{
}

} // verus!
