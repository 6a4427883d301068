use cellpipe::apply::add_dynamic_components;
use cellpipe::dec::Dec;
use cellpipe::live::LiveObject;
use cellpipe::registry::{AttrValue, AttributeRegistry, PayloadKind, TypeDescriptor};
use cellpipe::shape::{CellError, Collider};
use cellpipe::store::{AssetEvent, CellStore};
use cellpipe::sync::{onchange_cell, onload_cell, update_cell};

fn dec(neg: bool, mantissa: u64, frac: u32) -> Dec {
    Dec { neg, mantissa, frac }
}

fn whole(n: u64) -> Dec {
    dec(false, n, 0)
}

fn registry() -> AttributeRegistry {
    let mut reg = AttributeRegistry::new();
    reg.register(TypeDescriptor {
        short_name: b"Health".to_vec(),
        full_name: b"game::health::Health".to_vec(),
        type_id: 1,
        deserializable: true,
        schema: vec![PayloadKind::Unsigned],
    });
    reg.register(TypeDescriptor {
        short_name: b"Label".to_vec(),
        full_name: b"game::Label".to_vec(),
        type_id: 2,
        deserializable: true,
        schema: vec![PayloadKind::Text],
    });
    reg
}

fn shape_holders(o: &LiveObject) -> usize {
    (if o.shape.is_some() { 1 } else { 0 }) + o.children.len()
}

#[test]
fn offset_collider_hangs_on_one_child() {
    let reg = AttributeRegistry::new();
    let mut store = CellStore::new();
    let text =
        b"(scene:\"box.glb\",collider:Cuboid((1,1,1)),collider_offset: (0,0.5,0),layer:(1,3))"
            .to_vec();
    store.decode_and_publish(7, &text, &reg).unwrap();
    let mut objects = vec![LiveObject::spawn(1, 7)];
    onload_cell(&vec![AssetEvent::Added { id: 7 }], &mut objects, &store);
    let obj = &objects[0];
    assert_eq!(obj.children.len(), 1);
    let child = &obj.children[0];
    assert_eq!(child.offset.x, whole(0));
    assert_eq!(child.offset.y, dec(false, 5, 1));
    assert_eq!(child.offset.z, whole(0));
    assert_eq!(child.layer, Some((1, 3)));
    match &child.shape {
        Collider::Cuboid { half_extents } => assert_eq!(half_extents.x, dec(false, 5, 1)),
        _ => panic!("expected a cuboid on the child"),
    }
    // The parent bears only the visual reference.
    assert!(obj.shape.is_none());
    assert!(obj.layer.is_none());
    assert_eq!(obj.scene.as_ref().unwrap(), &b"box.glb".to_vec());
    assert_eq!(shape_holders(obj), 1);
}

#[test]
fn no_offset_attaches_directly() {
    let reg = AttributeRegistry::new();
    let mut store = CellStore::new();
    let text = b"(scene:\"box.glb\",collider:Cuboid((1,1,1)),layer:(2,4))".to_vec();
    store.decode_and_publish(7, &text, &reg).unwrap();
    let mut objects = vec![LiveObject::spawn(1, 7)];
    onload_cell(&vec![AssetEvent::LoadedWithDependencies { id: 7 }], &mut objects, &store);
    let obj = &objects[0];
    assert_eq!(obj.children.len(), 0);
    assert!(obj.shape.is_some());
    assert_eq!(obj.layer, Some((2, 4)));
    assert_eq!(shape_holders(obj), 1);
}

#[test]
fn reload_with_new_scale_rebuilds_once() {
    let reg = AttributeRegistry::new();
    let mut store = CellStore::new();
    let v1 = b"(scene:\"box.glb\",collider:Cuboid((1,1,1)),collider_offset: (0,0.5,0),scale:1.0)"
        .to_vec();
    store.decode_and_publish(7, &v1, &reg).unwrap();
    let mut objects = vec![LiveObject::spawn(1, 7), LiveObject::spawn(2, 7)];
    onload_cell(&vec![AssetEvent::Added { id: 7 }], &mut objects, &store);
    assert_eq!(store.get(7).unwrap().scale, whole(1));

    // The file changes only its scale and is re-decoded.
    let v2 = b"(scene:\"box.glb\",collider:Cuboid((1,1,1)),collider_offset: (0,0.5,0),scale:2.0)"
        .to_vec();
    store.decode_and_publish(7, &v2, &reg).unwrap();
    onload_cell(&vec![AssetEvent::Modified { id: 7 }], &mut objects, &store);

    assert_eq!(store.get(7).unwrap().scale, whole(2));
    for obj in &objects {
        // Rebuilt wholesale: still exactly one child, no duplicate shape.
        assert_eq!(obj.children.len(), 1);
        assert!(obj.shape.is_none());
        assert_eq!(shape_holders(obj), 1);
    }
}

#[test]
fn events_only_touch_matching_objects() {
    let reg = AttributeRegistry::new();
    let mut store = CellStore::new();
    let text = b"(scene:\"box.glb\",collider:Cuboid((1,1,1)))".to_vec();
    store.decode_and_publish(7, &text, &reg).unwrap();
    let mut objects = vec![LiveObject::spawn(1, 7), LiveObject::spawn(2, 9)];
    onload_cell(&vec![AssetEvent::Added { id: 7 }], &mut objects, &store);
    assert!(objects[0].scene.is_some());
    assert!(objects[1].scene.is_none());
}

#[test]
fn missing_asset_is_skipped_silently() {
    let store = CellStore::new();
    let mut objects = vec![LiveObject::spawn(1, 7)];
    onload_cell(&vec![AssetEvent::Added { id: 7 }], &mut objects, &store);
    assert!(objects[0].scene.is_none());
    assert_eq!(objects[0].children.len(), 0);
}

#[test]
fn changed_reference_resyncs_object() {
    let reg = AttributeRegistry::new();
    let mut store = CellStore::new();
    let text = b"(scene:\"box.glb\",collider:Cuboid((1,1,1)))".to_vec();
    store.decode_and_publish(7, &text, &reg).unwrap();
    let mut objects = vec![LiveObject::spawn(1, 7), LiveObject::spawn(2, 7)];
    onchange_cell(&mut objects, &store, &vec![2]);
    assert!(objects[0].scene.is_none());
    assert!(objects[1].scene.is_some());
}

#[test]
fn marker_set_only_with_attributes() {
    let reg = registry();
    let mut store = CellStore::new();
    let with = b"(scene:\"a.glb\",collider:Cuboid((1,1,1)),components:{\"Health\":\"(5)\"})"
        .to_vec();
    let without = b"(scene:\"a.glb\",collider:Cuboid((1,1,1)))".to_vec();
    store.decode_and_publish(1, &with, &reg).unwrap();
    store.decode_and_publish(2, &without, &reg).unwrap();
    let mut objects = vec![LiveObject::spawn(1, 1), LiveObject::spawn(2, 2)];
    onload_cell(
        &vec![AssetEvent::Added { id: 1 }, AssetEvent::Added { id: 2 }],
        &mut objects,
        &store,
    );
    assert!(objects[0].pending);
    assert!(!objects[1].pending);
}

#[test]
fn applier_removes_marker_after_one_pass() {
    let reg = registry();
    let mut store = CellStore::new();
    let text = b"(scene:\"a.glb\",collider:Cuboid((1,1,1)),components:{\"Health\":\"(5)\"})"
        .to_vec();
    let mut objects = vec![LiveObject::spawn(1, 7)];

    // The object already carries the marker, but the asset is not yet
    // resolvable: the pass must skip it and keep the marker.
    objects[0].pending = true;
    add_dynamic_components(&mut objects, &store, &reg);
    assert!(objects[0].pending);
    assert!(objects[0].attrs.is_empty());

    // Once the asset resolves, exactly one pass removes the marker.
    store.decode_and_publish(7, &text, &reg).unwrap();
    add_dynamic_components(&mut objects, &store, &reg);
    assert!(!objects[0].pending);
    assert_eq!(objects[0].attrs.len(), 1);
    assert_eq!(objects[0].attrs[0].type_id, 1);
    assert_eq!(objects[0].attrs[0].values, vec![AttrValue::Unsigned(5)]);
}

#[test]
fn applying_twice_equals_applying_once() {
    let reg = registry();
    let mut store = CellStore::new();
    // Two entries of the same attribute type: the later one wins, once.
    let text = b"(scene:\"a.glb\",collider:Cuboid((1,1,1)),components:{\"Health\":\"(5)\",\"Health\":\"(9)\"})".to_vec();
    store.decode_and_publish(7, &text, &reg).unwrap();
    let mut objects = vec![LiveObject::spawn(1, 7)];
    onload_cell(&vec![AssetEvent::Added { id: 7 }], &mut objects, &store);
    assert!(objects[0].pending);
    add_dynamic_components(&mut objects, &store, &reg);
    let once = objects[0].attrs.clone();
    // The later entry of the same identity won.
    assert_eq!(once.len(), 1);
    assert_eq!(once[0].values, vec![AttrValue::Unsigned(9)]);

    // A re-fired event re-sets the marker; re-applying changes nothing.
    onload_cell(&vec![AssetEvent::Modified { id: 7 }], &mut objects, &store);
    assert!(objects[0].pending);
    add_dynamic_components(&mut objects, &store, &reg);
    assert!(!objects[0].pending);
    assert_eq!(objects[0].attrs, once);
}

#[test]
fn failed_decode_publishes_nothing() {
    let reg = AttributeRegistry::new();
    let mut store = CellStore::new();
    let good = b"(scene:\"a.glb\",collider:Cuboid((1,1,1)),scale:1.0)".to_vec();
    store.decode_and_publish(7, &good, &reg).unwrap();
    // A mesh with a non-triangle index list is refused whole; the previous
    // asset stays authoritative.
    let bad = b"(scene:\"a.glb\",collider:Mesh{vertices:[(0,0,0)],indices:[0,0]},scale:2.0)"
        .to_vec();
    assert_eq!(store.decode_and_publish(7, &bad, &reg).unwrap_err(), CellError::GeometryError);
    assert_eq!(store.get(7).unwrap().scale, whole(1));
}

#[test]
fn update_cell_preserves_applied_attributes() {
    let reg = registry();
    let mut store = CellStore::new();
    let text = b"(scene:\"a.glb\",collider:Cuboid((1,1,1)),components:{\"Health\":\"(5)\"})"
        .to_vec();
    store.decode_and_publish(7, &text, &reg).unwrap();
    let mut objects = vec![LiveObject::spawn(1, 7)];
    onload_cell(&vec![AssetEvent::Added { id: 7 }], &mut objects, &store);
    add_dynamic_components(&mut objects, &store, &reg);
    let applied = objects[0].attrs.clone();
    // A later rebuild replaces children and shape but never the applied
    // attribute set.
    update_cell(&mut objects[0], store.get(7).unwrap());
    assert_eq!(objects[0].attrs, applied);
}
