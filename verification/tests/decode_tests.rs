use cellpipe::dec::Dec;
use cellpipe::decode::{decode_cell, Cell};
use cellpipe::record::{AttrEntry, BodyKind, CellRecord, ShapeSpec, Vec3};
use cellpipe::registry::{
    AttrValue, AttributeError, AttributeRegistry, PayloadKind, TypeDescriptor,
};
use cellpipe::ser::serialize_cell;
use cellpipe::shape::{decode_shape, CellError, Collider};

fn dec(neg: bool, mantissa: u64, frac: u32) -> Dec {
    Dec { neg, mantissa, frac }
}

fn v3(x: Dec, y: Dec, z: Dec) -> Vec3 {
    Vec3 { x, y, z }
}

fn whole(n: u64) -> Dec {
    dec(false, n, 0)
}

fn registry_with_health() -> AttributeRegistry {
    let mut reg = AttributeRegistry::new();
    reg.register(TypeDescriptor {
        short_name: b"Health".to_vec(),
        full_name: b"game::health::Health".to_vec(),
        type_id: 1,
        deserializable: true,
        schema: vec![PayloadKind::Unsigned],
    });
    reg
}

#[test]
fn print_cell() {
    let vertexs = vec![
        v3(dec(false, 25, 2), whole(0), dec(false, 5, 1)),
        v3(dec(true, 25, 2), whole(0), dec(false, 5, 1)),
        v3(dec(false, 25, 2), whole(0), whole(0)),
        v3(dec(true, 25, 2), whole(0), whole(0)),
        v3(dec(false, 25, 2), whole(4), dec(true, 5, 1)),
        v3(dec(true, 25, 2), whole(4), dec(true, 5, 1)),
        v3(dec(false, 25, 2), whole(4), whole(0)),
        v3(dec(true, 25, 2), whole(4), whole(0)),
    ];
    let indices: Vec<u16> = vec![0, 1, 2, 2, 3, 0, 2, 3, 6, 6, 7, 2, 4, 5, 6, 6, 7, 4];
    let record = CellRecord {
        scene: b"Conveyor/box-small.glb".to_vec(),
        collider: ShapeSpec::Mesh { vertices: vertexs, indices },
        collider_offset: None,
        body: BodyKind::Dynamic,
        scale: whole(1),
        components: Vec::new(),
        layer: None,
    };
    let text = serialize_cell(&record);
    println!("{:#?}", String::from_utf8(text).unwrap());
}

#[test]
fn minimal_cell_defaults() {
    let reg = AttributeRegistry::new();
    let text = b"(scene:\"box.glb\",collider:Cuboid((1,2,3)))".to_vec();
    let (cell, skipped) = decode_cell(&text, &reg).unwrap();
    assert_eq!(cell.scene, b"box.glb".to_vec());
    assert_eq!(cell.body, BodyKind::Static);
    assert_eq!(cell.scale, whole(1));
    assert!(cell.collider_offset.is_none());
    assert!(cell.layer.is_none());
    assert!(cell.components.is_empty());
    assert!(skipped.is_empty());
    match cell.collider {
        Collider::Cuboid { half_extents } => {
            assert_eq!(half_extents.x, dec(false, 5, 1));
            assert_eq!(half_extents.y, whole(1));
            assert_eq!(half_extents.z, dec(false, 15, 1));
        }
        _ => panic!("expected a cuboid"),
    }
}

#[test]
fn cuboid_half_extents_exact() {
    let spec = ShapeSpec::Cuboid(v3(whole(1), whole(3), dec(false, 5, 1)));
    match decode_shape(spec).unwrap() {
        Collider::Cuboid { half_extents } => {
            assert_eq!(half_extents.x, dec(false, 5, 1));
            assert_eq!(half_extents.y, dec(false, 15, 1));
            assert_eq!(half_extents.z, dec(false, 25, 2));
        }
        _ => panic!("expected a cuboid"),
    }
}

#[test]
fn round_trip_spaced_text() {
    let reg = AttributeRegistry::new();
    let text = b"( scene: \"a/b.glb\" , collider: Mesh{ vertices: [ (0,0,0), (1,0,0), (0,1,0) ], indices: [0, 1, 2] } , body: Dynamic , scale: 2.50 , layer: (3, 5) )".to_vec();
    let first = cellpipe::parse::parse_cell_text(&text).unwrap();
    let written = serialize_cell(&first);
    let second = cellpipe::parse::parse_cell_text(&written).unwrap();
    assert_eq!(first, second);
    // The scalar was canonicalized on the way in.
    assert_eq!(first.scale, dec(false, 25, 1));
    assert_eq!(first.layer, Some((3, 5)));
    let (cell, _) = decode_cell(&text, &reg).unwrap();
    let (cell2, _) = decode_cell(&written, &reg).unwrap();
    assert_eq!(cell.scene, cell2.scene);
    assert_eq!(cell.collider, cell2.collider);
    assert_eq!(cell.scale, cell2.scale);
}

#[test]
fn unknown_attribute_dropped() {
    let reg = registry_with_health();
    let text =
        b"(scene:\"a.glb\",collider:Cuboid((1,1,1)),components:{\"Health\":\"(5)\",\"Mystery\":\"(1)\"})"
            .to_vec();
    let (cell, skipped) = decode_cell(&text, &reg).unwrap();
    assert_eq!(cell.components.len(), 1);
    assert_eq!(cell.components[0].type_id, 1);
    assert_eq!(cell.components[0].values, vec![AttrValue::Unsigned(5)]);
    assert_eq!(skipped.len(), 1);
    assert_eq!(skipped[0].name, b"Mystery".to_vec());
    assert_eq!(skipped[0].error, AttributeError::UnknownAttributeType);
}

#[test]
fn full_name_resolves_too() {
    let reg = registry_with_health();
    let text =
        b"(scene:\"a.glb\",collider:Cuboid((1,1,1)),components:{\"game::health::Health\":\"(9)\"})"
            .to_vec();
    let (cell, skipped) = decode_cell(&text, &reg).unwrap();
    assert_eq!(cell.components.len(), 1);
    assert_eq!(cell.components[0].values, vec![AttrValue::Unsigned(9)]);
    assert!(skipped.is_empty());
}

#[test]
fn not_deserializable_skipped() {
    let mut reg = AttributeRegistry::new();
    reg.register(TypeDescriptor {
        short_name: b"Marker".to_vec(),
        full_name: b"game::Marker".to_vec(),
        type_id: 2,
        deserializable: false,
        schema: Vec::new(),
    });
    let text =
        b"(scene:\"a.glb\",collider:Cuboid((1,1,1)),components:{\"Marker\":\"()\"})".to_vec();
    let (cell, skipped) = decode_cell(&text, &reg).unwrap();
    assert!(cell.components.is_empty());
    assert_eq!(skipped[0].error, AttributeError::NotDeserializable);
}

#[test]
fn payload_mismatch_skipped() {
    let reg = registry_with_health();
    let text =
        b"(scene:\"a.glb\",collider:Cuboid((1,1,1)),components:{\"Health\":\"(high)\"})".to_vec();
    let (cell, skipped) = decode_cell(&text, &reg).unwrap();
    assert!(cell.components.is_empty());
    assert_eq!(skipped[0].error, AttributeError::PayloadMismatch);
    assert_eq!(skipped[0].payload, b"(high)".to_vec());
}

#[test]
fn mesh_not_triangles_is_geometry_error() {
    let reg = AttributeRegistry::new();
    let text =
        b"(scene:\"a.glb\",collider:Mesh{vertices:[(0,0,0),(1,0,0)],indices:[0,1]})".to_vec();
    assert_eq!(decode_cell(&text, &reg).unwrap_err(), CellError::GeometryError);
}

#[test]
fn mesh_no_vertices_is_geometry_error() {
    let reg = AttributeRegistry::new();
    let text = b"(scene:\"a.glb\",collider:Mesh{vertices:[],indices:[]})".to_vec();
    assert_eq!(decode_cell(&text, &reg).unwrap_err(), CellError::GeometryError);
}

#[test]
fn mesh_index_out_of_range_is_geometry_error() {
    let reg = AttributeRegistry::new();
    let text =
        b"(scene:\"a.glb\",collider:Mesh{vertices:[(0,0,0),(1,0,0),(0,1,0)],indices:[0,1,9]})"
            .to_vec();
    assert_eq!(decode_cell(&text, &reg).unwrap_err(), CellError::GeometryError);
}

#[test]
fn malformed_text_is_syntax_error() {
    let reg = AttributeRegistry::new();
    for bad in [
        &b"(scene:\"a.glb\")"[..],
        &b"(collider:Cuboid((1,1,1)))"[..],
        &b"(scene:\"a.glb\",collider:Cuboid((1,1,1)),scene:\"b.glb\")"[..],
        &b"(scene:\"a.glb\",collider:Cuboid((1,1,1)),extra:1)"[..],
        &b"(scene:\"a.glb\",collider:Cuboid((1,1,1))"[..],
        &b"scene:\"a.glb\""[..],
        &b"(scene:\"a.glb\",collider:Cuboid((1,1,1))) trailing"[..],
    ] {
        let text = bad.to_vec();
        assert_eq!(decode_cell(&text, &reg).unwrap_err(), CellError::SyntaxError);
    }
}

#[test]
fn oversized_scalar_is_syntax_error() {
    let reg = AttributeRegistry::new();
    let text = b"(scene:\"a.glb\",collider:Cuboid((1,1,1)),scale:1234567890123456)".to_vec();
    assert_eq!(decode_cell(&text, &reg).unwrap_err(), CellError::SyntaxError);
}

#[test]
fn index_above_u16_is_syntax_error() {
    let reg = AttributeRegistry::new();
    let text =
        b"(scene:\"a.glb\",collider:Mesh{vertices:[(0,0,0)],indices:[70000,0,0]})".to_vec();
    assert_eq!(decode_cell(&text, &reg).unwrap_err(), CellError::SyntaxError);
}

#[test]
fn negative_and_fractional_scalars() {
    let text = b"(scene:\"a.glb\",collider:Cuboid((-0.5,0.05,12.34)))".to_vec();
    let record = cellpipe::parse::parse_cell_text(&text).unwrap();
    match record.collider {
        ShapeSpec::Cuboid(e) => {
            assert_eq!(e.x, dec(true, 5, 1));
            assert_eq!(e.y, dec(false, 5, 2));
            assert_eq!(e.z, dec(false, 1234, 2));
        }
        _ => panic!("expected a cuboid"),
    }
}

#[test]
fn trailing_zeros_canonicalized() {
    let text = b"(scene:\"a.glb\",collider:Cuboid((1.0,2.50,0.0)),scale:3.00)".to_vec();
    let record = cellpipe::parse::parse_cell_text(&text).unwrap();
    assert_eq!(record.scale, whole(3));
    match record.collider {
        ShapeSpec::Cuboid(e) => {
            assert_eq!(e.x, whole(1));
            assert_eq!(e.y, dec(false, 25, 1));
            assert_eq!(e.z, whole(0));
        }
        _ => panic!("expected a cuboid"),
    }
}

#[test]
fn serializer_writes_expected_text() {
    let record = CellRecord {
        scene: b"a.glb".to_vec(),
        collider: ShapeSpec::Cuboid(v3(whole(1), dec(false, 5, 1), whole(2))),
        collider_offset: Some(v3(whole(0), dec(false, 5, 1), whole(0))),
        body: BodyKind::Kinematic,
        scale: whole(1),
        components: vec![AttrEntry { name: b"Health".to_vec(), payload: b"(5)".to_vec() }],
        layer: Some((1, 2)),
    };
    let text = serialize_cell(&record);
    assert_eq!(
        String::from_utf8(text).unwrap(),
        "(scene:\"a.glb\",collider:Cuboid((1,0.5,2)),collider_offset:(0,0.5,0),body:Kinematic,scale:1,components:{\"Health\":\"(5)\"},layer:(1,2))"
    );
}

#[test]
fn asset_is_immutable_record_of_file() {
    let reg = registry_with_health();
    let text = b"(scene:\"s.glb\",collider:Cuboid((2,2,2)),body:Kinematic,scale:0.5,components:{\"Health\":\"(3)\"},layer:(7,9))".to_vec();
    let (cell, _) = decode_cell(&text, &reg).unwrap();
    let Cell { scene, body, scale, layer, components, .. } = cell;
    assert_eq!(scene, b"s.glb".to_vec());
    assert_eq!(body, BodyKind::Kinematic);
    assert_eq!(scale, dec(false, 5, 1));
    assert_eq!(layer, Some((7, 9)));
    assert_eq!(components.len(), 1);
}
