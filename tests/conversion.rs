use vhapi::convert::{
    f64_bits_equal, group_from_block, pointentity_from_dxf_point,
    polylineentity_from_dxf_polyline, Coord, SourceBlock, SourceEntity, SourcePoint,
    UNIT_THICKNESS,
};
use vhapi::entity::{BaseEntity, MarkerEntity, PointEntity};
use vhapi::stream::{convert_drawing, find_block, ConvertError};

fn coord(v: f64) -> Coord {
    Coord { wide: v.to_bits(), narrow: (v as f32).to_bits() }
}

fn pt(x: f64, y: f64, z: f64) -> SourcePoint {
    SourcePoint { x: coord(x), y: coord(y), z: coord(z) }
}

fn encode(e: &BaseEntity) -> Vec<u8> {
    let mut buf = Vec::new();
    e.serialize(&mut buf);
    buf
}

fn drawing(entities: Vec<SourceEntity>, blocks: Vec<SourceBlock>) -> vhapi::convert::SourceDrawing {
    vhapi::convert::SourceDrawing { entities, blocks }
}

#[test]
fn point_conversion_is_grey() {
    let p = pointentity_from_dxf_point(&pt(0.1, 2.0, -3.0));
    assert_eq!(
        p,
        PointEntity {
            x: 0.1f32.to_bits(),
            y: 2.0f32.to_bits(),
            z: (-3.0f32).to_bits(),
            r: 0xcc,
            g: 0xcc,
            b: 0xcc
        }
    );
}

#[test]
fn open_polyline_keeps_last_vertex() {
    let pts = vec![pt(0.0, 0.0, 0.0), pt(1.0, 0.0, 0.0), pt(1.0, 1.0, 0.0), pt(0.0, 0.0, 0.0)];
    let pl = polylineentity_from_dxf_polyline(&pts);
    assert_eq!(pl.vertices.len(), 4);
    assert_eq!(pl.vertices[3].p, pointentity_from_dxf_point(&pts[3]));
    assert!(pl.vertices.iter().all(|v| v.thickness == UNIT_THICKNESS));
    assert_eq!(UNIT_THICKNESS, 1.0f32.to_bits());
    let e = BaseEntity::PolylineEntity(pl);
    let buf = encode(&e);
    assert_eq!(&buf[..4], &[0xc7, 105, 0x02, 0x94]);
    assert_eq!(buf.len(), 108);
    assert_eq!(e.size_hint(), 108);
}

#[test]
fn repeated_last_vertex_is_dropped() {
    let pts = vec![pt(0.0, 0.0, 0.0), pt(1.0, 0.0, 0.0), pt(1.0, 0.0, 0.0)];
    let pl = polylineentity_from_dxf_polyline(&pts);
    assert_eq!(pl.vertices.len(), 2);
    let neg_zero = vec![pt(0.0, 5.0, 0.0), pt(-0.0, 5.0, 0.0)];
    assert_eq!(polylineentity_from_dxf_polyline(&neg_zero).vertices.len(), 1);
    let nan = vec![pt(f64::NAN, 0.0, 0.0), pt(f64::NAN, 0.0, 0.0)];
    assert_eq!(polylineentity_from_dxf_polyline(&nan).vertices.len(), 2);
}

#[test]
fn short_polylines_keep_all_vertices() {
    assert_eq!(polylineentity_from_dxf_polyline(&vec![]).vertices.len(), 0);
    assert_eq!(polylineentity_from_dxf_polyline(&vec![pt(1.0, 1.0, 1.0)]).vertices.len(), 1);
}

#[test]
fn double_equality_on_bit_patterns() {
    assert!(f64_bits_equal(0.0f64.to_bits(), (-0.0f64).to_bits()));
    assert!(f64_bits_equal(2.5f64.to_bits(), 2.5f64.to_bits()));
    assert!(!f64_bits_equal(2.5f64.to_bits(), 2.25f64.to_bits()));
    assert!(!f64_bits_equal(f64::NAN.to_bits(), f64::NAN.to_bits()));
    assert!(f64_bits_equal(f64::INFINITY.to_bits(), f64::INFINITY.to_bits()));
}

#[test]
fn block_keeps_only_polylines() {
    let block = SourceBlock {
        name: b"B".to_vec(),
        entities: vec![
            SourceEntity::Other,
            SourceEntity::Polyline(vec![pt(0.0, 0.0, 0.0), pt(2.0, 0.0, 0.0)]),
            SourceEntity::Insert(b"B".to_vec()),
        ],
    };
    let g = group_from_block(&block);
    assert_eq!(g.entities.len(), 1);
    assert!(matches!(&g.entities[0], BaseEntity::PolylineEntity(pl) if pl.vertices.len() == 2));
}

#[test]
fn last_block_of_a_name_wins() {
    let blocks = vec![
        SourceBlock { name: b"A".to_vec(), entities: vec![] },
        SourceBlock { name: b"B".to_vec(), entities: vec![] },
        SourceBlock { name: b"A".to_vec(), entities: vec![] },
    ];
    assert_eq!(find_block(&blocks, &b"A".to_vec()), Some(2));
    assert_eq!(find_block(&blocks, &b"B".to_vec()), Some(1));
    assert_eq!(find_block(&blocks, &b"C".to_vec()), None);
}

#[test]
fn batch_of_polyline_and_insert() {
    let line = vec![pt(0.0, 0.0, 0.0), pt(3.0, 4.0, 0.0)];
    let block_line = vec![pt(1.0, 1.0, 1.0), pt(2.0, 2.0, 2.0), pt(3.0, 3.0, 3.0)];
    let d = drawing(
        vec![SourceEntity::Polyline(line.clone()), SourceEntity::Insert(b"door".to_vec())],
        vec![SourceBlock {
            name: b"door".to_vec(),
            entities: vec![SourceEntity::Polyline(block_line.clone())],
        }],
    );
    let batch = convert_drawing(&d).unwrap();
    assert!(batch.skipped.is_empty());
    let m = &batch.messages;
    assert_eq!(m.len(), 5);
    assert_eq!(m[0], vec![b"entities/start".to_vec()]);
    assert_eq!(m[1], vec![b"entities".to_vec(), encode(&BaseEntity::MarkerEntity(MarkerEntity::new()))]);
    let pl = BaseEntity::PolylineEntity(polylineentity_from_dxf_polyline(&line));
    assert_eq!(m[2], vec![b"entities".to_vec(), encode(&pl)]);
    let block = SourceBlock {
        name: b"door".to_vec(),
        entities: vec![SourceEntity::Polyline(block_line)],
    };
    let g = BaseEntity::GroupEntity(group_from_block(&block));
    assert_eq!(m[3].len(), 2);
    assert_eq!(m[3][1], encode(&g));
    assert_eq!(m[3][1][2], 0x04);
    assert_eq!(m[4], vec![b"entities/end".to_vec()]);
}

#[test]
fn unsupported_entity_is_skipped() {
    let line = vec![pt(0.0, 0.0, 0.0), pt(1.0, 0.0, 0.0)];
    let d = drawing(
        vec![SourceEntity::Other, SourceEntity::Polyline(line.clone()), SourceEntity::Other],
        vec![],
    );
    let batch = convert_drawing(&d).unwrap();
    assert_eq!(batch.skipped, vec![0, 2]);
    assert_eq!(batch.messages.len(), 4);
    let pl = BaseEntity::PolylineEntity(polylineentity_from_dxf_polyline(&line));
    assert_eq!(batch.messages[2], vec![b"entities".to_vec(), encode(&pl)]);
    assert_eq!(batch.messages[3], vec![b"entities/end".to_vec()]);
}

#[test]
fn empty_drawing_gives_bare_batch() {
    let batch = convert_drawing(&drawing(vec![], vec![])).unwrap();
    assert_eq!(batch.messages.len(), 3);
    assert!(batch.skipped.is_empty());
}

#[test]
fn unknown_block_is_reported() {
    let d = drawing(
        vec![
            SourceEntity::Polyline(vec![pt(0.0, 0.0, 0.0), pt(1.0, 0.0, 0.0)]),
            SourceEntity::Insert(b"missing".to_vec()),
            SourceEntity::Insert(b"also missing".to_vec()),
        ],
        vec![SourceBlock { name: b"present".to_vec(), entities: vec![] }],
    );
    assert_eq!(convert_drawing(&d).err(), Some(ConvertError::UnknownBlockReference(1)));
}
