use vhapi::entity::{
    BaseEntity, GroupEntity, MarkerEntity, PointEntity, PolylineEntity, PolylineEntityVertex,
};
use vhapi::wire::{mp_array_size_hint, mp_ext_size_hint};

fn grey_point(x: f32, y: f32, z: f32) -> PointEntity {
    PointEntity { x: x.to_bits(), y: y.to_bits(), z: z.to_bits(), r: 0xcc, g: 0xcc, b: 0xcc }
}

fn encode(e: &BaseEntity) -> Vec<u8> {
    let mut buf = Vec::new();
    e.serialize(&mut buf);
    buf
}

#[test]
fn array_header_boundaries() {
    assert_eq!(mp_array_size_hint(0), 1);
    assert_eq!(mp_array_size_hint(15), 1);
    assert_eq!(mp_array_size_hint(16), 3);
    assert_eq!(mp_array_size_hint(65535), 3);
    assert_eq!(mp_array_size_hint(65536), 5);
}

#[test]
fn ext_header_boundaries() {
    for c in [1u32, 2, 4, 8, 16] {
        assert_eq!(mp_ext_size_hint(c), 2);
    }
    assert_eq!(mp_ext_size_hint(0), 3);
    assert_eq!(mp_ext_size_hint(3), 3);
    assert_eq!(mp_ext_size_hint(17), 3);
    assert_eq!(mp_ext_size_hint(255), 3);
    assert_eq!(mp_ext_size_hint(256), 4);
    assert_eq!(mp_ext_size_hint(65535), 4);
    assert_eq!(mp_ext_size_hint(65536), 6);
}

#[test]
fn point_bytes_exact() {
    let p = PointEntity { x: 1.0f32.to_bits(), y: 0, z: 0, r: 200, g: 100, b: 0 };
    let mut buf = Vec::new();
    p.serialize(&mut buf);
    let expected: Vec<u8> = vec![
        0xc7, 19, 0x01, 0xca, 0x3f, 0x80, 0, 0, 0xca, 0, 0, 0, 0, 0xca, 0, 0, 0, 0, 0xcc, 200,
        100, 0,
    ];
    assert_eq!(buf, expected);
    assert_eq!(p.size_hint(), buf.len());
}

#[test]
fn grey_point_takes_24_bytes() {
    let p = grey_point(1.5, -2.0, 3.25);
    let mut buf = Vec::new();
    p.serialize(&mut buf);
    assert_eq!(buf.len(), 24);
    assert_eq!(&buf[..3], &[0xc7, 21, 0x01]);
    assert_eq!(&buf[3..8], &[0xca, 0x3f, 0xc0, 0, 0]);
    assert_eq!(p.size_hint(), 24);
}

#[test]
fn new_point_is_origin() {
    let p = PointEntity::new();
    assert_eq!(p, PointEntity { x: 0, y: 0, z: 0, r: 0, g: 0, b: 0 });
    assert_eq!(p.size_hint(), 21);
}

#[test]
fn marker_bytes_exact() {
    let m = MarkerEntity::new();
    let mut buf = Vec::new();
    m.serialize(&mut buf);
    assert_eq!(buf, vec![0xd4, 0x03, 0x00]);
    assert_eq!(m.size_hint(), 3);
}

#[test]
fn estimate_matches_encoding_for_every_kind() {
    let mut pl = PolylineEntity::new();
    for i in 0..20u32 {
        pl.vertices.push(PolylineEntityVertex {
            p: PointEntity { x: i, y: 2 * i, z: 0, r: i as u8 * 10, g: 0xff, b: 7 },
            thickness: 1.0f32.to_bits(),
        });
    }
    let mut inner = GroupEntity::new();
    inner.entities.push(BaseEntity::MarkerEntity(MarkerEntity::new()));
    inner.entities.push(BaseEntity::PointEntity(grey_point(0.0, 1.0, 2.0)));
    let mut outer = GroupEntity::new();
    outer.entities.push(BaseEntity::GroupEntity(inner));
    outer.entities.push(BaseEntity::PointEntity(PointEntity::new()));
    let entities = vec![
        BaseEntity::PointEntity(grey_point(1.0, 2.0, 3.0)),
        BaseEntity::PointEntity(PointEntity::new()),
        BaseEntity::MarkerEntity(MarkerEntity::new()),
        BaseEntity::PolylineEntity(PolylineEntity::new()),
        BaseEntity::PolylineEntity(pl),
        BaseEntity::GroupEntity(GroupEntity::new()),
        BaseEntity::GroupEntity(outer),
    ];
    for e in &entities {
        assert!(e.fits());
        assert_eq!(e.size_hint(), encode(e).len());
    }
}

#[test]
fn polyline_with_sixteen_vertices_uses_long_array_header() {
    let mut pl = PolylineEntity::new();
    for _ in 0..16 {
        pl.vertices.push(PolylineEntityVertex { p: grey_point(0.0, 0.0, 0.0), thickness: 0 });
    }
    let mut buf = Vec::new();
    pl.serialize(&mut buf);
    // 16 vertices of 26 bytes behind a 3-byte array header: 419 bytes of payload.
    assert_eq!(&buf[..6], &[0xc8, 0x01, 0xa3, 0x02, 0xdc, 0x00]);
    assert_eq!(buf[6], 16);
    assert_eq!(buf.len(), 4 + 419);
    assert_eq!(pl.size_hint(), buf.len());
}

#[test]
fn group_of_points_and_marker() {
    let mut g = GroupEntity::new();
    g.entities.push(BaseEntity::PointEntity(grey_point(1.0, 0.0, 0.0)));
    g.entities.push(BaseEntity::PointEntity(grey_point(0.0, 1.0, 0.0)));
    g.entities.push(BaseEntity::MarkerEntity(MarkerEntity::new()));
    let children: usize = g.entities.iter().map(|e| e.size_hint()).sum();
    assert_eq!(children, 24 + 24 + 3);
    let mut buf = Vec::new();
    g.serialize(&mut buf);
    // declared length: the array header and the children
    assert_eq!(&buf[..4], &[0xc7, (1 + children) as u8, 0x04, 0x93]);
    assert_eq!(buf.len(), 3 + 1 + children);
    assert_eq!(g.size_hint(), buf.len());
    let mut first = Vec::new();
    grey_point(1.0, 0.0, 0.0).serialize(&mut first);
    let mut second = Vec::new();
    grey_point(0.0, 1.0, 0.0).serialize(&mut second);
    assert_eq!(&buf[4..28], &first[..]);
    assert_eq!(&buf[28..52], &second[..]);
    assert_eq!(&buf[52..], &[0xd4, 0x03, 0x00]);
}
