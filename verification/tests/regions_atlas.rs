use ass_renderer::atlas::{AtlasRegion, TextureAtlas};
use ass_renderer::regions::DirtyRegion;

#[test]
fn dirty_region_new_keeps_fields() {
    let r = DirtyRegion::new(1, 2, 3, 4);
    assert_eq!(r, DirtyRegion { x: 1, y: 2, width: 3, height: 4 });
}

#[test]
fn full_screen_intersects_everything() {
    let f = DirtyRegion::full_screen();
    assert!(f.intersects((0, 0, 0, 0)));
    assert!(f.intersects((5000, 6000, 7000, 8000)));
    assert!(f.intersects((u32::MAX, u32::MAX, u32::MAX, u32::MAX)));
}

#[test]
fn intersects_uses_closed_bounds() {
    let r = DirtyRegion::new(10, 10, 5, 5);
    assert!(!r.intersects((0, 0, 9, 9)));
    assert!(r.intersects((0, 0, 10, 10)));
    assert!(r.intersects((15, 15, 20, 20)));
    assert!(!r.intersects((16, 0, 20, 20)));
}

#[test]
fn merge_gives_bounding_box() {
    let a = DirtyRegion::new(0, 0, 10, 10);
    let b = DirtyRegion::new(5, 5, 10, 10);
    assert_eq!(a.merge(&b), DirtyRegion::new(0, 0, 15, 15));
    assert_eq!(b.merge(&a), DirtyRegion::new(0, 0, 15, 15));
    assert_eq!(a.merge(&a), a);
}

#[test]
fn contains_point_is_half_open() {
    let r = DirtyRegion::new(10, 10, 5, 5);
    assert!(r.contains_point(10, 10));
    assert!(r.contains_point(14, 14));
    assert!(!r.contains_point(15, 14));
    assert!(!r.contains_point(9, 12));
}

#[test]
fn area_multiplies_in_u64() {
    assert_eq!(DirtyRegion::new(0, 0, 3, 4).area(), 12);
    assert_eq!(DirtyRegion::full_screen().area(), (u32::MAX as u64) * (u32::MAX as u64));
}

#[test]
fn atlas_starts_zeroed() {
    let atlas = TextureAtlas::new(16, 16);
    assert_eq!(atlas.data().len(), 16 * 16 * 4);
    assert!(atlas.data().iter().all(|&b| b == 0));
}

#[test]
fn atlas_packs_rows() {
    let mut atlas = TextureAtlas::new(16, 16);
    let a = atlas.allocate(8, 8).unwrap();
    let b = atlas.allocate(8, 8).unwrap();
    let c = atlas.allocate(8, 8).unwrap();
    let d = atlas.allocate(8, 8).unwrap();
    assert_eq!((a.id, a.x, a.y), (0, 0, 0));
    assert_eq!((b.id, b.x, b.y), (1, 8, 0));
    assert_eq!((c.id, c.x, c.y), (2, 0, 8));
    assert_eq!((d.id, d.x, d.y), (3, 8, 8));
    assert!(atlas.allocate(1, 1).is_none());
}

#[test]
fn atlas_full_height_is_refused() {
    let mut atlas = TextureAtlas::new(4, 4);
    assert!(atlas.allocate(2, 5).is_none());
    let r = atlas.allocate(2, 4).unwrap();
    assert_eq!((r.x, r.y, r.width, r.height), (0, 0, 2, 4));
}

#[test]
fn atlas_write_region_copies_rows() {
    let mut atlas = TextureAtlas::new(4, 4);
    let region = AtlasRegion { id: 0, x: 1, y: 1, width: 2, height: 2 };
    let src: Vec<u8> = (1..=16).collect();
    atlas.write_region(&region, &src);
    let d = atlas.data();
    // row 1, columns 1..3
    assert_eq!(&d[20..28], &src[0..8]);
    // row 2, columns 1..3
    assert_eq!(&d[36..44], &src[8..16]);
    assert_eq!(d[16], 0);
    assert_eq!(d[28], 0);
}

#[test]
fn atlas_write_region_skips_short_source_rows() {
    let mut atlas = TextureAtlas::new(4, 4);
    let region = AtlasRegion { id: 0, x: 0, y: 0, width: 2, height: 2 };
    let src = vec![9u8; 10];
    atlas.write_region(&region, &src);
    let d = atlas.data();
    assert_eq!(&d[0..8], &[9u8; 8]);
    assert_eq!(&d[16..24], &[0u8; 8]);
}

#[test]
fn atlas_clear_resets_packing() {
    let mut atlas = TextureAtlas::new(4, 4);
    let region = atlas.allocate(2, 2).unwrap();
    atlas.write_region(&region, &[5u8; 16]);
    atlas.clear();
    assert!(atlas.data().iter().all(|&b| b == 0));
    let again = atlas.allocate(2, 2).unwrap();
    assert_eq!((again.id, again.x, again.y), (0, 0, 0));
}

#[test]
fn atlas_refuses_region_wider_than_itself() {
    let mut atlas = TextureAtlas::new(10, 10);
    assert!(atlas.allocate(20, 5).is_none());
    let r = atlas.allocate(10, 5).unwrap();
    assert_eq!((r.id, r.x, r.y, r.width, r.height), (0, 0, 0, 10, 5));
    assert!(atlas.allocate(11, 1).is_none());
    let s = atlas.allocate(4, 4).unwrap();
    assert_eq!((s.id, s.x, s.y), (1, 0, 5));
    assert!(s.x + s.width <= 10);
}
