use ass_renderer::glyph_cache::{CachedGlyph, GlyphCache, GlyphKey};

fn key(family: &str, id: u16) -> GlyphKey {
    GlyphKey { font_family: family.to_string(), glyph_id: id, size: 24, style_flags: 0 }
}

fn glyph(w: u32, advance: f32) -> CachedGlyph {
    CachedGlyph {
        bitmap: vec![255; (w * 2) as usize],
        width: w,
        height: 2,
        advance_bits: advance.to_bits(),
        bearing_x_bits: 0.5f32.to_bits(),
        bearing_y_bits: 10.0f32.to_bits(),
    }
}

#[test]
fn glyph_cache_starts_empty() {
    let cache = GlyphCache::new(4);
    assert!(cache.is_empty());
    assert_eq!(cache.len(), 0);
    assert!(cache.get(&key("Arial", 1)).is_none());
}

#[test]
fn glyph_cache_returns_what_was_inserted() {
    let mut cache = GlyphCache::new(4);
    cache.insert(key("Arial", 65), glyph(3, 7.25));
    assert_eq!(cache.len(), 1);
    assert!(!cache.is_empty());
    let g = cache.get(&key("Arial", 65)).expect("cached glyph");
    assert_eq!(g.width, 3);
    assert_eq!(g.bitmap.len(), 6);
    assert_eq!(f32::from_bits(g.advance_bits), 7.25);
    assert_eq!(f32::from_bits(g.bearing_y_bits), 10.0);
    assert!(cache.get(&key("Arial", 66)).is_none());
    assert!(cache.get(&key("Verdana", 65)).is_none());
}

#[test]
fn glyph_cache_insert_same_key_replaces() {
    let mut cache = GlyphCache::new(4);
    cache.insert(key("Arial", 65), glyph(3, 1.0));
    cache.insert(key("Arial", 65), glyph(5, 2.0));
    assert_eq!(cache.len(), 1);
    assert_eq!(cache.get(&key("Arial", 65)).unwrap().width, 5);
}

#[test]
fn glyph_cache_evicts_one_entry_when_full() {
    let mut cache = GlyphCache::new(2);
    cache.insert(key("Arial", 1), glyph(1, 1.0));
    cache.insert(key("Arial", 2), glyph(2, 1.0));
    assert_eq!(cache.len(), 2);
    cache.insert(key("Arial", 3), glyph(3, 1.0));
    assert_eq!(cache.len(), 2);
    assert_eq!(cache.get(&key("Arial", 3)).unwrap().width, 3);
    let kept_old = cache.get(&key("Arial", 1)).is_some() as usize
        + cache.get(&key("Arial", 2)).is_some() as usize;
    assert_eq!(kept_old, 1);
}

#[test]
fn glyph_cache_zero_capacity_still_holds_last_insert() {
    let mut cache = GlyphCache::new(0);
    cache.insert(key("Arial", 1), glyph(1, 1.0));
    assert_eq!(cache.len(), 1);
    cache.insert(key("Arial", 2), glyph(2, 1.0));
    assert_eq!(cache.len(), 1);
    assert!(cache.get(&key("Arial", 2)).is_some());
}

#[test]
fn glyph_cache_clear_removes_everything() {
    let mut cache = GlyphCache::new(8);
    cache.insert(key("Arial", 1), glyph(1, 1.0));
    cache.insert(key("Arial", 2), glyph(2, 1.0));
    cache.clear();
    assert!(cache.is_empty());
    assert!(cache.get(&key("Arial", 1)).is_none());
    cache.insert(key("Arial", 9), glyph(9, 1.0));
    assert_eq!(cache.len(), 1);
}
