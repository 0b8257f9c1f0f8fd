use rustty::font::cache::cache_table::{validate_params_const, CacheTable};
use rustty::font::cache::glyph_cache::{
    CachedGlyph, GlyphAtlasKind, GlyphCache, GlyphKey, GlyphRenderOptions,
};
use rustty::font::cache::shaped_run_cache::ShapedRunCache;
use rustty::font::types::{Cell, FontIndex, Style};
use std::cell::Cell as Count;
use std::hash::BuildHasher;
use std::rc::Rc;

#[test]
fn basic_put_get_eviction() {
    let mut t = CacheTable::<u32, u32, 2, 2>::new();

    assert!(t.put(0, 0, 10).is_none());
    assert!(t.put(1, 1, 11).is_none());
    assert!(t.put(2, 2, 12).is_none());
    assert!(t.put(3, 3, 13).is_none());

    let evicted = t.put(4, 4, 14);
    assert_eq!(evicted, Some((0, 10)));

    assert!(t.get(0, |k| *k == 0).is_none());
    assert_eq!(t.get(4, |k| *k == 4), Some(&14));
}

#[test]
fn get_promotes_to_most_recent() {
    let mut t = CacheTable::<u32, u32, 2, 3>::new();
    t.put(0, 0, 100);
    t.put(2, 2, 200);
    t.put(4, 4, 300);
    assert_eq!(t.get(0, |k| *k == 0), Some(&100));
    let evicted = t.put(6, 6, 400);
    assert_eq!(evicted, Some((2, 200)));
}

#[test]
fn clear_calls_eviction() {
    let mut t = CacheTable::<u32, u32, 4, 2>::new();
    t.put(0, 0, 0);
    t.put(1, 1, 1);
    t.put(2, 2, 2);

    let mut evicted = Vec::new();
    t.clear(|k, v| evicted.push((k, v)));
    assert_eq!(evicted.len(), 3);

    assert!(t.get(0, |k| *k == 0).is_none());
}

struct Counted(Rc<Count<u32>>);

impl Drop for Counted {
    fn drop(&mut self) {
        self.0.set(self.0.get() + 1);
    }
}

#[test]
fn drop_runs_destructors() {
    let drops = Rc::new(Count::new(0u32));
    {
        let mut t = CacheTable::<u32, Counted, 2, 2>::new();
        t.put(0, 0, Counted(drops.clone()));
        t.put(1, 1, Counted(drops.clone()));
        t.put(2, 2, Counted(drops.clone()));
    }
    assert_eq!(drops.get(), 3);
}

#[test]
fn eviction_drops_value() {
    let drops = Rc::new(Count::new(0u32));
    let mut t = CacheTable::<u32, Counted, 2, 1>::new();
    t.put(0, 0, Counted(drops.clone()));
    assert_eq!(drops.get(), 0);
    let evicted = t.put(2, 2, Counted(drops.clone()));
    assert!(evicted.is_some());
    drop(evicted);
    assert_eq!(drops.get(), 1);
}

#[test]
fn cache_parameters_are_checked() {
    assert!(validate_params_const::<256, 8>());
    assert!(!validate_params_const::<3, 8>());
    assert!(!validate_params_const::<4, 0>());
}

#[test]
fn draining_empties_the_table() {
    let mut t = CacheTable::<u32, u32, 2, 2>::new();
    t.put(0, 0, 10);
    t.put(1, 1, 11);
    let mut entries = t.drain();
    entries.sort();
    assert_eq!(entries, vec![(0, 10), (1, 11)]);
    assert!(t.get(0, |_| true).is_none());
    t.put(0, 5, 50);
    t.clear_no_evict();
    assert!(t.get(0, |_| true).is_none());
}

fn test_key(glyph_index: u32) -> GlyphKey {
    let face = FontIndex::new(Style::Normal, 0);
    GlyphKey::new(face, glyph_index, GlyphRenderOptions::default())
}

fn test_glyph(atlas_x: u32) -> CachedGlyph {
    CachedGlyph {
        width: 8,
        height: 16,
        offset_x: 0,
        offset_y: 14,
        atlas_x,
        atlas_y: 0,
        atlas_kind: Some(GlyphAtlasKind::Grayscale),
        overlap_split: false,
    }
}

#[test]
fn glyph_cache_miss_then_hit() {
    let mut cache = GlyphCache::new();
    let key = test_key(42);
    assert!(cache.get(&key).is_none());

    cache.insert(key, test_glyph(10));
    let entry = cache.get(&key).unwrap();
    assert_eq!(entry.atlas_x, 10);
}

#[test]
fn get_or_insert_with_caches() {
    let mut cache = GlyphCache::new();
    let key = test_key(99);

    let mut calls = 0u32;
    let result: Result<&CachedGlyph, ()> = cache.get_or_insert_with(key, |_k| {
        calls += 1;
        Ok(test_glyph(20))
    });
    assert!(result.is_ok());
    assert_eq!(calls, 1);

    let _result: Result<&CachedGlyph, ()> = cache.get_or_insert_with(key, |_k| {
        calls += 1;
        Ok(test_glyph(30))
    });
    assert_eq!(calls, 1);
    assert_eq!(cache.get(&key).unwrap().atlas_x, 20);
}

#[test]
fn a_failed_glyph_is_not_cached() {
    let mut cache = GlyphCache::new();
    let key = test_key(7);
    let result: Result<&CachedGlyph, u8> = cache.get_or_insert_with(key, |_k| Err(3));
    assert_eq!(result.err(), Some(3));
    assert!(cache.get(&key).is_none());
}

#[test]
fn the_first_glyph_of_a_key_is_kept() {
    let mut cache = GlyphCache::new();
    let key = test_key(8);
    assert_eq!(cache.insert_or_get_existing(key, test_glyph(1)).atlas_x, 1);
    assert_eq!(cache.insert_or_get_existing(key, test_glyph(2)).atlas_x, 1);
    assert_eq!(cache.len(), 1);
}

#[test]
fn different_render_options_are_distinct() {
    let mut cache = GlyphCache::new();
    let face = FontIndex::new(Style::Normal, 0);
    let key_a = GlyphKey::new(face, 10, GlyphRenderOptions::default().with_cell_width(1));
    let key_b = GlyphKey::new(face, 10, GlyphRenderOptions::default().with_cell_width(2));
    cache.insert(key_a, test_glyph(100));
    cache.insert(key_b, test_glyph(200));
    assert_eq!(cache.get(&key_a).unwrap().atlas_x, 100);
    assert_eq!(cache.get(&key_b).unwrap().atlas_x, 200);
}

#[test]
fn glyph_cache_clear_empties_cache() {
    let mut cache = GlyphCache::new();
    cache.insert(test_key(1), test_glyph(0));
    cache.insert(test_key(2), test_glyph(0));
    assert_eq!(cache.len(), 2);
    cache.clear();
    assert!(cache.is_empty());
}

#[test]
fn position_not_in_key() {
    let key = test_key(55);
    let mut cache = GlyphCache::new();
    cache.insert(key, test_glyph(77));
    assert_eq!(cache.get(&key).unwrap().atlas_x, 77);
}

#[test]
fn packed_roundtrip() {
    let face = FontIndex::new(Style::BoldItalic, 42);
    let opts = GlyphRenderOptions::default()
        .with_cell_width(2)
        .with_thicken(true)
        .with_thicken_strength(200)
        .with_constraint_width(3);
    let key = GlyphKey::new(face, 0xDEAD_BEEF, opts);

    assert_eq!(key.font_index(), face);
    assert_eq!(key.glyph_index(), 0xDEAD_BEEF);
    assert_eq!(key.packed_options(), opts.pack());
}

#[test]
fn packed_size() {
    assert_eq!(std::mem::size_of::<GlyphKey>(), 8);
}

#[test]
fn hash_consistency() {
    let state = rapidhash::fast::RandomState::default();
    let k1 = test_key(42);
    let k2 = test_key(42);
    assert_eq!(state.hash_one(k1), state.hash_one(k2));
}

#[test]
fn render_options_keep_their_fields() {
    let opts = GlyphRenderOptions::default()
        .with_constraint_width(3)
        .with_thicken_strength(77)
        .with_cell_width(2);
    assert_eq!(opts.cell_width(), 2);
    assert!(!opts.thicken());
    assert_eq!(opts.thicken_strength(), 77);
    assert_eq!(opts.constraint_width(), 3);
}

fn cell(x: u16, glyph: u32) -> Cell {
    Cell {
        x,
        x_offset: 0,
        y_offset: 0,
        glyph_index: glyph,
    }
}

#[test]
fn shaped_run_cache_miss_then_hit() {
    let mut cache = ShapedRunCache::new();
    assert!(cache.get(1).is_none());

    cache.put(1, &[cell(0, 42), cell(1, 43)]);

    let result = cache.get(1).unwrap();
    assert_eq!(result.len(), 2);
    assert_eq!(result[0].glyph_index, 42);
    assert_eq!(result[1].glyph_index, 43);
}

#[test]
fn eviction_frees_old_entry() {
    let mut cache = ShapedRunCache::new();
    for i in 0..9u64 {
        let hash = i * 256;
        cache.put(hash, &[cell(i as u16, i as u32)]);
    }
    assert!(cache.get(0).is_none());
    assert!(cache.get(8 * 256).is_some());
}

#[test]
fn shaped_run_cache_clear_empties_cache() {
    let mut cache = ShapedRunCache::new();
    cache.put(1, &[cell(0, 0)]);
    cache.clear();
    assert!(cache.get(1).is_none());
}
