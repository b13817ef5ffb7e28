use xelgui::render::glyph_cache::{CachedGlyph, GlyphAtlas, GlyphCache};

fn px(atlas: &GlyphAtlas, x: usize, y: usize) -> [u8; 4] {
    let (data, size, _) = atlas.atlas_texture_data();
    let i = (y * size as usize + x) * 4;
    [data[i], data[i + 1], data[i + 2], data[i + 3]]
}

#[test]
fn atlas_starts_empty() {
    let a = GlyphAtlas::new(8);
    let (data, w, h) = a.atlas_texture_data();
    assert_eq!((w, h), (8, 8));
    assert_eq!(data.len(), 8 * 8 * 4);
    assert!(data.iter().all(|b| *b == 0));
    assert!(!a.is_dirty());
    assert_eq!(a.lookup('a', 16), None);
}

#[test]
fn atlas_stores_bitmap_as_white_rgba() {
    let mut a = GlyphAtlas::new(8);
    let bitmap = [10u8, 20, 30, 40, 50, 60];
    let g = a.insert_rasterized('a', 16, 3, 2, &bitmap, 0x4100_0000, -1, 2).unwrap();
    assert_eq!(
        g,
        CachedGlyph {
            atlas_x: 0,
            atlas_y: 0,
            width: 3,
            height: 2,
            advance_width_bits: 0x4100_0000,
            xmin: -1,
            ymin: 2
        }
    );
    assert_eq!(px(&a, 0, 0), [255, 255, 255, 10]);
    assert_eq!(px(&a, 2, 0), [255, 255, 255, 30]);
    assert_eq!(px(&a, 1, 1), [255, 255, 255, 50]);
    assert_eq!(px(&a, 3, 0), [0, 0, 0, 0]);
    assert_eq!(px(&a, 0, 2), [0, 0, 0, 0]);
    assert!(a.is_dirty());
    a.clear_dirty();
    assert!(!a.is_dirty());
    assert_eq!(a.lookup('a', 16), Some(g));
    assert_eq!(a.lookup('a', 17), None);
}

#[test]
fn atlas_hit_returns_cached_glyph_unchanged() {
    let mut a = GlyphAtlas::new(8);
    let g = a.insert_rasterized('a', 16, 1, 1, &[7], 1, 0, 0).unwrap();
    a.clear_dirty();
    let again = a.insert_rasterized('a', 16, 2, 2, &[1, 2, 3, 4], 9, 9, 9).unwrap();
    assert_eq!(again, g);
    assert!(!a.is_dirty());
    assert_eq!(px(&a, 1, 0), [0, 0, 0, 0]);
}

#[test]
fn atlas_empty_bitmap_takes_no_space() {
    let mut a = GlyphAtlas::new(8);
    let g = a.insert_rasterized(' ', 16, 4, 0, &[], 0x4080_0000, 0, 0).unwrap();
    assert_eq!((g.atlas_x, g.atlas_y, g.width, g.height), (0, 0, 0, 0));
    assert_eq!(g.advance_width_bits, 0x4080_0000);
    let h = a.insert_rasterized('b', 16, 2, 2, &[1, 1, 1, 1], 0, 0, 0).unwrap();
    assert_eq!((h.atlas_x, h.atlas_y), (0, 0));
}

#[test]
fn atlas_packs_shelves() {
    let mut a = GlyphAtlas::new(8);
    let b = [255u8; 64];
    let g1 = a.insert_rasterized('a', 1, 5, 3, &b, 0, 0, 0).unwrap();
    let g2 = a.insert_rasterized('b', 1, 3, 2, &b, 0, 0, 0).unwrap();
    let g3 = a.insert_rasterized('c', 1, 2, 4, &b, 0, 0, 0).unwrap();
    assert_eq!((g1.atlas_x, g1.atlas_y), (0, 0));
    assert_eq!((g2.atlas_x, g2.atlas_y), (5, 0));
    // does not fit after 8 columns: new shelf below the tallest glyph (3)
    assert_eq!((g3.atlas_x, g3.atlas_y), (0, 3));
    let g4 = a.insert_rasterized('d', 1, 6, 1, &b, 0, 0, 0).unwrap();
    assert_eq!((g4.atlas_x, g4.atlas_y), (2, 3));
}

#[test]
fn atlas_full_returns_none() {
    let mut a = GlyphAtlas::new(4);
    let b = [1u8; 16];
    assert!(a.insert_rasterized('a', 1, 4, 3, &b, 0, 0, 0).is_some());
    assert_eq!(a.insert_rasterized('b', 1, 2, 2, &b, 0, 0, 0), None);
    assert_eq!(a.lookup('b', 1), None);
    // the failed request started a new shelf; a short glyph still fits there
    let c = a.insert_rasterized('c', 1, 2, 1, &b, 0, 0, 0).unwrap();
    assert_eq!((c.atlas_x, c.atlas_y), (0, 3));
}

#[test]
fn atlas_can_insert_checks_bounds() {
    let a = GlyphAtlas::new(4);
    assert!(a.can_insert('a', 1, 2, 2, 4));
    assert!(!a.can_insert('a', 1, 2, 2, 3));
    assert!(a.can_insert('a', 1, 2, 9, 1));
    assert!(a.can_insert('a', 1, 2, 2, 0));
}

#[test]
fn cache_rejects_bytes_that_are_no_font() {
    match GlyphCache::new(&[1, 2, 3, 4, 5], 64) {
        Ok(_) => panic!("garbage parsed as a font"),
        Err(e) => assert_eq!(
            e,
            "加载字体失败: Face data must start with 0x00010000, 0x74727565, 0x4F54544F or 0x74746366."
        ),
    }
    assert!(GlyphCache::new(&[], 16).is_err());
}

#[test]
fn atlas_glyphs_never_overlap() {
    let mut a = GlyphAtlas::new(32);
    let b = [9u8; 1024];
    let mut placed: Vec<CachedGlyph> = Vec::new();
    let sizes = [(5, 3), (7, 9), (2, 2), (12, 4), (30, 1), (1, 8), (6, 6), (9, 5), (4, 11), (3, 3)];
    for (i, &(w, h)) in sizes.iter().enumerate() {
        if let Some(g) = a.insert_rasterized('a', i as u32, w, h, &b, 0, 0, 0) {
            placed.push(g);
        }
    }
    assert!(placed.len() >= 8);
    for (i, g) in placed.iter().enumerate() {
        assert!(g.atlas_x + g.width <= 32 && g.atlas_y + g.height <= 32);
        for h in &placed[i + 1..] {
            let apart = g.atlas_x + g.width <= h.atlas_x
                || h.atlas_x + h.width <= g.atlas_x
                || g.atlas_y + g.height <= h.atlas_y
                || h.atlas_y + h.height <= g.atlas_y;
            assert!(apart, "{:?} overlaps {:?}", g, h);
        }
    }
}

#[test]
fn atlas_other_glyphs_unchanged_by_insert() {
    let mut a = GlyphAtlas::new(16);
    let g = a.insert_rasterized('x', 8, 2, 2, &[1, 2, 3, 4], 0, 0, 0).unwrap();
    a.insert_rasterized('y', 8, 3, 3, &[5; 9], 0, 0, 0).unwrap();
    assert_eq!(a.lookup('x', 8), Some(g));
    assert_eq!(px(&a, 1, 1), [255, 255, 255, 4]);
}

#[test]
fn cache_checked_new_reports_oversized_atlas_only_for_fonts() {
    match GlyphCache::new_checked(&[1, 2, 3, 4, 5], 40_000) {
        Some(Err(e)) => assert!(e.starts_with("加载字体失败: ")),
        _ => panic!("garbage bytes must give the loader's error"),
    }
    match GlyphCache::new(&[1, 2, 3], 70_000) {
        Ok(_) => panic!("garbage parsed as a font"),
        Err(e) => assert!(e.starts_with("加载字体失败: ")),
    }
    assert!(matches!(GlyphCache::new_checked(&[], 16), Some(Err(_))));
}

#[test]
fn atlas_pixels_stay_blank_or_white() {
    let mut a = GlyphAtlas::new(16);
    a.insert_rasterized('a', 1, 3, 3, &[0, 1, 2, 3, 4, 5, 6, 7, 8], 0, 0, 0).unwrap();
    a.insert_rasterized('b', 1, 14, 2, &[0u8; 28], 0, 0, 0).unwrap();
    let (data, _, _) = a.atlas_texture_data();
    for p in data.chunks(4) {
        assert!(p[0] == p[1] && p[1] == p[2]);
        assert!(p[0] == 0 || p[0] == 255);
        if p[0] == 0 {
            assert_eq!(p[3], 0);
        }
    }
    assert_eq!(px(&a, 0, 0), [255, 255, 255, 0]);
}

#[test]
fn atlas_dirty_only_after_new_glyph() {
    let mut a = GlyphAtlas::new(4);
    let b = [1u8; 16];
    a.insert_rasterized('a', 1, 4, 3, &b, 0, 0, 0).unwrap();
    a.clear_dirty();
    let before = a.atlas_texture_data().0.to_vec();
    assert_eq!(a.lookup('a', 1).map(|g| g.width), Some(4));
    // a hit and a refusal for a full atlas leave the flag clear
    a.insert_rasterized('a', 1, 1, 1, &b, 0, 0, 0).unwrap();
    assert_eq!(a.insert_rasterized('b', 1, 2, 2, &b, 0, 0, 0), None);
    assert!(!a.is_dirty());
    assert_eq!(a.atlas_texture_data().0, &before[..]);
    // an empty glyph is a new glyph
    a.insert_rasterized(' ', 1, 0, 0, &[], 0, 0, 0).unwrap();
    assert!(a.is_dirty());
}
