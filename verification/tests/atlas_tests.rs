use nnbfl_preview::glyph_atlas::{GlyphAtlas, GlyphPlacement};

fn alpha_at(atlas: &GlyphAtlas, x: u32, y: u32) -> u8 {
    let (w, _) = atlas.size();
    atlas.rgba_pixels()[((y * w + x) * 4 + 3) as usize]
}

fn apart(a: (u32, u32, u32, u32), b: (u32, u32, u32, u32)) -> bool {
    a.0 + a.2 + 1 <= b.0 || b.0 + b.2 + 1 <= a.0 || a.1 + a.3 + 1 <= b.1 || b.1 + b.3 + 1 <= a.1
}

#[test]
fn a_new_atlas_is_blank_and_dirty() {
    let atlas = GlyphAtlas::new(16, 8);
    assert_eq!(atlas.size(), (16, 8));
    assert_eq!(atlas.used_bounds(), (0, 0));
    assert!(atlas.is_dirty());
    let rgba = atlas.rgba_pixels();
    assert_eq!(rgba.len(), 16 * 8 * 4);
    assert_eq!(&rgba[0..4], &[255, 255, 255, 0]);
}

#[test]
fn allocation_fills_shelves_left_to_right() {
    let mut atlas = GlyphAtlas::new(16, 8);
    assert_eq!(atlas.allocate(4, 3), Some((1, 1)));
    assert_eq!(atlas.allocate(4, 2), Some((6, 1)));
    assert_eq!(atlas.used_bounds(), (10, 4));
    // 11 + 6 + 1 > 16: a new shelf one gap under the tallest glyph.
    assert_eq!(atlas.allocate(6, 2), Some((1, 5)));
    assert_eq!(atlas.allocate(2, 2), Some((8, 5)));
    assert_eq!(atlas.used_bounds(), (10, 7));
    // No room above the bottom edge.
    assert_eq!(atlas.allocate(1, 3), None);
    assert_eq!(atlas.used_bounds(), (10, 7));
}

#[test]
fn a_full_atlas_still_starts_the_new_shelf() {
    let mut atlas = GlyphAtlas::new(8, 6);
    assert_eq!(atlas.allocate(5, 3), Some((1, 1)));
    assert_eq!(atlas.allocate(5, 3), None);
    // The failed request moved the cursor down below the first shelf.
    assert_eq!(atlas.allocate(1, 1), None);
    assert_eq!(atlas.allocate(2, 0), Some((1, 5)));
}

#[test]
fn allocations_are_apart_and_inside() {
    let mut atlas = GlyphAtlas::new(64, 64);
    let sizes = [(5, 7), (12, 3), (30, 9), (30, 9), (2, 2), (61, 4), (10, 10), (40, 20), (3, 30)];
    let mut placed = Vec::new();
    for (w, h) in sizes {
        assert!(atlas.allocation_fits_u32(w, h));
        if let Some((x, y)) = atlas.allocate(w, h) {
            assert!(x >= 1 && y >= 1);
            assert!(y + h + 1 <= 64);
            assert!(x + w + 1 <= 64);
            placed.push((x, y, w, h));
        }
    }
    assert!(placed.len() >= 6);
    for i in 0..placed.len() {
        for j in i + 1..placed.len() {
            assert!(apart(placed[i], placed[j]), "{:?} {:?}", placed[i], placed[j]);
        }
    }
}

#[test]
fn blit_copies_rows_and_marks_dirty() {
    let mut atlas = GlyphAtlas::new(8, 4);
    atlas.mark_uploaded();
    assert!(!atlas.is_dirty());
    let (x, y) = atlas.allocate(3, 2).unwrap();
    let bitmap = [10, 20, 30, 40, 50, 60];
    assert!(atlas.blit_fits(bitmap.len(), 3, 2, x, y));
    atlas.blit(&bitmap, 3, 2, x, y);
    assert!(atlas.is_dirty());
    assert_eq!(alpha_at(&atlas, 1, 1), 10);
    assert_eq!(alpha_at(&atlas, 3, 1), 30);
    assert_eq!(alpha_at(&atlas, 1, 2), 40);
    assert_eq!(alpha_at(&atlas, 3, 2), 60);
    assert_eq!(alpha_at(&atlas, 4, 1), 0);
    assert_eq!(alpha_at(&atlas, 0, 0), 0);
}

#[test]
fn blit_bounds() {
    let atlas = GlyphAtlas::new(8, 4);
    assert!(atlas.blit_fits(0, 3, 0, 100, 100));
    assert!(!atlas.blit_fits(5, 3, 2, 1, 1));
    assert!(atlas.blit_fits(6, 3, 2, 5, 2));
    assert!(!atlas.blit_fits(6, 3, 2, 6, 2));
    assert!(!atlas.blit_fits(6, 3, 2, 1, 3));
}

#[test]
fn wide_glyph_rows_run_into_the_next_row() {
    let mut atlas = GlyphAtlas::new(4, 4);
    let bitmap = [1, 2, 3, 4, 5, 6];
    assert!(atlas.blit_fits(bitmap.len(), 6, 1, 1, 1));
    atlas.blit(&bitmap, 6, 1, 1, 1);
    assert_eq!(alpha_at(&atlas, 1, 1), 1);
    assert_eq!(alpha_at(&atlas, 3, 1), 3);
    assert_eq!(alpha_at(&atlas, 0, 2), 4);
    assert_eq!(alpha_at(&atlas, 2, 2), 6);
}

#[test]
fn overflowing_requests_are_reported() {
    let atlas = GlyphAtlas::new(8, 4);
    assert!(!atlas.allocation_fits_u32(u32::MAX, 1));
    assert!(!atlas.allocation_fits_u32(1, u32::MAX - 1));
    assert!(atlas.allocation_fits_u32(100, 100));
}

#[test]
fn place_glyph_copies_the_bitmap_where_room_was_found() {
    let mut atlas = GlyphAtlas::new(8, 8);
    assert_eq!(atlas.place_glyph(&[], 0, 3), Some(GlyphPlacement::Empty));
    assert_eq!(atlas.peek_allocation(2, 2), Some((1, 1)));
    assert_eq!(atlas.place_glyph(&[9, 9, 9, 9], 2, 2), Some(GlyphPlacement::Placed { x: 1, y: 1 }));
    assert_eq!(alpha_at(&atlas, 1, 1), 9);
    assert_eq!(alpha_at(&atlas, 2, 2), 9);
    assert_eq!(alpha_at(&atlas, 3, 1), 0);
    assert_eq!(atlas.place_glyph(&[1; 20], 2, 10), None);
}
