//! The glyph atlas: one coverage texture that glyph bitmaps are packed into, shelf by
//! shelf, left to right, with a one-pixel gap around each.

use vstd::prelude::*;

verus! {

/// The gap kept between glyphs and along the atlas's top and left edges.
pub const PADDING: u32 = 1;

/// An atlas as plain values: its size, its coverage pixels row by row, where the next
/// glyph goes, the height of the current shelf, whether the pixels changed since the
/// last upload, and the extent of what has been placed.
pub struct AtlasView {
    pub width: u32,
    pub height: u32,
    pub pixels: Seq<u8>,
    pub cursor_x: u32,
    pub cursor_y: u32,
    pub shelf_height: u32,
    pub dirty: bool,
    pub max_used_x: u32,
    pub max_used_y: u32,
}

pub struct GlyphAtlas {
    width: u32,
    height: u32,
    pixels: Vec<u8>,
    cursor_x: u32,
    cursor_y: u32,
    shelf_height: u32,
    dirty: bool,
    max_used_x: u32,
    max_used_y: u32,
}

impl View for GlyphAtlas {
    type V = AtlasView;

    closed spec fn view(&self) -> AtlasView {
        AtlasView {
            width: self.width,
            height: self.height,
            pixels: self.pixels@,
            cursor_x: self.cursor_x,
            cursor_y: self.cursor_y,
            shelf_height: self.shelf_height,
            dirty: self.dirty,
            max_used_x: self.max_used_x,
            max_used_y: self.max_used_y,
        }
    }
}

pub open spec fn max_u32(a: u32, b: u32) -> u32 {
    if a >= b { a } else { b }
}

/// The atlas after asking for room for a `w` by `h` glyph, and the position given.
/// A glyph that does not fit in what is left of the shelf starts a new shelf below it,
/// one gap under the shelf's tallest glyph; one that then does not fit above the
/// bottom edge gets no room, and the new shelf stays started.
pub open spec fn allocated(a: AtlasView, w: u32, h: u32) -> (AtlasView, Option<(u32, u32)>) {
    let wrap = a.cursor_x + w + PADDING > a.width;
    let cx: u32 = if wrap { PADDING } else { a.cursor_x };
    let cy: u32 = if wrap { (a.cursor_y + a.shelf_height + PADDING) as u32 } else { a.cursor_y };
    let sh: u32 = if wrap { 0 } else { a.shelf_height };
    if cy + h + PADDING > a.height {
        (AtlasView { cursor_x: cx, cursor_y: cy, shelf_height: sh, ..a }, None)
    } else {
        (
            AtlasView {
                cursor_x: (cx + w + PADDING) as u32,
                cursor_y: cy,
                shelf_height: max_u32(sh, h),
                max_used_x: max_u32(a.max_used_x, (cx + w) as u32),
                max_used_y: max_u32(a.max_used_y, (cy + h) as u32),
                ..a
            },
            Some((cx, cy)),
        )
    }
}

/// The sums that asking for a `w` by `h` glyph adds up stay below `u32::MAX`.
pub open spec fn allocation_in_range(a: AtlasView, w: u32, h: u32) -> bool {
    &&& a.cursor_x + w + PADDING <= u32::MAX
    &&& PADDING + w + PADDING <= u32::MAX
    &&& a.cursor_y + a.shelf_height + PADDING + h + PADDING <= u32::MAX
}

/// `pixels` with row `row` of a `w`-wide bitmap copied to the `w` pixels from `dst` on.
pub open spec fn blit_row(pixels: Seq<u8>, bitmap: Seq<u8>, w: u32, row: int, dst: int) -> Seq<u8> {
    Seq::new(
        pixels.len(),
        |p: int|
            if dst <= p < dst + w {
                bitmap[row * w + (p - dst)]
            } else {
                pixels[p]
            },
    )
}

/// `pixels` after the first `rows` rows of a `w`-wide bitmap were copied, row `r` to
/// the `w` pixels from `(y + r) * width + x` on, later rows over earlier ones.
pub open spec fn blit_rows(
    pixels: Seq<u8>,
    bitmap: Seq<u8>,
    w: u32,
    x: u32,
    y: u32,
    width: u32,
    rows: nat,
) -> Seq<u8>
    decreases rows,
{
    if rows == 0 {
        pixels
    } else {
        let r = rows - 1;
        blit_row(blit_rows(pixels, bitmap, w, x, y, width, r as nat), bitmap, w, r, (y + r) * width + x)
    }
}

/// Copying an `h`-row, `w`-wide bitmap of `bitmap_len` bytes to `(x, y)` stays inside
/// the bitmap and the atlas, and its offsets stay below `u32::MAX`.
pub open spec fn blit_fits(a: AtlasView, bitmap_len: nat, w: u32, h: u32, x: u32, y: u32) -> bool {
    h == 0 || {
        &&& y + h - 1 <= u32::MAX
        &&& (y + h - 1) * a.width + x + w <= a.pixels.len()
        &&& (h - 1) * w <= u32::MAX
        &&& (h - 1) * w + w <= bitmap_len
    }
}

/// Where a glyph went.
#[derive(Debug, Clone, Copy, PartialEq, Eq, Structural)]
pub enum GlyphPlacement {
    /// The glyph has no pixels and needs no room.
    Empty,
    /// The glyph's bitmap was copied with its top left corner at this position.
    Placed { x: u32, y: u32 },
}

impl GlyphAtlas {
    /// The pixels cover the atlas exactly, and their count fits in a `u32`.
    pub closed spec fn wf(&self) -> bool {
        &&& self.width * self.height <= u32::MAX
        &&& self.pixels@.len() == self.width * self.height
    }

    /// An empty atlas of `width` by `height` pixels, to be uploaded, whose first glyph
    /// goes one gap in from the top left corner.
    pub fn new(width: u32, height: u32) -> (a: Self)
        requires
            width * height <= u32::MAX,
        ensures
            a.wf(),
            a@.width == width,
            a@.height == height,
            a@.pixels == Seq::new((width * height) as nat, |i: int| 0u8),
            a@.cursor_x == PADDING,
            a@.cursor_y == PADDING,
            a@.shelf_height == 0,
            a@.dirty,
            a@.max_used_x == 0,
            a@.max_used_y == 0,
    {
        let n = width * height;
        let pixels = vec![0u8; n as usize];
        assert(pixels@ =~= Seq::new((width * height) as nat, |i: int| 0u8));
        GlyphAtlas {
            width,
            height,
            pixels,
            cursor_x: PADDING,
            cursor_y: PADDING,
            shelf_height: 0,
            dirty: true,
            max_used_x: 0,
            max_used_y: 0,
        }
    }

    /// The atlas's width and height.
    pub fn size(&self) -> (r: (u32, u32))
        ensures
            r == (self@.width, self@.height),
    {
        (self.width, self.height)
    }

    /// How far right and down placed glyphs reach.
    pub fn used_bounds(&self) -> (r: (u32, u32))
        ensures
            r == (self@.max_used_x, self@.max_used_y),
    {
        (self.max_used_x, self.max_used_y)
    }

    /// Whether the pixels changed since the last upload.
    pub fn is_dirty(&self) -> (r: bool)
        ensures
            r == self@.dirty,
    {
        self.dirty
    }

    /// Whether `allocate(w, h)` can be asked without a sum passing `u32::MAX`.
    pub fn allocation_fits_u32(&self, w: u32, h: u32) -> (r: bool)
        ensures
            r == allocation_in_range(self@, w, h),
    {
        let cx = self.cursor_x as u64;
        let cy = self.cursor_y as u64;
        let sh = self.shelf_height as u64;
        let max = u32::MAX as u64;
        cx + w as u64 + 1 <= max && 2 + w as u64 <= max && cy + sh + 1 + h as u64 + 1 <= max
    }

    /// Finds room for a `w` by `h` glyph: the position of its top left corner, or
    /// `None` where the atlas is full. See `allocated`.
    pub fn allocate(&mut self, w: u32, h: u32) -> (r: Option<(u32, u32)>)
        requires
            old(self).wf(),
            allocation_in_range(old(self)@, w, h),
        ensures
            final(self).wf(),
            (final(self)@, r) == allocated(old(self)@, w, h),
    {
        if self.cursor_x + w + PADDING > self.width {
            self.cursor_x = PADDING;
            self.cursor_y = self.cursor_y + self.shelf_height + PADDING;
            self.shelf_height = 0;
        }
        if self.cursor_y + h + PADDING > self.height {
            return None;
        }
        let pos = (self.cursor_x, self.cursor_y);
        self.cursor_x = self.cursor_x + w + PADDING;
        if h > self.shelf_height {
            self.shelf_height = h;
        }
        if pos.0 + w > self.max_used_x {
            self.max_used_x = pos.0 + w;
        }
        if pos.1 + h > self.max_used_y {
            self.max_used_y = pos.1 + h;
        }
        Some(pos)
    }

    /// Whether `blit(bitmap, w, h, x, y)` stays inside the bitmap and the atlas.
    pub fn blit_fits(&self, bitmap_len: usize, w: u32, h: u32, x: u32, y: u32) -> (r: bool)
        requires
            self.wf(),
        ensures
            r == blit_fits(self@, bitmap_len as nat, w, h, x, y),
    {
        if h == 0 {
            return true;
        }
        let last_row = (y as u128) + (h as u128) - 1;
        let width = self.width as u128;
        let hm1 = (h as u128) - 1;
        proof {
            assert(last_row * width <= 0x2_0000_0000u128 * 0x1_0000_0000u128) by (nonlinear_arith)
                requires
                    last_row <= 0x2_0000_0000u128,
                    width <= 0x1_0000_0000u128,
            ;
            assert(hm1 * (w as u128) <= 0x1_0000_0000u128 * 0x1_0000_0000u128) by (nonlinear_arith)
                requires
                    hm1 <= 0x1_0000_0000u128,
                    w <= 0x1_0000_0000u128,
            ;
        }
        let end = last_row * width + (x as u128) + (w as u128);
        let src_last = hm1 * (w as u128);
        last_row <= u32::MAX as u128 && end <= self.pixels.len() as u128 && src_last <= u32::MAX as u128
            && src_last + (w as u128) <= bitmap_len as u128
    }

    /// Copies an `h`-row, `w`-wide coverage bitmap into the atlas with its top left
    /// corner at `(x, y)`, row by row, and marks the atlas as changed.
    pub fn blit(&mut self, bitmap: &[u8], w: u32, h: u32, x: u32, y: u32)
        requires
            old(self).wf(),
            blit_fits(old(self)@, bitmap@.len(), w, h, x, y),
        ensures
            final(self).wf(),
            final(self)@ == (AtlasView {
                pixels: blit_rows(old(self)@.pixels, bitmap@, w, x, y, old(self)@.width, h as nat),
                dirty: true,
                ..old(self)@
            }),
    {
        let ghost orig = self.pixels@;
        let width = self.width;
        let bitmap_len = bitmap.len();
        let mut row: u32 = 0;
        while row < h
            invariant
                row <= h,
                width == self.width,
                blit_fits(old(self)@, bitmap@.len(), w, h, x, y),
                old(self)@.width == width,
                orig == old(self)@.pixels,
                self.pixels@ == blit_rows(orig, bitmap@, w, x, y, width, row as nat),
                self.pixels@.len() == orig.len(),
                orig.len() == width * self.height,
                bitmap_len == bitmap@.len(),
                width * self.height <= u32::MAX,
                self.width == old(self).width,
                self.height == old(self).height,
                self.cursor_x == old(self).cursor_x,
                self.cursor_y == old(self).cursor_y,
                self.shelf_height == old(self).shelf_height,
                self.dirty == old(self).dirty,
                self.max_used_x == old(self).max_used_x,
                self.max_used_y == old(self).max_used_y,
            decreases h - row,
        {
            proof {
                assert((y + row) * width <= (y + h - 1) * width) by (nonlinear_arith)
                    requires
                        row <= h - 1,
                ;
                assert(row * w <= (h - 1) * w) by (nonlinear_arith)
                    requires
                        row <= h - 1,
                ;
            }
            let src_start = (row * w) as usize;
            let dst_start = ((y + row) * width + x) as usize;
            let ghost before = self.pixels@;
            let mut col: u32 = 0;
            while col < w
                invariant
                    col <= w,
                    row < h,
                    src_start == row * w,
                    dst_start == (y + row) * width + x,
                    dst_start + w <= before.len(),
                    before.len() <= u32::MAX,
                    src_start + w <= bitmap@.len(),
                    bitmap_len == bitmap@.len(),
                    self.pixels@.len() == before.len(),
                    self.pixels@ == Seq::new(
                        before.len(),
                        |p: int|
                            if dst_start <= p < dst_start + col {
                                bitmap@[row * w + (p - dst_start)]
                            } else {
                                before[p]
                            },
                    ),
                    self.width == old(self).width,
                    self.height == old(self).height,
                    self.cursor_x == old(self).cursor_x,
                    self.cursor_y == old(self).cursor_y,
                    self.shelf_height == old(self).shelf_height,
                    self.dirty == old(self).dirty,
                    self.max_used_x == old(self).max_used_x,
                    self.max_used_y == old(self).max_used_y,
                decreases w - col,
            {
                let v = bitmap[src_start + col as usize];
                self.pixels.set(dst_start + col as usize, v);
                assert(self.pixels@ =~= Seq::new(
                    before.len(),
                    |p: int|
                        if dst_start <= p < dst_start + col + 1 {
                            bitmap@[row * w + (p - dst_start)]
                        } else {
                            before[p]
                        },
                ));
                col = col + 1;
            }
            assert(self.pixels@ =~= blit_row(before, bitmap@, w, row as int, (y + row) * width + x));
            row = row + 1;
        }
        self.dirty = true;
    }

    /// The pixels as white RGBA with each coverage value as alpha, as uploaded.
    pub fn rgba_pixels(&self) -> (r: Vec<u8>)
        requires
            self.wf(),
        ensures
            r@.len() == 4 * self@.pixels.len(),
            forall|i: int| 0 <= i < self@.pixels.len() ==> {
                &&& #[trigger] r@[4 * i] == 255
                &&& r@[4 * i + 1] == 255
                &&& r@[4 * i + 2] == 255
                &&& r@[4 * i + 3] == self@.pixels[i]
            },
    {
        let n = self.pixels.len();
        let mut r: Vec<u8> = Vec::new();
        let mut i: usize = 0;
        while i < n
            invariant
                i <= n,
                n == self@.pixels.len(),
                n <= u32::MAX,
                r@.len() == 4 * i,
                forall|k: int| 0 <= k < i ==> {
                    &&& #[trigger] r@[4 * k] == 255
                    &&& r@[4 * k + 1] == 255
                    &&& r@[4 * k + 2] == 255
                    &&& r@[4 * k + 3] == self@.pixels[k]
                },
            decreases n - i,
        {
            let c = self.pixels[i];
            let ghost before = r@;
            r.push(255);
            r.push(255);
            r.push(255);
            r.push(c);
            proof {
                assert(r@ =~= before + seq![255u8, 255u8, 255u8, c]);
                assert forall|k: int| 0 <= k < i + 1 implies {
                    &&& #[trigger] r@[4 * k] == 255
                    &&& r@[4 * k + 1] == 255
                    &&& r@[4 * k + 2] == 255
                    &&& r@[4 * k + 3] == self@.pixels[k]
                } by {
                    if k < i {
                        assert(r@[4 * k] == before[4 * k]);
                        assert(r@[4 * k + 1] == before[4 * k + 1]);
                        assert(r@[4 * k + 2] == before[4 * k + 2]);
                        assert(r@[4 * k + 3] == before[4 * k + 3]);
                    }
                }
            }
            i = i + 1;
        }
        r
    }

    /// Where `allocate(w, h)` would put a glyph, leaving the atlas as it is.
    pub fn peek_allocation(&self, w: u32, h: u32) -> (r: Option<(u32, u32)>)
        requires
            allocation_in_range(self@, w, h),
        ensures
            r == allocated(self@, w, h).1,
    {
        let wrap = self.cursor_x + w + PADDING > self.width;
        let cx = if wrap { PADDING } else { self.cursor_x };
        let cy = if wrap { self.cursor_y + self.shelf_height + PADDING } else { self.cursor_y };
        if cy + h + PADDING > self.height {
            None
        } else {
            Some((cx, cy))
        }
    }

    /// Places a glyph's `h`-row, `w`-wide coverage bitmap: a glyph without pixels needs
    /// no room; another gets room as `allocate` finds it and its bitmap copied there,
    /// or `None` where the atlas is full.
    pub fn place_glyph(&mut self, bitmap: &[u8], w: u32, h: u32) -> (r: Option<GlyphPlacement>)
        requires
            old(self).wf(),
            w > 0 && h > 0 ==> allocation_in_range(old(self)@, w, h),
            w > 0 && h > 0 ==> (allocated(old(self)@, w, h).1 matches Some((x, y)) ==> blit_fits(
                allocated(old(self)@, w, h).0,
                bitmap@.len(),
                w,
                h,
                x,
                y,
            )),
        ensures
            final(self).wf(),
            w == 0 || h == 0 ==> r == Some(GlyphPlacement::Empty) && final(self)@ == old(self)@,
            w > 0 && h > 0 ==> match allocated(old(self)@, w, h).1 {
                None => r is None && final(self)@ == allocated(old(self)@, w, h).0,
                Some((x, y)) => {
                    let a = allocated(old(self)@, w, h).0;
                    &&& r == Some(GlyphPlacement::Placed { x, y })
                    &&& final(self)@ == (AtlasView {
                        pixels: blit_rows(a.pixels, bitmap@, w, x, y, a.width, h as nat),
                        dirty: true,
                        ..a
                    })
                },
            },
    {
        if w == 0 || h == 0 {
            return Some(GlyphPlacement::Empty);
        }
        match self.allocate(w, h) {
            Some((x, y)) => {
                self.blit(bitmap, w, h, x, y);
                Some(GlyphPlacement::Placed { x, y })
            },
            None => None,
        }
    }

    /// Records that the pixels were uploaded; nothing else changes.
    pub fn mark_uploaded(&mut self)
        requires
            old(self).wf(),
        ensures
            final(self).wf(),
            final(self)@ == (AtlasView { dirty: false, ..old(self)@ }),
    {
        self.dirty = false;
    }
}

} // verus!
