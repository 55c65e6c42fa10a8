//! What holds of every run of glyph placements in an atlas.

use vstd::prelude::*;

use crate::glyph_atlas::{allocated, allocation_in_range, AtlasView, PADDING};

verus! {

/// A placed glyph: left, top, width, height.
pub type GlyphRect = (u32, u32, u32, u32);

/// At least one gap lies between the two glyphs, across or down.
pub open spec fn apart(a: GlyphRect, b: GlyphRect) -> bool {
    ||| a.0 + a.2 + PADDING <= b.0
    ||| b.0 + b.2 + PADDING <= a.0
    ||| a.1 + a.3 + PADDING <= b.1
    ||| b.1 + b.3 + PADDING <= a.1
}

/// What an atlas and the glyphs placed in it keep true: every glyph sits a gap in
/// from the top and left edges and a gap above the bottom edge, every two are apart,
/// and each lies above the current shelf or on it left of the cursor.
pub open spec fn packed(a: AtlasView, rects: Seq<GlyphRect>) -> bool {
    &&& PADDING <= a.cursor_x
    &&& PADDING <= a.cursor_y
    &&& forall|i: int| 0 <= i < rects.len() ==> {
        let r = #[trigger] rects[i];
        &&& PADDING <= r.0
        &&& PADDING <= r.1
        &&& r.1 + r.3 + PADDING <= a.height
        &&& (r.1 + r.3 + PADDING <= a.cursor_y || (r.1 == a.cursor_y && r.0 + r.2 + PADDING
            <= a.cursor_x && r.3 <= a.shelf_height))
    }
    &&& forall|i: int, j: int| 0 <= i < j < rects.len() ==> apart(#[trigger] rects[i], #[trigger] rects[j])
}

/// A fresh atlas, cursor one gap in from the corner and no shelf yet, holds no glyph
/// and keeps the packing true.
pub proof fn law_fresh_atlas_packed(a: AtlasView)
    requires
        a.cursor_x == PADDING,
        a.cursor_y == PADDING,
        a.shelf_height == 0,
    ensures
        packed(a, Seq::empty()),
{
}

/// Each glyph the atlas makes room for lies a gap inside its top, left and bottom
/// edges, and inside its right edge where it is at most two gaps narrower than the
/// atlas; it is apart from every glyph placed before; and the packing stays true,
/// whether or not room was found.
pub proof fn law_allocate_keeps_glyphs_apart(a: AtlasView, rects: Seq<GlyphRect>, w: u32, h: u32)
    requires
        packed(a, rects),
        allocation_in_range(a, w, h),
    ensures
        match allocated(a, w, h).1 {
            None => packed(allocated(a, w, h).0, rects),
            Some((x, y)) => {
                &&& packed(allocated(a, w, h).0, rects.push((x, y, w, h)))
                &&& PADDING <= x
                &&& PADDING <= y
                &&& y + h + PADDING <= a.height
                &&& (w + PADDING + PADDING <= a.width ==> x + w + PADDING <= a.width)
                &&& forall|i: int| 0 <= i < rects.len() ==> apart(#[trigger] rects[i], (x, y, w, h))
            },
        },
{
    let a2 = allocated(a, w, h).0;
    match allocated(a, w, h).1 {
        None => {
            assert forall|i: int| 0 <= i < rects.len() implies {
                let r = #[trigger] rects[i];
                &&& PADDING <= r.0
                &&& PADDING <= r.1
                &&& r.1 + r.3 + PADDING <= a2.height
                &&& (r.1 + r.3 + PADDING <= a2.cursor_y || (r.1 == a2.cursor_y && r.0 + r.2 + PADDING
                    <= a2.cursor_x && r.3 <= a2.shelf_height))
            } by {
                let r = rects[i];
            }
        },
        Some((x, y)) => {
            let n = (x, y, w, h);
            let s = rects.push(n);
            assert forall|i: int| 0 <= i < rects.len() implies apart(#[trigger] rects[i], n) by {
                let r = rects[i];
            }
            assert forall|i: int| 0 <= i < s.len() implies {
                let r = #[trigger] s[i];
                &&& PADDING <= r.0
                &&& PADDING <= r.1
                &&& r.1 + r.3 + PADDING <= a2.height
                &&& (r.1 + r.3 + PADDING <= a2.cursor_y || (r.1 == a2.cursor_y && r.0 + r.2 + PADDING
                    <= a2.cursor_x && r.3 <= a2.shelf_height))
            } by {
                if i < rects.len() {
                    assert(s[i] == rects[i]);
                    let r = rects[i];
                }
            }
            assert forall|i: int, j: int| 0 <= i < j < s.len() implies apart(#[trigger] s[i], #[trigger] s[j]) by {
                if j < rects.len() {
                    assert(s[i] == rects[i] && s[j] == rects[j]);
                } else {
                    assert(s[j] == n);
                    assert(s[i] == rects[i]);
                }
            }
        },
    }
}

/// The atlas after asking, in turn, for room for glyphs of the given widths and
/// heights, and the glyphs that got room, in the order they were placed.
pub open spec fn allocations(a: AtlasView, sizes: Seq<(u32, u32)>) -> (AtlasView, Seq<GlyphRect>)
    decreases sizes.len(),
{
    if sizes.len() == 0 {
        (a, Seq::empty())
    } else {
        let before = allocations(a, sizes.drop_last());
        let (w, h) = sizes.last();
        let step = allocated(before.0, w, h);
        match step.1 {
            Some((x, y)) => (step.0, before.1.push((x, y, w, h))),
            None => (step.0, before.1),
        }
    }
}

/// Every request of the run keeps its sums below `u32::MAX`, as `allocate` asks.
pub open spec fn allocations_in_range(a: AtlasView, sizes: Seq<(u32, u32)>) -> bool
    decreases sizes.len(),
{
    sizes.len() == 0 || {
        &&& allocations_in_range(a, sizes.drop_last())
        &&& allocation_in_range(allocations(a, sizes.drop_last()).0, sizes.last().0, sizes.last().1)
    }
}

/// Every glyph placed in a fresh atlas, over any run of requests, lies a gap inside
/// the atlas's top, left and bottom edges, and inside its right edge where it is at
/// most two gaps narrower than the atlas; and every two of them are apart.
pub proof fn law_fresh_atlas_glyphs_apart(a: AtlasView, sizes: Seq<(u32, u32)>)
    requires
        a.cursor_x == PADDING,
        a.cursor_y == PADDING,
        a.shelf_height == 0,
        allocations_in_range(a, sizes),
    ensures
        packed(allocations(a, sizes).0, allocations(a, sizes).1),
        allocations(a, sizes).0.width == a.width,
        allocations(a, sizes).0.height == a.height,
        forall|i: int| 0 <= i < allocations(a, sizes).1.len() ==> {
            let r = #[trigger] allocations(a, sizes).1[i];
            &&& PADDING <= r.0
            &&& PADDING <= r.1
            &&& r.1 + r.3 + PADDING <= a.height
            &&& (r.2 + PADDING + PADDING <= a.width ==> r.0 + r.2 + PADDING <= a.width)
        },
        forall|i: int, j: int| 0 <= i < j < allocations(a, sizes).1.len() ==> apart(
            #[trigger] allocations(a, sizes).1[i],
            #[trigger] allocations(a, sizes).1[j],
        ),
    decreases sizes.len(),
{
    if sizes.len() == 0 {
        law_fresh_atlas_packed(a);
    } else {
        let prev = sizes.drop_last();
        law_fresh_atlas_glyphs_apart(a, prev);
        let before = allocations(a, prev);
        let (w, h) = sizes.last();
        law_allocate_keeps_glyphs_apart(before.0, before.1, w, h);
        let after = allocations(a, sizes);
        match allocated(before.0, w, h).1 {
            Some((x, y)) => {
                assert(after.1 == before.1.push((x, y, w, h)));
                assert forall|i: int| 0 <= i < after.1.len() implies {
                    let r = #[trigger] after.1[i];
                    &&& PADDING <= r.0
                    &&& PADDING <= r.1
                    &&& r.1 + r.3 + PADDING <= a.height
                    &&& (r.2 + PADDING + PADDING <= a.width ==> r.0 + r.2 + PADDING <= a.width)
                } by {
                    if i < before.1.len() {
                        assert(after.1[i] == before.1[i]);
                    }
                }
            },
            None => {},
        }
    }
}

} // verus!
