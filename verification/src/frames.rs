//! Window frames: which texture a frame piece uses, and how a texture flip reorders
//! the four corners of a quad (top left, top right, bottom left, bottom right).

use vstd::prelude::*;

verus! {

/// How a texture is turned on its quad.
#[derive(Debug, Clone, Copy, PartialEq, Eq, Structural)]
pub enum TextureFlip {
    /// The texture as it is.
    Identity,
    FlipU,
    FlipV,
    Rotate90,
    Rotate180,
    Rotate270,
}

/// The corners `c` (top left, top right, bottom left, bottom right) after `flip`:
/// mirrored left to right, top to bottom, or both for a half turn. Quarter turns leave
/// the corners as they are.
pub open spec fn flipped<T>(flip: TextureFlip, c: Seq<T>) -> Seq<T> {
    match flip {
        TextureFlip::FlipU => seq![c[1], c[0], c[3], c[2]],
        TextureFlip::FlipV => seq![c[2], c[3], c[0], c[1]],
        TextureFlip::Rotate180 => seq![c[3], c[2], c[1], c[0]],
        _ => c,
    }
}

/// The corners after `texture_flip`; see `flipped`.
pub fn apply_texture_flip<T: Copy>(texture_flip: TextureFlip, uvs: [T; 4]) -> (r: [T; 4])
    ensures
        r@ == flipped(texture_flip, uvs@),
{
    let tl = uvs[0];
    let tr = uvs[1];
    let bl = uvs[2];
    let br = uvs[3];
    let r = match texture_flip {
        TextureFlip::FlipU => [tr, tl, br, bl],
        TextureFlip::FlipV => [bl, br, tl, tr],
        TextureFlip::Rotate180 => [br, bl, tr, tl],
        _ => uvs,
    };
    assert(r@ =~= flipped(texture_flip, uvs@));
    r
}

/// Mirroring twice, or turning half round twice, gives the corners back.
pub proof fn law_flip_twice_is_identity<T>(flip: TextureFlip, c: Seq<T>)
    requires
        c.len() == 4,
    ensures
        flipped(flip, flipped(flip, c)) == c,
{
    assert(flipped(flip, flipped(flip, c)) =~= c);
}

/// A half turn is a mirror left to right followed by a mirror top to bottom, in
/// either order.
pub proof fn law_half_turn_is_both_mirrors<T>(c: Seq<T>)
    requires
        c.len() == 4,
    ensures
        flipped(TextureFlip::Rotate180, c) == flipped(TextureFlip::FlipV, flipped(TextureFlip::FlipU, c)),
        flipped(TextureFlip::Rotate180, c) == flipped(TextureFlip::FlipU, flipped(TextureFlip::FlipV, c)),
{
    assert(flipped(TextureFlip::Rotate180, c) =~= flipped(TextureFlip::FlipV, flipped(TextureFlip::FlipU, c)));
    assert(flipped(TextureFlip::Rotate180, c) =~= flipped(TextureFlip::FlipU, flipped(TextureFlip::FlipV, c)));
}

/// A piece of a window's frame.
#[derive(Debug, Clone, Copy, PartialEq, Eq, Structural)]
pub enum FrameKind {
    Left,
    TopLeft,
    BottomLeft,
    Right,
    TopRight,
    BottomRight,
    Top,
    Bottom,
}

/// Which of a window's `total_frames` frame textures the piece `k` uses, and how it is
/// flipped: one texture serves every piece; with two, the left and right pieces take
/// one each; with four, the corners; with eight, the corners then left, right, top and
/// bottom. Other pieces and counts have none.
pub open spec fn binary_index(k: FrameKind, total_frames: usize) -> Option<(usize, Option<TextureFlip>)> {
    if total_frames == 1 {
        Some((0, None))
    } else if total_frames == 2 {
        match k {
            FrameKind::Left => Some((0, None)),
            FrameKind::Right => Some((1, None)),
            _ => None,
        }
    } else if total_frames == 4 {
        match k {
            FrameKind::TopLeft => Some((0, None)),
            FrameKind::TopRight => Some((1, None)),
            FrameKind::BottomLeft => Some((2, None)),
            FrameKind::BottomRight => Some((3, None)),
            _ => None,
        }
    } else if total_frames == 8 {
        match k {
            FrameKind::TopLeft => Some((0, None)),
            FrameKind::TopRight => Some((1, None)),
            FrameKind::BottomLeft => Some((2, None)),
            FrameKind::BottomRight => Some((3, None)),
            FrameKind::Left => Some((4, None)),
            FrameKind::Right => Some((5, None)),
            FrameKind::Top => Some((6, None)),
            FrameKind::Bottom => Some((7, None)),
        }
    } else {
        None
    }
}

impl FrameKind {
    /// The frame texture this piece uses among `total_frames`; see `binary_index`.
    pub fn to_binary_index(self, total_frames: usize) -> (r: Option<(usize, Option<TextureFlip>)>)
        ensures
            r == binary_index(self, total_frames),
    {
        match total_frames {
            1 => Some((0, None)),
            2 => match self {
                FrameKind::Left => Some((0, None)),
                FrameKind::Right => Some((1, None)),
                _ => None,
            },
            4 => match self {
                FrameKind::TopLeft => Some((0, None)),
                FrameKind::TopRight => Some((1, None)),
                FrameKind::BottomLeft => Some((2, None)),
                FrameKind::BottomRight => Some((3, None)),
                _ => None,
            },
            8 => match self {
                FrameKind::TopLeft => Some((0, None)),
                FrameKind::TopRight => Some((1, None)),
                FrameKind::BottomLeft => Some((2, None)),
                FrameKind::BottomRight => Some((3, None)),
                FrameKind::Left => Some((4, None)),
                FrameKind::Right => Some((5, None)),
                FrameKind::Top => Some((6, None)),
                FrameKind::Bottom => Some((7, None)),
            },
            _ => None,
        }
    }
}

/// Every texture a piece is given is one of the window's.
pub proof fn law_binary_index_in_range(k: FrameKind, total_frames: usize)
    ensures
        binary_index(k, total_frames) matches Some((i, _)) ==> i < total_frames,
{
}


/// The pieces take the window's frame textures in a fixed order: a single texture
/// serves every piece; with two, the left piece takes the first and the right the
/// second; with four, the corners take them top left, top right, bottom left, bottom
/// right; with eight, the corners take the first four in that order and the left,
/// right, top and bottom pieces the rest. No piece is flipped.
pub proof fn law_frame_textures_in_order(k: FrameKind)
    ensures
        binary_index(k, 1) == Some((0usize, Option::<TextureFlip>::None)),
        binary_index(FrameKind::Left, 2) == Some((0usize, Option::<TextureFlip>::None)),
        binary_index(FrameKind::Right, 2) == Some((1usize, Option::<TextureFlip>::None)),
        k != FrameKind::Left && k != FrameKind::Right ==> binary_index(k, 2) is None,
        binary_index(FrameKind::TopLeft, 4) == Some((0usize, Option::<TextureFlip>::None)),
        binary_index(FrameKind::TopRight, 4) == Some((1usize, Option::<TextureFlip>::None)),
        binary_index(FrameKind::BottomLeft, 4) == Some((2usize, Option::<TextureFlip>::None)),
        binary_index(FrameKind::BottomRight, 4) == Some((3usize, Option::<TextureFlip>::None)),
        (k == FrameKind::Left || k == FrameKind::Right || k == FrameKind::Top || k == FrameKind::Bottom)
            ==> binary_index(k, 4) is None,
        binary_index(FrameKind::TopLeft, 8) == Some((0usize, Option::<TextureFlip>::None)),
        binary_index(FrameKind::TopRight, 8) == Some((1usize, Option::<TextureFlip>::None)),
        binary_index(FrameKind::BottomLeft, 8) == Some((2usize, Option::<TextureFlip>::None)),
        binary_index(FrameKind::BottomRight, 8) == Some((3usize, Option::<TextureFlip>::None)),
        binary_index(FrameKind::Left, 8) == Some((4usize, Option::<TextureFlip>::None)),
        binary_index(FrameKind::Right, 8) == Some((5usize, Option::<TextureFlip>::None)),
        binary_index(FrameKind::Top, 8) == Some((6usize, Option::<TextureFlip>::None)),
        binary_index(FrameKind::Bottom, 8) == Some((7usize, Option::<TextureFlip>::None)),
{
}

/// No two pieces of a window share a frame texture unless the window has one texture,
/// and every count other than one, two, four and eight gives no piece a texture.
pub proof fn law_pieces_take_distinct_textures(a: FrameKind, b: FrameKind, total_frames: usize)
    ensures
        a != b && total_frames != 1 && binary_index(a, total_frames) is Some && binary_index(b, total_frames) is Some
            ==> (binary_index(a, total_frames)->0).0 != (binary_index(b, total_frames)->0).0,
        total_frames != 1 && total_frames != 2 && total_frames != 4 && total_frames != 8 ==> binary_index(a, total_frames) is None,
{
}

} // verus!
