//! Keyboard geometry for layout diagrams.
//!
//! A diagram draws 53 tiles: the 47 symbol keys carrying layout
//! characters, and the six special keys (backspace, tab, caps lock,
//! enter and the two shifts) that are drawn empty.  Each tile is a
//! position, a width and the layout-string index it shows; indices
//! 47..=52 mark the special keys.

use vstd::prelude::*;

verus! {

/// Side length of a key tile, in pixels.
pub const KEY_SIZE: u32 = 40;

/// The tile emitted at position `i` of the drawing order: x, y,
/// width, and layout index.  Rows run top to bottom; the wider
/// special keys take indices 47..=52.
pub open spec fn tile_spec(i: int) -> (u32, u32, u32, usize) {
    if i < 13 {
        ((i * 40) as u32, 0u32, 40u32, i as usize)
    } else if i == 13 {
        (520u32, 0u32, 60u32, 47usize)
    } else if i == 14 {
        (0u32, 40u32, 60u32, 48usize)
    } else if i < 28 {
        ((60 + (i - 15) * 40) as u32, 40u32, 40u32, (i - 2) as usize)
    } else if i == 28 {
        (0u32, 80u32, 70u32, 49usize)
    } else if i < 40 {
        ((70 + (i - 29) * 40) as u32, 80u32, 40u32, (i - 3) as usize)
    } else if i == 40 {
        (510u32, 80u32, 70u32, 50usize)
    } else if i == 41 {
        (0u32, 120u32, 90u32, 51usize)
    } else if i < 52 {
        ((90 + (i - 42) * 40) as u32, 120u32, 40u32, (i - 5) as usize)
    } else {
        (490u32, 120u32, 90u32, 52usize)
    }
}

/// All 53 tiles in drawing order.
pub open spec fn keyboard_tiles() -> Seq<(u32, u32, u32, usize)> {
    Seq::new(53, |i: int| tile_spec(i))
}

/// The tiles of a keyboard diagram, in drawing order: for each tile
/// its position, width and the layout-string index it shows.  A
/// caller draws key caps on the tiles with index below 47 and only
/// borders on the special keys.
pub fn diagram_keyboard() -> (tiles: Vec<(u32, u32, u32, usize)>)
    ensures
        tiles@ == keyboard_tiles(),
{
    let ks0 = KEY_SIZE;
    let ks1 = (ks0 * 3) / 2;
    let ks2 = (ks0 * 7) / 4;
    let ks3 = (ks0 * 9) / 4;
    let mut tiles: Vec<(u32, u32, u32, usize)> = Vec::new();
    let mut i: usize = 0;
    while i < 13
        invariant
            ks0 == 40,
            i <= 13,
            tiles@.len() == i,
            forall|j: int| 0 <= j < i ==> #[trigger] tiles@[j] == tile_spec(j),
        decreases 13 - i,
    {
        tiles.push(((i as u32) * ks0, 0, ks0, i));
        i = i + 1;
    }
    tiles.push((13 * ks0, 0, ks1, 47));
    tiles.push((0, ks0, ks1, 48));
    let mut i: usize = 0;
    while i < 13
        invariant
            ks0 == 40,
            ks1 == 60,
            i <= 13,
            tiles@.len() == 15 + i,
            forall|j: int| 0 <= j < 15 + i ==> #[trigger] tiles@[j] == tile_spec(j),
        decreases 13 - i,
    {
        tiles.push((ks1 + (i as u32) * ks0, ks0, ks0, i + 13));
        i = i + 1;
    }
    tiles.push((0, 2 * ks0, ks2, 49));
    let mut i: usize = 0;
    while i < 11
        invariant
            ks0 == 40,
            ks2 == 70,
            i <= 11,
            tiles@.len() == 29 + i,
            forall|j: int| 0 <= j < 29 + i ==> #[trigger] tiles@[j] == tile_spec(j),
        decreases 11 - i,
    {
        tiles.push((ks2 + (i as u32) * ks0, 2 * ks0, ks0, i + 26));
        i = i + 1;
    }
    tiles.push((ks2 + 11 * ks0, 2 * ks0, ks2, 50));
    tiles.push((0, 3 * ks0, ks3, 51));
    let mut i: usize = 0;
    while i < 10
        invariant
            ks0 == 40,
            ks3 == 90,
            i <= 10,
            tiles@.len() == 42 + i,
            forall|j: int| 0 <= j < 42 + i ==> #[trigger] tiles@[j] == tile_spec(j),
        decreases 10 - i,
    {
        tiles.push((ks3 + (i as u32) * ks0, 3 * ks0, ks0, i + 37));
        i = i + 1;
    }
    tiles.push((ks3 + 10 * ks0, 3 * ks0, ks3, 52));
    proof {
        assert(tiles@ =~= keyboard_tiles());
    }
    tiles
}

} // verus!
