//! The colour table and the rendering of a frame into RGB bytes.
//!
//! A colour table has 256 entries of three channels. A sample is shown in the
//! entry whose index is the sample's level, clamped to the table.
use vstd::prelude::*;

verus! {

/// A level clamped to the indices of a colour table.
pub open spec fn clamp_level(level: int) -> int {
    if level < 0 {
        0
    } else if level > 255 {
        255
    } else {
        level
    }
}

/// Clamps a level to the range of a byte.
pub fn clamp_byte(level: i64) -> (b: u8)
    ensures
        b == clamp_level(level as int),
{
    if level < 0 {
        0
    } else if level > 255 {
        255
    } else {
        level as u8
    }
}

/// Determines the colour of a sample: the entry of `cmap` at the sample's
/// level, with levels below 0 shown as entry 0 and levels above 255 as entry
/// 255.
pub fn determine_color(level: i64, cmap: &[[u8; 3]; 256]) -> (rgb: [u8; 3])
    ensures
        rgb == cmap@[clamp_level(level as int)],
{
    let index: usize = clamp_byte(level) as usize;
    cmap[index]
}

/// Builds the colour table from the rows of a table of channel levels.
///
/// Row `i` gives the three channels of entry `i`, each clamped to a byte.
/// Entries beyond the last row are black.
pub fn get_cmap(levels: &Vec<[i64; 3]>) -> (rgb_array: [[u8; 3]; 256])
    requires
        levels@.len() <= 256,
    ensures
        forall|i: int, k: int|
            0 <= i < 256 && 0 <= k < 3 ==> #[trigger] rgb_array@[i]@[k] == if i < levels@.len() {
                clamp_level(levels@[i]@[k] as int)
            } else {
                0
            },
{
    let mut rgb_array: [[u8; 3]; 256] = [[0; 3]; 256];
    let mut i: usize = 0;
    while i < levels.len()
        invariant
            i <= levels@.len() <= 256,
            forall|r: int, k: int|
                0 <= r < 256 && 0 <= k < 3 ==> #[trigger] rgb_array@[r]@[k] == if r < i {
                    clamp_level(levels@[r]@[k] as int)
                } else {
                    0
                },
        decreases levels@.len() - i,
    {
        let row = levels[i];
        rgb_array[i] = [clamp_byte(row[0]), clamp_byte(row[1]), clamp_byte(row[2])];
        i = i + 1;
    }
    rgb_array
}

} // verus!
