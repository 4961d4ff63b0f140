//! Where the four tiles go in the composite image, and where the image goes
//! on disk.

use crate::calendar::{format_instant, formatted_instant};
use crate::id::DownloadId;
use vstd::prelude::*;

verus! {

/// The directory of the saved images.
pub const IMAGE_DIR: &'static str = "./images";

/// The width and the height of a saved image, in pixels.
pub const IMAGE_SIZE: u32 = 1080;

/// The strftime pattern of the stem of an image's file name.
pub open spec fn stamp_pattern() -> Seq<char> {
    "%Y%m%d%H%M%S"@
}

/// The path of the image whose file name has the stem `stamp`.
pub open spec fn path_of_stamp(stamp: Seq<char>) -> Seq<char> {
    "./images"@ + "/"@ + stamp + ".png"@
}

/// The width and the height of one tile within a saved image.
pub fn tile_side() -> (side: u32)
    ensures
        side == IMAGE_SIZE / 2,
{
    IMAGE_SIZE / 2
}

/// The top-left corner of the tile at `position` within the saved image,
/// as its distance from the left and from the top: the tiles fill the left
/// column from the top down, then the right column.
pub fn tile_origin(position: usize) -> (origin: (i64, i64))
    requires
        position < 4,
    ensures
        origin.0 == (IMAGE_SIZE / 2) * (position / 2),
        origin.1 == (IMAGE_SIZE / 2) * (position % 2),
{
    let side: i64 = (IMAGE_SIZE / 2) as i64;
    let column: i64 = (position / 2) as i64;
    let row: i64 = (position % 2) as i64;
    assert(0 <= side * column <= 540 && 0 <= side * row <= 540) by (nonlinear_arith)
        requires
            side == 540,
            0 <= column <= 1,
            0 <= row <= 1,
    ;
    (side * column, side * row)
}

/// The path of the image whose file name has the stem `stamp`.
pub fn image_path_from(stamp: &str) -> (path: String)
    ensures
        path@ == path_of_stamp(stamp@),
{
    String::from_str(IMAGE_DIR).concat("/").concat(stamp).concat(".png")
}

/// The path under which the image of `id` is saved, or none where the
/// instant of `id` cannot be written as a date.
pub fn image_path(id: &DownloadId) -> (path: Option<String>)
    ensures
        match formatted_instant(id.spec_timestamp(), id.spec_subsec_nanos(), stamp_pattern()) {
            Some(stamp) => path matches Some(path) && path@ == path_of_stamp(stamp),
            None => path is None,
        },
{
    match format_instant(id.timestamp(), id.subsec_nanos(), "%Y%m%d%H%M%S") {
        Some(stamp) => Some(image_path_from(stamp.as_str())),
        None => None,
    }
}

} // verus!
