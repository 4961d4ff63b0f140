//! Where the tiles of a composite image and the latest identifier are
//! served.

use crate::calendar::{format_instant, formatted_instant};
use crate::id::DownloadId;
use crate::progress::{DownloadError, DownloadErrorView};
use vstd::prelude::*;

verus! {

/// The address of the document that names the latest identifier.
pub const LATEST_JSON_URL: &'static str = "https://himawari8.nict.go.jp/img/FULL_24h/latest.json";

/// The strftime pattern that turns an instant into the common stem of its
/// four tile addresses.
pub open spec fn tile_url_pattern() -> Seq<char> {
    "https://himawari8.nict.go.jp/img/D531106/2d/550/%Y/%m/%d/%H%M%S"@
}

/// What follows the stem in the address of the tile at `position`: column,
/// then row.
pub open spec fn tile_suffix(position: int) -> Seq<char> {
    if position == 0 {
        "_0_0.png"@
    } else if position == 1 {
        "_0_1.png"@
    } else if position == 2 {
        "_1_0.png"@
    } else {
        "_1_1.png"@
    }
}

/// The text of the error for an identifier that has no address.
pub open spec fn no_address_text() -> Seq<char> {
    "the identifier has no tile address"@
}

/// The four tile addresses that share the stem `stem`: top-left,
/// bottom-left, top-right, bottom-right.
pub fn tile_urls_from(stem: &str) -> (urls: [String; 4])
    ensures
        forall|position: int|
            0 <= position < 4 ==> (#[trigger] urls[position])@ == stem@ + tile_suffix(position),
{
    [
        String::from_str(stem).concat("_0_0.png"),
        String::from_str(stem).concat("_0_1.png"),
        String::from_str(stem).concat("_1_0.png"),
        String::from_str(stem).concat("_1_1.png"),
    ]
}

/// The four tile addresses of `id`. An identifier whose instant cannot be
/// written as a date has none, which is reported as a request that could
/// not be issued.
pub fn tile_urls(id: &DownloadId) -> (urls: Result<[String; 4], DownloadError>)
    ensures
        match formatted_instant(id.spec_timestamp(), id.spec_subsec_nanos(), tile_url_pattern()) {
            Some(stem) => urls matches Ok(urls) && forall|position: int|
                0 <= position < 4 ==> (#[trigger] urls[position])@ == stem + tile_suffix(position),
            None => urls matches Err(error) && error@ == DownloadErrorView::Request(
                no_address_text(),
            ),
        },
{
    let stem = format_instant(
        id.timestamp(),
        id.subsec_nanos(),
        "https://himawari8.nict.go.jp/img/D531106/2d/550/%Y/%m/%d/%H%M%S",
    );
    match stem {
        Some(stem) => Ok(tile_urls_from(stem.as_str())),
        None => Err(
            DownloadError::Request(String::from_str("the identifier has no tile address")),
        ),
    }
}

} // verus!
