//! Reading the latest identifier from what the server says of it.

use crate::calendar::{parse_error_text, parse_instant, parsed_instant};
use crate::id::DownloadId;
use crate::progress::DownloadError;
use vstd::prelude::*;

verus! {

/// The strftime pattern of the date in the document that names the latest
/// image.
pub open spec fn latest_pattern() -> Seq<char> {
    "%Y-%m-%d %H:%M:%S"@
}

/// The identifier that a date was read as.
pub open spec fn identifier_of(parsed: Option<(i64, u32)>) -> Option<DownloadId> {
    match parsed {
        Some((secs, nanos)) => Some(DownloadId::at(secs, nanos)),
        None => None,
    }
}

/// Reads the date of the latest image, as the server writes it, into the
/// identifier of that image. A text that is no such date is an error of
/// the metadata.
pub fn deserialize(date: &str) -> (latest: Result<DownloadId, DownloadError>)
    ensures
        match latest {
            Ok(id) => identifier_of(parsed_instant(date@, latest_pattern())) == Some(id),
            Err(error) => parsed_instant(date@, latest_pattern()) is None && error is Metadata,
        },
{
    match parse_instant(date, "%Y-%m-%d %H:%M:%S") {
        Ok((secs, nanos)) => Ok(DownloadId::new(secs, nanos)),
        Err(error) => Err(DownloadError::Metadata(parse_error_text(&error))),
    }
}

} // verus!
