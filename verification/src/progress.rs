//! What a download reports to its consumer.

use vstd::prelude::*;

verus! {

/// Why a download failed. Each variant carries the cause as text, where
/// there is one.
#[derive(Debug, Clone, PartialEq, Eq)]
pub enum DownloadError {
    /// A request could not be issued, or its response never arrived.
    Request(String),
    /// A response declared no content length.
    MissingContentLength,
    /// A tile's stream broke while its body was being read.
    Transport(String),
    /// The latest identifier could not be learned.
    Metadata(String),
}

/// A `DownloadError` with its text as a sequence of characters.
pub enum DownloadErrorView {
    Request(Seq<char>),
    MissingContentLength,
    Transport(Seq<char>),
    Metadata(Seq<char>),
}

impl View for DownloadError {
    type V = DownloadErrorView;

    open spec fn view(&self) -> DownloadErrorView {
        match self {
            DownloadError::Request(cause) => DownloadErrorView::Request(cause@),
            DownloadError::MissingContentLength => DownloadErrorView::MissingContentLength,
            DownloadError::Transport(cause) => DownloadErrorView::Transport(cause@),
            DownloadError::Metadata(cause) => DownloadErrorView::Metadata(cause@),
        }
    }
}

/// The text shown for a missing content length.
pub open spec fn missing_content_length_text() -> Seq<char> {
    "failed to get content_length"@
}

impl DownloadErrorView {
    /// The text that describes the error.
    pub open spec fn message(self) -> Seq<char> {
        match self {
            DownloadErrorView::Request(cause) => cause,
            DownloadErrorView::MissingContentLength => missing_content_length_text(),
            DownloadErrorView::Transport(cause) => cause,
            DownloadErrorView::Metadata(cause) => cause,
        }
    }
}

impl DownloadError {
    /// The text that describes the error: the cause as it was handed in, or
    /// a fixed sentence where a content length was missing.
    pub fn message(&self) -> (text: String)
        ensures
            text@ == self@.message(),
    {
        match self {
            DownloadError::Request(cause) => cause.clone(),
            DownloadError::MissingContentLength => String::from_str("failed to get content_length"),
            DownloadError::Transport(cause) => cause.clone(),
            DownloadError::Metadata(cause) => cause.clone(),
        }
    }
}

/// A share of the whole as contracts see it: `downloaded` out of `total`.
pub struct Ratio {
    pub downloaded: nat,
    pub total: nat,
}

impl Ratio {
    /// The share lies between nothing and everything.
    pub open spec fn in_unit_range(self) -> bool {
        self.downloaded <= self.total
    }

    /// The share is the whole.
    pub open spec fn is_one(self) -> bool {
        self.downloaded == self.total
    }

    /// `self` is at most `other` as a rational number, compared by cross
    /// multiplication.
    pub open spec fn le(self, other: Ratio) -> bool {
        self.downloaded * other.total <= other.downloaded * self.total
    }

    /// The share of `total` that `downloaded` makes up, held to the whole
    /// where more arrived than was declared.
    pub open spec fn clamped(downloaded: nat, total: nat) -> Ratio {
        Ratio {
            downloaded: if downloaded <= total {
                downloaded
            } else {
                total
            },
            total,
        }
    }
}

/// A share of the whole: `downloaded` bytes out of `total`.
#[derive(Debug, Clone, Copy, PartialEq, Eq, Structural)]
pub struct Fraction {
    pub downloaded: u128,
    pub total: u128,
}

impl View for Fraction {
    type V = Ratio;

    open spec fn view(&self) -> Ratio {
        Ratio { downloaded: self.downloaded as nat, total: self.total as nat }
    }
}

impl Fraction {
    /// The share of `total` that `downloaded` makes up, held to the whole
    /// where more arrived than was declared.
    pub fn clamped(downloaded: u128, total: u128) -> (fraction: Fraction)
        ensures
            fraction@ == Ratio::clamped(downloaded as nat, total as nat),
    {
        if downloaded <= total {
            Fraction { downloaded, total }
        } else {
            Fraction { downloaded: total, total }
        }
    }

    /// Whether the share is the whole.
    pub fn is_complete(&self) -> (whole: bool)
        ensures
            whole == self@.is_one(),
    {
        self.downloaded == self.total
    }
}

/// One event of a download, in the order in which a consumer sees them:
/// `Started`, any number of `Advanced`, then `Finished` or, at any point,
/// `Failed`.
#[derive(Debug, Clone, PartialEq, Eq)]
pub enum Progress {
    /// The four transfers have begun.
    Started,
    /// Bytes arrived, or a tile's stream ended.
    Advanced(Fraction),
    /// All four tiles are complete: top-left, bottom-left, top-right,
    /// bottom-right.
    Finished([Vec<u8>; 4]),
    /// The download failed and will report nothing further.
    Failed(DownloadError),
}

/// A `Progress` with its buffers as sequences of bytes.
pub enum ProgressView {
    Started,
    Advanced(Ratio),
    Finished(Seq<Seq<u8>>),
    Failed(DownloadErrorView),
}

impl View for Progress {
    type V = ProgressView;

    open spec fn view(&self) -> ProgressView {
        match self {
            Progress::Started => ProgressView::Started,
            Progress::Advanced(fraction) => ProgressView::Advanced(fraction@),
            Progress::Finished(buffers) => ProgressView::Finished(
                Seq::new(4, |i: int| buffers[i]@),
            ),
            Progress::Failed(error) => ProgressView::Failed(error@),
        }
    }
}

} // verus!
