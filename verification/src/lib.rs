//! Core of a satellite-image downloader: the identifier of a composite image,
//! the state machine that drives its four tile transfers, and the bookkeeping
//! of the images already on disk.

pub mod calendar;
pub mod download;
pub mod fetch;
pub mod id;
pub mod images;
pub mod layout;
pub mod progress;
pub mod run;
pub mod tile;
pub mod url;
pub mod viewer;

pub use download::{download, get_download_items, Event, State, TileEvent, Wait};
pub use fetch::deserialize;
pub use id::DownloadId;
pub use images::{get_images, DownloadState, DownloadedImage, DownloadingImage};
pub use progress::{DownloadError, Fraction, Progress};
pub use tile::DownloadItem;
pub use viewer::{App, Command, Message};
