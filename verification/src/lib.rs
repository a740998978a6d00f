//! Discover media files on web pages and plan their download.

pub mod text;
pub mod weburl;
pub mod error;
pub mod model;
pub mod order;
pub mod quality;
pub mod extract;
pub mod naming;
pub mod progress;
pub mod hls;
pub mod innertube;
pub mod merge;
pub mod page;
pub mod download;
pub mod json_value;
pub mod sites;

pub use download::{DownloadOptions, DownloadPlan};
pub use error::Error;
pub use extract::engine::PageExtractor;
pub use extract::profile::{HostMatch, JsonMapRule, ProfileRegistry, ProfileRule, SiteProfile};
pub use extract::ExtractOptions;
pub use model::{FetchedPage, MediaKind, PageInfo, Stream};
pub use naming::OutputName;
pub use progress::DownloadProgress;
pub use quality::Quality;
pub use sites::yandex;
pub use sites::youtube;
