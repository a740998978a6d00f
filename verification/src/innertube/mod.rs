//! The YouTube innertube player API: page keys, client identity, and choosing formats.

pub mod config;
pub mod formats;
pub mod page;

pub use config::ClientConfig;
pub use formats::select_for_kinds;
pub use page::PageKeys;
