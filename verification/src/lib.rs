//! Core logic of a podcast client: feed and OPML text handling, display
//! formatting, playback bookkeeping and device-browser navigation.

pub mod app;
pub mod feed;
pub mod mtp;
pub mod opml;
pub mod paths;
pub mod playback;
pub mod sync;
pub mod text;
pub mod types;
