//! Decision logic of a chat relay that inspects URLs and relays structured
//! page data.
//!
//! The library decides and lays out; it sends nothing. A caller fetches
//! updates and pages, hands them over as plain values, and carries out what
//! comes back:
//!
//! - [`telegram`]: which updates are served, and which URLs of a message are inspected;
//! - [`http`]: what is told of the answer to a request;
//! - [`tiktok`]: what is relayed of the page data of a video, and in what order;
//! - [`chunk`]: how a long text is cut into messages that the transport takes;
//! - [`yt_dlp`] and [`ffmpeg`]: how a video download is called and reported;
//! - [`json`], [`timestamp`], [`single`], [`number`], [`text`]: what the others stand on.

pub mod chunk;
pub mod ffmpeg;
pub mod http;
pub mod json;
pub mod number;
pub mod single;
pub mod telegram;
pub mod text;
pub mod tiktok;
pub mod timestamp;
pub mod yt_dlp;
