//! A codec for WebVTT subtitle text: it reads a document into values and
//! writes values as a document.
//!
//! The values are [`WebVtt`], with its [`VttHeader`] and its [`VttCue`]s; a cue
//! has two [`VttTimestamp`]s and may have [`VttSettings`]. Each of them is
//! written by `to_string` and read by `from_str` (settings by
//! [`parse_settings`]). Reading is all or nothing: it returns the value, or the
//! first fault as a [`VttParseError`]. Writing never fails.
//!
//! What is read and what is written is stated over sequences of characters:
//!
//! - [`text`] and [`runs`] say what trimming, searching, splitting and joining
//!   are, [`decimal`] what numbers in decimal notation are, and [`scan`]
//!   computes them;
//! - [`timestamp`], [`settings`], [`cue`], [`header`] and [`document`] each
//!   hold a type, the functions `parse_..` and `format_..` that say what its
//!   text stands for and how it is written, and the functions that do it;
//! - [`text_laws`], [`timestamp_laws`], [`settings_laws`], [`cue_laws`],
//!   [`document_laws`] and [`parsed`] prove what ties writing to reading: what
//!   is written is read back as it was, and what was read once is written the
//!   same way ever after.

pub mod cue;
pub mod cue_laws;
pub mod decimal;
pub mod document;
pub mod document_laws;
pub mod error;
pub mod header;
pub mod parsed;
pub mod prelude;
pub mod runs;
pub mod scan;
pub mod settings;
pub mod settings_laws;
pub mod text;
pub mod text_laws;
pub mod timestamp;
pub mod timestamp_laws;

pub use cue::VttCue;
pub use document::WebVtt;
pub use error::VttParseError;
pub use header::{VttHeader, VttMetadata};
pub use settings::{parse_settings, AlignSetting, LineSetting, VerticalSetting, VttSettings};
pub use timestamp::{parse_seconds_ms, VttTimestamp};
