//! The types of the library, to be imported together.

pub use crate::cue::VttCue;
pub use crate::document::WebVtt;
pub use crate::error::VttParseError;
pub use crate::header::{VttHeader, VttMetadata};
pub use crate::settings::{AlignSetting, LineSetting, VerticalSetting, VttSettings};
pub use crate::timestamp::VttTimestamp;
