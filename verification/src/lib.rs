//! Streaming transcoder for gzip-compressed, fixed-width disk-health
//! telemetry records: the decompressed input is a header row followed by
//! fixed-width data rows; the output is the same data, header dropped, each
//! row re-emitted as five trimmed, tab-separated fields, recompressed.

use vstd::prelude::*;

pub mod errors;
pub mod keys;
pub mod layout;
pub mod pipeline;
pub mod record;
pub mod transcode;
pub mod text;

verus! {

pub use crate::errors::TranscodeError;
pub use crate::keys::output_key;
pub use crate::pipeline::transcode;
pub use crate::transcode::transcode_text;

} // verus!
