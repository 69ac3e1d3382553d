//! Interactive session engine for a terminal chat client: a UTF-8 text
//! editing model with inline sentinel regions, command and model filtering,
//! a timeline of session events, request/response correlation for a
//! line-oriented remote-call protocol, and a width-aware rendering pipeline.
use vstd::prelude::*;

pub mod buffer;
pub mod commands;
pub mod diff;
pub mod display;
pub mod editor;
pub mod files;
pub mod keys;
pub mod protocol;
pub mod render;
pub mod state;
pub mod strutil;

verus! {

/// First sentinel of a paste region: a reserved character that never appears
/// in ordinary input.
pub const PASTE_START: char = '\u{FFF0}';

/// Closing sentinel of a paste region.
pub const PASTE_END: char = '\u{FFF1}';

/// Sentinel standing for one attached image; matched one to one, in order,
/// with the pending attachment list.
pub const IMAGE_MARKER: char = '\u{FFFC}';

/// A paste with at least this many lines is wrapped in a sentinel region.
pub const PASTE_LINE_THRESHOLD: usize = 3;

/// A paste with at least this many bytes is wrapped in a sentinel region.
pub const PASTE_CHAR_THRESHOLD: usize = 150;

} // verus!
