//! Locating a payload appended to the tail of a byte stream behind a marker.
//!
//! A stream laid out as `[content][marker][payload]` is scanned backward from its
//! end, two windows at a time, for the marker; what follows the marker up to the
//! end of the stream is the payload.
mod options;
mod scan;
mod search;

pub use options::{ConfReaderOptions, DEFAULT_WINDOW_SIZE};
pub use scan::{locate, scan_window, LocateError, Scanner, Step, MAX_DISTANCE};
pub use search::find_marker;
