//! Search results browsing and time-synchronised lyrics playback.
//!
//! The modules hold the decisions and the text processing; terminal and
//! network work is done by the binary around this library.

pub mod text;
pub mod timestamp;
pub mod lyrics;
pub mod browser;
pub mod session;
