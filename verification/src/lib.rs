//! Turns the events of a calendar into a time-windowed, sorted list of
//! display-ready records, and decides when such a list is refreshed.

pub mod cache;
pub mod date;
pub mod event;
pub mod feed;
pub mod format;
pub mod location;
pub mod normalize;
pub mod recurrence;
pub mod rejection;
pub mod text;
pub mod types;
pub mod window;

pub use rejection::{handle_rejection, ErrorMessage};
