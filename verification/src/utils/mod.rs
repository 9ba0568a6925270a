//! Dates and the layout of text.
pub mod date;
pub mod format;
