//! Conversion of timed-text lyric markup into line-synchronised lyric text.
pub mod error;
pub mod timestamp;
pub mod markup;
pub mod lyrics;
pub mod pretty;
pub mod types;
pub mod target;
