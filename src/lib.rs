//! Subtitle translation: segments a line-oriented subtitle file into entries
//! (index, time code, text), and reassembles translated entries into an output
//! document that keeps each entry's index and timing, while totalling the cost
//! that the translation calls report.
pub mod assemble;
pub mod config;
pub mod segment;
pub mod text;
pub mod wire;
