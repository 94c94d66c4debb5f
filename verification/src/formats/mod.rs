//! The three file formats: binary frames, comma-separated lines and labelled text.
pub mod binary;
pub mod csv;
pub mod txt;
