//! Review statistics for an Anki collection, laid out as a contribution-style heatmap.

pub mod anki;
pub mod api;
pub mod calendar;
pub mod color;
pub mod config;
pub mod json;
pub mod text;
pub mod summary;
pub mod templates;
