//! The data the heatmap templates are rendered from.

use vstd::prelude::*;

verus! {

/// One day's square in the heatmap.
#[derive(Debug)]
pub struct GraphCell {
    pub date: String,
    pub count: u32,
    /// Week column, counted from the week of the first day.
    pub col: usize,
    /// Day of the week, Sunday being row 0.
    pub row: usize,
    /// Fill opacity as text, empty when the day has no reviews.
    pub opacity: String,
    pub hover_text: String,
}

/// The heatmap as an SVG image.
#[derive(Debug)]
pub struct AnkiSvgGraphTemplate {
    pub cells: Vec<GraphCell>,
    pub viewbox_width: usize,
    pub viewbox_height: usize,
    pub month_labels: Vec<(usize, String)>,
    pub weekday_labels: Vec<(usize, &'static str)>,
    pub cell_radius: u32,
}

/// The HTML page that embeds the heatmap.
#[derive(Debug)]
pub struct AnkiGraphHtmlTemplate {
    pub svg: AnkiSvgGraphTemplate,
}

} // verus!
