//! The visualizer: what the scatter plot of a labeled dataset shows.
//!
//! Drawing is left to the caller. The library decides the marker of each row
//! and its color, and fixes the look of the chart.
use crate::clustering::{LabeledDataset, LabeledRows};
use crate::sample::{LabeledSample, Point};
use crate::scalar::Scalar;
use vstd::prelude::*;

verus! {

/// A color by its red, green and blue parts.
#[derive(Clone, Copy, Debug, PartialEq, Eq, Structural)]
pub struct Color {
    pub red: u8,
    pub green: u8,
    pub blue: u8,
}

/// One color per expected cluster label, and a color for every other label.
#[derive(Debug, PartialEq, Eq)]
pub struct Palette {
    pub colors: Vec<Color>,
    pub fallback: Color,
}

/// One filled circle of the scatter plot.
#[derive(Clone, Copy, Debug, PartialEq, Eq, Structural)]
pub struct Marker {
    /// Where the circle is centred, in chart coordinates.
    pub at: Point,
    pub color: Color,
}

/// The fixed look of the chart.
#[derive(Clone, Copy, Debug, PartialEq, Eq)]
pub struct ChartStyle {
    /// The size of the canvas in pixels.
    pub width: u32,
    pub height: u32,
    /// The bounds of the two axes. They are fixed, not taken from the data.
    pub x_min: Scalar,
    pub x_max: Scalar,
    pub y_min: Scalar,
    pub y_max: Scalar,
    /// The fill of the canvas.
    pub background: Color,
    /// The color of the caption, the axes and their labels.
    pub text: Color,
    /// The color of the grid lines.
    pub grid: Color,
    /// The margin around the chart in pixels.
    pub margin: u32,
    /// The width of the area for the axis labels in pixels.
    pub label_area: u32,
    pub caption: &'static str,
    pub font: &'static str,
    /// The size of the caption's font.
    pub caption_size: u32,
    /// The size of the font of the axis labels.
    pub label_size: u32,
    /// The radius of a marker in pixels.
    pub marker_radius: u32,
}

/// The color of `label`: its palette entry where the palette has one, the
/// fallback color otherwise.
pub open spec fn color_of(colors: Seq<Color>, fallback: Color, label: u32) -> Color {
    if label < colors.len() {
        colors[label as int]
    } else {
        fallback
    }
}

/// One marker per row, in row order, at the observed position of the row and
/// in the color of its label.
pub open spec fn markers_of(rows: Seq<LabeledSample>, colors: Seq<Color>, fallback: Color) -> Seq<
    Marker,
> {
    Seq::new(
        rows.len(),
        |i: int|
            Marker { at: rows[i].sample.noisy, color: color_of(colors, fallback, rows[i].label) },
    )
}

impl Palette {
    /// The color in which rows with `label` are drawn. A label without a
    /// palette entry gets the fallback color; it is no error.
    pub fn color_for(&self, label: u32) -> (color: Color)
        ensures
            color == color_of(self.colors@, self.fallback, label),
    {
        if (label as usize) < self.colors.len() {
            self.colors[label as usize]
        } else {
            self.fallback
        }
    }
}

/// The markers of the scatter plot of `data`.
pub fn markers(data: &LabeledDataset, palette: &Palette) -> (out: Vec<Marker>)
    ensures
        out@ == markers_of(data@.rows, palette.colors@, palette.fallback),
        out@.len() == data@.rows.len(),
{
    let rows = data.rows();
    let mut out: Vec<Marker> = Vec::new();
    let mut i: usize = 0;
    while i < rows.len()
        invariant
            i <= rows.len(),
            out@ == markers_of(rows@.take(i as int), palette.colors@, palette.fallback),
        decreases rows.len() - i,
    {
        let row = rows[i];
        out.push(Marker { at: row.sample.noisy, color: palette.color_for(row.label) });
        assert(out@ =~= markers_of(rows@.take(i + 1), palette.colors@, palette.fallback));
        i += 1;
    }
    assert(rows@.take(i as int) =~= rows@);
    out
}

/// A palette with a color for every cluster never falls back: each marker
/// has the palette entry of its row's label.
pub proof fn lemma_palette_covers(data: LabeledRows, colors: Seq<Color>, fallback: Color)
    requires
        data.wf(),
        data.clusters <= colors.len(),
    ensures
        forall|i: int|
            0 <= i < data.rows.len() ==> (#[trigger] markers_of(data.rows, colors, fallback)[i]).color
                == colors[data.rows[i].label as int],
{
    assert forall|i: int| 0 <= i < data.rows.len() implies (#[trigger] markers_of(
        data.rows,
        colors,
        fallback,
    )[i]).color == colors[data.rows[i].label as int] by {
        assert(data.rows[i].label < data.clusters);
    }
}

} // verus!
