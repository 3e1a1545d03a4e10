//! The widget catalog: configured tiles and charts whose query
//! templates drive the dashboard.
use vstd::prelude::*;

use crate::telemetry::ChartKind;
use crate::text::str_chars;

verus! {

/// Configuration of one tile widget.
#[derive(Clone)]
pub struct TileConfig {
    pub id: String,
    pub title: String,
    pub unit: String,
    pub precision: i32,
    pub query: String,
}

/// Configuration of one chart series.
#[derive(Clone)]
pub struct SeriesConfig {
    pub id: String,
    pub name: String,
    pub color: Option<String>,
    pub query: String,
}

/// Configuration of an overlay drawn on a chart.
#[derive(Clone)]
pub struct OverlayConfig {
    pub id: String,
    pub name: String,
    pub color: Option<String>,
    pub query: String,
}

/// Configuration of one chart widget.
#[derive(Clone)]
pub struct ChartConfig {
    pub id: String,
    pub title: String,
    pub unit: Option<String>,
    pub kind: String,
    pub y_min: Option<i64>,
    pub y_max: Option<i64>,
    pub fraction_digits: Option<i32>,
    pub series: Vec<SeriesConfig>,
    pub overlays: Vec<OverlayConfig>,
}

/// The whole widget catalog.
#[derive(Clone)]
pub struct WidgetsConfig {
    pub tiles: Vec<TileConfig>,
    pub charts: Vec<ChartConfig>,
}

/// The characters of the kind name that selects a single-line chart.
pub open spec fn line_kind_chars() -> Seq<char> {
    seq!['l', 'i', 'n', 'e']
}

/// The chart kind named by a configuration string: `line` draws a
/// single line, anything else a multi-line chart.
pub open spec fn kind_of(s: Seq<char>) -> ChartKind {
    if s == line_kind_chars() {
        ChartKind::Line
    } else {
        ChartKind::MultiLine
    }
}

/// Parses the configured kind string.
pub fn parse_chart_kind(s: &str) -> (r: ChartKind)
    ensures
        r == kind_of(s@),
{
    let sc = str_chars(s);
    let lc = str_chars("line");
    proof {
        reveal_strlit("line");
        assert("line"@ =~= line_kind_chars());
    }
    if crate::template::chars_eq(&sc, &lc) {
        ChartKind::Line
    } else {
        ChartKind::MultiLine
    }
}

} // verus!
