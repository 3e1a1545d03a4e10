//! Single-shot dashboard assembly: the same data shapes as the
//! stream, gathered into one response. The transport runs the
//! queries; assembling their outcomes is decided here.
use vstd::prelude::*;

use crate::telemetry::ChartData;
use crate::telemetry::SeriesData;
use crate::telemetry::TileData;
use crate::telemetry::TimeSeriesPoint;
use crate::text::chars_to_string;
use crate::text::int_str;
use crate::widgets::kind_of;
use crate::widgets::parse_chart_kind;
use crate::widgets::ChartConfig;
use crate::widgets::SeriesConfig;
use crate::widgets::TileConfig;

verus! {

/// A complete dashboard for one source.
pub struct Dashboard {
    pub title: String,
    pub tiles: Vec<TileData>,
    pub charts: Vec<ChartData>,
}

impl Dashboard {
    pub fn new(title: String, tiles: Vec<TileData>, charts: Vec<ChartData>) -> (r: Dashboard)
        ensures
            r.title@ == title@,
            r.tiles@ == tiles@,
            r.charts@ == charts@,
    {
        Dashboard { title, tiles, charts }
    }
}

/// The dashboard's title: the display name and the window.
pub open spec fn dashboard_title_of(name: Seq<char>, hours: int) -> Seq<char> {
    name + " Telemetry (last "@ + int_str(hours) + "h)"@
}

/// Renders the dashboard title for a source and window.
pub fn dashboard_title(name: &str, hours: i32) -> (r: String)
    ensures
        r@ == dashboard_title_of(name@, hours as int),
{
    let mut out: Vec<char> = Vec::new();
    crate::influx::push_str_chars(&mut out, name);
    crate::influx::push_str_chars(&mut out, " Telemetry (last ");
    let h = crate::text::i64_to_string(hours as i64);
    crate::influx::push_str_chars(&mut out, h.as_str());
    crate::influx::push_str_chars(&mut out, "h)");
    proof {
        assert(out@ =~= dashboard_title_of(name@, hours as int));
    }
    chars_to_string(&out)
}

/// One tile of the single-shot dashboard: a present value fills the
/// tile; an empty result — or a failed query, which the caller treats
/// the same way — omits it.
pub fn tile_from_result(cfg: &TileConfig, value: Option<i64>) -> (r: Option<TileData>)
    ensures
        match value {
            Some(v) => (r matches Some(t) && t.id@ == cfg.id@ && t.title@ == cfg.title@
                && t.unit@ == cfg.unit@ && t.value == v && t.precision == cfg.precision),
            None => r is None,
        },
{
    match value {
        Some(v) => Some(
            TileData {
                id: cfg.id.clone(),
                title: cfg.title.clone(),
                unit: cfg.unit.clone(),
                value: v,
                precision: cfg.precision,
            },
        ),
        None => None,
    }
}

/// One series of a chart: an empty result omits it.
pub fn series_from_points(cfg: &SeriesConfig, points: Vec<TimeSeriesPoint>) -> (r: Option<
    SeriesData,
>)
    ensures
        points@.len() == 0 ==> r is None,
        points@.len() > 0 ==> (r matches Some(s) && s.id@ == cfg.id@ && s.name@ == cfg.name@
            && s.color.deep_view() == cfg.color.deep_view() && s.points@ == points@),
{
    if points.len() == 0 {
        return None;
    }
    let color = match &cfg.color {
        Some(c) => Some(c.clone()),
        None => None,
    };
    Some(SeriesData { id: cfg.id.clone(), name: cfg.name.clone(), color, points })
}

/// One chart of the single-shot dashboard: a chart with no series
/// that returned data is omitted.
pub fn chart_from_results(cfg: &ChartConfig, series: Vec<SeriesData>) -> (r: Option<ChartData>)
    ensures
        series@.len() == 0 ==> r is None,
        series@.len() > 0 ==> (r matches Some(c) && c.id@ == cfg.id@ && c.title@ == cfg.title@
            && c.unit.deep_view() == cfg.unit.deep_view() && c.kind == kind_of(cfg.kind@)
            && c.y_min == cfg.y_min && c.y_max == cfg.y_max
            && c.fraction_digits == cfg.fraction_digits && c.series@ == series@),
{
    if series.len() == 0 {
        return None;
    }
    let unit = match &cfg.unit {
        Some(u) => Some(u.clone()),
        None => None,
    };
    Some(
        ChartData {
            id: cfg.id.clone(),
            title: cfg.title.clone(),
            unit,
            kind: parse_chart_kind(cfg.kind.as_str()),
            y_min: cfg.y_min,
            y_max: cfg.y_max,
            fraction_digits: cfg.fraction_digits,
            series,
        },
    )
}

} // verus!
