//! Telemetry data carried by tiles and charts. Measured values travel
//! as fixed-point integers: the transport converts between them and
//! whatever representation the upstream store uses.
use vstd::prelude::*;

verus! {

/// One sample of a time series; sequences are ordered by timestamp and
/// duplicates are permitted.
#[derive(Clone, Copy, PartialEq, Eq, Structural, Debug)]
pub struct TimeSeriesPoint {
    pub time_ms: i64,
    pub value: i64,
}

impl TimeSeriesPoint {
    pub fn new(time_ms: i64, value: i64) -> (r: TimeSeriesPoint)
        ensures
            r == (TimeSeriesPoint { time_ms, value }),
    {
        TimeSeriesPoint { time_ms, value }
    }
}

/// A single-scalar widget with its resolved value.
pub struct TileData {
    pub id: String,
    pub title: String,
    pub unit: String,
    pub value: i64,
    pub precision: i32,
}

impl TileData {
    pub fn new(id: String, title: String, unit: String, value: i64, precision: i32) -> (r: TileData)
        ensures
            r.id@ == id@,
            r.title@ == title@,
            r.unit@ == unit@,
            r.value == value,
            r.precision == precision,
    {
        TileData { id, title, unit, value, precision }
    }
}

/// One named series of a chart.
pub struct SeriesData {
    pub id: String,
    pub name: String,
    pub color: Option<String>,
    pub points: Vec<TimeSeriesPoint>,
}

impl SeriesData {
    pub fn new(id: String, name: String, color: Option<String>, points: Vec<TimeSeriesPoint>) -> (r: SeriesData)
        ensures
            r.id@ == id@,
            r.name@ == name@,
            r.color == color,
            r.points@ == points@,
    {
        SeriesData { id, name, color, points }
    }
}

/// How a chart is drawn.
#[derive(Clone, Copy, PartialEq, Eq, Structural, Debug)]
pub enum ChartKind {
    Line,
    MultiLine,
}

/// A multi-series time-series widget.
pub struct ChartData {
    pub id: String,
    pub title: String,
    pub unit: Option<String>,
    pub kind: ChartKind,
    pub y_min: Option<i64>,
    pub y_max: Option<i64>,
    pub fraction_digits: Option<i32>,
    pub series: Vec<SeriesData>,
}

impl ChartData {
    pub fn new(
        id: String,
        title: String,
        unit: Option<String>,
        kind: ChartKind,
        y_min: Option<i64>,
        y_max: Option<i64>,
        fraction_digits: Option<i32>,
        series: Vec<SeriesData>,
    ) -> (r: ChartData)
        ensures
            r.id@ == id@,
            r.title@ == title@,
            r.unit == unit,
            r.kind == kind,
            r.y_min == y_min,
            r.y_max == y_max,
            r.fraction_digits == fraction_digits,
            r.series@ == series@,
    {
        ChartData { id, title, unit, kind, y_min, y_max, fraction_digits, series }
    }
}

} // verus!
