//! Messages of the progressive stream: one structural skeleton, then
//! per-widget data updates, then a completion fence. Each message is a
//! tagged union with exactly one payload.
use vstd::prelude::*;

use crate::telemetry::ChartKind;
use crate::telemetry::TimeSeriesPoint;

verus! {

/// Announcement of a tile widget, before any data.
pub struct TileSkeleton {
    pub id: String,
    pub title: String,
    pub unit: String,
    pub precision: i32,
}

/// Announcement of one chart series.
pub struct SeriesSkeleton {
    pub id: String,
    pub name: String,
    pub color: Option<String>,
}

/// Announcement of a chart widget with its series.
pub struct ChartSkeleton {
    pub id: String,
    pub title: String,
    pub unit: Option<String>,
    pub kind: ChartKind,
    pub y_min: Option<i64>,
    pub y_max: Option<i64>,
    pub fraction_digits: Option<i32>,
    pub series: Vec<SeriesSkeleton>,
}

/// The structural announcement preceding all data for a request.
pub struct DashboardSkeleton {
    pub source_id: String,
    pub tiles: Vec<TileSkeleton>,
    pub charts: Vec<ChartSkeleton>,
}

/// A tile's resolved scalar value.
pub struct TileUpdate {
    pub id: String,
    pub value: i64,
}

/// The data of one chart series.
pub struct SeriesUpdate {
    pub id: String,
    pub points: Vec<TimeSeriesPoint>,
}

/// Data for one chart, carrying exactly one series.
pub struct ChartUpdate {
    pub chart_id: String,
    pub series: SeriesUpdate,
}

/// The completion fence: widget count and elapsed time.
#[derive(Clone, Copy, PartialEq, Eq, Structural, Debug)]
pub struct CompletionEvent {
    pub total_widgets: u64,
    pub duration_ms: i64,
}

/// One message of the stream; exactly one payload per instance, by
/// construction.
pub enum StreamMessage {
    Skeleton(DashboardSkeleton),
    Tile(TileUpdate),
    Chart(ChartUpdate),
    Complete(CompletionEvent),
}

/// Mathematical image of a tile skeleton.
#[verifier::ext_equal]
pub ghost struct TileSkelV {
    pub id: Seq<char>,
    pub title: Seq<char>,
    pub unit: Seq<char>,
    pub precision: i32,
}

/// Mathematical image of a series skeleton.
#[verifier::ext_equal]
pub ghost struct SeriesSkelV {
    pub id: Seq<char>,
    pub name: Seq<char>,
    pub color: Option<Seq<char>>,
}

/// Mathematical image of a chart skeleton.
#[verifier::ext_equal]
pub ghost struct ChartSkelV {
    pub id: Seq<char>,
    pub title: Seq<char>,
    pub unit: Option<Seq<char>>,
    pub kind: ChartKind,
    pub y_min: Option<i64>,
    pub y_max: Option<i64>,
    pub fraction_digits: Option<i32>,
    pub series: Seq<SeriesSkelV>,
}

/// Mathematical image of a skeleton.
#[verifier::ext_equal]
pub ghost struct SkeletonV {
    pub source_id: Seq<char>,
    pub tiles: Seq<TileSkelV>,
    pub charts: Seq<ChartSkelV>,
}

/// Mathematical image of a tile update.
#[verifier::ext_equal]
pub ghost struct TileUpdateV {
    pub id: Seq<char>,
    pub value: i64,
}

/// Mathematical image of a series update.
#[verifier::ext_equal]
pub ghost struct SeriesUpdateV {
    pub id: Seq<char>,
    pub points: Seq<TimeSeriesPoint>,
}

/// Mathematical image of a chart update.
#[verifier::ext_equal]
pub ghost struct ChartUpdateV {
    pub chart_id: Seq<char>,
    pub series: SeriesUpdateV,
}

/// Mathematical image of a stream message.
#[verifier::ext_equal]
pub ghost enum MessageV {
    Skeleton(SkeletonV),
    Tile(TileUpdateV),
    Chart(ChartUpdateV),
    Complete(CompletionEvent),
}

impl DeepView for TileSkeleton {
    type V = TileSkelV;

    open spec fn deep_view(&self) -> TileSkelV {
        TileSkelV { id: self.id@, title: self.title@, unit: self.unit@, precision: self.precision }
    }
}

impl DeepView for SeriesSkeleton {
    type V = SeriesSkelV;

    open spec fn deep_view(&self) -> SeriesSkelV {
        SeriesSkelV { id: self.id@, name: self.name@, color: self.color.deep_view() }
    }
}

impl DeepView for ChartSkeleton {
    type V = ChartSkelV;

    open spec fn deep_view(&self) -> ChartSkelV {
        ChartSkelV {
            id: self.id@,
            title: self.title@,
            unit: self.unit.deep_view(),
            kind: self.kind,
            y_min: self.y_min,
            y_max: self.y_max,
            fraction_digits: self.fraction_digits,
            series: self.series.deep_view(),
        }
    }
}

impl DeepView for DashboardSkeleton {
    type V = SkeletonV;

    open spec fn deep_view(&self) -> SkeletonV {
        SkeletonV {
            source_id: self.source_id@,
            tiles: self.tiles.deep_view(),
            charts: self.charts.deep_view(),
        }
    }
}

impl DeepView for TileUpdate {
    type V = TileUpdateV;

    open spec fn deep_view(&self) -> TileUpdateV {
        TileUpdateV { id: self.id@, value: self.value }
    }
}

impl DeepView for SeriesUpdate {
    type V = SeriesUpdateV;

    open spec fn deep_view(&self) -> SeriesUpdateV {
        SeriesUpdateV { id: self.id@, points: self.points@ }
    }
}

impl DeepView for ChartUpdate {
    type V = ChartUpdateV;

    open spec fn deep_view(&self) -> ChartUpdateV {
        ChartUpdateV { chart_id: self.chart_id@, series: self.series.deep_view() }
    }
}

impl DeepView for StreamMessage {
    type V = MessageV;

    open spec fn deep_view(&self) -> MessageV {
        match self {
            StreamMessage::Skeleton(s) => MessageV::Skeleton(s.deep_view()),
            StreamMessage::Tile(t) => MessageV::Tile(t.deep_view()),
            StreamMessage::Chart(c) => MessageV::Chart(c.deep_view()),
            StreamMessage::Complete(c) => MessageV::Complete(*c),
        }
    }
}

} // verus!
