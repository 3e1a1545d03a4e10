use aquarium_telemetry::message::StreamMessage;
use aquarium_telemetry::probe::ProbeMetadata;
use aquarium_telemetry::stream::{
    completion_message, effective_hours, plan_stream, series_outcome, tile_outcome, RangeQuery,
    SeriesJob, StreamEvent, StreamPhase, TileJob, MAX_POINTS_PER_SERIES,
};
use aquarium_telemetry::telemetry::TimeSeriesPoint;
use aquarium_telemetry::widgets::{ChartConfig, SeriesConfig, TileConfig, WidgetsConfig};

fn tile(id: &str, probe: &str) -> TileConfig {
    TileConfig {
        id: id.to_string(),
        title: id.to_string(),
        unit: "u".to_string(),
        precision: 1,
        query: format!(
            "SELECT mean(value) FROM apex_probe WHERE host='${{source}}' AND \"probe_type\"='{}' AND time >= now() - ${{hours}}h",
            probe
        ),
    }
}

fn series(id: &str, probe: &str) -> SeriesConfig {
    SeriesConfig {
        id: id.to_string(),
        name: id.to_string(),
        color: None,
        query: format!(
            "SELECT value FROM apex_probe WHERE host='${{source}}' AND \"probe_type\"='{}'",
            probe
        ),
    }
}

fn catalog() -> WidgetsConfig {
    WidgetsConfig {
        tiles: vec![tile("t1", "temp"), tile("t2", "orp")],
        charts: vec![ChartConfig {
            id: "c1".to_string(),
            title: "chart".to_string(),
            unit: None,
            kind: "line".to_string(),
            y_min: None,
            y_max: None,
            fraction_digits: None,
            series: vec![series("s1", "ph"), series("s2", "salinity")],
            overlays: vec![],
        }],
    }
}

fn probes() -> Vec<ProbeMetadata> {
    vec![
        ProbeMetadata { probe_type: "temp".to_string(), name: "display".to_string() },
        ProbeMetadata { probe_type: "ph".to_string(), name: "main".to_string() },
    ]
}

#[test]
fn skeleton_lists_exactly_the_available_widgets() {
    // 2 tiles + 1 chart of 2 series; the probe set covers 1 tile and
    // 1 series, so the skeleton announces 1 tile and 1 chart with 1
    // series, and the completion fence counts 2 widgets.
    let plan = plan_stream(&catalog(), "reef", 6, &probes());
    assert_eq!(plan.skeleton.source_id, "reef");
    assert_eq!(plan.skeleton.tiles.len(), 1);
    assert_eq!(plan.skeleton.tiles[0].id, "t1");
    assert_eq!(plan.skeleton.charts.len(), 1);
    assert_eq!(plan.skeleton.charts[0].series.len(), 1);
    assert_eq!(plan.skeleton.charts[0].series[0].id, "s1");
    assert_eq!(plan.total_widgets, 2);
    // the fence message carries the count
    match completion_message(plan.total_widgets, 5_000) {
        StreamMessage::Complete(c) => {
            assert_eq!(c.total_widgets, 2);
            assert_eq!(c.duration_ms, 5_000);
        }
        _ => panic!("not a completion"),
    }
}

#[test]
fn planned_jobs_match_the_skeleton_and_resolve_queries() {
    let plan = plan_stream(&catalog(), "reef", 12, &probes());
    assert_eq!(plan.tile_jobs.len(), 1);
    assert_eq!(plan.tile_jobs[0].id, "t1");
    assert!(plan.tile_jobs[0].query.contains("host='reef'"));
    assert!(plan.tile_jobs[0].query.contains("now() - 12h"));
    assert!(!plan.tile_jobs[0].query.contains("${"));
    assert_eq!(plan.series_jobs.len(), 1);
    assert_eq!(plan.series_jobs[0].chart_id, "c1");
    assert_eq!(plan.series_jobs[0].series_id, "s1");
    assert!(plan.series_jobs[0].query.contains("host='reef'"));
}

#[test]
fn empty_tile_result_emits_nothing() {
    let job = TileJob { id: "t1".to_string(), query: "q".to_string() };
    assert!(tile_outcome(&job, None).is_none());
    match tile_outcome(&job, Some(42)) {
        Some(StreamMessage::Tile(u)) => {
            assert_eq!(u.id, "t1");
            assert_eq!(u.value, 42);
        }
        _ => panic!("expected a tile update"),
    }
}

#[test]
fn empty_series_result_emits_nothing() {
    let job = SeriesJob {
        chart_id: "c1".to_string(),
        series_id: "s1".to_string(),
        query: "q".to_string(),
    };
    assert!(series_outcome(&job, vec![], MAX_POINTS_PER_SERIES).is_none());
    let points = vec![TimeSeriesPoint::new(1, 10), TimeSeriesPoint::new(2, 20)];
    match series_outcome(&job, points.clone(), MAX_POINTS_PER_SERIES) {
        Some(StreamMessage::Chart(u)) => {
            assert_eq!(u.chart_id, "c1");
            assert_eq!(u.series.id, "s1");
            assert_eq!(u.series.points, points);
        }
        _ => panic!("expected a chart update"),
    }
}

#[test]
fn window_defaults_to_six_hours() {
    assert_eq!(effective_hours(&RangeQuery { hours: Some(24) }), 24);
    assert_eq!(effective_hours(&RangeQuery { hours: None }), 6);
}

#[test]
fn lifecycle_goes_skeleton_first_then_completes() {
    let p = StreamPhase::Init;
    let p = p.advance(StreamEvent::SkeletonEmitted);
    assert_eq!(p, StreamPhase::SkeletonSent);
    let p = p.advance(StreamEvent::UpdatesDispatched);
    assert_eq!(p, StreamPhase::Streaming);
    let done = p.advance(StreamEvent::FenceElapsed);
    assert_eq!(done, StreamPhase::Completed);
    assert_eq!(done.advance(StreamEvent::ConsumerGone), StreamPhase::Completed);
    assert_eq!(p.advance(StreamEvent::ConsumerGone), StreamPhase::Aborted);
}

#[test]
fn completion_carries_count_and_elapsed_time() {
    match completion_message(7, 1234) {
        StreamMessage::Complete(c) => {
            assert_eq!(c.total_widgets, 7);
            assert_eq!(c.duration_ms, 1234);
        }
        _ => panic!("wrong variant"),
    }
}
