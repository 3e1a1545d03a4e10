use aquarium_telemetry::dashboard::{
    chart_from_results, dashboard_title, series_from_points, tile_from_result, Dashboard,
};
use aquarium_telemetry::telemetry::{ChartKind, TimeSeriesPoint};
use aquarium_telemetry::widgets::{ChartConfig, SeriesConfig, TileConfig};

fn tile_cfg() -> TileConfig {
    TileConfig {
        id: "temp".to_string(),
        title: "Temperature".to_string(),
        unit: "C".to_string(),
        precision: 1,
        query: "q".to_string(),
    }
}

#[test]
fn title_names_source_and_window() {
    assert_eq!(dashboard_title("Great Barrier", 6), "Great Barrier Telemetry (last 6h)");
}

#[test]
fn empty_tile_value_is_omitted() {
    assert!(tile_from_result(&tile_cfg(), None).is_none());
    let t = tile_from_result(&tile_cfg(), Some(25_300)).expect("tile");
    assert_eq!(t.id, "temp");
    assert_eq!(t.value, 25_300);
}

#[test]
fn chart_without_series_is_omitted() {
    let cfg = ChartConfig {
        id: "c".to_string(),
        title: "c".to_string(),
        unit: None,
        kind: "line".to_string(),
        y_min: None,
        y_max: None,
        fraction_digits: None,
        series: vec![],
        overlays: vec![],
    };
    assert!(chart_from_results(&cfg, vec![]).is_none());
    let scfg = SeriesConfig {
        id: "s".to_string(),
        name: "s".to_string(),
        color: None,
        query: "q".to_string(),
    };
    assert!(series_from_points(&scfg, vec![]).is_none());
    let sd = series_from_points(&scfg, vec![TimeSeriesPoint::new(1, 2)]).expect("series");
    let chart = chart_from_results(&cfg, vec![sd]).expect("chart");
    assert_eq!(chart.kind, ChartKind::Line);
    assert_eq!(chart.series.len(), 1);
    let dash = Dashboard::new(dashboard_title("Reef", 6), vec![], vec![chart]);
    assert_eq!(dash.charts.len(), 1);
}
