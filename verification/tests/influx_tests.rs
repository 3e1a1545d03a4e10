use aquarium_telemetry::influx::{
    extract_hosts, extract_probe_metadata, extract_single_value, extract_time_series,
    FieldValue, InfluxRepository, QueryResponse, QueryResult, SeriesResult,
};
use aquarium_telemetry::telemetry::TimeSeriesPoint;

fn series(
    columns: &[&str],
    values: Vec<Vec<FieldValue>>,
    tags: Vec<(String, String)>,
) -> SeriesResult {
    SeriesResult {
        name: "apex_probe".to_string(),
        columns: columns.iter().map(|c| c.to_string()).collect(),
        values,
        tags,
    }
}

fn response(series_list: Vec<SeriesResult>, error: Option<String>) -> QueryResponse {
    QueryResponse { results: vec![QueryResult { series: series_list, error }] }
}

#[test]
fn new_trims_trailing_slashes_from_host() {
    let repo = InfluxRepository::new(
        "http://influx.local///".to_string(),
        "SECRET-REDACTED".to_string(),
        "telemetry".to_string(),
        "autogen".to_string(),
    );
    assert_eq!(repo.host, "http://influx.local");
    assert_eq!(repo.database, "telemetry");
}

#[test]
fn query_url_percent_encodes_the_query() {
    let repo = InfluxRepository::new(
        "http://influx.local".to_string(),
        "t".to_string(),
        "db".to_string(),
        "rp".to_string(),
    );
    let url = repo.build_query_url("SELECT 1 FROM x");
    assert_eq!(url, "http://influx.local/query?db=db&rp=rp&q=SELECT%201%20FROM%20x");
}

#[test]
fn hosts_come_from_the_second_cell_of_each_row() {
    let r = response(
        vec![series(
            &["key", "value"],
            vec![
                vec![FieldValue::Text("host".to_string()), FieldValue::Text("reef".to_string())],
                vec![FieldValue::Text("host".to_string()), FieldValue::Text("nano".to_string())],
                vec![FieldValue::Text("host".to_string())],
            ],
            vec![],
        )],
        None,
    );
    assert_eq!(extract_hosts(&r), vec!["reef".to_string(), "nano".to_string()]);
}

#[test]
fn probe_metadata_reads_grouping_tags() {
    let r = response(
        vec![
            series(&["time", "value"], vec![], vec![
                ("probe_type".to_string(), "temp".to_string()),
                ("name".to_string(), "display".to_string()),
            ]),
            series(&["time", "value"], vec![], vec![
                ("probe_type".to_string(), "ph".to_string()),
            ]),
        ],
        None,
    );
    let probes = extract_probe_metadata(&r);
    assert_eq!(probes.len(), 1);
    assert_eq!(probes[0].probe_type, "temp");
    assert_eq!(probes[0].name, "display");
}

#[test]
fn an_error_empties_the_probe_set() {
    let r = response(
        vec![series(&["time", "value"], vec![], vec![
            ("probe_type".to_string(), "temp".to_string()),
            ("name".to_string(), "display".to_string()),
        ])],
        Some("boom".to_string()),
    );
    assert!(extract_probe_metadata(&r).is_empty());
}

#[test]
fn single_value_prefers_the_aggregate_column() {
    let r = response(
        vec![series(
            &["time", "mean"],
            vec![vec![
                FieldValue::Text("2024-01-01T00:00:00+00:00".to_string()),
                FieldValue::Num(25_300),
            ]],
            vec![],
        )],
        None,
    );
    assert_eq!(extract_single_value(&r), Some(25_300));
}

#[test]
fn single_value_absent_when_no_rows() {
    let r = response(vec![series(&["time", "mean"], vec![], vec![])], None);
    assert_eq!(extract_single_value(&r), None);
}

#[test]
fn time_series_parses_timestamps_and_keeps_order() {
    let r = response(
        vec![series(
            &["time", "value"],
            vec![
                vec![
                    FieldValue::Text("1970-01-01T00:00:01+00:00".to_string()),
                    FieldValue::Num(10),
                ],
                vec![
                    FieldValue::Text("not a timestamp".to_string()),
                    FieldValue::Num(99),
                ],
                vec![
                    FieldValue::Text("1970-01-01T00:00:02+00:00".to_string()),
                    FieldValue::Num(20),
                ],
            ],
            vec![],
        )],
        None,
    );
    let points = extract_time_series(&r, 150);
    assert_eq!(points, vec![TimeSeriesPoint::new(1_000, 10), TimeSeriesPoint::new(2_000, 20)]);
}

#[test]
fn time_series_downsamples_when_over_the_bound() {
    let rows: Vec<Vec<FieldValue>> = (0..4)
        .map(|i| {
            vec![
                FieldValue::Text(format!("1970-01-01T00:00:0{}+00:00", i)),
                FieldValue::Num(i * 10),
            ]
        })
        .collect();
    let r = response(vec![series(&["time", "value"], rows, vec![])], None);
    let points = extract_time_series(&r, 2);
    // buckets [0,10] and [20,30]: middle timestamps, floored means
    assert_eq!(points, vec![TimeSeriesPoint::new(1_000, 5), TimeSeriesPoint::new(3_000, 25)]);
}
