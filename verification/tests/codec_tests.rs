use aquarium_telemetry::codec::{decode_message, encode_message};
use aquarium_telemetry::frame::{decode_frame, encode_frame};
use aquarium_telemetry::message::{
    ChartSkeleton, ChartUpdate, CompletionEvent, DashboardSkeleton, SeriesSkeleton, SeriesUpdate,
    StreamMessage, TileSkeleton, TileUpdate,
};
use aquarium_telemetry::telemetry::{ChartKind, TimeSeriesPoint};

fn sample_skeleton() -> StreamMessage {
    StreamMessage::Skeleton(DashboardSkeleton {
        source_id: "Reef_".to_string(),
        tiles: vec![TileSkeleton {
            id: "temp".to_string(),
            title: "Température".to_string(),
            unit: "°C".to_string(),
            precision: 1,
        }],
        charts: vec![ChartSkeleton {
            id: "ph-chart".to_string(),
            title: "pH".to_string(),
            unit: None,
            kind: ChartKind::MultiLine,
            y_min: Some(7_500),
            y_max: None,
            fraction_digits: Some(2),
            series: vec![SeriesSkeleton {
                id: "ph".to_string(),
                name: "pH".to_string(),
                color: Some("#00ff00".to_string()),
            }],
        }],
    })
}

fn sample_tile() -> StreamMessage {
    StreamMessage::Tile(TileUpdate { id: "temp".to_string(), value: -25_300 })
}

fn sample_chart() -> StreamMessage {
    StreamMessage::Chart(ChartUpdate {
        chart_id: "ph-chart".to_string(),
        series: SeriesUpdate {
            id: "ph".to_string(),
            points: vec![
                TimeSeriesPoint::new(1_700_000_000_000, 8_100),
                TimeSeriesPoint::new(1_700_000_060_000, 8_050),
            ],
        },
    })
}

fn sample_complete() -> StreamMessage {
    StreamMessage::Complete(CompletionEvent { total_widgets: 2, duration_ms: 5_001 })
}

fn assert_same(a: &StreamMessage, b: &StreamMessage) {
    match (a, b) {
        (StreamMessage::Skeleton(x), StreamMessage::Skeleton(y)) => {
            assert_eq!(x.source_id, y.source_id);
            assert_eq!(x.tiles.len(), y.tiles.len());
            for (t, u) in x.tiles.iter().zip(y.tiles.iter()) {
                assert_eq!(t.id, u.id);
                assert_eq!(t.title, u.title);
                assert_eq!(t.unit, u.unit);
                assert_eq!(t.precision, u.precision);
            }
            assert_eq!(x.charts.len(), y.charts.len());
            for (c, d) in x.charts.iter().zip(y.charts.iter()) {
                assert_eq!(c.id, d.id);
                assert_eq!(c.title, d.title);
                assert_eq!(c.unit, d.unit);
                assert_eq!(c.kind, d.kind);
                assert_eq!(c.y_min, d.y_min);
                assert_eq!(c.y_max, d.y_max);
                assert_eq!(c.fraction_digits, d.fraction_digits);
                assert_eq!(c.series.len(), d.series.len());
                for (s, r) in c.series.iter().zip(d.series.iter()) {
                    assert_eq!(s.id, r.id);
                    assert_eq!(s.name, r.name);
                    assert_eq!(s.color, r.color);
                }
            }
        }
        (StreamMessage::Tile(x), StreamMessage::Tile(y)) => {
            assert_eq!(x.id, y.id);
            assert_eq!(x.value, y.value);
        }
        (StreamMessage::Chart(x), StreamMessage::Chart(y)) => {
            assert_eq!(x.chart_id, y.chart_id);
            assert_eq!(x.series.id, y.series.id);
            assert_eq!(x.series.points, y.series.points);
        }
        (StreamMessage::Complete(x), StreamMessage::Complete(y)) => {
            assert_eq!(x, y);
        }
        _ => panic!("variants differ"),
    }
}

#[test]
fn message_round_trip_every_variant() {
    for msg in [sample_skeleton(), sample_tile(), sample_chart(), sample_complete()] {
        let bytes = encode_message(&msg);
        let back = decode_message(&bytes).expect("decodes");
        assert_same(&msg, &back);
    }
}

#[test]
fn frame_round_trip_uncompressed() {
    for msg in [sample_skeleton(), sample_tile(), sample_chart(), sample_complete()] {
        let frame = encode_frame(&msg, false).expect("framed");
        // 4-byte big-endian length prefix counts the payload exactly
        let len = u32::from_be_bytes([frame[0], frame[1], frame[2], frame[3]]) as usize;
        assert_eq!(len + 4, frame.len());
        let (back, used) = decode_frame(&frame, 0, false).expect("decodes");
        assert_eq!(used, frame.len());
        assert_same(&msg, &back);
    }
}

#[test]
fn frame_round_trip_compressed() {
    for msg in [sample_skeleton(), sample_tile(), sample_chart(), sample_complete()] {
        let frame = encode_frame(&msg, true).expect("framed");
        let (back, used) = decode_frame(&frame, 0, true).expect("decodes");
        assert_eq!(used, frame.len());
        assert_same(&msg, &back);
    }
}

#[test]
fn consecutive_frames_decode_in_sequence() {
    let mut stream: Vec<u8> = Vec::new();
    stream.extend(encode_frame(&sample_skeleton(), false).unwrap());
    stream.extend(encode_frame(&sample_complete(), false).unwrap());
    let (first, next) = decode_frame(&stream, 0, false).expect("first frame");
    assert_same(&sample_skeleton(), &first);
    let (second, end) = decode_frame(&stream, next, false).expect("second frame");
    assert_same(&sample_complete(), &second);
    assert_eq!(end, stream.len());
}

#[test]
fn truncated_frame_does_not_decode() {
    let frame = encode_frame(&sample_tile(), false).unwrap();
    let cut = frame[..frame.len() - 1].to_vec();
    assert!(decode_frame(&cut, 0, false).is_none());
}
