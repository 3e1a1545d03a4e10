use aquarium_telemetry::probe::{extract_tag_value, is_probe_available, ProbeMetadata};

fn probes() -> Vec<ProbeMetadata> {
    vec![
        ProbeMetadata { probe_type: "temp".to_string(), name: "display".to_string() },
        ProbeMetadata { probe_type: "ph".to_string(), name: "main".to_string() },
    ]
}

#[test]
fn extracts_quoted_tag_value() {
    let q = "SELECT value FROM apex_probe WHERE \"probe_type\"='temp' AND \"name\"='display'";
    assert_eq!(extract_tag_value(q, "probe_type"), Some("temp".to_string()));
    assert_eq!(extract_tag_value(q, "name"), Some("display".to_string()));
    assert_eq!(extract_tag_value(q, "host"), None);
}

#[test]
fn exact_pair_must_match_when_both_tags_present() {
    let q = "WHERE \"probe_type\"='temp' AND \"name\"='display'";
    assert!(is_probe_available(q, &probes()));
    let q2 = "WHERE \"probe_type\"='temp' AND \"name\"='sump'";
    assert!(!is_probe_available(q2, &probes()));
}

#[test]
fn any_probe_of_type_suffices_without_name() {
    let q = "WHERE \"probe_type\"='ph'";
    assert!(is_probe_available(q, &probes()));
    let q2 = "WHERE \"probe_type\"='orp'";
    assert!(!is_probe_available(q2, &probes()));
}

#[test]
fn fails_open_without_probe_type() {
    let q = "SELECT mean(value) FROM apex_probe WHERE host='reef'";
    assert!(is_probe_available(q, &probes()));
}
