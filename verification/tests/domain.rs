use aquarium_telemetry::source::Aquarium;
use aquarium_telemetry::template::prepare_query;

#[test]
fn test_format_name() {
    let aquarium = Aquarium::new("Great_Barrier_".to_string());
    assert_eq!(aquarium.name, "Great Barrier");

    let aquarium = Aquarium::new("Planet_72".to_string());
    assert_eq!(aquarium.name, "Planet 72");
}

#[test]
fn test_prepare_query() {
    let vars = vec![
        ("source".to_string(), "reef".to_string()),
        ("hours".to_string(), "12".to_string()),
    ];

    let query = "SELECT * FROM apex_probe WHERE host='${source}' AND time >= now() - ${hours}h";
    let result = prepare_query(query, &vars);

    assert_eq!(result, "SELECT * FROM apex_probe WHERE host='reef' AND time >= now() - 12h");
}

#[test]
fn test_format_name_no_trailing_underscore() {
    let aquarium = Aquarium::new("nano".to_string());
    assert_eq!(aquarium.name, "nano");
    let aquarium = Aquarium::new("a_b_c".to_string());
    assert_eq!(aquarium.name, "a b c");
}

#[test]
fn test_prepare_query_unresolved_placeholder_stays() {
    let vars = vec![("source".to_string(), "reef".to_string())];
    let result = prepare_query("x=${source} y=${missing}", &vars);
    assert_eq!(result, "x=reef y=${missing}");
}

#[test]
fn test_prepare_query_no_partial_key_collision() {
    let vars = vec![
        ("h".to_string(), "WRONG".to_string()),
        ("hours".to_string(), "12".to_string()),
    ];
    let result = prepare_query("${hours}h", &vars);
    assert_eq!(result, "12h");
}

#[test]
fn test_prepare_query_empty_template() {
    let vars = vec![("source".to_string(), "reef".to_string())];
    assert_eq!(prepare_query("", &vars), "");
}
