use aquarium_telemetry::listing::{encode_source_list, wants_brotli};
use aquarium_telemetry::source::Aquarium;

#[test]
fn listing_encodes_count_then_each_id_and_name() {
    let list = vec![Aquarium::new("Reef_".to_string())];
    let bytes = encode_source_list(&list, false);
    let mut expected: Vec<u8> = Vec::new();
    expected.extend(1u64.to_be_bytes()); // one source
    expected.extend(5u64.to_be_bytes());
    expected.extend(b"Reef_"); // the id
    expected.extend(4u64.to_be_bytes());
    expected.extend(b"Reef"); // the display name
    assert_eq!(bytes, expected);
}

#[test]
fn compressed_listing_differs_from_the_plain_body() {
    let list: Vec<Aquarium> =
        (0..50).map(|i| Aquarium::new(format!("Tank_{}_", i))).collect();
    let plain = encode_source_list(&list, false);
    let packed = encode_source_list(&list, true);
    assert_ne!(plain, packed);
    assert!(packed.len() < plain.len());
}

#[test]
fn compression_negotiation_looks_for_br() {
    assert!(wants_brotli(Some("gzip, br, deflate")));
    assert!(!wants_brotli(Some("gzip, deflate")));
    assert!(!wants_brotli(None));
}
