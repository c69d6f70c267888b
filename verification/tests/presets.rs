//! Tests for the built-in port presets.

use portspec::{preset, top_1000_tcp, top_100_tcp, ParseError, PortSpec, TOP_1000_TCP_LIST, TOP_100_TCP_LIST};

#[test]
fn presets_parse_cleanly() {
    let _ = top_100_tcp();
    let _ = top_1000_tcp();
}

#[test]
fn list_constants_round_trip_through_parse() {
    let small: PortSpec = TOP_100_TCP_LIST.parse().unwrap();
    assert_eq!(small, top_100_tcp());
    let big: PortSpec = TOP_1000_TCP_LIST.parse().unwrap();
    assert_eq!(big, top_1000_tcp());
}

#[test]
fn top_1000_is_a_superset_of_top_100() {
    let small = top_100_tcp();
    let big = top_1000_tcp();
    assert!(small.is_subset_of(&big));
    // And it's strictly larger.
    assert!(big.count() > small.count());
}

#[test]
fn presets_normalize_and_dedup() {
    // Whatever the lists look like in source, the PortSpec invariant
    // forbids overlapping ranges — so every range must be disjoint.
    let spec = top_1000_tcp();
    let ranges = spec.ranges();
    for win in ranges.windows(2) {
        assert!(
            win[0].end() < win[1].start(),
            "ranges should be disjoint and sorted: {:?} vs {:?}",
            win[0],
            win[1],
        );
    }
}

#[test]
fn preset_lookup_accepts_case_and_dash_variants() {
    assert_eq!(preset("top-100").unwrap(), top_100_tcp());
    assert_eq!(preset("TOP100").unwrap(), top_100_tcp());
    assert_eq!(preset("Top-1000").unwrap(), top_1000_tcp());
    assert_eq!(preset("top1000").unwrap(), top_1000_tcp());
}

#[test]
fn preset_lookup_unknown_name_is_error() {
    let err = preset("nope").unwrap_err();
    assert!(matches!(err, ParseError::Malformed(_)));
}

#[test]
fn common_services_are_covered_by_both_presets() {
    let small = top_100_tcp();
    let big = top_1000_tcp();
    for p in [22, 25, 53, 80, 443] {
        assert!(small.contains(p), "small missing tcp/{p}");
        assert!(big.contains(p), "big missing tcp/{p}");
    }
}

#[test]
fn top_100_is_nonempty_and_capped() {
    let spec = top_100_tcp();
    let n = spec.count();
    // Hand-curated, so the count should sit in a tight band around 100.
    assert!(
        (90..=170).contains(&n),
        "expected ~100 ports in TOP_100, got {n}"
    );
}

#[test]
fn top_1000_contains_top_100() {
    let small = top_100_tcp();
    let big = top_1000_tcp();
    assert!(small.is_subset_of(&big), "top_100 must be a subset of top_1000");
}

#[test]
fn famous_ports_are_in_top_100() {
    let spec = top_100_tcp();
    for p in [22, 25, 53, 80, 443, 3306, 3389, 5432, 8080] {
        assert!(spec.contains(p), "tcp/{p} expected in TOP_100");
    }
}

#[test]
fn preset_names_are_exact() {
    assert_eq!(preset("tOp-1000").unwrap(), top_1000_tcp());
    assert_eq!(
        preset("top-10").unwrap_err(),
        ParseError::Malformed("top-10".to_string())
    );
    assert!(preset(" top100").is_err());
}
