//! Tests for the built-in service table.

use portspec::{port_for, service_for, services, services_for, SERVICES_COUNT};

#[test]
fn well_known_lookups() {
    assert_eq!(port_for("ssh"), Some(22));
    assert_eq!(port_for("SSH"), Some(22));
    assert_eq!(port_for("https"), Some(443));
    assert_eq!(port_for("nope"), None);
}

#[test]
fn reverse_lookups() {
    assert_eq!(service_for(22), Some("ssh"));
    assert_eq!(service_for(443), Some("https"));
    assert_eq!(service_for(0), None);
}

#[test]
fn table_is_sorted_by_name() {
    for w in services().windows(2) {
        assert!(w[0].name < w[1].name, "{:?} > {:?}", w[0], w[1]);
    }
}

#[test]
fn table_has_the_advertised_size() {
    assert_eq!(services().len(), SERVICES_COUNT);
    assert_eq!(SERVICES_COUNT, 50);
}

#[test]
fn lookup_ignores_ascii_case_only() {
    assert_eq!(port_for("PoStGrEs"), Some(5432));
    assert_eq!(port_for("dhcp-client"), Some(68));
    assert_eq!(port_for("DHCP-SERVER"), Some(67));
    assert_eq!(port_for(" ssh"), None);
    assert_eq!(port_for("ss"), None);
    assert_eq!(port_for(""), None);
}

#[test]
fn services_for_lists_every_match() {
    let names = services_for(22);
    assert_eq!(names, vec!["ssh"]);
    assert!(services_for(9999).is_empty());
    assert_eq!(services_for(5986), vec!["winrm-https"]);
}

#[test]
fn every_row_round_trips_through_both_lookups() {
    for s in services() {
        assert_eq!(port_for(s.name), Some(s.port));
        assert_eq!(service_for(s.port), Some(s.name));
    }
}
