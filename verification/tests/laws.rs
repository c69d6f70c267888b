//! Concrete cases of the library's laws, edge cases of the parsers, and one
//! input for each error.

use portspec::{ParseError, PortRange, PortSpec, Proto, TaggedSpec};

fn spec(s: &str) -> PortSpec {
    s.parse().unwrap()
}

#[test]
fn normal_form_is_unique() {
    assert_eq!(spec("1-10,11-20"), spec("1-20"));
    assert_eq!(spec("443,22,80"), spec("80,443,22"));
    assert_eq!(spec("5,4,3,2,1"), spec("1-5"));
    assert_eq!(spec("1-5").ranges(), spec("5,4,3,2,1").ranges());
    assert_ne!(spec("1-5"), spec("1-4,6"));
}

#[test]
fn from_ranges_keeps_a_normal_list() {
    let s = spec("1-3,7,100-200,65535");
    assert_eq!(PortSpec::from_ranges(s.ranges().to_vec()), s);
    let messy = vec![
        PortRange::new(10, 20).unwrap(),
        PortRange::single(5),
        PortRange::new(21, 30).unwrap(),
        PortRange::new(6, 9).unwrap(),
    ];
    assert_eq!(PortSpec::from_ranges(messy).to_string(), "5-30");
}

#[test]
fn range_text_round_trips() {
    for (a, b) in [(0, 0), (0, 65535), (65535, 65535), (7, 8), (1000, 2000)] {
        let r = PortRange::new(a, b).unwrap();
        assert_eq!(r.to_string().parse::<PortRange>().unwrap(), r);
    }
    assert_eq!(PortRange::full().to_string(), "0-65535");
    assert_eq!(PortRange::well_known().to_string(), "0-1023");
    assert_eq!(PortRange::registered().to_string(), "1024-49151");
    assert_eq!(PortRange::dynamic().to_string(), "49152-65535");
}

#[test]
fn spec_text_round_trips() {
    for s in ["0", "65535", "0-65535", "1,3,5-9,65534", "22,80,443,8000-8002"] {
        let p = spec(s);
        assert_eq!(p.to_string(), s);
        assert_eq!(spec(&p.to_string()), p);
    }
}

#[test]
fn tagged_text_round_trips() {
    for s in ["T:22,80,U:53", "T:1-5", "U:7,9-10", "T:0-65535,U:0-65535"] {
        let t: TaggedSpec = s.parse().unwrap();
        assert_eq!(t.to_string(), s);
        assert_eq!(t.to_string().parse::<TaggedSpec>().unwrap(), t);
    }
    assert_eq!(TaggedSpec::new().to_string(), "");
}

#[test]
fn complement_partitions_the_port_space() {
    for s in ["0", "65535", "1-100,200", "0-65535"] {
        let p = spec(s);
        let c = p.complement();
        assert_eq!(p.count() + c.count(), 65536);
        assert!(!p.overlaps(&c));
        assert_eq!(p.union(&c), spec("-"));
    }
    assert!(spec("-").complement().is_empty());
    assert_eq!(spec("10-20").complement_within(PortRange::new(0, 30).unwrap()).to_string(), "0-9,21-30");
}

#[test]
fn iteration_is_ascending_and_matches_the_set() {
    let p = spec("65530-65535,0-2,100");
    let ports: Vec<u16> = p.iter().collect();
    assert_eq!(ports, [0, 1, 2, 100, 65530, 65531, 65532, 65533, 65534, 65535]);
    assert_eq!(ports.len() as u32, p.count());
    assert!(ports.iter().all(|&q| p.contains(q)));
    assert_eq!(p.ports(), ports);
    for (i, q) in ports.iter().enumerate() {
        assert_eq!(p.nth_port(i as u32), Some(*q));
    }
    assert_eq!(p.nth_port(10), None);
    assert_eq!(p.first(), Some(0));
    assert_eq!(p.last(), Some(65535));
    assert_eq!(PortSpec::new().first(), None);
    assert_eq!(PortSpec::new().last(), None);
}

#[test]
fn range_iterator_runs_from_both_ends() {
    let mut it = PortRange::new(65533, 65535).unwrap().iter();
    assert_eq!(it.len(), 3);
    assert_eq!(it.next(), Some(65533));
    assert_eq!(it.next_back(), Some(65535));
    assert_eq!(it.size_hint(), (1, Some(1)));
    assert_eq!(it.next(), Some(65534));
    assert_eq!(it.next(), None);
    assert_eq!(it.next_back(), None);
    assert_eq!(it.len(), 0);
    let all: Vec<u16> = PortRange::full().into_iter().collect();
    assert_eq!(all.len(), 65536);
}

#[test]
fn range_predicates_at_the_edges() {
    let top = PortRange::single(65535);
    let below = PortRange::new(0, 65534).unwrap();
    assert!(below.is_mergeable(&top) && top.is_mergeable(&below));
    assert_eq!(below.merge(&top), Some(PortRange::full()));
    assert_eq!(PortRange::full().count(), 65536);
    assert!(!PortRange::single(1).is_mergeable(&PortRange::single(3)));
    assert_eq!(PortRange::single(1).merge(&PortRange::single(3)), None);
    let a = PortRange::new(10, 20).unwrap();
    let b = PortRange::new(15, 30).unwrap();
    assert_eq!(a.intersection(&b), Some(PortRange::new(15, 20).unwrap()));
    assert_eq!(a.intersection(&PortRange::single(21)), None);
    assert!(a.contains_range(&PortRange::new(10, 20).unwrap()));
    assert!(!a.contains_range(&b));
}

#[test]
fn port_numbers_parse_like_u16() {
    assert_eq!("+80".parse::<PortRange>().unwrap(), PortRange::single(80));
    assert_eq!("0080".parse::<PortRange>().unwrap(), PortRange::single(80));
    assert_eq!(" 80 - 90 ".parse::<PortRange>().unwrap(), PortRange::new(80, 90).unwrap());
    assert_eq!("- 5".parse::<PortRange>().unwrap(), PortRange::new(0, 5).unwrap());
    assert_eq!("80-".parse::<PortRange>().unwrap(), PortRange::new(80, 65535).unwrap());
    assert_eq!("\u{3000}80\u{a0}".parse::<PortRange>().unwrap(), PortRange::single(80));
    assert_eq!("65535".parse::<PortRange>().unwrap(), PortRange::single(65535));
}

#[test]
fn each_error_has_an_input() {
    assert_eq!("  ".parse::<PortRange>().unwrap_err(), ParseError::Empty);
    assert_eq!(
        "65536".parse::<PortRange>().unwrap_err(),
        ParseError::BadPort("65536".to_string())
    );
    assert_eq!(
        "1-2-3".parse::<PortRange>().unwrap_err(),
        ParseError::BadPort("2-3".to_string())
    );
    assert_eq!(
        "1 -x".parse::<PortRange>().unwrap_err(),
        ParseError::BadPort("x".to_string())
    );
    assert_eq!("--".parse::<PortRange>().unwrap_err(), ParseError::BadPort("-".to_string()));
    assert_eq!("+".parse::<PortRange>().unwrap_err(), ParseError::BadPort("+".to_string()));
    assert_eq!("9-8".parse::<PortRange>().unwrap_err(), ParseError::StartAfterEnd);
    assert_eq!(PortRange::new(9, 8).unwrap_err(), ParseError::StartAfterEnd);
    assert_eq!(" sctp ".parse::<Proto>().unwrap_err(), ParseError::Malformed("sctp".to_string()));
    assert_eq!("1,x,y".parse::<PortSpec>().unwrap_err(), ParseError::BadPort("x".to_string()));
    assert_eq!(" ".parse::<TaggedSpec>().unwrap_err(), ParseError::Empty);
    // Unlike a plain spec, a tagged spec of blank items is merely empty.
    assert!(" , ".parse::<TaggedSpec>().unwrap().is_empty());
    assert_eq!(" , ".parse::<PortSpec>().unwrap_err(), ParseError::Empty);
}

#[test]
fn error_messages() {
    assert_eq!(ParseError::Empty.to_string(), "empty input");
    assert_eq!(ParseError::BadPort("x".to_string()).to_string(), "invalid port number: \"x\"");
    assert_eq!(
        ParseError::StartAfterEnd.to_string(),
        "range start is greater than range end"
    );
    assert_eq!(ParseError::Malformed("a\"b".to_string()).to_string(), "malformed input: \"a\\\"b\"");
}

#[test]
fn spec_mutation() {
    let mut p = spec("1-10");
    p.insert(PortRange::new(11, 12).unwrap());
    assert_eq!(p.to_string(), "1-12");
    p.insert(PortRange::single(20));
    assert_eq!(p.to_string(), "1-12,20");
    p.remove(PortRange::new(5, 6).unwrap());
    assert_eq!(p.to_string(), "1-4,7-12,20");
    p.remove(PortRange::full());
    assert!(p.is_empty());
    assert_eq!(PortSpec::default(), PortSpec::new());
    let q = spec("3,4");
    assert_eq!(q.clone(), q);
}

#[test]
fn set_predicates() {
    let a = spec("1-100");
    let b = spec("20-30");
    assert!(b.is_subset_of(&a) && a.contains_spec(&b));
    assert!(!a.is_subset_of(&b));
    assert!(a.overlaps(&b) && !b.overlaps(&spec("31-40")));
    assert_eq!(a.difference(&b).to_string(), "1-19,31-100");
    assert_eq!(PortSpec::from_ports(&[80, 81, 82]).to_string(), "80-82");
    assert_eq!(PortSpec::from_ports(&[9, 1, 9, 2]).to_string(), "1-2,9");
    assert_eq!(PortSpec::from_range(PortRange::single(5)).to_string(), "5");
}

#[test]
fn tagged_prefixes() {
    let t: TaggedSpec = "tcp:80,udp :53,T : 1".parse().unwrap();
    assert_eq!(t.tcp.to_string(), "1,80");
    assert_eq!(t.udp.to_string(), "53");
    assert_eq!(
        "TCPX:80".parse::<TaggedSpec>().unwrap_err(),
        ParseError::BadPort("TCPX:80".to_string())
    );
    let u: TaggedSpec = "U:1,2,T:3".parse().unwrap();
    let pairs: Vec<(Proto, u16)> = u.iter().collect();
    assert_eq!(pairs, [(Proto::Tcp, 3), (Proto::Udp, 1), (Proto::Udp, 2)]);
    assert_eq!(u.for_proto(Proto::Udp).count(), 2);
    assert_eq!(u.count(), 3);
    assert!(!u.is_empty() && TaggedSpec::new().is_empty());
    assert_eq!(Proto::Udp.letter(), 'U');
}

#[test]
fn specs_accept_service_names() {
    assert_eq!(spec("ssh,http,8000-8002").to_string(), "22,80,8000-8002");
    assert_eq!(spec(" SSH , dhcp-client ").to_string(), "22,68");
    assert_eq!("nope".parse::<PortSpec>().unwrap_err(), ParseError::BadPort("nope".to_string()));
    assert_eq!(
        "dhcp-nope".parse::<PortSpec>().unwrap_err(),
        ParseError::BadPort("dhcp".to_string())
    );
    let t: TaggedSpec = "T:ssh,U:dns".parse().unwrap();
    assert!(t.contains(Proto::Tcp, 22) && t.contains(Proto::Udp, 53));
    // A single range does not look names up.
    assert!("ssh".parse::<PortRange>().is_err());
}

#[test]
fn ports_come_with_their_names() {
    let named = spec("21-23,9999").iter_named();
    assert_eq!(
        named,
        vec![(21, Some("ftp")), (22, Some("ssh")), (23, Some("telnet")), (9999, None)]
    );
    let owned: Vec<u16> = spec("5-7").into_iter().rev().collect();
    assert_eq!(owned, [7, 6, 5]);
}

#[test]
fn tagged_specs_clone_and_default() {
    let t: TaggedSpec = "T:1-3,U:9".parse().unwrap();
    assert_eq!(t.clone(), t);
    assert_eq!(TaggedSpec::default(), TaggedSpec::new());
    let a: TaggedSpec = "T:1-10,U:5".parse().unwrap();
    let b: TaggedSpec = "T:5-20,U:6".parse().unwrap();
    assert_eq!(a.union(&b).to_string(), "T:1-20,U:5-6");
    assert_eq!(a.intersection(&b).to_string(), "T:5-10");
    assert_eq!(a.difference(&b).to_string(), "T:1-4,U:5");
}

#[test]
fn preset_sizes_and_ranges() {
    let small = portspec::top_100_tcp();
    let big = portspec::top_1000_tcp();
    assert_eq!(small.count(), 101);
    assert_eq!(big.count(), 11006);
    assert!(small.is_subset_of(&big));
    assert!(big.contains(1) && !small.contains(1));
    assert_eq!(
        big.ranges(),
        &[
            PortRange::new(1, 10999).unwrap(),
            PortRange::single(32768),
            PortRange::new(49152, 49157).unwrap(),
        ][..]
    );
}
