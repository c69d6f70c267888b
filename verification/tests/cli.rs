//! The command's decisions, driven through `portspec::cli` with the inputs
//! the command-line tests give the binary.

use portspec::cli::{combine, combine_tagged, render, render_tagged, spec_from_stdin_line, Options, Outcome};

fn opts() -> Options {
    Options {
        count: false,
        ranges: false,
        json: false,
        intersect: None,
        difference: None,
        invert: false,
        contains: None,
        limit: 0,
        reverse: false,
        resolve: false,
        preset: None,
    }
}

fn specs(list: &[&str]) -> Vec<String> {
    list.iter().map(|s| s.to_string()).collect()
}

/// Runs the plain mode: `Ok(lines)`, `Err(exit code)` for the other endings.
fn run(o: &Options, list: &[&str]) -> Result<Vec<String>, i32> {
    match combine(o, &specs(list)) {
        Err(_) => Err(2),
        Ok(spec) => match render(o, &spec) {
            Outcome::Print(lines) => Ok(lines),
            Outcome::Covered(true) => Err(0),
            Outcome::Covered(false) => Err(1),
            Outcome::Summary => Err(-1),
        },
    }
}

#[test]
fn expands_ports_by_default() {
    let lines = run(&opts(), &["22,8000-8002"]).unwrap();
    assert_eq!(lines, vec!["22", "8000", "8001", "8002"]);
}

#[test]
fn count_flag_prints_number() {
    let o = Options { count: true, ..opts() };
    assert_eq!(run(&o, &["1-1024"]).unwrap(), vec!["1024"]);
}

#[test]
fn ranges_flag_prints_normalized() {
    let o = Options { ranges: true, ..opts() };
    assert_eq!(run(&o, &["80,1-10,11-20,80"]).unwrap(), vec!["1-20,80"]);
}

#[test]
fn union_of_multiple_specs() {
    let o = Options { ranges: true, ..opts() };
    assert_eq!(run(&o, &["1-10", "20-30"]).unwrap(), vec!["1-10,20-30"]);
}

#[test]
fn intersect_flag() {
    let o = Options { ranges: true, intersect: Some("50-150".to_string()), ..opts() };
    assert_eq!(run(&o, &["1-100"]).unwrap(), vec!["50-100"]);
}

#[test]
fn contains_hit_exits_zero() {
    let o = Options { contains: Some(443), ..opts() };
    assert_eq!(run(&o, &["1-1024"]), Err(0));
}

#[test]
fn contains_miss_exits_one() {
    let o = Options { contains: Some(70), ..opts() };
    assert_eq!(run(&o, &["22,80"]), Err(1));
}

#[test]
fn reverse_and_limit() {
    let o = Options { reverse: true, limit: 3, ..opts() };
    assert_eq!(run(&o, &["1-100"]).unwrap(), vec!["100", "99", "98"]);
}

#[test]
fn bad_spec_exits_two() {
    assert_eq!(run(&opts(), &["99999"]), Err(2));
    let message = combine(&opts(), &specs(&["99999"])).unwrap_err();
    assert_eq!(message, "portspec: \"99999\": invalid port number: \"99999\"");
}

#[test]
fn difference_flag() {
    let o = Options { ranges: true, difference: Some("20-30".to_string()), ..opts() };
    assert_eq!(run(&o, &["1-100"]).unwrap(), vec!["1-19,31-100"]);
}

#[test]
fn invert_flag() {
    let o = Options { ranges: true, invert: true, ..opts() };
    assert_eq!(run(&o, &["1-65535"]).unwrap(), vec!["0"]);
}

#[test]
fn tagged_flag_emits_proto_prefixed_lines() {
    let t = combine_tagged(&specs(&["T:22,80,U:53,123"])).unwrap();
    assert_eq!(render_tagged(&t), vec!["tcp 22", "tcp 80", "udp 53", "udp 123"]);
}

#[test]
fn tagged_flag_default_proto_is_tcp() {
    let t = combine_tagged(&specs(&["22,80,U:53"])).unwrap();
    assert_eq!(render_tagged(&t), vec!["tcp 22", "tcp 80", "udp 53"]);
}

#[test]
fn tagged_flag_bad_spec_exits_two() {
    assert!(combine_tagged(&specs(&["T:notaport"])).is_err());
}

#[test]
fn resolve_flag_appends_service_names() {
    let o = Options { resolve: true, ..opts() };
    let lines = run(&o, &["22,80,443,9999"]).unwrap();
    assert_eq!(lines[0], "22\tssh");
    assert_eq!(lines[1], "80\thttp");
    assert_eq!(lines[2], "443\thttps");
    // 9999 is not in the built-in table; the name column is empty (just TAB).
    assert_eq!(lines[3], "9999\t");
}

#[test]
fn preset_top_100_replaces_input() {
    let o = Options { count: true, preset: Some("top-100".to_string()), ..opts() };
    let n: u32 = run(&o, &[]).unwrap()[0].parse().unwrap();
    assert!((90..=170).contains(&n), "preset top-100 count out of band: {n}");
}

#[test]
fn preset_top_1000_is_larger_than_top_100() {
    let small = Options { count: true, preset: Some("top-100".to_string()), ..opts() };
    let big = Options { count: true, preset: Some("top-1000".to_string()), ..opts() };
    let s: u32 = run(&small, &[]).unwrap()[0].parse().unwrap();
    let b: u32 = run(&big, &[]).unwrap()[0].parse().unwrap();
    assert!(b > s);
}

#[test]
fn preset_unknown_exits_two() {
    let o = Options { preset: Some("nope".to_string()), ..opts() };
    let err = combine(&o, &Vec::new()).unwrap_err();
    assert!(err.contains("unknown preset"), "stderr: {err}");
    assert_eq!(err, "portspec: unknown preset \"nope\" (try top-100 / top-1000)");
}

#[test]
fn json_flag_emits_summary() {
    let o = Options { json: true, ..opts() };
    let spec = combine(&o, &specs(&["80,1-10,11-20"])).unwrap();
    assert!(matches!(render(&o, &spec), Outcome::Summary));
    assert_eq!(spec.to_string(), "1-20,80");
    assert_eq!(spec.count(), 21);
    assert_eq!(spec.ranges()[0].start(), 1);
    assert_eq!(spec.ranges()[0].end(), 20);
}

#[test]
fn stdin_lines_skip_blanks_and_comments() {
    assert_eq!(spec_from_stdin_line("  22,80  "), Some("22,80".to_string()));
    assert_eq!(spec_from_stdin_line("   "), None);
    assert_eq!(spec_from_stdin_line("# a comment"), None);
    assert_eq!(spec_from_stdin_line("  #indented"), None);
}

#[test]
fn options_apply_in_order() {
    // Intersection, then difference, then inversion.
    let o = Options {
        ranges: true,
        intersect: Some("1-100".to_string()),
        difference: Some("50-60".to_string()),
        invert: true,
        ..opts()
    };
    assert_eq!(run(&o, &["40-200"]).unwrap(), vec!["0-39,50-60,101-65535"]);
}

#[test]
fn first_bad_input_is_reported() {
    let err = combine(&opts(), &specs(&["1", "x", "y"])).unwrap_err();
    assert_eq!(err, "portspec: \"x\": invalid port number: \"x\"");
    let o = Options { intersect: Some("7-3".to_string()), ..opts() };
    let err = combine(&o, &specs(&["1"])).unwrap_err();
    assert_eq!(err, "portspec: \"7-3\": range start is greater than range end");
}

fn strings(v: &[&str]) -> Vec<String> {
    v.iter().map(|s| s.to_string()).collect()
}

#[test]
fn stdin_dash_expands_once() {
    let args = strings(&["22", "-", "80", "-"]);
    let lines = strings(&["  443 ", "# comment", "", "\t8080-8081"]);
    assert_eq!(
        portspec::cli::expand_specs(&args, &lines),
        strings(&["22", "443", "8080-8081", "80"])
    );
}

#[test]
fn arguments_without_dash_stay() {
    let args = strings(&["22", "--", "-x"]);
    let lines = strings(&["443"]);
    assert_eq!(portspec::cli::expand_specs(&args, &lines), args);
}
