use cobbler::discover::{
    collect_targets_within, collect_within, deadline_for, discover_header, remaining_millis,
    service_name, Collector, DiscoveryEvent, DiscoverError, ServiceEntry, TimedEvent,
};

fn entry(fullname: &str, host: &str, port: u16, id: Option<&str>, v4: &[&str], v6: &[&str]) -> ServiceEntry {
    ServiceEntry {
        fullname: String::from(fullname),
        hostname: String::from(host),
        port,
        id: id.map(String::from),
        ipv4: v4.iter().map(|a| String::from(*a)).collect(),
        ipv6: v6.iter().map(|a| String::from(*a)).collect(),
    }
}

fn resolved_at(at_ms: u64, e: ServiceEntry) -> TimedEvent {
    TimedEvent { at_ms, event: DiscoveryEvent::Resolved(e) }
}

#[test]
fn test_collect_dedups_first_seen() {
    let events = vec![
        resolved_at(10, entry("a._cobbler._tcp.local.", "a.local.", 8080, Some("a"), &["10.0.0.1"], &[])),
        resolved_at(20, entry("b._cobbler._tcp.local.", "b.local.", 8081, Some("b"), &["10.0.0.2"], &[])),
        // a repeat of the first identity, carrying a different port: dropped
        resolved_at(30, entry("a._cobbler._tcp.local.", "a.local.", 9999, Some("a2"), &["10.0.0.9"], &[])),
    ];
    let out = collect_within(0, 1000, events).unwrap();
    assert_eq!(out.len(), 2);
    assert_eq!(out[0].fullname, String::from("a._cobbler._tcp.local."));
    assert_eq!(out[0].port, 8080);
    assert_eq!(out[1].fullname, String::from("b._cobbler._tcp.local."));
}

#[test]
fn test_collect_stops_at_deadline() {
    let events = vec![
        resolved_at(10, entry("a._cobbler._tcp.local.", "a.", 1, None, &["10.0.0.1"], &[])),
        resolved_at(1000, entry("b._cobbler._tcp.local.", "b.", 2, None, &["10.0.0.2"], &[])),
        resolved_at(2000, entry("c._cobbler._tcp.local.", "c.", 3, None, &["10.0.0.3"], &[])),
    ];
    let out = collect_within(0, 1000, events).unwrap();
    assert_eq!(out.len(), 1);
    assert_eq!(out[0].fullname, String::from("a._cobbler._tcp.local."));
}

#[test]
fn test_collect_zero_events() {
    let out = collect_within(0, 1000, Vec::new()).unwrap();
    assert!(out.is_empty());
}

#[test]
fn test_collect_disconnected_fails() {
    let events = vec![
        resolved_at(10, entry("a._cobbler._tcp.local.", "a.", 1, None, &["10.0.0.1"], &[])),
        TimedEvent { at_ms: 20, event: DiscoveryEvent::Disconnected },
    ];
    match collect_within(0, 1000, events) {
        Err(e) => {
            assert_eq!(e.message(), String::from("browse: receiver disconnected"));
            assert!(matches!(e, DiscoverError::Disconnected));
        }
        Ok(_) => panic!("a closed channel must fail the run"),
    }
}

#[test]
fn test_collect_ignores_other_events() {
    let events = vec![
        TimedEvent { at_ms: 5, event: DiscoveryEvent::SearchStopped(String::from("_cobbler._tcp.local.")) },
        TimedEvent { at_ms: 6, event: DiscoveryEvent::Other },
        resolved_at(10, entry("a._cobbler._tcp.local.", "a.", 1, None, &["10.0.0.1"], &[])),
    ];
    let out = collect_within(0, 1000, events).unwrap();
    assert_eq!(out.len(), 1);
}

#[test]
fn test_collector_observe() {
    let mut c = Collector::new();
    let fresh = c.observe(entry("x._cobbler._tcp.local.", "x.", 1, None, &[], &[]));
    assert!(fresh);
    let fresh = c.observe(entry("x._cobbler._tcp.local.", "x.", 1, None, &[], &[]));
    assert!(!fresh);
    assert_eq!(c.entries().len(), 1);
}

#[test]
fn test_entry_accessors() {
    let e = entry(
        "web._cobbler._tcp.local.",
        "web.local.",
        8080,
        Some("web.example.com"),
        &["192.168.1.5", "10.0.0.5"],
        &["fe80::1"],
    );
    assert_eq!(e.entry_id(), String::from("web.example.com"));
    assert_eq!(e.entry_host(), String::from("web.local"));
    assert_eq!(e.entry_addresses(), String::from("192.168.1.5,10.0.0.5,fe80::1"));
    assert_eq!(e.entry_instance(), String::from("web"));
    assert_eq!(
        e.entry_row(),
        String::from("web.example.com\tweb.local\t192.168.1.5,10.0.0.5,fe80::1\t8080\tweb")
    );
}

#[test]
fn test_entry_accessors_defaults() {
    let e = entry("oddname.local.", "h", 1, None, &[], &[]);
    // no id property: empty; no suffix to strip: full name kept
    assert_eq!(e.entry_id(), String::from(""));
    assert_eq!(e.entry_addresses(), String::from(""));
    assert_eq!(e.entry_instance(), String::from("oddname.local."));
}

#[test]
fn test_entry_targets() {
    let e = entry("a._cobbler._tcp.local.", "a.", 8080, None, &["10.0.0.1"], &["fe80::1"]);
    let ts = e.entry_targets();
    assert_eq!(ts, vec![String::from("10.0.0.1:8080"), String::from("fe80::1:8080")]);
}

#[test]
fn test_collect_targets_dedups_by_identity() {
    let events = vec![
        resolved_at(10, entry("a._cobbler._tcp.local.", "a.", 8080, None, &["10.0.0.1"], &[])),
        // a repeat of a seen identity is dropped whole, even when it
        // carries a new address: the first-seen event's targets stand
        resolved_at(20, entry("a._cobbler._tcp.local.", "a.", 8080, None, &["10.0.0.9"], &[])),
        resolved_at(30, entry("b._cobbler._tcp.local.", "b.", 8081, None, &["10.0.0.2"], &[])),
    ];
    let ts = collect_targets_within(0, 1000, events).unwrap();
    assert_eq!(ts, vec![String::from("10.0.0.1:8080"), String::from("10.0.0.2:8081")]);
}

#[test]
fn test_collect_targets_keeps_equal_target_once() {
    // two distinct identities advertising the same address and port yield
    // the one target string once
    let events = vec![
        resolved_at(10, entry("a._cobbler._tcp.local.", "a.", 8080, None, &["10.0.0.1"], &[])),
        resolved_at(20, entry("b._cobbler._tcp.local.", "b.", 8080, None, &["10.0.0.1"], &[])),
    ];
    let ts = collect_targets_within(0, 1000, events).unwrap();
    assert_eq!(ts, vec![String::from("10.0.0.1:8080")]);
}

#[test]
fn test_deadline_and_remaining() {
    assert_eq!(deadline_for(100, 50), 150);
    assert_eq!(deadline_for(u64::MAX - 1, 10), u64::MAX);
    assert_eq!(remaining_millis(150, 100), 50);
    assert_eq!(remaining_millis(150, 150), 0);
    assert_eq!(remaining_millis(150, 200), 0);
}

#[test]
fn test_service_name_and_header() {
    assert_eq!(service_name(), String::from("_cobbler._tcp.local."));
    assert_eq!(discover_header(), String::from("ID\tHOST\tADDRESS\tPORT\tINSTANCE"));
}
