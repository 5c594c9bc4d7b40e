use cobbler::config::{merge_discovered, Config, NodeConfig};
use cobbler::daemon::{full_upgrade_request, mdns_plan, normalize_hostname, status_reply};
use cobbler::gate::UpgradeGate;
use cobbler::packages::{get_apt_updates, parse_upgradable_line, PackageVersions};
use cobbler::timeout::{default_timeout_millis, parse_u64_digits, DEFAULT_TIMEOUT_MILLIS};

fn pkg(name: &str, current: Option<&str>, candidate: Option<&str>) -> PackageVersions {
    PackageVersions {
        name: String::from(name),
        current: current.map(String::from),
        candidate: candidate.map(String::from),
    }
}

#[test]
fn test_gate_compare_and_swap() {
    let mut g = UpgradeGate::new();
    assert!(!g.is_upgrading());
    assert!(g.try_acquire());
    assert!(g.is_upgrading());
    assert!(!g.try_acquire());
    assert!(g.is_upgrading());
    g.release();
    assert!(!g.is_upgrading());
}

#[test]
fn test_full_upgrade_flow() {
    let mut gate = UpgradeGate::new();

    // 1. Start upgrade
    let r = full_upgrade_request(true, &mut gate);
    assert_eq!(r.code, 200);
    assert_eq!(r.message, String::from("full upgrade triggered"));
    assert!(r.launch);
    assert!(gate.is_upgrading());

    // 2. Try starting upgrade again while one is running
    let r = full_upgrade_request(true, &mut gate);
    assert_eq!(r.code, 412);
    assert_eq!(r.message, String::from("a full upgrade is currently running"));
    assert!(!r.launch);

    // 3. Check status reflects is_upgrading: true
    let s = status_reply(true, Ok(Vec::new()), &gate);
    assert!(s.is_upgrading);

    // 4. The finished background operation releases the flag; status sees idle
    gate.release();
    let s = status_reply(true, Ok(Vec::new()), &gate);
    assert!(!s.is_upgrading);
}

#[test]
fn test_full_upgrade_handler_unavailable() {
    let mut gate = UpgradeGate::new();
    let r = full_upgrade_request(false, &mut gate);
    assert_eq!(r.code, 412);
    assert_eq!(r.message, String::from("the system is not a Debian-based Linux system"));
    assert!(!r.launch);
    assert!(!gate.is_upgrading());
}

#[test]
fn test_status_handler_unavailable() {
    let gate = UpgradeGate::new();
    let s = status_reply(false, Ok(vec![String::from("pkg")]), &gate);
    assert_eq!(s.code, 412);
    assert_eq!(s.message, String::from("the system is not a Debian-based Linux system"));
    assert!(s.updates.is_empty());
    assert!(!s.is_upgrading);
}

#[test]
fn test_status_unavailable_reports_true_gate_value() {
    let mut gate = UpgradeGate::new();
    assert!(gate.try_acquire());
    let s = status_reply(false, Ok(Vec::new()), &gate);
    assert_eq!(s.code, 412);
    assert!(s.updates.is_empty());
    // the flag value is reported as read, independent of availability
    assert!(s.is_upgrading);
}

#[test]
fn test_status_up_to_date() {
    let gate = UpgradeGate::new();
    let s = status_reply(true, Ok(Vec::new()), &gate);
    assert_eq!(s.code, 200);
    assert_eq!(s.message, String::from("System is up to date"));
    assert!(s.updates.is_empty());
}

#[test]
fn test_status_counts_outdated() {
    let gate = UpgradeGate::new();
    let updates = vec![String::from("a"), String::from("b"), String::from("c")];
    let s = status_reply(true, Ok(updates.clone()), &gate);
    assert_eq!(s.code, 200);
    assert_eq!(s.message, String::from("System has 3 outdated packages"));
    assert_eq!(s.updates, updates);
}

#[test]
fn test_status_inspection_failure() {
    let gate = UpgradeGate::new();
    let s = status_reply(true, Err(String::from("boom")), &gate);
    assert_eq!(s.code, 500);
    assert_eq!(s.message, String::from("Failed to check for updates: boom"));
    assert!(s.updates.is_empty());
}

#[test]
fn test_get_apt_updates() {
    let packages = vec![
        pkg("curl", Some("1.0"), Some("1.1")),
        pkg("git", Some("2.0"), Some("2.0")),
        pkg("new-pkg", None, Some("0.1")),
        pkg("removed", Some("3.0"), None),
        pkg("vim", Some("9.0"), Some("9.1")),
    ];
    let updates = get_apt_updates(&packages);
    assert_eq!(updates, vec![String::from("curl"), String::from("vim")]);
}

#[test]
fn test_get_apt_updates_empty() {
    let updates = get_apt_updates(&Vec::new());
    assert!(updates.is_empty());
}

#[test]
fn test_mdns_plan() {
    let hostname = String::from("web.example.com");
    let p = mdns_plan(&hostname);
    assert_eq!(p.instance, String::from("cobblerd-web"));
    assert_eq!(p.host_name, String::from("web.local."));
    assert_eq!(p.service_type, String::from("_cobbler._tcp.local."));
    assert_eq!(p.id, String::from("web.example.com"));
}

#[test]
fn test_mdns_plan_bare_hostname() {
    let p = mdns_plan(&String::from("box"));
    assert_eq!(p.instance, String::from("cobblerd-box"));
    assert_eq!(p.host_name, String::from("box.local."));
}

#[test]
fn test_normalize_hostname() {
    assert_eq!(normalize_hostname("host.example.com."), String::from("host.example.com"));
    assert_eq!(normalize_hostname("host"), String::from("host"));
}

#[test]
fn test_default_timeout_policy() {
    assert_eq!(default_timeout_millis(&Some(String::from("15"))), 15000);
    assert_eq!(default_timeout_millis(&Some(String::from("1m"))), 60000);
    assert_eq!(default_timeout_millis(&None), 60000);
    assert_eq!(DEFAULT_TIMEOUT_MILLIS, 60000);
}

#[test]
fn test_timeout_duration_strings() {
    assert_eq!(default_timeout_millis(&Some(String::from("4.2s"))), 4200);
    assert_eq!(default_timeout_millis(&Some(String::from("2h 37min"))), 9420000);
    assert_eq!(default_timeout_millis(&Some(String::from("0"))), 0);
    // unusable values fall back to the default
    assert_eq!(default_timeout_millis(&Some(String::from("soon"))), 60000);
    assert_eq!(default_timeout_millis(&Some(String::from(""))), 60000);
}

#[test]
fn test_timeout_digit_bound() {
    // a bare all-digit setting of any length still counts as seconds
    assert_eq!(
        default_timeout_millis(&Some(String::from("86400000000"))),
        86400000000000,
    );
    // a duration string with more than ten digits in total is treated as
    // unusable and never reaches the duration parser, which could not
    // return normally on inputs such as this one
    assert_eq!(
        default_timeout_millis(&Some(String::from("18446744073709551615s 1000000000ns"))),
        60000,
    );
    assert_eq!(default_timeout_millis(&Some(String::from("123456789012ms"))), 60000);
    // ten digits are still accepted
    assert_eq!(default_timeout_millis(&Some(String::from("1234567890ms"))), 1234567890);
}

#[test]
fn test_parse_u64_digits() {
    assert_eq!(parse_u64_digits(&"1234".chars().collect()), Some(1234));
    assert_eq!(parse_u64_digits(&"0".chars().collect()), Some(0));
    assert_eq!(parse_u64_digits(&"".chars().collect::<Vec<char>>()), None);
    assert_eq!(parse_u64_digits(&"12a".chars().collect()), None);
    assert_eq!(parse_u64_digits(&"18446744073709551615".chars().collect()), Some(u64::MAX));
    assert_eq!(parse_u64_digits(&"18446744073709551616".chars().collect()), None);
}

#[test]
fn test_merge_discovered() {
    let mut config = Config { nodes: vec![NodeConfig {
        name: Some(String::from("known")),
        address: String::from("10.0.0.1:8080"),
        api_key: None,
    }] };
    let discovered = vec![
        String::from("10.0.0.1:8080"),
        String::from("10.0.0.2:8080"),
        String::from("10.0.0.2:8080"),
    ];
    let updated = merge_discovered(&mut config, &discovered);
    assert!(updated);
    assert_eq!(config.nodes.len(), 2);
    assert_eq!(config.nodes[1].address, String::from("10.0.0.2:8080"));
    assert_eq!(config.nodes[1].name, None);

    let updated = merge_discovered(&mut config, &discovered);
    assert!(!updated);
    assert_eq!(config.nodes.len(), 2);
}

#[test]
fn test_parse_upgradable_line() {
    let p = parse_upgradable_line(
        "curl/noble-updates 8.5.0-2ubuntu10.6 amd64 [upgradable from: 8.5.0-2ubuntu10.3]",
    )
    .unwrap();
    assert_eq!(p.name, String::from("curl"));
    assert_eq!(p.candidate, Some(String::from("8.5.0-2ubuntu10.6")));
    assert_eq!(p.current, Some(String::from("8.5.0-2ubuntu10.3")));
}

#[test]
fn test_parse_upgradable_line_rejects() {
    // the report's header line carries no slash
    assert!(parse_upgradable_line("Listing... Done").is_none());
    // a slash alone, with no candidate field after it, names no package
    assert!(parse_upgradable_line("odd/line").is_none());
    assert!(parse_upgradable_line("").is_none());
}

#[test]
fn test_parse_upgradable_line_without_marker() {
    let p = parse_upgradable_line("tool/stable 2.0 amd64").unwrap();
    assert_eq!(p.name, String::from("tool"));
    assert_eq!(p.candidate, Some(String::from("2.0")));
    assert_eq!(p.current, None);
}
