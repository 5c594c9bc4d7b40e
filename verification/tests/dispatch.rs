use cobbler::config::{Config, NodeConfig};
use cobbler::dispatch::{
    assemble_targets, dispatch_report, plan_request, render_report, target_outcome,
    DispatchAction, DispatchReport, HttpMethod, TransportResult,
};

fn node(address: &str, api_key: Option<&str>) -> NodeConfig {
    NodeConfig { name: None, address: String::from(address), api_key: api_key.map(String::from) }
}

fn response(status: &str, body: Option<&str>) -> TransportResult {
    TransportResult::Response { status: String::from(status), body: body.map(String::from) }
}

#[test]
fn test_plan_request_status() {
    let config = Config { nodes: vec![node("10.0.0.5:8080", Some("secret-key"))] };
    let target = String::from("10.0.0.5:8080");
    let p = plan_request(&target, DispatchAction::StatusFetch, &config);
    assert_eq!(p.target, target);
    assert_eq!(p.url, String::from("http://10.0.0.5:8080/status"));
    assert_eq!(p.method, HttpMethod::Get);
    assert_eq!(p.api_key, Some(String::from("secret-key")));
}

#[test]
fn test_plan_request_upgrade() {
    let config = Config { nodes: Vec::new() };
    let target = String::from("https://h/");
    let p = plan_request(&target, DispatchAction::UpgradeTrigger, &config);
    assert_eq!(p.url, String::from("https://h/packages/full-upgrade"));
    assert_eq!(p.method, HttpMethod::Post);
    assert_eq!(p.api_key, None);
}

#[test]
fn test_plan_request_credential_exact_match_only() {
    let config = Config { nodes: vec![node("host:8080", Some("k1"))] };
    // the resolved form of the same endpoint is a different target string
    let target = String::from("http://host:8080");
    let p = plan_request(&target, DispatchAction::StatusFetch, &config);
    assert_eq!(p.api_key, None);
}

#[test]
fn test_outcome_pretty_prints_json_body() {
    let target = String::from("h:1");
    let r = response("200 OK", Some("{\"b\":1,\"a\":2}"));
    let o = target_outcome(&target, DispatchAction::StatusFetch, &r);
    assert_eq!(o.target, target);
    assert_eq!(o.status, String::from("200 OK"));
    // pretty-printed, keys in serde_json's sorted order: the body text is
    // genuinely transformed, not handed back unchanged
    assert_eq!(o.body, Some(String::from("{\n  \"a\": 2,\n  \"b\": 1\n}")));
}

#[test]
fn test_outcome_fallback_for_status_action() {
    let target = String::from("h:1");
    let r = response("200 OK", Some("not json"));
    let o = target_outcome(&target, DispatchAction::StatusFetch, &r);
    assert_eq!(o.body, Some(String::from("Could not parse response as JSON")));

    let r = response("200 OK", None);
    let o = target_outcome(&target, DispatchAction::StatusFetch, &r);
    assert_eq!(o.body, Some(String::from("Could not parse response as JSON")));
}

#[test]
fn test_outcome_fallback_for_upgrade_action() {
    let target = String::from("h:1");
    let r = response("200 OK", None);
    let o = target_outcome(&target, DispatchAction::UpgradeTrigger, &r);
    assert_eq!(o.body, Some(String::from("Upgrade triggered successfully")));
}

#[test]
fn test_outcome_transport_failure() {
    let target = String::from("h:1");
    let r = TransportResult::Failed { error: String::from("connection refused") };
    let o = target_outcome(&target, DispatchAction::StatusFetch, &r);
    assert_eq!(o.status, String::from("Error: connection refused"));
    assert_eq!(o.body, None);
}

#[test]
fn test_fanout_isolation_three_targets() {
    let targets = vec![String::from("a:1"), String::from("b:2"), String::from("c:3")];
    let results = vec![
        response("200 OK", Some("{\"ok\":true}")),
        TransportResult::Failed { error: String::from("connect timeout") },
        response("200 OK", Some("{\"ok\":true}")),
    ];
    let report = dispatch_report(&targets, DispatchAction::StatusFetch, &results);
    match report {
        DispatchReport::Outcomes(v) => {
            assert_eq!(v.len(), 3);
            // input order preserved
            assert_eq!(v[0].target, String::from("a:1"));
            assert_eq!(v[1].target, String::from("b:2"));
            assert_eq!(v[2].target, String::from("c:3"));
            // exactly one outcome marks an error, the other two are untouched
            let errors: Vec<usize> =
                (0..3).filter(|i| v[*i].status.starts_with("Error: ")).collect();
            assert_eq!(errors, vec![1]);
            assert_eq!(v[0].status, String::from("200 OK"));
            assert_eq!(v[2].status, String::from("200 OK"));
            assert!(v[0].body.is_some());
            assert!(v[1].body.is_none());
            assert!(v[2].body.is_some());
        }
        DispatchReport::NoTargets => panic!("three targets were supplied"),
    }
}

#[test]
fn test_empty_target_list_is_distinct() {
    let targets: Vec<String> = Vec::new();
    let results: Vec<TransportResult> = Vec::new();
    let report = dispatch_report(&targets, DispatchAction::StatusFetch, &results);
    assert!(matches!(report, DispatchReport::NoTargets));
    let lines = render_report(&report);
    assert_eq!(lines, vec![String::from("No targets found.")]);
}

#[test]
fn test_render_report_lines() {
    let targets = vec![String::from("a:1"), String::from("b:2")];
    let results = vec![
        response("200 OK", Some("{\"k\":1}")),
        TransportResult::Failed { error: String::from("boom") },
    ];
    let report = dispatch_report(&targets, DispatchAction::StatusFetch, &results);
    let lines = render_report(&report);
    assert_eq!(
        lines,
        vec![
            String::from("TARGET\tSTATUS"),
            String::from("a:1\t200 OK"),
            // the multi-line body is indented into the status column
            String::from("\t{\n\t  \"k\": 1\n\t}"),
            String::from("b:2\tError: boom"),
        ]
    );
}

#[test]
fn test_assemble_targets_explicit_wins() {
    let config = Config { nodes: vec![node("cfg:1", None)] };
    let ts = assemble_targets(vec![String::from("x:1")], vec![String::from("y:2")], &config);
    assert_eq!(ts, vec![String::from("x:1"), String::from("y:2")]);
}

#[test]
fn test_assemble_targets_config_fallback() {
    let config = Config { nodes: vec![node("cfg:1", None), node("cfg:2", None)] };
    let ts = assemble_targets(Vec::new(), Vec::new(), &config);
    assert_eq!(ts, vec![String::from("cfg:1"), String::from("cfg:2")]);
}
