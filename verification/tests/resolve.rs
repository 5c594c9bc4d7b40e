use cobbler::config::resolve_config_path;
use cobbler::resolve::resolve_url;

#[test]
fn test_resolve_config_path() {
    let explicit = Some(String::from("custom.yaml"));
    let (path, exists) = resolve_config_path(explicit, false);
    assert_eq!(path, String::from("custom.yaml"));
    assert!(exists);

    let (path, _) = resolve_config_path(None, false);
    assert_eq!(path, String::from(".cobbler.yaml"));
}

#[test]
fn test_resolve_config_path_default_presence() {
    let (path, exists) = resolve_config_path(None, true);
    assert_eq!(path, String::from(".cobbler.yaml"));
    assert!(exists);

    let (_, exists) = resolve_config_path(None, false);
    assert!(!exists);
}

#[test]
fn test_resolve_url_host_port() {
    assert_eq!(resolve_url("10.0.0.5:8080"), String::from("http://10.0.0.5:8080"));
}

#[test]
fn test_resolve_url_bracketed_ipv6() {
    assert_eq!(resolve_url("[::1]:8080"), String::from("http://[::1]:8080"));
}

#[test]
fn test_resolve_url_unbracketed_ipv6() {
    assert_eq!(resolve_url("fe80::1:8080"), String::from("http://[fe80::1]:8080"));
}

#[test]
fn test_resolve_url_explicit_scheme() {
    assert_eq!(resolve_url("https://h/"), String::from("https://h"));
    assert_eq!(resolve_url("http://example.com:9000"), String::from("http://example.com:9000"));
}

#[test]
fn test_resolve_url_bare_host() {
    assert_eq!(resolve_url("plainhost"), String::from("http://plainhost"));
    assert_eq!(resolve_url("plainhost/"), String::from("http://plainhost"));
}

#[test]
fn test_resolve_url_edge_cases() {
    // An empty port segment still counts as all-digits.
    assert_eq!(resolve_url("host:"), String::from("http://host:"));
    // A non-numeric trailing segment is not a port.
    assert_eq!(resolve_url("host:abc"), String::from("http://host:abc"));
    // Several trailing slashes are all stripped.
    assert_eq!(resolve_url("http://x//"), String::from("http://x"));
    assert_eq!(resolve_url(""), String::from("http://"));
}
