use dipspp::web::{api_routes_text, aux_spec_name_id, host_allowed, http_port, ping_ip_columns, tls_domains, API_ROUTES};

#[test]
fn routes_listing() {
    let t = api_routes_text();
    assert!(t.starts_with("Routes: /leaderboard/global, /leaderboard/global/len, "));
    assert!(t.ends_with(", /map/<uid>/leaderboard/<page>, /map/<uid>/live_heights"));
    assert_eq!(t, format!("Routes: {}", API_ROUTES.join(", ")));
}

#[test]
fn aux_spec_file_names() {
    assert_eq!(aux_spec_name_id("climb.json"), Some("climb".to_string()));
    assert_eq!(aux_spec_name_id("a.json.json"), Some("a".to_string()));
    assert_eq!(aux_spec_name_id(".json"), Some(String::new()));
    assert_eq!(aux_spec_name_id("climb.txt"), None);
    assert_eq!(aux_spec_name_id("json"), None);
}

#[test]
fn tls_and_hosts() {
    assert_eq!(tls_domains("dips-plus-plus-server.xk.io", false), vec!["dips-plus-plus-server.xk.io".to_string()]);
    assert_eq!(
        tls_domains("d.xk.io", true),
        vec!["d.xk.io".to_string(), "proximity.xk.io".to_string()]
    );
    assert!(host_allowed("dips-plus-plus.xk.io:443", "dips-plus-plus.xk.io"));
    assert!(!host_allowed("evil.example", "dips-plus-plus.xk.io"));
}

#[test]
fn ping_columns_and_port() {
    assert_eq!(ping_ip_columns("1.2.3.4", true), ("1.2.3.4".to_string(), String::new()));
    assert_eq!(ping_ip_columns("::1", false), (String::new(), "::1".to_string()));
    assert_eq!(http_port(true), 8077);
    assert_eq!(http_port(false), 443);
}
