use elastic_importer::{
    address, basic_token, bulk_path, bulk_request, has_bulk_errors, parse_http_target,
    ping_succeeded, probe_request, HttpTarget,
};

fn target(host: &str, port: u16, base_path: &str) -> HttpTarget {
    HttpTarget { host: host.to_string(), port, base_path: base_path.to_string() }
}

#[test]
fn url_with_host_only_gets_the_default_port() {
    assert_eq!(parse_http_target("http://localhost"), Ok(target("localhost", 9200, "")));
}

#[test]
fn url_with_port() {
    assert_eq!(parse_http_target("http://localhost:9200"), Ok(target("localhost", 9200, "")));
    assert_eq!(parse_http_target("http://es.local:80"), Ok(target("es.local", 80, "")));
    assert_eq!(parse_http_target("http://h:65535"), Ok(target("h", 65535, "")));
    assert_eq!(parse_http_target("http://h:0"), Ok(target("h", 0, "")));
    assert_eq!(parse_http_target("http://h:+80"), Ok(target("h", 80, "")));
    assert_eq!(parse_http_target("http://h:0080"), Ok(target("h", 80, "")));
}

#[test]
fn url_with_base_path() {
    assert_eq!(
        parse_http_target("http://es.local:9201/search/v1"),
        Ok(target("es.local", 9201, "/search/v1"))
    );
    assert_eq!(parse_http_target("http://h/"), Ok(target("h", 9200, "/")));
    assert_eq!(parse_http_target("http://h/a:1"), Ok(target("h", 9200, "/a:1")));
    assert_eq!(parse_http_target("http://h:80/a:b/c"), Ok(target("h", 80, "/a:b/c")));
}

#[test]
fn url_without_host() {
    assert_eq!(parse_http_target("http://"), Ok(target("", 9200, "")));
    assert_eq!(parse_http_target("http://:81"), Ok(target("", 81, "")));
}

#[test]
fn other_schemes_are_refused() {
    let refused = Err("Only http:// supported".to_string());
    assert_eq!(parse_http_target("https://localhost:9200"), refused);
    assert_eq!(parse_http_target("localhost:9200"), refused);
    assert_eq!(parse_http_target("HTTP://localhost"), refused);
    assert_eq!(parse_http_target("http:/"), refused);
    assert_eq!(parse_http_target(""), refused);
}

#[test]
fn unreadable_ports_are_refused() {
    let refused = Err("Invalid port".to_string());
    assert_eq!(parse_http_target("http://h:"), refused);
    assert_eq!(parse_http_target("http://h:abc"), refused);
    assert_eq!(parse_http_target("http://h:65536"), refused);
    assert_eq!(parse_http_target("http://h:-80"), refused);
    assert_eq!(parse_http_target("http://h:1:2"), refused);
    assert_eq!(parse_http_target("http://h:80 "), refused);
    assert_eq!(parse_http_target("http://h:+"), refused);
    assert_eq!(parse_http_target("http://h:/path"), refused);
    assert_eq!(parse_http_target("http://h:99999999999999999999999"), refused);
}

#[test]
fn address_and_paths() {
    let t = target("es.local", 9201, "/search");
    assert_eq!(address(&t), "es.local:9201");
    assert_eq!(bulk_path(&t), "/search/_bulk");
    let t = target("localhost", 0, "");
    assert_eq!(address(&t), "localhost:0");
    assert_eq!(bulk_path(&t), "/_bulk");
    assert_eq!(address(&target("h", 65535, "")), "h:65535");
}

#[test]
fn basic_tokens() {
    assert_eq!(basic_token("user", "pass"), Some("dXNlcjpwYXNz".to_string()));
    assert_eq!(basic_token("elastic", "changeme"), Some("ZWxhc3RpYzpjaGFuZ2VtZQ==".to_string()));
    assert_eq!(basic_token("né", "ü"), Some("bsOpOsO8".to_string()));
    assert_eq!(basic_token("", ""), Some("Og==".to_string()));
    assert_eq!(basic_token("a", ""), Some("YTo=".to_string()));
}

#[test]
fn probe_request_without_credentials() {
    assert_eq!(
        probe_request(&target("localhost", 9200, ""), None),
        "GET / HTTP/1.1\r\nHost: localhost\r\nConnection: close\r\n\r\n"
    );
}

#[test]
fn probe_request_with_base_path_and_credentials() {
    assert_eq!(
        probe_request(&target("es.local", 80, "/search"), Some("dXNlcjpwYXNz")),
        "GET /search HTTP/1.1\r\nHost: es.local\r\nConnection: close\r\nAuthorization: Basic dXNlcjpwYXNz\r\n\r\n"
    );
}

#[test]
fn bulk_request_without_credentials() {
    assert_eq!(
        bulk_request(&target("localhost", 9200, ""), "/_bulk", "{}\n{}\n", None),
        "POST /_bulk HTTP/1.1\r\nHost: localhost\r\nContent-Type: application/x-ndjson\r\nConnection: close\r\nContent-Length: 6\r\n\r\n{}\n{}\n"
    );
}

#[test]
fn bulk_request_with_credentials() {
    assert_eq!(
        bulk_request(&target("h", 1, "/p"), "/p/_bulk", "x", Some("Og==")),
        "POST /p/_bulk HTTP/1.1\r\nHost: h\r\nContent-Type: application/x-ndjson\r\nConnection: close\r\nContent-Length: 1\r\nAuthorization: Basic Og==\r\n\r\nx"
    );
}

#[test]
fn content_length_counts_bytes() {
    let request = bulk_request(&target("h", 1, ""), "/_bulk", "é日\n", None);
    assert!(request.contains("\r\nContent-Length: 6\r\n"));
    assert!(request.ends_with("\r\n\r\né日\n"));
    let request = bulk_request(&target("h", 1, ""), "/_bulk", "", None);
    assert!(request.contains("\r\nContent-Length: 0\r\n"));
    let body = "0123456789".repeat(1234);
    let request = bulk_request(&target("h", 1, ""), "/_bulk", &body, None);
    assert!(request.contains("\r\nContent-Length: 12340\r\n"));
}

#[test]
fn probe_answers() {
    assert!(ping_succeeded("HTTP/1.1 200 OK\r\nContent-Length: 2\r\n\r\n{}"));
    assert!(ping_succeeded("HTTP/1.1 200"));
    assert!(!ping_succeeded("HTTP/1.1 401 Unauthorized\r\n\r\n"));
    assert!(!ping_succeeded("HTTP/1.0 200 OK\r\n\r\n"));
    assert!(!ping_succeeded(" HTTP/1.1 200 OK"));
    assert!(!ping_succeeded("HTTP/1.1 20"));
    assert!(!ping_succeeded(""));
}

#[test]
fn error_marker_in_responses() {
    assert!(has_bulk_errors("HTTP/1.1 200 OK\r\n\r\n{\"took\":3,\"errors\":true,\"items\":[]}"));
    assert!(has_bulk_errors("\"errors\":true"));
    assert!(has_bulk_errors("x\"errors\":true"));
    assert!(!has_bulk_errors("HTTP/1.1 200 OK\r\n\r\n{\"took\":3,\"errors\":false,\"items\":[]}"));
    assert!(!has_bulk_errors("{\"errors\": true}"));
    assert!(!has_bulk_errors("\"errors\":tru"));
    assert!(!has_bulk_errors("errors\":true"));
    assert!(!has_bulk_errors(""));
}
