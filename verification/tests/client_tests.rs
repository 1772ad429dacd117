use nodedesk::client::{check_status, path_with_query, AgentRequest, Method};
use std::time::Duration;

#[test]
fn query_encoding_is_signature_safe() {
    let target = path_with_query("/files/stat", &[("path", "C:/Users/a b/x&y.bin".into())]);
    assert_eq!(
        target,
        "/files/stat?path=C%3A%2FUsers%2Fa%20b%2Fx%26y.bin",
        "separators and spaces must be encoded so the target cannot be re-parsed"
    );
}

#[test]
fn empty_query_leaves_the_path_alone() {
    assert_eq!(path_with_query("/metrics", &[]), "/metrics");
}

#[test]
fn encoded_target_survives_url_parsing() {
    let target = path_with_query("/files/download", &[("path", "C:/x/y.bin".into())]);
    let url = reqwest::Url::parse(&format!("http://host:47801{target}")).unwrap();
    let parsed = match url.query() {
        Some(q) => format!("{}?{}", url.path(), q),
        None => url.path().to_string(),
    };
    assert_eq!(parsed, target);
}

#[test]
fn builder_composes_the_expected_target() {
    let request = AgentRequest::get("10.0.0.2", 47801, "/files/list")
        .query(vec![("path", "C:/Users/me".into())]);
    assert_eq!(request.target(), "/files/list?path=C%3A%2FUsers%2Fme");
}

#[test]
fn multiple_pairs_and_unicode_are_encoded() {
    let target = path_with_query(
        "/files/upload",
        &[("path", "/home/é".into()), ("offset", "42".into())],
    );
    assert_eq!(target, "/files/upload?path=%2Fhome%2F%C3%A9&offset=42");
}

#[test]
fn prepared_requests_carry_url_and_signature() {
    let prepared = AgentRequest::post("10.0.0.2", 47801, "/power")
        .body(b"{}".to_vec())
        .timeout(Duration::from_millis(500))
        .prepare_at("CODE", 1000, "n1".to_string());
    assert_eq!(prepared.url, "http://10.0.0.2:47801/power");
    assert_eq!(prepared.ts, "1000");
    assert_eq!(prepared.nonce, "n1");
    assert!(prepared.json_body);
    assert_eq!(prepared.timeout, Some(Duration::from_millis(500)));
    let expected = nodedesk::auth::signature(
        "CODE",
        "POST",
        "/power",
        1000,
        "n1",
        &nodedesk::auth::body_digest(b"{}"),
    );
    assert_eq!(prepared.signature, expected);
    assert!(matches!(prepared.method, Method::Post));
}

#[test]
fn statuses_map_to_outcomes() {
    assert_eq!(check_status(200), Ok(()));
    assert_eq!(check_status(204), Ok(()));
    assert_eq!(
        check_status(401),
        Err("the host rejected the access code for this computer".to_string())
    );
    assert_eq!(check_status(403), Err("the host refused access to that location".to_string()));
    assert_eq!(
        check_status(429),
        Err("too many failed attempts \u{2014} wait a minute and try again".to_string())
    );
    assert_eq!(check_status(500), Err("the host returned HTTP 500".to_string()));
}
