use manga_pdf::json::Json;
use manga_pdf::manifest::{manifest_from_json, resolve_manifest, MetadataError};

fn payload(pages: &str) -> Vec<u8> {
    format!(
        "{{\"result\":\"ok\",\"baseUrl\":\"https://host.example\",\"chapter\":{{\"hash\":\"h4sh\",\"data\":{}}}}}",
        pages
    )
    .into_bytes()
}

#[test]
fn parse_reads_nested_values() {
    let parsed = Json::parse(b"{\"a\": [\"x\", 1, null, true, {\"b\": \"y\"}]}").unwrap();
    let items = parsed.items("a").unwrap();
    assert_eq!(items.len(), 5);
    assert!(matches!(&items[0], Json::Text(s) if s == "x"));
    assert!(matches!(&items[1], Json::Number));
    assert!(matches!(&items[2], Json::Null));
    assert!(matches!(&items[3], Json::Bool(true)));
    assert_eq!(items[4].text("b").map(|s| s.as_str()), Some("y"));
    assert!(items[4].text("c").is_none());
    assert!(parsed.text("a").is_none());
    assert!(parsed.member("zz").is_none());
}

#[test]
fn parse_rejects_what_is_no_json() {
    assert!(Json::parse(b"").is_none());
    assert!(Json::parse(b"{\"a\": ").is_none());
    assert!(Json::parse(b"<html></html>").is_none());
}

#[test]
fn member_takes_the_first_of_equal_keys() {
    let value = Json::Object(vec![
        ("k".to_string(), Json::Text("first".to_string())),
        ("k".to_string(), Json::Text("second".to_string())),
    ]);
    assert_eq!(value.text("k").map(|s| s.as_str()), Some("first"));
    assert!(Json::Null.member("k").is_none());
}

#[test]
fn manifest_keeps_server_order_and_ordinals() {
    let manifest = resolve_manifest(200, &payload("[\"p1.png\",\"p2.jpg\",\"p3.png\"]")).unwrap();
    assert_eq!(manifest.base_url, "https://host.example");
    assert_eq!(manifest.hash, "h4sh");
    let names: Vec<(usize, &str)> =
        manifest.entries.iter().map(|e| (e.ordinal, e.remote_filename.as_str())).collect();
    assert_eq!(names, vec![(0, "p1.png"), (1, "p2.jpg"), (2, "p3.png")]);
}

#[test]
fn manifest_may_be_empty() {
    let manifest = resolve_manifest(299, &payload("[]")).unwrap();
    assert!(manifest.entries.is_empty());
}

#[test]
fn manifest_rejects_failure_status() {
    let body = payload("[\"p1.png\"]");
    assert_eq!(resolve_manifest(404, &body).err(), Some(MetadataError::Status(404)));
    assert_eq!(resolve_manifest(199, &body).err(), Some(MetadataError::Status(199)));
    assert_eq!(resolve_manifest(300, &body).err(), Some(MetadataError::Status(300)));
}

#[test]
fn manifest_rejects_malformed_payloads() {
    assert_eq!(resolve_manifest(200, b"not json").err(), Some(MetadataError::NotJson));
    assert_eq!(resolve_manifest(200, b"{}").err(), Some(MetadataError::MissingBaseUrl));
    assert_eq!(
        resolve_manifest(200, b"{\"baseUrl\": 5, \"chapter\": {}}").err(),
        Some(MetadataError::MissingBaseUrl)
    );
    assert_eq!(
        resolve_manifest(200, b"{\"baseUrl\": \"u\"}").err(),
        Some(MetadataError::MissingHash)
    );
    assert_eq!(
        resolve_manifest(200, b"{\"baseUrl\": \"u\", \"chapter\": {\"data\": []}}").err(),
        Some(MetadataError::MissingHash)
    );
    assert_eq!(
        resolve_manifest(200, b"{\"baseUrl\": \"u\", \"chapter\": {\"hash\": \"h\"}}").err(),
        Some(MetadataError::MissingPages)
    );
    assert_eq!(
        resolve_manifest(200, &payload("[\"p1.png\", 7, null]")).err(),
        Some(MetadataError::BadPageName(1))
    );
}

#[test]
fn manifest_from_json_reads_a_hand_built_payload() {
    let value = Json::Object(vec![
        ("baseUrl".to_string(), Json::Text("b".to_string())),
        (
            "chapter".to_string(),
            Json::Object(vec![
                ("hash".to_string(), Json::Text("h".to_string())),
                ("data".to_string(), Json::Array(vec![Json::Text("only.png".to_string())])),
            ]),
        ),
    ]);
    let manifest = manifest_from_json(&value).ok().unwrap();
    assert_eq!(manifest.entries.len(), 1);
    assert_eq!(manifest.entries[0].ordinal, 0);
    assert_eq!(manifest.entries[0].remote_filename, "only.png");
}
