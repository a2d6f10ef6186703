use version_updater::UpdateError;
use version_updater::update_content;
use version_updater::update_json;

fn parse(bytes: &[u8]) -> serde_json::Value {
    serde_json::from_slice(bytes).expect("output must stay valid JSON")
}

#[test]
fn json_sets_top_level_and_root_package_versions() {
    let input =
        br#"{"version":"0.1.0","packages":{"":{"version":"0.1.0"},"dep":{"version":"2.0.0"}}}"#;
    let out = update_json(input, "1.0.0").expect("update must succeed");
    let doc = parse(&out);
    let obj = doc.as_object().expect("top level stays an object");
    assert_eq!(obj.get("version").unwrap().as_str(), Some("1.0.0"));
    let packages = obj.get("packages").unwrap().as_object().unwrap();
    assert_eq!(
        packages.get("").unwrap().as_object().unwrap().get("version").unwrap().as_str(),
        Some("1.0.0")
    );
    assert_eq!(
        packages.get("dep").unwrap().as_object().unwrap().get("version").unwrap().as_str(),
        Some("2.0.0")
    );
}

#[test]
fn json_preserves_unrelated_fields() {
    let input = br#"{"name":"tool","version":"0.1.0","keywords":["a","b"]}"#;
    let out = update_json(input, "3.4.5").expect("update must succeed");
    let doc = parse(&out);
    let obj = doc.as_object().unwrap();
    assert_eq!(obj.get("name").unwrap().as_str(), Some("tool"));
    assert_eq!(obj.get("version").unwrap().as_str(), Some("3.4.5"));
    let kw = obj.get("keywords").unwrap().as_array().unwrap();
    assert_eq!(kw.len(), 2);
    assert_eq!(kw[0].as_str(), Some("a"));
    assert_eq!(kw[1].as_str(), Some("b"));
}

#[test]
fn json_inserts_version_when_absent() {
    let input = br#"{"name":"tool"}"#;
    let out = update_json(input, "0.0.1").expect("update must succeed");
    let doc = parse(&out);
    assert_eq!(doc.as_object().unwrap().get("version").unwrap().as_str(), Some("0.0.1"));
}

#[test]
fn json_non_object_top_level_is_a_silent_no_op() {
    let input = b"[1,2,3]";
    let out = update_json(input, "1.0.0").expect("update must succeed");
    let doc = parse(&out);
    let arr = doc.as_array().unwrap();
    assert_eq!(arr.len(), 3);
}

#[test]
fn json_output_ends_with_single_newline() {
    let out = update_json(br#"{"version":"1"}"#, "2").expect("update must succeed");
    assert_eq!(out.last(), Some(&b'\n'));
    assert_ne!(out[out.len() - 2], b'\n');
}

#[test]
fn json_update_is_idempotent() {
    let input =
        br#"{"version":"0.1.0","packages":{"":{"version":"0.1.0"},"dep":{"version":"2.0.0"}}}"#;
    let once = update_json(input, "1.0.0").expect("first update must succeed");
    let twice = update_json(&once, "1.0.0").expect("second update must succeed");
    assert_eq!(once, twice);
}

#[test]
fn json_malformed_document_is_an_error() {
    let r = update_json(b"{\"version\": ", "1.0.0");
    assert_eq!(r, Err(UpdateError::MalformedDocument));
    let r = update_content("package.json", b"not json", "1.0.0");
    assert_eq!(r, Err(UpdateError::MalformedDocument));
}

#[test]
fn json_dispatch_through_path() {
    let out = update_content("a/package.json", br#"{"version":"0.9.9"}"#, "1.0.0")
        .expect("update must succeed");
    let doc = parse(&out);
    assert_eq!(doc.as_object().unwrap().get("version").unwrap().as_str(), Some("1.0.0"));
}
