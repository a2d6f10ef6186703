use version_updater::UpdateError;
use version_updater::update_content;
use version_updater::update_plist;
use version_updater::update_yaml;

#[test]
fn helm_chart_version_is_updated_and_name_kept() {
    let input = b"name: foo\nversion: 0.1.0\n";
    let out = update_yaml(input, "0.2.0").expect("update must succeed");
    let doc: serde_yaml::Value = serde_yaml::from_slice(&out).expect("output must stay YAML");
    let map = doc.as_mapping().expect("root stays a mapping");
    let name = map.get(serde_yaml::Value::String("name".to_string())).unwrap();
    assert_eq!(name.as_str(), Some("foo"));
    let version = map.get(serde_yaml::Value::String("version".to_string())).unwrap();
    assert_eq!(version.as_str(), Some("0.2.0"));
}

#[test]
fn helm_chart_version_is_inserted_when_absent() {
    let input = b"name: foo\n";
    let out = update_yaml(input, "0.2.0").expect("update must succeed");
    let doc: serde_yaml::Value = serde_yaml::from_slice(&out).unwrap();
    let map = doc.as_mapping().unwrap();
    let version = map.get(serde_yaml::Value::String("version".to_string())).unwrap();
    assert_eq!(version.as_str(), Some("0.2.0"));
}

#[test]
fn helm_chart_update_is_idempotent() {
    let input = b"name: foo\nversion: 0.1.0\ndescription: a chart\n";
    let once = update_yaml(input, "0.2.0").expect("first update must succeed");
    let twice = update_yaml(&once, "0.2.0").expect("second update must succeed");
    assert_eq!(once, twice);
}

#[test]
fn helm_chart_non_mapping_is_a_silent_no_op() {
    let input = b"- a\n- b\n";
    let out = update_yaml(input, "0.2.0").expect("update must succeed");
    let doc: serde_yaml::Value = serde_yaml::from_slice(&out).unwrap();
    assert!(doc.is_sequence());
}

#[test]
fn helm_chart_malformed_is_an_error() {
    let r = update_yaml(b"{unclosed", "0.2.0");
    assert_eq!(r, Err(UpdateError::MalformedDocument));
}

#[test]
fn helm_chart_dispatch_needs_exact_file_name() {
    let r = update_content("deploy/Chart.yaml", b"name: foo\nversion: 0.1.0\n", "0.2.0");
    assert!(r.is_ok());
    let r = update_content("deploy/values.yaml", b"name: foo\n", "0.2.0");
    assert_eq!(r, Err(UpdateError::UnrecognizedFormat));
}

fn xml_plist(body: &str) -> Vec<u8> {
    let mut text = String::new();
    text.push_str("<?xml version=\"1.0\" encoding=\"UTF-8\"?>\n");
    text.push_str("<plist version=\"1.0\">\n");
    text.push_str(body);
    text.push_str("\n</plist>\n");
    text.into_bytes()
}

#[test]
fn plist_bundle_version_is_updated() {
    let input = xml_plist(
        "<dict><key>CFBundleShortVersionString</key><string>1.0</string>\
         <key>CFBundleName</key><string>App</string></dict>",
    );
    let out = update_plist(&input, "2.0").expect("update must succeed");
    let doc: plist::Value = plist::from_bytes(&out).expect("output must stay a plist");
    let dict = doc.as_dictionary().expect("root stays a dictionary");
    assert_eq!(
        dict.get("CFBundleShortVersionString").unwrap().as_string(),
        Some("2.0")
    );
    assert_eq!(dict.get("CFBundleName").unwrap().as_string(), Some("App"));
}

#[test]
fn plist_update_is_idempotent() {
    let input = xml_plist(
        "<dict><key>CFBundleShortVersionString</key><string>1.0</string></dict>",
    );
    let once = update_plist(&input, "2.0").expect("first update must succeed");
    let twice = update_plist(&once, "2.0").expect("second update must succeed");
    assert_eq!(once, twice);
}

#[test]
fn plist_non_dictionary_is_a_silent_no_op() {
    let input = xml_plist("<array><string>a</string></array>");
    let out = update_plist(&input, "2.0").expect("update must succeed");
    let doc: plist::Value = plist::from_bytes(&out).unwrap();
    assert!(doc.as_array().is_some());
}

#[test]
fn plist_malformed_is_an_error() {
    let r = update_plist(b"not a plist at all", "2.0");
    assert_eq!(r, Err(UpdateError::MalformedDocument));
}

#[test]
fn plist_dispatch_through_path() {
    let input = xml_plist(
        "<dict><key>CFBundleShortVersionString</key><string>1.0</string></dict>",
    );
    let out = update_content("ios/Info.plist", &input, "3.1.4").expect("update must succeed");
    let doc: plist::Value = plist::from_bytes(&out).unwrap();
    assert_eq!(
        doc.as_dictionary().unwrap().get("CFBundleShortVersionString").unwrap().as_string(),
        Some("3.1.4")
    );
}
