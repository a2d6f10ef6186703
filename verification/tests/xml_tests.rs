use version_updater::UpdateError;
use version_updater::android_replace;
use version_updater::update_content;
use version_updater::update_xml;

const MANIFEST: &str = "<manifest xmlns:android=\"http://schemas.android.com/apk/res/android\"\n    package=\"com.example.app\"\n    android:versionCode=\"7\"\n    android:versionName=\"1.2.3\">\n    <application android:label=\"Example\"/>\n</manifest>\n";

#[test]
fn android_manifest_only_version_name_changes() {
    let out = update_xml(MANIFEST.as_bytes(), "2.0.0").expect("update must succeed");
    let expected = MANIFEST.replace("android:versionName=\"1.2.3\"", "android:versionName=\"2.0.0\"");
    assert_eq!(out, expected.as_bytes());
}

#[test]
fn android_manifest_keeps_formatting_byte_for_byte() {
    let out = update_xml(MANIFEST.as_bytes(), "9.9.9").expect("update must succeed");
    let text = String::from_utf8(out).unwrap();
    assert!(text.contains("android:versionCode=\"7\""));
    assert!(text.starts_with("<manifest"));
    assert!(text.ends_with("</manifest>\n"));
}

#[test]
fn android_manifest_non_triple_version_is_left_unchanged() {
    let input = MANIFEST.replace("android:versionName=\"1.2.3\"", "android:versionName=\"1.2\"");
    let out = update_xml(input.as_bytes(), "2.0.0").expect("update must succeed");
    assert_eq!(out, input.as_bytes());
}

#[test]
fn android_manifest_update_is_idempotent() {
    let once = update_xml(MANIFEST.as_bytes(), "4.5.6").expect("first update must succeed");
    let twice = update_xml(&once, "4.5.6").expect("second update must succeed");
    assert_eq!(once, twice);
}

#[test]
fn android_replace_rewrites_every_occurrence() {
    let input = b"a android:versionName=\"1.0.0\" b android:versionName=\"10.20.30\" c";
    let out = android_replace(input, b"2.0.0");
    assert_eq!(
        out,
        b"a android:versionName=\"2.0.0\" b android:versionName=\"2.0.0\" c"
    );
}

#[test]
fn android_replace_skips_near_misses() {
    let input = b"android:versionName=\"1.2\" android:versionName=\"a.b.c\"";
    let out = android_replace(input, b"2.0.0");
    assert_eq!(out, input);
}

const PROJECT: &str = "<Project Sdk=\"Microsoft.NET.Sdk\"><PropertyGroup><TargetFramework>net6.0</TargetFramework><Version>1.0.0</Version></PropertyGroup></Project>";

#[test]
fn project_file_version_element_is_rewritten() {
    let out = update_xml(PROJECT.as_bytes(), "2.3.4").expect("update must succeed");
    let root = xmltree::Element::parse(out.as_slice()).expect("output must stay XML");
    assert_eq!(root.name, "Project");
    assert_eq!(root.attributes.get("Sdk").map(|s| s.as_str()), Some("Microsoft.NET.Sdk"));
    let pg = root.get_child("PropertyGroup").expect("PropertyGroup survives");
    let tf = pg.get_child("TargetFramework").expect("sibling element survives");
    assert_eq!(tf.get_text().as_deref(), Some("net6.0"));
    let version = pg.get_child("Version").expect("Version survives");
    assert_eq!(version.get_text().as_deref(), Some("2.3.4"));
}

#[test]
fn project_file_update_is_idempotent() {
    let once = update_xml(PROJECT.as_bytes(), "2.3.4").expect("first update must succeed");
    let twice = update_xml(&once, "2.3.4").expect("second update must succeed");
    assert_eq!(once, twice);
}

#[test]
fn xml_without_known_structure_is_a_silent_no_op() {
    let input = b"<root><child attr=\"x\"/></root>";
    let out = update_xml(input, "2.0.0").expect("update must succeed");
    assert_eq!(out, input);
}

#[test]
fn xml_malformed_is_an_error() {
    let r = update_xml(b"<not closed", "2.0.0");
    assert_eq!(r, Err(UpdateError::MalformedDocument));
}

#[test]
fn xml_dispatch_through_path() {
    let out = update_content("app/app.csproj", PROJECT.as_bytes(), "7.8.9")
        .expect("update must succeed");
    let root = xmltree::Element::parse(out.as_slice()).unwrap();
    let version = root.get_child("PropertyGroup").unwrap().get_child("Version").unwrap();
    assert_eq!(version.get_text().as_deref(), Some("7.8.9"));
}
