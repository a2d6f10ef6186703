use version_updater::FormatKind;
use version_updater::UpdateError;
use version_updater::classify;
use version_updater::update_content;

#[test]
fn classify_xml_family() {
    assert_eq!(classify("AndroidManifest.xml"), FormatKind::XmlFamily);
    assert_eq!(classify("dir/app.csproj"), FormatKind::XmlFamily);
    assert_eq!(classify("/a/b/Directory.Build.props"), FormatKind::XmlFamily);
}

#[test]
fn classify_json_plist_yaml() {
    assert_eq!(classify("package.json"), FormatKind::JsonPackage);
    assert_eq!(classify("ios/Info.plist"), FormatKind::Plist);
    assert_eq!(classify("charts/Chart.yaml"), FormatKind::HelmChartYaml);
    assert_eq!(classify("Chart.yml"), FormatKind::HelmChartYaml);
}

#[test]
fn classify_unsupported() {
    assert_eq!(classify("notes.txt"), FormatKind::Unsupported);
    assert_eq!(classify("README"), FormatKind::Unsupported);
    assert_eq!(classify("values.yaml"), FormatKind::Unsupported);
    assert_eq!(classify(".json"), FormatKind::Unsupported);
    assert_eq!(classify(""), FormatKind::Unsupported);
}

#[test]
fn classify_is_case_sensitive() {
    assert_eq!(classify("a.JSON"), FormatKind::Unsupported);
    assert_eq!(classify("chart.yaml"), FormatKind::Unsupported);
}

#[test]
fn unsupported_extension_is_an_error() {
    let content = b"anything at all";
    let r = update_content("notes.txt", content, "1.2.3");
    assert_eq!(r, Err(UpdateError::UnrecognizedFormat));
}

#[test]
fn error_descriptions_are_stable() {
    assert_eq!(
        UpdateError::UnrecognizedFormat.describe(),
        "no file was recognized as a supported format"
    );
    assert_eq!(
        UpdateError::MissingConfig.describe(),
        "a required environment variable is not set"
    );
}
