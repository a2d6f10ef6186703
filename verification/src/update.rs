use vstd::prelude::*;
use vstd::string::StringSliceAdditionalSpecFns;

use crate::classify::FormatKind;
use crate::classify::classify;
use crate::classify::classify_spec;
use crate::errors::UpdateError;
use crate::json_doc::json_update_result_ok;
use crate::json_doc::update_json;
use crate::plist_doc::plist_update_result_ok;
use crate::plist_doc::update_plist;
use crate::xml_doc::update_xml;
use crate::xml_doc::xml_update_result_ok;
use crate::yaml_doc::update_yaml;
use crate::yaml_doc::yaml_update_result_ok;

verus! {

/// What the single run produces for a given path, content and version: the
/// handler the path classifies to decides the outcome, and a path that
/// classifies to no handler is an `UnrecognizedFormat` error with nothing
/// produced.
pub open spec fn update_result_ok(
    path: Seq<u8>,
    content: Seq<u8>,
    ver: Seq<char>,
    r: Result<Vec<u8>, UpdateError>,
) -> bool {
    match classify_spec(path) {
        FormatKind::XmlFamily => xml_update_result_ok(content, ver, r),
        FormatKind::JsonPackage => json_update_result_ok(content, ver, r),
        FormatKind::Plist => plist_update_result_ok(content, ver, r),
        FormatKind::HelmChartYaml => yaml_update_result_ok(content, ver, r),
        FormatKind::Unsupported => r == Err::<Vec<u8>, UpdateError>(
            UpdateError::UnrecognizedFormat,
        ),
    }
}

/// Drives one update: classifies the path, hands the content to the matching
/// handler, and returns the bytes to write back.  The caller owns all file
/// and environment handling; nothing is touched on disk here, so a failed
/// run leaves the target file exactly as it was.
pub fn update_content(path: &str, content: &[u8], version: &str) -> (r: Result<
    Vec<u8>,
    UpdateError,
>)
    ensures
        update_result_ok(path.spec_bytes(), content@, version@, r),
{
    match classify(path) {
        FormatKind::XmlFamily => update_xml(content, version),
        FormatKind::JsonPackage => update_json(content, version),
        FormatKind::Plist => update_plist(content, version),
        FormatKind::HelmChartYaml => update_yaml(content, version),
        FormatKind::Unsupported => Err(UpdateError::UnrecognizedFormat),
    }
}

} // verus!
