pub mod android;
pub mod classify;
pub mod errors;
pub mod json_doc;
pub mod xml_doc;
pub mod plist_doc;
pub mod update;
pub mod yaml_doc;

pub use android::android_replace;
pub use classify::FormatKind;
pub use classify::classify;
pub use errors::UpdateError;
pub use json_doc::update_json;
pub use plist_doc::update_plist;
pub use update::update_content;
pub use xml_doc::update_xml;
pub use yaml_doc::update_yaml;
