use vstd::prelude::*;

use crate::errors::UpdateError;

verus! {

/// Declares serde_yaml::Value so that signatures and fields can carry it;
/// the value stays opaque here.
#[verifier::external_type_specification]
#[verifier::external_body]
pub struct ExYamlValue(serde_yaml::Value);

/// The document that `serde_yaml::from_slice` parses the bytes to, when they
/// parse at all; parsing is a function of the bytes alone.
pub uninterp spec fn yaml_parse_of(s: Seq<u8>) -> Option<serde_yaml::Value>;

/// The entries of a YAML value that is a mapping; `None` for any other
/// value.  YAML keys are themselves values.
pub uninterp spec fn yaml_map_of(v: serde_yaml::Value) -> Option<
    Map<serde_yaml::Value, serde_yaml::Value>,
>;

/// The YAML string value carrying exactly these characters.
pub uninterp spec fn yaml_string_of(s: Seq<char>) -> serde_yaml::Value;

/// The bytes `serde_yaml::to_string` emits for a value, or `None` for a
/// value its emitter refuses; either way a function of the value alone.
pub uninterp spec fn yaml_emit_of(v: serde_yaml::Value) -> Option<Seq<u8>>;

/// Relies on serde_yaml::from_slice.
#[verifier::external_body]
fn yaml_parse(content: &[u8]) -> (r: Option<serde_yaml::Value>)
    ensures
        r == yaml_parse_of(content@),
{
    serde_yaml::from_slice(content).ok()
}

/// Relies on serde_yaml::Value::is_mapping.
#[verifier::external_body]
fn yaml_is_mapping(v: &serde_yaml::Value) -> (r: bool)
    ensures
        r == (yaml_map_of(*v) is Some),
{
    v.is_mapping()
}

/// Relies on serde_yaml::Mapping::insert: sets a string key to a string
/// value and keeps every other entry.
#[verifier::external_body]
fn yaml_insert_string(v: &mut serde_yaml::Value, key: &str, val: &str)
    requires
        yaml_map_of(*old(v)) is Some,
    ensures
        yaml_map_of(*final(v)) == Some(
            yaml_map_of(*old(v)).unwrap().insert(yaml_string_of(key@), yaml_string_of(val@)),
        ),
{
    if let Some(m) = v.as_mapping_mut() {
        m.insert(
            serde_yaml::Value::String(key.to_string()),
            serde_yaml::Value::String(val.to_string()),
        );
    }
}

/// Relies on serde_yaml::to_string.
#[verifier::external_body]
fn yaml_emit(v: &serde_yaml::Value) -> (r: Option<Vec<u8>>)
    ensures
        r matches Some(b) ==> yaml_emit_of(*v) == Some(b@),
        r is None ==> yaml_emit_of(*v) is None,
{
    serde_yaml::to_string(v).ok().map(|s| s.into_bytes())
}

/// How the updated YAML document `n` relates to the parsed one `o`: a
/// mapping gets its `version` key set to the new version string and keeps
/// every other entry; any other document is left untouched.
pub open spec fn yaml_updated(o: serde_yaml::Value, n: serde_yaml::Value, ver: Seq<char>) -> bool {
    match yaml_map_of(o) {
        None => n == o,
        Some(m) => yaml_map_of(n) == Some(m.insert(yaml_string_of("version"@), yaml_string_of(ver))),
    }
}

/// Sets the version field of a parsed Helm chart document, in place.  A
/// non-mapping document is a silent no-op.
pub fn update_yaml_value(doc: &mut serde_yaml::Value, version: &str)
    ensures
        yaml_updated(*old(doc), *final(doc), version@),
{
    if yaml_is_mapping(doc) {
        yaml_insert_string(doc, "version", version);
    }
}

/// Law: the update sets the mapping's version key to exactly the new version
/// string, and touches no other entry.
pub proof fn lemma_yaml_update_sets_version(
    o: serde_yaml::Value,
    n: serde_yaml::Value,
    ver: Seq<char>,
)
    requires
        yaml_updated(o, n, ver),
        yaml_map_of(o) is Some,
    ensures
        yaml_map_of(n) is Some,
        yaml_map_of(n).unwrap().contains_key(yaml_string_of("version"@)),
        yaml_map_of(n).unwrap()[yaml_string_of("version"@)] == yaml_string_of(ver),
        forall|k: serde_yaml::Value|
            k != yaml_string_of("version"@) ==> #[trigger] yaml_map_of(n).unwrap().contains_key(k)
                == yaml_map_of(o).unwrap().contains_key(k) && (yaml_map_of(o).unwrap().contains_key(
                k,
            ) ==> yaml_map_of(n).unwrap()[k] == yaml_map_of(o).unwrap()[k]),
{
}

/// Law: the update is idempotent at the document level; an updated document
/// is a fixed point of updating again with the same version.
pub proof fn lemma_yaml_update_idempotent(
    o: serde_yaml::Value,
    n: serde_yaml::Value,
    ver: Seq<char>,
)
    requires
        yaml_updated(o, n, ver),
    ensures
        yaml_updated(n, n, ver),
{
    match yaml_map_of(o) {
        None => {},
        Some(m) => {
            let m2 = yaml_map_of(n).unwrap();
            assert(m2.insert(yaml_string_of("version"@), yaml_string_of(ver)) =~= m2);
        },
    }
}

/// What a successful Helm chart update emits: the serialization of some
/// mapping updated from the parsed one.
pub open spec fn yaml_output_ok(content: Seq<u8>, ver: Seq<char>, out: Seq<u8>) -> bool {
    exists|n: serde_yaml::Value| #[trigger]
        yaml_updated(yaml_parse_of(content).unwrap(), n, ver) && yaml_emit_of(n) == Some(out)
}

/// A serialization failure: some document updated from the parsed one is
/// refused by the emitter.
pub open spec fn yaml_emit_fails(content: Seq<u8>, ver: Seq<char>) -> bool {
    exists|n: serde_yaml::Value| #[trigger]
        yaml_updated(yaml_parse_of(content).unwrap(), n, ver) && yaml_emit_of(n) is None
}

/// The whole contract of a Helm chart update: success emits an updated
/// document; `MalformedDocument` is exactly content that is no YAML; and
/// `SerializationError` occurs only when the updated document cannot be
/// emitted, so success is owed whenever it can be.
pub open spec fn yaml_update_result_ok(
    content: Seq<u8>,
    ver: Seq<char>,
    r: Result<Vec<u8>, UpdateError>,
) -> bool {
    match r {
        Ok(out) => yaml_parse_of(content) is Some && yaml_output_ok(content, ver, out@),
        Err(e) => (e == UpdateError::MalformedDocument && yaml_parse_of(content) is None) || (e
            == UpdateError::SerializationError && yaml_parse_of(content) is Some
            && yaml_emit_fails(content, ver)),
    }
}

/// Updates the version field of a Helm `Chart.yaml`.
///
/// The content is parsed as YAML, the root mapping's `version` key is set as
/// `yaml_updated` describes, and the document is re-emitted.  Content that
/// is not YAML is a `MalformedDocument` error.
pub fn update_yaml(content: &[u8], version: &str) -> (r: Result<Vec<u8>, UpdateError>)
    ensures
        yaml_update_result_ok(content@, version@, r),
{
    let parsed = yaml_parse(content);
    match parsed {
        None => Err(UpdateError::MalformedDocument),
        Some(doc) => {
            let mut doc = doc;
            update_yaml_value(&mut doc, version);
            match yaml_emit(&doc) {
                None => {
                    proof {
                        assert(yaml_updated(yaml_parse_of(content@).unwrap(), doc, version@));
                    }
                    Err(UpdateError::SerializationError)
                },
                Some(out) => {
                    proof {
                        assert(yaml_updated(yaml_parse_of(content@).unwrap(), doc, version@));
                    }
                    Ok(out)
                },
            }
        },
    }
}

} // verus!
