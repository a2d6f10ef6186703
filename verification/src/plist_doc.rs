use vstd::prelude::*;

use crate::errors::UpdateError;

verus! {

/// Declares plist::Value so that signatures and fields can carry it; the
/// value stays opaque here.
#[verifier::external_type_specification]
#[verifier::external_body]
pub struct ExPlistValue(plist::Value);

/// The document that `plist::from_bytes` parses the bytes to, when they
/// parse at all; parsing is a function of the bytes alone.
pub uninterp spec fn plist_parse_of(s: Seq<u8>) -> Option<plist::Value>;

/// The entries of a plist value that is a dictionary; `None` for any other
/// value.
pub uninterp spec fn plist_dict_of(v: plist::Value) -> Option<Map<Seq<char>, plist::Value>>;

/// The plist string value carrying exactly these characters.
pub uninterp spec fn plist_string_of(s: Seq<char>) -> plist::Value;

/// The bytes `plist::Value::to_writer_xml` emits for a value, or `None` for
/// a value it cannot emit (a UID read from a binary plist has no XML form);
/// either way a function of the value alone.
pub uninterp spec fn plist_xml_of(v: plist::Value) -> Option<Seq<u8>>;

/// Relies on plist::from_bytes, which accepts both the XML and the binary
/// encoding.
#[verifier::external_body]
fn plist_parse(content: &[u8]) -> (r: Option<plist::Value>)
    ensures
        r == plist_parse_of(content@),
{
    plist::from_bytes::<plist::Value>(content).ok()
}

/// Relies on plist::Value::as_dictionary.
#[verifier::external_body]
fn plist_is_dictionary(v: &plist::Value) -> (r: bool)
    ensures
        r == (plist_dict_of(*v) is Some),
{
    v.as_dictionary().is_some()
}

/// Relies on plist::Dictionary::insert: sets the key to a string value and
/// keeps every other entry.
#[verifier::external_body]
fn plist_insert_string(v: &mut plist::Value, key: &str, val: &str)
    requires
        plist_dict_of(*old(v)) is Some,
    ensures
        plist_dict_of(*final(v)) == Some(
            plist_dict_of(*old(v)).unwrap().insert(key@, plist_string_of(val@)),
        ),
{
    if let Some(d) = v.as_dictionary_mut() {
        d.insert(key.to_string(), plist::Value::String(val.to_string()));
    }
}

/// Relies on plist::Value::to_writer_xml, writing into a byte buffer.
#[verifier::external_body]
fn plist_emit_xml(v: &plist::Value) -> (r: Option<Vec<u8>>)
    ensures
        r matches Some(b) ==> plist_xml_of(*v) == Some(b@),
        r is None ==> plist_xml_of(*v) is None,
{
    let mut buf: Vec<u8> = Vec::new();
    match v.to_writer_xml(&mut buf) {
        Ok(()) => Some(buf),
        Err(_) => None,
    }
}

/// The dictionary key that carries the user-visible bundle version.
pub open spec fn bundle_version_key() -> Seq<char> {
    "CFBundleShortVersionString"@
}

/// How the updated plist document `n` relates to the parsed one `o`: a
/// dictionary gets its `CFBundleShortVersionString` key set to the new
/// version string and keeps every other entry; any other document is left
/// untouched.
pub open spec fn plist_updated(o: plist::Value, n: plist::Value, ver: Seq<char>) -> bool {
    match plist_dict_of(o) {
        None => n == o,
        Some(m) => plist_dict_of(n) == Some(m.insert(bundle_version_key(), plist_string_of(ver))),
    }
}

/// Sets the version field of a parsed property list, in place.  A
/// non-dictionary document is a silent no-op.
pub fn update_plist_value(doc: &mut plist::Value, version: &str)
    ensures
        plist_updated(*old(doc), *final(doc), version@),
{
    if plist_is_dictionary(doc) {
        plist_insert_string(doc, "CFBundleShortVersionString", version);
    }
}

/// Law: the update sets the dictionary's `CFBundleShortVersionString` key to
/// exactly the new version string, and touches no other entry.
pub proof fn lemma_plist_update_sets_version(o: plist::Value, n: plist::Value, ver: Seq<char>)
    requires
        plist_updated(o, n, ver),
        plist_dict_of(o) is Some,
    ensures
        plist_dict_of(n) is Some,
        plist_dict_of(n).unwrap().contains_key(bundle_version_key()),
        plist_dict_of(n).unwrap()[bundle_version_key()] == plist_string_of(ver),
        forall|k: Seq<char>|
            k != bundle_version_key() ==> #[trigger] plist_dict_of(n).unwrap().contains_key(k)
                == plist_dict_of(o).unwrap().contains_key(k) && (plist_dict_of(
                o,
            ).unwrap().contains_key(k) ==> plist_dict_of(n).unwrap()[k] == plist_dict_of(
                o,
            ).unwrap()[k]),
{
}

/// Law: the update is idempotent at the document level; an updated document
/// is a fixed point of updating again with the same version.
pub proof fn lemma_plist_update_idempotent(o: plist::Value, n: plist::Value, ver: Seq<char>)
    requires
        plist_updated(o, n, ver),
    ensures
        plist_updated(n, n, ver),
{
    match plist_dict_of(o) {
        None => {},
        Some(m) => {
            let m2 = plist_dict_of(n).unwrap();
            assert(m2.insert(bundle_version_key(), plist_string_of(ver)) =~= m2);
        },
    }
}

/// What a successful plist update emits: the XML plist serialization of some
/// document updated from the parsed one.
pub open spec fn plist_output_ok(content: Seq<u8>, ver: Seq<char>, out: Seq<u8>) -> bool {
    exists|n: plist::Value| #[trigger]
        plist_updated(plist_parse_of(content).unwrap(), n, ver) && plist_xml_of(n) == Some(out)
}

/// A serialization failure: some document updated from the parsed one has no
/// XML form.
pub open spec fn plist_emit_fails(content: Seq<u8>, ver: Seq<char>) -> bool {
    exists|n: plist::Value| #[trigger]
        plist_updated(plist_parse_of(content).unwrap(), n, ver) && plist_xml_of(n) is None
}

/// The whole contract of a plist update: success emits an updated document;
/// `MalformedDocument` is exactly content that is no plist; and
/// `SerializationError` occurs only when the updated document has no XML
/// form, so success is owed whenever it has one.
pub open spec fn plist_update_result_ok(
    content: Seq<u8>,
    ver: Seq<char>,
    r: Result<Vec<u8>, UpdateError>,
) -> bool {
    match r {
        Ok(out) => plist_parse_of(content) is Some && plist_output_ok(content, ver, out@),
        Err(e) => (e == UpdateError::MalformedDocument && plist_parse_of(content) is None) || (e
            == UpdateError::SerializationError && plist_parse_of(content) is Some
            && plist_emit_fails(content, ver)),
    }
}

/// Updates the version field of a property list.
///
/// The content is parsed as a plist, the root dictionary's
/// `CFBundleShortVersionString` key is set as `plist_updated` describes, and
/// the document is re-emitted in the XML representation whatever its
/// original encoding was.  Content that is not a plist is a
/// `MalformedDocument` error; a failure to serialize is a
/// `SerializationError`.
pub fn update_plist(content: &[u8], version: &str) -> (r: Result<Vec<u8>, UpdateError>)
    ensures
        plist_update_result_ok(content@, version@, r),
{
    let parsed = plist_parse(content);
    match parsed {
        None => Err(UpdateError::MalformedDocument),
        Some(doc) => {
            let mut doc = doc;
            update_plist_value(&mut doc, version);
            match plist_emit_xml(&doc) {
                None => {
                    proof {
                        assert(plist_updated(plist_parse_of(content@).unwrap(), doc, version@));
                    }
                    Err(UpdateError::SerializationError)
                },
                Some(out) => {
                    proof {
                        assert(plist_updated(plist_parse_of(content@).unwrap(), doc, version@));
                    }
                    Ok(out)
                },
            }
        },
    }
}

} // verus!
