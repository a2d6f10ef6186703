use vstd::prelude::*;

use crate::errors::UpdateError;

verus! {

/// Declares serde_json::Value so that signatures and fields can carry it;
/// the value stays opaque here.
#[verifier::external_type_specification]
#[verifier::external_body]
pub struct ExJsonValue(serde_json::Value);

/// The document that `serde_json::from_slice` parses the bytes to, when they
/// parse at all; parsing is a function of the bytes alone.
pub uninterp spec fn json_parse_of(s: Seq<u8>) -> Option<serde_json::Value>;

/// The entries of a JSON value that is an object; `None` for any other value.
pub uninterp spec fn json_obj_of(v: serde_json::Value) -> Option<
    Map<Seq<char>, serde_json::Value>,
>;

/// The JSON string value carrying exactly these characters.
pub uninterp spec fn json_string_of(s: Seq<char>) -> serde_json::Value;

/// The JSON object value with exactly these entries.  The map pins the value:
/// serde_json's objects are ordered by key, so equal entries mean the same
/// value.
pub uninterp spec fn json_object_of(m: Map<Seq<char>, serde_json::Value>) -> serde_json::Value;

/// The bytes `serde_json::to_vec_pretty` emits for a value; serialization is
/// a function of the value alone.
pub uninterp spec fn json_pretty_of(v: serde_json::Value) -> Seq<u8>;

/// Relies on serde_json::from_slice.
#[verifier::external_body]
fn json_parse(content: &[u8]) -> (r: Option<serde_json::Value>)
    ensures
        r == json_parse_of(content@),
{
    serde_json::from_slice(content).ok()
}

/// Relies on serde_json::Value::is_object.
#[verifier::external_body]
fn json_is_object(v: &serde_json::Value) -> (r: bool)
    ensures
        r == (json_obj_of(*v) is Some),
{
    v.is_object()
}

/// Relies on serde_json::Map::get: the entry stored under the key, if any.
#[verifier::external_body]
fn json_get(v: &serde_json::Value, key: &str) -> (r: Option<serde_json::Value>)
    requires
        json_obj_of(*v) is Some,
    ensures
        match r {
            Some(x) => json_obj_of(*v).unwrap().contains_key(key@) && x == json_obj_of(
                *v,
            ).unwrap()[key@],
            None => !json_obj_of(*v).unwrap().contains_key(key@),
        },
{
    v.as_object().and_then(|m| m.get(key)).cloned()
}

/// Relies on serde_json::Map::insert: sets this key to a JSON string and
/// keeps every other entry, giving the object with the new entries.
#[verifier::external_body]
fn json_insert_string(v: &mut serde_json::Value, key: &str, val: &str)
    requires
        json_obj_of(*old(v)) is Some,
    ensures
        json_obj_of(*final(v)) == Some(
            json_obj_of(*old(v)).unwrap().insert(key@, json_string_of(val@)),
        ),
        *final(v) == json_object_of(json_obj_of(*old(v)).unwrap().insert(key@, json_string_of(val@))),
{
    if let Some(m) = v.as_object_mut() {
        m.insert(key.to_string(), serde_json::Value::String(val.to_string()));
    }
}

/// Relies on serde_json::Map::insert: sets this key to the given value and
/// keeps every other entry, giving the object with the new entries.
#[verifier::external_body]
fn json_insert_value(v: &mut serde_json::Value, key: &str, val: serde_json::Value)
    requires
        json_obj_of(*old(v)) is Some,
    ensures
        json_obj_of(*final(v)) == Some(json_obj_of(*old(v)).unwrap().insert(key@, val)),
        *final(v) == json_object_of(json_obj_of(*old(v)).unwrap().insert(key@, val)),
{
    if let Some(m) = v.as_object_mut() {
        m.insert(key.to_string(), val);
    }
}

/// Relies on serde_json::to_vec_pretty, which cannot fail on a
/// serde_json::Value: object keys are strings, and a byte buffer raises no
/// write error.
#[verifier::external_body]
fn json_pretty(v: &serde_json::Value) -> (r: Option<Vec<u8>>)
    ensures
        r is Some,
        r matches Some(b) ==> b@ == json_pretty_of(*v),
{
    serde_json::to_vec_pretty(v).ok()
}

/// The key that carries the version, at the top level and in the root
/// package entry.
pub open spec fn version_key() -> Seq<char> {
    "version"@
}

/// The key of the lock-file-style package table.
pub open spec fn packages_key() -> Seq<char> {
    "packages"@
}

/// The empty key, which names the root package inside the package table.
pub open spec fn empty_key() -> Seq<char> {
    ""@
}

/// An object's entries with the version key set to the new version string.
pub open spec fn with_version(m: Map<Seq<char>, serde_json::Value>, ver: Seq<char>) -> Map<
    Seq<char>,
    serde_json::Value,
> {
    m.insert(version_key(), json_string_of(ver))
}

/// How the updated JSON document `n` relates to the parsed one `o`.
///
/// A non-object document is left untouched.  An object gets its `version`
/// key set; when a `packages` object with an empty-string key holding an
/// object is present, that nested object's `version` key is set too, and
/// nothing else changes anywhere.
pub open spec fn json_updated(o: serde_json::Value, n: serde_json::Value, ver: Seq<char>) -> bool {
    match json_obj_of(o) {
        None => n == o,
        Some(m) => match json_obj_of(n) {
            None => false,
            Some(m2) => {
                let m1 = with_version(m, ver);
                if m1.contains_key(packages_key()) && json_obj_of(m1[packages_key()]) is Some {
                    let pk = json_obj_of(m1[packages_key()]).unwrap();
                    if pk.contains_key(empty_key()) && json_obj_of(pk[empty_key()]) is Some {
                        let root = json_obj_of(pk[empty_key()]).unwrap();
                        exists|pkv: serde_json::Value, rootv: serde_json::Value|
                            #![trigger json_obj_of(pkv), json_obj_of(rootv)]
                            json_obj_of(rootv) == Some(with_version(root, ver)) && json_obj_of(pkv)
                                == Some(pk.insert(empty_key(), rootv)) && m2 == m1.insert(
                                packages_key(),
                                pkv,
                            )
                    } else {
                        m2 == m1
                    }
                } else {
                    m2 == m1
                }
            },
        },
    }
}

/// The updated document itself, as a function of the parsed one: the same
/// shape `json_updated` relates, but pinned to a single value through
/// `json_object_of`.
pub open spec fn json_updated_doc(o: serde_json::Value, ver: Seq<char>) -> serde_json::Value {
    match json_obj_of(o) {
        None => o,
        Some(m) => {
            let m1 = with_version(m, ver);
            if m1.contains_key(packages_key()) && json_obj_of(m1[packages_key()]) is Some {
                let pk = json_obj_of(m1[packages_key()]).unwrap();
                if pk.contains_key(empty_key()) && json_obj_of(pk[empty_key()]) is Some {
                    let root = json_obj_of(pk[empty_key()]).unwrap();
                    json_object_of(
                        m1.insert(
                            packages_key(),
                            json_object_of(
                                pk.insert(empty_key(), json_object_of(with_version(root, ver))),
                            ),
                        ),
                    )
                } else {
                    json_object_of(m1)
                }
            } else {
                json_object_of(m1)
            }
        },
    }
}

/// Sets the version field of a parsed JSON package document, in place.
///
/// Mirrors the update policy exactly: top-level `version`, and the root
/// package entry `packages[""].version` when that structure is present; a
/// non-object document is a silent no-op.
pub fn update_json_value(doc: &mut serde_json::Value, version: &str)
    ensures
        json_updated(*old(doc), *final(doc), version@),
        *final(doc) == json_updated_doc(*old(doc), version@),
{
    if !json_is_object(doc) {
        return ;
    }
    json_insert_string(doc, "version", version);
    let pk_opt = json_get(doc, "packages");
    match pk_opt {
        Some(pk) => {
            let mut pk = pk;
            if json_is_object(&pk) {
                let rv_opt = json_get(&pk, "");
                match rv_opt {
                    Some(rootv) => {
                        let mut rootv = rootv;
                        if json_is_object(&rootv) {
                            json_insert_string(&mut rootv, "version", version);
                            json_insert_value(&mut pk, "", rootv);
                            json_insert_value(doc, "packages", pk);
                        }
                    },
                    None => {},
                }
            }
        },
        None => {},
    }
}

/// The version key and the packages key are different keys, and both differ
/// from the empty key.
proof fn lemma_keys_distinct()
    ensures
        version_key() != packages_key(),
        version_key() != empty_key(),
        packages_key() != empty_key(),
{
    reveal_strlit("version");
    reveal_strlit("packages");
    reveal_strlit("");
    assert(version_key().len() == 7);
    assert(packages_key().len() == 8);
    assert(empty_key().len() == 0);
}

/// Law: the update sets the top-level version field of an object document to
/// exactly the new version string.
pub proof fn lemma_json_update_sets_version(
    o: serde_json::Value,
    n: serde_json::Value,
    ver: Seq<char>,
)
    requires
        json_updated(o, n, ver),
        json_obj_of(o) is Some,
    ensures
        json_obj_of(n) is Some,
        json_obj_of(n).unwrap().contains_key(version_key()),
        json_obj_of(n).unwrap()[version_key()] == json_string_of(ver),
{
    lemma_keys_distinct();
}

/// Law: the update touches no top-level entry other than `version` and
/// `packages`; every other key keeps exactly the value it had.
pub proof fn lemma_json_update_preserves_other_keys(
    o: serde_json::Value,
    n: serde_json::Value,
    ver: Seq<char>,
    k: Seq<char>,
)
    requires
        json_updated(o, n, ver),
        json_obj_of(o) is Some,
        k != version_key(),
        k != packages_key(),
    ensures
        json_obj_of(n) is Some,
        json_obj_of(n).unwrap().contains_key(k) == json_obj_of(o).unwrap().contains_key(k),
        json_obj_of(o).unwrap().contains_key(k) ==> json_obj_of(n).unwrap()[k] == json_obj_of(
            o,
        ).unwrap()[k],
{
}

/// Law: when the package table is present with a root entry, the update sets
/// that entry's version too, and touches no other entry of the table and no
/// other key of the root entry.
pub proof fn lemma_json_update_updates_root_package(
    o: serde_json::Value,
    n: serde_json::Value,
    ver: Seq<char>,
)
    requires
        json_updated(o, n, ver),
        json_obj_of(o) is Some,
        json_obj_of(o).unwrap().contains_key(packages_key()),
        json_obj_of(json_obj_of(o).unwrap()[packages_key()]) is Some,
        json_obj_of(json_obj_of(o).unwrap()[packages_key()]).unwrap().contains_key(empty_key()),
        json_obj_of(
            json_obj_of(json_obj_of(o).unwrap()[packages_key()]).unwrap()[empty_key()],
        ) is Some,
    ensures
        json_obj_of(n) is Some,
        ({
            let pk = json_obj_of(json_obj_of(o).unwrap()[packages_key()]).unwrap();
            let root = json_obj_of(pk[empty_key()]).unwrap();
            let m2 = json_obj_of(n).unwrap();
            &&& m2.contains_key(packages_key())
            &&& json_obj_of(m2[packages_key()]) is Some
            &&& {
                let pk2 = json_obj_of(m2[packages_key()]).unwrap();
                &&& pk2.contains_key(empty_key())
                &&& json_obj_of(pk2[empty_key()]) is Some
                &&& json_obj_of(pk2[empty_key()]).unwrap() == with_version(root, ver)
                &&& forall|k: Seq<char>|
                    k != empty_key() ==> #[trigger] pk2.contains_key(k) == pk.contains_key(k) && (
                    pk.contains_key(k) ==> pk2[k] == pk[k])
            }
        }),
{
    lemma_keys_distinct();
    let m = json_obj_of(o).unwrap();
    let m1 = with_version(m, ver);
    assert(m1[packages_key()] == m[packages_key()]);
    let pk = json_obj_of(m1[packages_key()]).unwrap();
    let root = json_obj_of(pk[empty_key()]).unwrap();
    let (pkv, rootv) = choose|pkv: serde_json::Value, rootv: serde_json::Value|
        #![trigger json_obj_of(pkv), json_obj_of(rootv)]
        json_obj_of(rootv) == Some(with_version(root, ver)) && json_obj_of(pkv) == Some(
            pk.insert(empty_key(), rootv),
        ) && json_obj_of(n).unwrap() == m1.insert(packages_key(), pkv);
}

/// Law: the update is idempotent at the document level; a document that is
/// already the result of an update is a fixed point of updating again with
/// the same version.
pub proof fn lemma_json_update_idempotent(
    o: serde_json::Value,
    n: serde_json::Value,
    ver: Seq<char>,
)
    requires
        json_updated(o, n, ver),
    ensures
        json_updated(n, n, ver),
{
    lemma_keys_distinct();
    match json_obj_of(o) {
        None => {},
        Some(m) => {
            let m1 = with_version(m, ver);
            let m2 = json_obj_of(n).unwrap();
            lemma_json_update_sets_version(o, n, ver);
            assert(with_version(m2, ver) =~= m2);
            if m1.contains_key(packages_key()) && json_obj_of(m1[packages_key()]) is Some {
                let pk = json_obj_of(m1[packages_key()]).unwrap();
                if pk.contains_key(empty_key()) && json_obj_of(pk[empty_key()]) is Some {
                    let root = json_obj_of(pk[empty_key()]).unwrap();
                    let (pkv, rootv) = choose|pkv: serde_json::Value, rootv: serde_json::Value|
                        #![trigger json_obj_of(pkv), json_obj_of(rootv)]
                        json_obj_of(rootv) == Some(with_version(root, ver)) && json_obj_of(pkv)
                            == Some(pk.insert(empty_key(), rootv)) && m2 == m1.insert(
                            packages_key(),
                            pkv,
                        );
                    let pk2 = pk.insert(empty_key(), rootv);
                    let root2 = with_version(root, ver);
                    assert(m2[packages_key()] == pkv);
                    assert(pk2[empty_key()] == rootv);
                    assert(with_version(root2, ver) =~= root2);
                    assert(pk2.insert(empty_key(), rootv) =~= pk2);
                    assert(m2.insert(packages_key(), pkv) =~= m2);
                    assert(json_obj_of(rootv) == Some(with_version(root2, ver)));
                    assert(json_obj_of(pkv) == Some(pk2.insert(empty_key(), rootv)));
                    assert(json_updated(n, n, ver));
                } else {
                    assert(m2 == m1);
                    assert(json_updated(n, n, ver));
                }
            } else {
                assert(m2 == m1);
                assert(json_updated(n, n, ver));
            }
        },
    }
}

/// What a JSON update emits: the pretty-printed serialization of the updated
/// document, with a single trailing newline.  The output is a function of
/// the content and the version.
pub open spec fn json_output_ok(content: Seq<u8>, ver: Seq<char>, out: Seq<u8>) -> bool {
    out == json_pretty_of(json_updated_doc(json_parse_of(content).unwrap(), ver)) + seq![10u8]
}

/// The whole contract of a JSON update: content that parses as JSON is owed
/// success, with exactly the updated document's bytes; `MalformedDocument`
/// is exactly content that is no JSON.  Serializing a JSON value cannot
/// fail, so no other error can occur.
pub open spec fn json_update_result_ok(
    content: Seq<u8>,
    ver: Seq<char>,
    r: Result<Vec<u8>, UpdateError>,
) -> bool {
    match r {
        Ok(out) => json_parse_of(content) is Some && json_output_ok(content, ver, out@),
        Err(e) => e == UpdateError::MalformedDocument && json_parse_of(content) is None,
    }
}

/// Updates the version field of a JSON package file.
///
/// The content is parsed as JSON, the version fields are set as
/// `json_updated` describes, and the document is re-emitted pretty-printed
/// with a trailing newline.  Content that is not JSON is a
/// `MalformedDocument` error; everything that parses succeeds.
pub fn update_json(content: &[u8], version: &str) -> (r: Result<Vec<u8>, UpdateError>)
    ensures
        json_update_result_ok(content@, version@, r),
{
    let parsed = json_parse(content);
    match parsed {
        None => Err(UpdateError::MalformedDocument),
        Some(doc) => {
            let mut doc = doc;
            update_json_value(&mut doc, version);
            match json_pretty(&doc) {
                // never taken: serializing a JSON value cannot fail
                None => Err(UpdateError::SerializationError),
                Some(out) => {
                    let mut out = out;
                    out.push(10);
                    proof {
                        assert(out@ =~= json_pretty_of(doc) + seq![10u8]);
                        assert(doc == json_updated_doc(json_parse_of(content@).unwrap(), version@));
                    }
                    Ok(out)
                },
            }
        },
    }
}

} // verus!
