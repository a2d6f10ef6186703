use vstd::prelude::*;
use vstd::string::StringSliceAdditionalSpecFns;

use crate::android::android_replace;
use crate::android::android_replace_spec;
use crate::errors::UpdateError;

verus! {

/// Declares xmltree::Element so that signatures and fields can carry it;
/// the tree stays opaque here.
#[verifier::external_type_specification]
#[verifier::external_body]
pub struct ExXmlElement(xmltree::Element);

/// Declares xmltree::XMLNode, the child-node kind of an element tree.
#[verifier::external_type_specification]
#[verifier::external_body]
pub struct ExXmlNode(xmltree::XMLNode);

/// The element tree that `xmltree::Element::parse` reads from the bytes,
/// when they parse at all; parsing is a function of the bytes alone.
pub uninterp spec fn xml_parse_of(s: Seq<u8>) -> Option<xmltree::Element>;

/// The tag name of an element, as bytes.
pub uninterp spec fn xml_name_of(e: xmltree::Element) -> Seq<u8>;

/// The attributes of an element.
pub uninterp spec fn xml_attrs_of(e: xmltree::Element) -> Map<Seq<char>, Seq<char>>;

/// The namespace prefix of an element, when it has one.
pub uninterp spec fn xml_prefix_of(e: xmltree::Element) -> Option<Seq<char>>;

/// The namespace an element belongs to, when it has one.
pub uninterp spec fn xml_namespace_of(e: xmltree::Element) -> Option<Seq<char>>;

/// The namespace bindings in scope at an element, when any were recorded.
pub uninterp spec fn xml_namespaces_of(e: xmltree::Element) -> Option<Map<Seq<char>, Seq<char>>>;

/// The child nodes of an element, in document order.
pub uninterp spec fn xml_children_of(e: xmltree::Element) -> Seq<xmltree::XMLNode>;

/// The element a node holds, when the node is an element node.
pub uninterp spec fn xml_node_elem_of(n: xmltree::XMLNode) -> Option<xmltree::Element>;

/// The text node carrying exactly these characters.
pub uninterp spec fn xml_text_node_of(s: Seq<char>) -> xmltree::XMLNode;

/// The bytes the tree is re-serialized to, with indentation and an XML
/// declaration, or `None` for a tree the emitter refuses; either way a
/// function of the tree alone.
pub uninterp spec fn xml_emit_of(e: xmltree::Element) -> Option<Seq<u8>>;

/// Relies on xmltree::Element::parse.
#[verifier::external_body]
fn xml_parse(content: &[u8]) -> (r: Option<xmltree::Element>)
    ensures
        r == xml_parse_of(content@),
{
    xmltree::Element::parse(content).ok()
}

/// Relies on the `name` field of xmltree::Element.
#[verifier::external_body]
fn elem_name_bytes(e: &xmltree::Element) -> (r: Vec<u8>)
    ensures
        r@ == xml_name_of(*e),
{
    e.name.as_bytes().to_vec()
}

/// Relies on the `children` field of xmltree::Element; clones the nodes.
#[verifier::external_body]
fn elem_children(e: &xmltree::Element) -> (r: Vec<xmltree::XMLNode>)
    ensures
        r@ == xml_children_of(*e),
{
    e.children.clone()
}

/// Relies on xmltree::XMLNode: tells an element node apart from the other
/// node kinds and clones its element.
#[verifier::external_body]
fn node_as_element(n: &xmltree::XMLNode) -> (r: Option<xmltree::Element>)
    ensures
        r == xml_node_elem_of(*n),
{
    match n {
        xmltree::XMLNode::Element(e) => Some(e.clone()),
        _ => None,
    }
}

/// Relies on xmltree::XMLNode::Text.
#[verifier::external_body]
fn text_node(s: &str) -> (r: xmltree::XMLNode)
    ensures
        r == xml_text_node_of(s@),
        xml_node_elem_of(r) is None,
{
    xmltree::XMLNode::Text(s.to_string())
}

/// Relies on xmltree::XMLNode::Element.
#[verifier::external_body]
fn element_node(e: xmltree::Element) -> (r: xmltree::XMLNode)
    ensures
        xml_node_elem_of(r) == Some(e),
{
    xmltree::XMLNode::Element(e)
}

/// Relies on the `children` field of xmltree::Element: the same element with
/// its children replaced; name, attributes, prefix and namespaces are
/// untouched.
#[verifier::external_body]
fn elem_with_children(e: &xmltree::Element, ch: Vec<xmltree::XMLNode>) -> (r: xmltree::Element)
    ensures
        xml_name_of(r) == xml_name_of(*e),
        xml_attrs_of(r) == xml_attrs_of(*e),
        xml_prefix_of(r) == xml_prefix_of(*e),
        xml_namespace_of(r) == xml_namespace_of(*e),
        xml_namespaces_of(r) == xml_namespaces_of(*e),
        xml_children_of(r) == ch@,
{
    let mut c = e.clone();
    c.children = ch;
    c
}

/// Relies on xmltree::Element::write_with_config, writing into a byte
/// buffer with indentation and a document declaration.
#[verifier::external_body]
fn xml_emit(e: &xmltree::Element) -> (r: Option<Vec<u8>>)
    ensures
        r matches Some(b) ==> xml_emit_of(*e) == Some(b@),
        r is None ==> xml_emit_of(*e) is None,
{
    let mut buf: Vec<u8> = Vec::new();
    let config = xmltree::EmitterConfig::new().perform_indent(true).write_document_declaration(
        true,
    );
    match e.write_with_config(&mut buf, config) {
        Ok(()) => Some(buf),
        Err(_) => None,
    }
}

/// Whether a node is an element with this tag name.
pub open spec fn node_is_named(n: xmltree::XMLNode, name: Seq<u8>) -> bool {
    match xml_node_elem_of(n) {
        Some(e) => xml_name_of(e) == name,
        None => false,
    }
}

/// The index of the first element child with this tag name; the sequence's
/// length when there is none.  This is the child that `get_mut_child` style
/// lookup selects.
pub open spec fn find_named(nodes: Seq<xmltree::XMLNode>, name: Seq<u8>) -> int
    decreases nodes.len(),
{
    if nodes.len() == 0 {
        0
    } else if node_is_named(nodes[0], name) {
        0
    } else {
        1 + find_named(nodes.drop_first(), name)
    }
}

/// `find_named` points at the first named element child, or past the end.
pub proof fn lemma_find_named_props(nodes: Seq<xmltree::XMLNode>, name: Seq<u8>)
    ensures
        0 <= find_named(nodes, name) <= nodes.len(),
        find_named(nodes, name) < nodes.len() ==> node_is_named(nodes[find_named(nodes, name)], name),
        forall|k: int| 0 <= k < find_named(nodes, name) ==> !node_is_named(nodes[k], name),
    decreases nodes.len(),
{
    if nodes.len() > 0 && !node_is_named(nodes[0], name) {
        lemma_find_named_props(nodes.drop_first(), name);
        assert(forall|k: int|
            1 <= k < find_named(nodes, name) ==> nodes[k] == nodes.drop_first()[k - 1]);
    }
}

/// A position that is named while everything before it is not is exactly
/// `find_named`.
pub proof fn lemma_find_named_at(nodes: Seq<xmltree::XMLNode>, name: Seq<u8>, i: int)
    requires
        0 <= i < nodes.len(),
        node_is_named(nodes[i], name),
        forall|k: int| 0 <= k < i ==> !node_is_named(nodes[k], name),
    ensures
        find_named(nodes, name) == i,
    decreases nodes.len(),
{
    if i > 0 {
        lemma_find_named_at(nodes.drop_first(), name, i - 1);
    }
}

/// When nothing is named, `find_named` is the length.
pub proof fn lemma_find_named_none(nodes: Seq<xmltree::XMLNode>, name: Seq<u8>)
    requires
        forall|k: int| 0 <= k < nodes.len() ==> !node_is_named(nodes[k], name),
    ensures
        find_named(nodes, name) == nodes.len(),
    decreases nodes.len(),
{
    if nodes.len() > 0 {
        lemma_find_named_none(nodes.drop_first(), name);
    }
}

/// Compares two byte strings.
fn bytes_eq(a: &[u8], b: &[u8]) -> (r: bool)
    ensures
        r == (a@ == b@),
{
    if a.len() != b.len() {
        assert(a@.len() != b@.len());
        return false;
    }
    let n = a.len();
    let mut k: usize = 0;
    while k < n
        invariant
            n == a@.len() == b@.len(),
            0 <= k <= n,
            forall|t: int| 0 <= t < k ==> a@[t] == b@[t],
        decreases n - k,
    {
        if a[k] != b[k] {
            return false;
        }
        k += 1;
    }
    assert(a@ =~= b@);
    true
}

/// Finds the first element child with this tag name, returning its index
/// and the element.
fn find_named_child(nodes: &Vec<xmltree::XMLNode>, name: &str) -> (r: Option<
    (usize, xmltree::Element),
>)
    ensures
        match r {
            Some(p) => p.0 < nodes@.len() && find_named(nodes@, name.spec_bytes()) == p.0
                && xml_node_elem_of(nodes@[p.0 as int]) == Some(p.1),
            None => find_named(nodes@, name.spec_bytes()) == nodes@.len(),
        },
{
    let n = nodes.len();
    let mut i: usize = 0;
    while i < n
        invariant
            n == nodes@.len(),
            0 <= i <= n,
            forall|k: int| 0 <= k < i ==> !node_is_named(nodes@[k], name.spec_bytes()),
        decreases n - i,
    {
        match node_as_element(&nodes[i]) {
            Some(e) => {
                let nb = elem_name_bytes(&e);
                if bytes_eq(nb.as_slice(), name.as_bytes()) {
                    proof {
                        lemma_find_named_at(nodes@, name.spec_bytes(), i as int);
                    }
                    return Some((i, e));
                }
            },
            None => {},
        }
        i += 1;
    }
    proof {
        lemma_find_named_none(nodes@, name.spec_bytes());
    }
    None
}

/// The tag name that marks an Android manifest root.
pub open spec fn manifest_name() -> Seq<u8> {
    "manifest".spec_bytes()
}

/// The tag name of the element group that project files keep properties in.
pub open spec fn property_group_name() -> Seq<u8> {
    "PropertyGroup".spec_bytes()
}

/// The tag name of the element whose text is the project version.
pub open spec fn version_tag_name() -> Seq<u8> {
    "Version".spec_bytes()
}

/// Whether the tree has the project-file structure the tree rewrite
/// targets: a first `PropertyGroup` element child of the root that itself
/// has a `Version` element child.
pub open spec fn has_pg_version(root: xmltree::Element) -> bool {
    let ch = xml_children_of(root);
    let i = find_named(ch, property_group_name());
    i < ch.len() && {
        let pg = xml_node_elem_of(ch[i]).unwrap();
        let pch = xml_children_of(pg);
        find_named(pch, version_tag_name()) < pch.len()
    }
}

/// Whether two elements carry the same name, attributes, prefix and
/// namespace information: everything but their children.
pub open spec fn xml_same_shell(a: xmltree::Element, b: xmltree::Element) -> bool {
    xml_name_of(a) == xml_name_of(b) && xml_attrs_of(a) == xml_attrs_of(b) && xml_prefix_of(a)
        == xml_prefix_of(b) && xml_namespace_of(a) == xml_namespace_of(b) && xml_namespaces_of(a)
        == xml_namespaces_of(b)
}

/// How the rewritten tree `new` relates to the parsed tree `root` (only
/// meaningful when `has_pg_version(root)` holds): the first `PropertyGroup`
/// child's first `Version` child has its whole content replaced by a single
/// text node carrying the new version, and every other node, and the name,
/// attributes and namespace information along the way, is kept.
pub open spec fn xml_tree_updated(root: xmltree::Element, new: xmltree::Element, ver: Seq<char>) -> bool {
    let ch = xml_children_of(root);
    let i = find_named(ch, property_group_name());
    let pg = xml_node_elem_of(ch[i]).unwrap();
    let pch = xml_children_of(pg);
    let j = find_named(pch, version_tag_name());
    let ve = xml_node_elem_of(pch[j]).unwrap();
    xml_same_shell(new, root) && {
        let nch = xml_children_of(new);
        nch.len() == ch.len() && (forall|k: int| 0 <= k < ch.len() && k != i ==> nch[k] == ch[k])
            && xml_node_elem_of(nch[i]) is Some && {
            let npg = xml_node_elem_of(nch[i]).unwrap();
            xml_same_shell(npg, pg) && {
                let npch = xml_children_of(npg);
                npch.len() == pch.len() && (forall|k: int|
                    0 <= k < pch.len() && k != j ==> npch[k] == pch[k]) && xml_node_elem_of(
                    npch[j],
                ) is Some && {
                    let nve = xml_node_elem_of(npch[j]).unwrap();
                    xml_same_shell(nve, ve) && xml_children_of(nve) == seq![
                        xml_text_node_of(ver),
                    ]
                }
            }
        }
    }
}

/// Rewrites the version element of a project-file tree, when the expected
/// structure is present.
fn set_propertygroup_version(root: &xmltree::Element, version: &str) -> (r: Option<
    xmltree::Element,
>)
    ensures
        match r {
            Some(n) => has_pg_version(*root) && xml_tree_updated(*root, n, version@),
            None => !has_pg_version(*root),
        },
{
    let ch = elem_children(root);
    proof {
        lemma_find_named_props(ch@, property_group_name());
    }
    let found_pg = find_named_child(&ch, "PropertyGroup");
    match found_pg {
        None => None,
        Some((i, pg)) => {
            let pch = elem_children(&pg);
            proof {
                lemma_find_named_props(pch@, version_tag_name());
            }
            let found_ve = find_named_child(&pch, "Version");
            match found_ve {
                None => None,
                Some((j, ve)) => {
                    let mut text_children: Vec<xmltree::XMLNode> = Vec::new();
                    text_children.push(text_node(version));
                    assert(text_children@ =~= seq![xml_text_node_of(version@)]);
                    let nve = elem_with_children(&ve, text_children);

                    let mut npch = pch;
                    npch.remove(j);
                    npch.insert(j, element_node(nve));
                    assert(npch@ =~= pch@.update(j as int, npch@[j as int]));
                    let npg = elem_with_children(&pg, npch);

                    let mut nch = ch;
                    nch.remove(i);
                    nch.insert(i, element_node(npg));
                    assert(nch@ =~= ch@.update(i as int, nch@[i as int]));
                    let nroot = elem_with_children(root, nch);
                    Some(nroot)
                },
            }
        },
    }
}

/// Law: the tree rewrite is stable; a rewritten tree still has the
/// project-file structure at the same place, and rewriting it again with the
/// same version would change nothing observable.
pub proof fn lemma_xml_update_stable(root: xmltree::Element, n: xmltree::Element, ver: Seq<char>)
    requires
        has_pg_version(root),
        xml_tree_updated(root, n, ver),
    ensures
        has_pg_version(n),
        xml_tree_updated(n, n, ver),
{
    let ch = xml_children_of(root);
    let i = find_named(ch, property_group_name());
    let pg = xml_node_elem_of(ch[i]).unwrap();
    let pch = xml_children_of(pg);
    let j = find_named(pch, version_tag_name());
    let nch = xml_children_of(n);
    lemma_find_named_props(ch, property_group_name());
    lemma_find_named_props(pch, version_tag_name());
    assert(forall|k: int| 0 <= k < i ==> !node_is_named(nch[k], property_group_name()));
    assert(node_is_named(nch[i], property_group_name()));
    lemma_find_named_at(nch, property_group_name(), i);
    let npg = xml_node_elem_of(nch[i]).unwrap();
    let npch = xml_children_of(npg);
    assert(forall|k: int| 0 <= k < j ==> !node_is_named(npch[k], version_tag_name()));
    assert(node_is_named(npch[j], version_tag_name()));
    lemma_find_named_at(npch, version_tag_name(), j);
}

/// What a successful XML-family update emits.
///
/// A tree whose root is `manifest` is an Android manifest: the original
/// bytes with the version attribute rewritten textually, so formatting
/// survives.  A tree with the project-file structure is rewritten and
/// re-serialized whole.  Any other well-formed tree leaves the content
/// untouched.
pub open spec fn xml_output_ok(content: Seq<u8>, ver: Seq<char>, out: Seq<u8>) -> bool {
    let root = xml_parse_of(content).unwrap();
    if xml_name_of(root) == manifest_name() {
        out == android_replace_spec(content, vstd::utf8::encode_utf8(ver))
    } else if has_pg_version(root) {
        exists|n: xmltree::Element| #[trigger]
            xml_tree_updated(root, n, ver) && xml_emit_of(n) == Some(out)
    } else {
        out == content
    }
}

/// A serialization failure: the root is no manifest, the project-file
/// structure is present, and some tree rewritten from the parsed one is
/// refused by the emitter.
pub open spec fn xml_emit_fails(content: Seq<u8>, ver: Seq<char>) -> bool {
    let root = xml_parse_of(content).unwrap();
    xml_name_of(root) != manifest_name() && has_pg_version(root) && exists|n: xmltree::Element| #[trigger]
        xml_tree_updated(root, n, ver) && xml_emit_of(n) is None
}

/// The whole contract of an XML-family update: success emits what
/// `xml_output_ok` describes; `MalformedDocument` is exactly content that is
/// no XML; and `SerializationError` occurs only on the tree-rewrite path,
/// when the rewritten tree cannot be emitted.  The manifest path and the
/// no-structure path are owed success outright.
pub open spec fn xml_update_result_ok(
    content: Seq<u8>,
    ver: Seq<char>,
    r: Result<Vec<u8>, UpdateError>,
) -> bool {
    match r {
        Ok(out) => xml_parse_of(content) is Some && xml_output_ok(content, ver, out@),
        Err(e) => (e == UpdateError::MalformedDocument && xml_parse_of(content) is None) || (e
            == UpdateError::SerializationError && xml_parse_of(content) is Some && xml_emit_fails(
            content,
            ver,
        )),
    }
}

/// Updates the version carried by an XML-family file.
///
/// Content that does not parse as XML is a `MalformedDocument` error.  An
/// Android manifest is rewritten textually; a project file with a
/// `PropertyGroup`/`Version` element is rewritten as a tree and
/// re-serialized; any other document is returned unchanged, which still
/// counts as success.
pub fn update_xml(content: &[u8], version: &str) -> (r: Result<Vec<u8>, UpdateError>)
    ensures
        xml_update_result_ok(content@, version@, r),
{
    let parsed = xml_parse(content);
    match parsed {
        None => Err(UpdateError::MalformedDocument),
        Some(root) => {
            let name = elem_name_bytes(&root);
            if bytes_eq(name.as_slice(), "manifest".as_bytes()) {
                Ok(android_replace(content, version.as_bytes()))
            } else {
                match set_propertygroup_version(&root, version) {
                    Some(nroot) => match xml_emit(&nroot) {
                        Some(out) => {
                            proof {
                                assert(xml_tree_updated(
                                    xml_parse_of(content@).unwrap(),
                                    nroot,
                                    version@,
                                ));
                            }
                            Ok(out)
                        },
                        None => {
                            proof {
                                assert(xml_tree_updated(
                                    xml_parse_of(content@).unwrap(),
                                    nroot,
                                    version@,
                                ));
                            }
                            Err(UpdateError::SerializationError)
                        },
                    },
                    None => {
                        let mut out: Vec<u8> = Vec::new();
                        crate::android::push_all(&mut out, content);
                        Ok(out)
                    },
                }
            }
        },
    }
}

} // verus!
