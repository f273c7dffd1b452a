//! Tests for the builder and client emitters and the whole-set analyses.

use tlgen::metadata::Metadata;
use tlgen::RawVec;
use tlgen::tl::Definition;
use tlgen::tl::Parameter;
use tlgen::tl::Type;
use tlgen::tl_iterator::TlIterator;

fn parse_defs(text: &str) -> Vec<Definition> {
    let mut it = TlIterator::new(text.into());
    let mut out = Vec::new();
    while let Some(parsed) = it.next() {
        out.push(parsed.unwrap());
    }
    out
}

#[test]
fn builder_module_shape() {
    let defs = parse_defs("---functions---\nsendMessage chat_id:int53 text:string = Message;");
    let metadata = Metadata::new(&defs);
    let mut out = String::new();
    tlgen::builders::write_functions_mod(&mut out, &defs, &metadata);
    assert!(out.contains("pub struct SendMessage {"));
    assert!(out.contains("chat_id: Option<i64>,"));
    assert!(out.contains("pub fn chat_id(mut self, chat_id: i64) -> SendMessage {"));
    assert!(out.contains(
        "pub async fn send(self, client_id: i32) -> Result<crate::enums::Message, crate::types::Error> {"
    ));
}

#[test]
fn builder_generic_param_list() {
    let def = Definition::from_str("invokeWithLayer layer:int32 query:!X = X").unwrap();
    assert_eq!(
        tlgen::builders::get_generic_param_list(&def, true),
        "<X: crate::RemoteCall>"
    );
    assert_eq!(tlgen::builders::get_generic_param_list(&def, false), "<X>");
}

#[test]
fn namespaced_builders_nest_modules() {
    let defs = parse_defs("---functions---\nstorage.getFile id:int32 = File;\ntop = T;");
    let metadata = Metadata::new(&defs);
    let mut out = String::new();
    tlgen::builders::write_functions_mod(&mut out, &defs, &metadata);
    assert!(out.contains("    pub mod storage {"));
    assert!(out.contains("pub struct GetFile"));
    assert!(out.contains("pub struct Top"));
}

#[test]
fn client_module_shape() {
    let defs = parse_defs("---functions---\ngetMe = User;");
    let out = tlgen::generate_client(&defs);
    assert!(out.contains("pub mod client {"));
    assert!(out.contains("pub async fn get_me(&self) -> crate::enums::User {"));
    assert!(out.contains("serde_json::from_value(response).unwrap()"));
}

#[test]
fn self_reference_analysis() {
    let defs = parse_defs("node next:Node = Node;\nleaf v:int32 = Leaf;");
    assert!(tlgen::metadata::def_self_references(&defs, &defs[0]));
    assert!(!tlgen::metadata::def_self_references(&defs, &defs[1]));
    assert!(tlgen::metadata::def_contains_only_bare_types(&defs, &defs[1]));
    assert!(!tlgen::metadata::def_contains_only_bare_types(&defs, &defs[0]));
}

#[test]
fn find_generic_refs_collects_names() {
    let ty = Type::from_str("vector<!X>").unwrap();
    let mut refs: Vec<String> = Vec::new();
    ty.find_generic_refs(&mut refs);
    assert_eq!(refs, vec!["X".to_string()]);
}

#[test]
fn render_parameter_and_type() {
    let p = Parameter::from_str("foo:bar<baz>").unwrap();
    assert_eq!(p.to_string(), "foo:bar<baz>");
    let t = Type::from_str("!X").unwrap();
    assert_eq!(t.to_string(), "!X");
}

#[test]
fn raw_vec_wraps_a_plain_vector() {
    let v = RawVec(vec![1i64, 2i64]);
    assert_eq!(v.0.len(), 2);
    assert_eq!(v.clone(), v);
}
