//! Tests for the name rendering rules, the metadata analyses and the
//! generator.

use tlgen::metadata::Metadata;
use tlgen::rustifier::definitions;
use tlgen::rustifier::parameters;
use tlgen::rustifier::types;
use tlgen::tl::Definition;
use tlgen::tl::Parameter;
use tlgen::tl::Type;
use tlgen::tl_iterator::TlIterator;

fn parse_defs(text: &str) -> Vec<Definition> {
    let mut it = TlIterator::new(text.into());
    let mut out = Vec::new();
    while let Some(r) = it.next() {
        out.push(r.unwrap());
    }
    out
}

// Core methods

#[test]
fn check_rusty_type_name() {
    let ty = Type {
        name: "ns.some_OK_name".into(),
        bare: true,
        generic_ref: false,
        generic_arg: None,
    };
    assert_eq!(types::ty_name(&ty), "SomeOkName");
}

// Definition methods

#[test]
fn check_def_type_name() {
    let def = Definition::from_str("userEmpty = User").unwrap();
    let name = definitions::ty_name(&def);
    assert_eq!(name, "UserEmpty");
}

#[test]
fn check_def_qual_name() {
    let def = Definition::from_str("userEmpty = User").unwrap();
    let name = definitions::qual_name(&def);
    assert_eq!(name, "crate::types::UserEmpty");
}

#[test]
fn check_def_variant_name() {
    let def = Definition::from_str("new_session_created = NewSession").unwrap();
    let name = definitions::variant_name(&def);
    assert_eq!(name, "Created");
}

#[test]
fn check_def_empty_variant_name() {
    let def = Definition::from_str("true = True").unwrap();
    let name = definitions::variant_name(&def);
    assert_eq!(name, "True");
}

#[test]
fn check_def_self_variant_name() {
    let def = Definition::from_str("inputPeerSelf = InputPeer").unwrap();
    let name = definitions::variant_name(&def);
    assert_eq!(name, "PeerSelf");
}

// Type methods

#[test]
fn check_type_type_name() {
    let ty = Type::from_str("storage.FileType").unwrap();
    let name = types::ty_name(&ty);
    assert_eq!(name, "FileType");
}

#[test]
fn check_type_qual_name() {
    let ty = Type::from_str("InputPeer").unwrap();
    let name = types::qual_name(&ty);
    assert_eq!(name, "crate::enums::InputPeer");
}

#[test]
fn check_type_qual_bare_name() {
    let ty = Type::from_str("ipPort").unwrap();
    let name = types::qual_name(&ty);
    assert_eq!(name, "crate::types::IpPort");
}

#[test]
fn check_type_bytes_qual_name() {
    let ty = Type::from_str("bytes").unwrap();
    let name = types::qual_name(&ty);
    assert_eq!(name, "Vec<u8>");
}

#[test]
fn check_type_large_int_qual_name() {
    let ty = Type::from_str("int256").unwrap();
    let name = types::qual_name(&ty);
    assert_eq!(name, "[u8; 32]");
}

#[test]
fn check_type_raw_vec_qual_name() {
    let ty = Type::from_str("vector<long>").unwrap();
    let name = types::qual_name(&ty);
    assert_eq!(name, "Vec<i64>");
}

#[test]
fn check_type_vec_qual_name() {
    let ty = Type::from_str("Vector<Bool>").unwrap();
    let name = types::qual_name(&ty);
    assert_eq!(name, "Vec<bool>");
}

// Parameter methods

#[test]
fn check_param_qual_name() {
    let param = Parameter::from_str("pts:int").unwrap();
    let name = parameters::qual_name(&param);
    assert_eq!(name, "i32");
}

#[test]
fn check_param_attr_name() {
    let param = Parameter::from_str("access_hash:long").unwrap();
    let name = parameters::attr_name(&param);
    assert_eq!(name, "access_hash");
}

#[test]
fn check_param_keyword_attr_name() {
    let param = Parameter::from_str("type:string").unwrap();
    assert_eq!(parameters::attr_name(&param), "r#type");
    let param = Parameter::from_str("self:Bool").unwrap();
    assert_eq!(parameters::attr_name(&param), "is_self");
}

#[test]
fn check_param_optional() {
    let mut param = Parameter::from_str("total:int32").unwrap();
    assert!(!parameters::is_optional(&param));
    param.description = "The photo; may be null".into();
    assert!(parameters::is_optional(&param));
}

#[test]
fn check_function_name() {
    let def = Definition::from_str("getChatHistory chat_id:int53 = Messages").unwrap();
    assert_eq!(definitions::function_name(&def), "get_chat_history");
}

// Metadata

#[test]
fn direct_recursion_is_flagged() {
    let defs = parse_defs("node next:Node = Node;\nleaf value:int32 = Leaf;");
    let metadata = Metadata::new(&defs);
    assert!(metadata.is_recursive_def(&defs[0]));
    assert!(!metadata.is_recursive_def(&defs[1]));
}

#[test]
fn transitive_recursion_is_flagged() {
    let defs = parse_defs(
        "outer inner:Inner = Outer;\ninner back:Outer = Inner;\nplain x:int32 = Plain;",
    );
    let metadata = Metadata::new(&defs);
    assert!(metadata.is_recursive_def(&defs[0]));
    assert!(metadata.is_recursive_def(&defs[1]));
    assert!(!metadata.is_recursive_def(&defs[2]));
}

#[test]
fn default_impl_eligibility() {
    let defs = parse_defs("simple count:int32 = Simple;\nwrapped peer:InputPeer = Wrapped;");
    let metadata = Metadata::new(&defs);
    assert!(metadata.can_def_implement_default(&defs[0]));
    assert!(!metadata.can_def_implement_default(&defs[1]));
}

#[test]
fn defs_with_type_in_order() {
    let defs = parse_defs("userEmpty = User;\nuser id:int32 = User;\nchat id:int32 = Chat;");
    let metadata = Metadata::new(&defs);
    let idxs = metadata.defs_with_type(&defs[0].ty);
    assert_eq!(idxs, &vec![0usize, 1usize]);
}

// The generator

#[test]
fn generation_is_deterministic() {
    let schema = "userEmpty id:int32 = User;\nuser id:int32 name:string = User;\n\
        ---functions---\ngetUser user_id:int32 = User;";
    let defs1 = parse_defs(schema);
    let defs2 = parse_defs(schema);
    let once = tlgen::generate_rust_code(&defs1, false);
    let twice = tlgen::generate_rust_code(&defs2, false);
    assert_eq!(once, twice);
    assert_eq!(
        tlgen::generate_client(&defs1),
        tlgen::generate_client(&defs2)
    );
}

#[test]
fn recursive_defs_are_boxed() {
    let defs = parse_defs("node next:Node = Node;\nleaf value:int32 = Leaf;");
    let generated = tlgen::generate_rust_code(&defs, false);
    assert!(generated.contains("Node(Box<crate::types::Node>)"));
    assert!(generated.contains("Leaf(crate::types::Leaf)"));
    assert!(!generated.contains("Box<crate::types::Leaf>"));
}

#[test]
fn bots_only_definitions_are_filtered() {
    let schema = "//@description Some thing; for bots only\nhidden x:int32 = Hidden;\n\
        //@description Anyone\nvisible x:int32 = Visible;";
    let defs = parse_defs(schema);
    let without = tlgen::generate_rust_code(&defs, false);
    let with = tlgen::generate_rust_code(&defs, true);
    assert!(!without.contains("pub struct Hidden"));
    assert!(with.contains("pub struct Hidden"));
    assert!(without.contains("pub struct Visible"));
}

#[test]
fn generated_struct_shape() {
    let schema = "//@description A point @x Coordinate @y Coordinate\npoint x:int32 y:int32 = Point;";
    let defs = parse_defs(schema);
    let generated = tlgen::generate_rust_code(&defs, false);
    assert!(generated.contains("pub struct Point {"));
    assert!(generated.contains("pub x: i32,"));
    assert!(generated.contains("pub enum Point {"));
    assert!(generated.contains("impl Default for Point {"));
}

#[test]
fn generated_function_stub() {
    let schema = "---functions---\ngetMe = User;";
    let defs = parse_defs(schema);
    let generated = tlgen::generate_rust_code(&defs, false);
    assert!(generated.contains("pub async fn get_me(client_id: i32) -> Result<crate::enums::User, crate::types::Error> {"));
}

#[test]
fn serde_adapter_for_large_ints() {
    let schema = "message id:int64 = Message;";
    let defs = parse_defs(schema);
    let generated = tlgen::generate_rust_code(&defs, false);
    assert!(generated.contains("#[serde_as(as = \"DisplayFromStr\")]"));
}
