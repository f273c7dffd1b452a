//! A parser and code generator for Type Language (TL) schema files.
//!
//! The parser turns raw schema text into a list of [`tl::Definition`]s, each
//! with a stable numeric identifier derived from a canonicalized rendering of
//! its statement. The generator consumes the parsed definitions together with
//! derived metadata and emits Rust source text for the described types,
//! enums and remote-procedure stubs.

mod text;

pub mod builders;
pub mod client;
pub mod enums;
pub mod errors;
pub mod functions;
pub mod grouper;
pub mod metadata;
pub mod rustifier;
pub mod tl;
pub mod tl_iterator;
pub mod types;
pub mod utils;

use vstd::prelude::*;

verus! {

/// The concrete, bare form of a vector (`vector` as opposed to the boxed
/// `Vector`): a new-type that generated code uses for the rare bare case.
#[derive(Debug, Clone, PartialEq)]
pub struct RawVec<T>(pub Vec<T>);

/// No declarations are generated for these core types; they are treated
/// specially by the target runtime.
pub open spec fn spec_ignore_type(t: crate::tl::ty::TypeV) -> bool {
    t.name == "Bool"@
}

/// Whether no declarations are generated for definitions of this type.
pub fn ignore_type(ty: &crate::tl::Type) -> (r: bool)
    ensures
        r == spec_ignore_type(ty@),
{
    crate::text::eq_str(ty.name.as_str(), "Bool")
}

/// The complete generated source: the types, enums and functions modules.
pub open spec fn spec_generate_rust_code(
    defs: Seq<crate::tl::definition::DefinitionV>,
    gen_bots_only_api: bool,
) -> Seq<char> {
    crate::types::spec_types_mod(defs, gen_bots_only_api) + crate::enums::spec_enums_mod(
        defs,
        gen_bots_only_api,
    ) + crate::functions::spec_functions_mod(defs, gen_bots_only_api)
}

/// Generates the complete source for the parsed definitions: the types,
/// enums and functions modules, in order.
pub fn generate_rust_code(
    definitions: &Vec<crate::tl::Definition>,
    gen_bots_only_api: bool,
) -> (r: String)
    ensures
        r@ == spec_generate_rust_code(
            crate::metadata::defs_view(definitions@),
            gen_bots_only_api,
        ),
{
    let metadata = crate::metadata::Metadata::new(definitions);
    let mut file = String::new();
    crate::types::write_types_mod(&mut file, definitions, &metadata, gen_bots_only_api);
    crate::enums::write_enums_mod(&mut file, definitions, &metadata, gen_bots_only_api);
    crate::functions::write_functions_mod(&mut file, definitions, &metadata, gen_bots_only_api);
    file
}

/// Generates the client module for the parsed definitions.
pub fn generate_client(definitions: &Vec<crate::tl::Definition>) -> (r: String)
    ensures
        r@ == crate::client::spec_client_mod(crate::metadata::defs_view(definitions@)),
{
    let metadata = crate::metadata::Metadata::new(definitions);
    let mut file = String::new();
    crate::client::write_client_mod(&mut file, definitions, &metadata);
    file
}

/// Generation is deterministic: two runs over the same definitions and the
/// same configuration switch produce the same text, character for
/// character.
pub proof fn lemma_generation_deterministic(
    defs1: Seq<crate::tl::definition::DefinitionV>,
    defs2: Seq<crate::tl::definition::DefinitionV>,
    gen_bots_only_api: bool,
)
    requires
        defs1 == defs2,
    ensures
        spec_generate_rust_code(defs1, gen_bots_only_api) == spec_generate_rust_code(
            defs2,
            gen_bots_only_api,
        ),
        crate::client::spec_client_mod(defs1) == crate::client::spec_client_mod(defs2),
        crate::builders::spec_builders_mod(defs1) == crate::builders::spec_builders_mod(defs2),
{
}

} // verus!
