//! Generating `struct` declarations from type definitions.

use vstd::prelude::*;
use vstd::string::StringExecFns;

use crate::metadata::defs_view;
use crate::metadata::spec_default_name;
use crate::metadata::Metadata;
use crate::rustifier::definitions;
use crate::rustifier::parameters;
use crate::rustifier::spec_rusty_doc;
use crate::rustifier::spec_rusty_type_name;
use crate::rustifier::types;
use crate::spec_ignore_type;
use crate::text;
use crate::tl::category::Category;
use crate::tl::definition::Definition;
use crate::tl::definition::DefinitionV;
use crate::tl::parameter::ParameterV;

verus! {

/// One generated struct field: its documentation, serialization adapter,
/// name and type, optional fields wrapped in `Option`.
pub open spec fn spec_field(p: ParameterV, gen_bots_only_api: bool) -> Seq<char> {
    if text::spec_contains(p.description, "; for bots only"@) && !gen_bots_only_api {
        Seq::<char>::empty()
    } else {
        spec_rusty_doc("        "@, p.description) + "\n"@ + (match types::spec_serde_as(p.ty) {
            Some(sa) => "        #[serde_as(as = \""@ + sa + "\")]\n"@,
            None => Seq::<char>::empty(),
        }) + "        pub "@ + parameters::spec_attr_name(p) + ": "@ + (if parameters::spec_is_optional(
            p,
        ) {
            "Option<"@
        } else {
            Seq::<char>::empty()
        }) + types::spec_get_path(p.ty, parameters::spec_optional_generic_arg(p)) + (if parameters::spec_is_optional(
            p,
        ) {
            ">"@
        } else {
            Seq::<char>::empty()
        }) + ",\n"@
    }
}

/// The fields of a struct, in declaration order.
pub open spec fn spec_fields(ps: Seq<ParameterV>, gen_bots_only_api: bool) -> Seq<char>
    decreases ps.len(),
{
    if ps.len() == 0 {
        Seq::<char>::empty()
    } else {
        spec_fields(ps.drop_last(), gen_bots_only_api) + spec_field(ps.last(), gen_bots_only_api)
    }
}

/// Whether any parameter needs a serialization adapter.
pub open spec fn spec_serde_any(ps: Seq<ParameterV>) -> bool {
    exists|p: int| 0 <= p < ps.len() && types::spec_serde_as(#[trigger] ps[p].ty) is Some
}

/// The `struct` generated for one definition.
pub open spec fn spec_write_struct(d: DefinitionV, can_default: bool, gen_bots_only_api: bool) -> Seq<
    char,
> {
    if text::spec_contains(d.description, "; for bots only"@) && !gen_bots_only_api {
        Seq::<char>::empty()
    } else {
        spec_rusty_doc("    "@, d.description) + "\n"@ + (if spec_serde_any(d.params) {
            "    #[serde_as]"@
        } else {
            Seq::<char>::empty()
        }) + "    #[derive(Clone, Debug, "@ + (if can_default {
            "Default, "@
        } else {
            Seq::<char>::empty()
        }) + "PartialEq, Deserialize, Serialize)]\n"@ + "    pub struct "@
            + spec_rusty_type_name(d.name) + " {\n"@ + spec_fields(d.params, gen_bots_only_api)
            + "    }\n"@
    }
}

/// Whether any parameter needs a serialization adapter.
fn serde_any(def: &Definition) -> (r: bool)
    ensures
        r == spec_serde_any(def@.params),
{
    let n = def.params.len();
    let mut p: usize = 0;
    while p < n
        invariant
            p <= n,
            n == def.params@.len(),
            forall|q: int| 0 <= q < p ==> types::spec_serde_as(#[trigger] def@.params[q].ty) is None,
        decreases n - p,
    {
        proof {
            assert(def@.params[p as int] == def.params@[p as int]@);
        }
        if parameters::serde_as(&def.params[p]).is_some() {
            return true;
        }
        p = p + 1;
    }
    false
}

/// Appends one field of the struct.
fn emit_field(out: &mut Vec<char>, param: &crate::tl::parameter::Parameter, gen_bots_only_api: bool)
    ensures
        final(out)@ == old(out)@ + spec_field(param@, gen_bots_only_api),
{
    if parameters::is_for_bots_only(param) && !gen_bots_only_api {
        return ;
    }
    let pd = parameters::description(param, "        ");
    text::append_string(out, &pd);
    text::append_str(out, "\n");
    match parameters::serde_as(param) {
        Some(sa) => {
            text::append_str(out, "        #[serde_as(as = \"");
            text::append_string(out, &sa);
            text::append_str(out, "\")]\n");
        },
        None => {},
    }
    text::append_str(out, "        pub ");
    let an = parameters::attr_name(param);
    text::append_string(out, &an);
    text::append_str(out, ": ");
    let opt = parameters::is_optional(param);
    if opt {
        text::append_str(out, "Option<");
    }
    let qn = parameters::qual_name(param);
    text::append_string(out, &qn);
    if opt {
        text::append_str(out, ">");
    }
    text::append_str(out, ",\n");
    proof {
        assert(out@ =~= old(out)@ + spec_field(param@, gen_bots_only_api));
    }
}

#[verifier::rlimit(100)]
fn emit_struct(out: &mut Vec<char>, def: &Definition, can_default: bool, gen_bots_only_api: bool)
    ensures
        final(out)@ == old(out)@ + spec_write_struct(def@, can_default, gen_bots_only_api),
{
    if definitions::is_for_bots_only(def) && !gen_bots_only_api {
        return ;
    }
    let doc = definitions::description(def, "    ");
    text::append_string(out, &doc);
    text::append_str(out, "\n");
    if serde_any(def) {
        text::append_str(out, "    #[serde_as]");
    }
    text::append_str(out, "    #[derive(Clone, Debug, ");
    if can_default {
        text::append_str(out, "Default, ");
    }
    text::append_str(out, "PartialEq, Deserialize, Serialize)]\n");
    text::append_str(out, "    pub struct ");
    let tn = definitions::ty_name(def);
    text::append_string(out, &tn);
    text::append_str(out, " {\n");
    let ghost pre_fields = out@;
    let n = def.params.len();
    let mut p: usize = 0;
    proof {
        assert(pre_fields + spec_fields(def@.params.take(0), gen_bots_only_api) =~= pre_fields);
    }
    while p < n
        invariant
            p <= n,
            n == def.params@.len(),
            def@.params.len() == n,
            out@ == pre_fields + spec_fields(def@.params.take(p as int), gen_bots_only_api),
        decreases n - p,
    {
        let ghost pv = def@.params;
        proof {
            assert(pv.take(p as int + 1).drop_last() =~= pv.take(p as int));
            assert(pv.take(p as int + 1).last() == pv[p as int]);
            assert(def@.params[p as int] == def.params@[p as int]@);
        }
        emit_field(out, &def.params[p], gen_bots_only_api);
        proof {
            assert(out@ =~= pre_fields + spec_fields(
                def@.params.take(p as int + 1),
                gen_bots_only_api,
            ));
        }
        p = p + 1;
    }
    text::append_str(out, "    }\n");
    proof {
        assert(def@.params.take(n as int) =~= def@.params);
        assert(out@ =~= old(out)@ + spec_write_struct(def@, can_default, gen_bots_only_api));
    }
}

/// Writes the `struct` corresponding to the definition.
pub fn write_struct(
    file: &mut String,
    def: &Definition,
    metadata: &Metadata,
    gen_bots_only_api: bool,
)
    requires
        metadata.wf(),
    ensures
        final(file)@ == old(file)@ + spec_write_struct(
            def@,
            spec_default_name(metadata.defs(), def@.name),
            gen_bots_only_api,
        ),
{
    let can_default = metadata.can_def_implement_default(def);
    let mut out: Vec<char> = Vec::new();
    emit_struct(&mut out, def, can_default, gen_bots_only_api);
    file.append(text::chars_string(out.as_slice()).as_str());
}

/// Writes an entire definition as Rust code (`struct`).
pub fn write_definition(
    file: &mut String,
    def: &Definition,
    metadata: &Metadata,
    gen_bots_only_api: bool,
)
    requires
        metadata.wf(),
    ensures
        final(file)@ == old(file)@ + spec_write_struct(
            def@,
            spec_default_name(metadata.defs(), def@.name),
            gen_bots_only_api,
        ),
{
    write_struct(file, def, metadata, gen_bots_only_api);
}

/// Whether a definition gets a struct declaration: a type constructor of a
/// non-special type, with at least one field.
pub open spec fn spec_struct_emitted(d: DefinitionV) -> bool {
    d.category == Category::Types && !spec_ignore_type(d.ty) && d.params.len() > 0
}

/// The structs of a prefix of the definition list.
pub open spec fn spec_types_items(
    all: Seq<DefinitionV>,
    prefix: Seq<DefinitionV>,
    gen_bots_only_api: bool,
) -> Seq<char>
    decreases prefix.len(),
{
    if prefix.len() == 0 {
        Seq::<char>::empty()
    } else {
        spec_types_items(all, prefix.drop_last(), gen_bots_only_api) + (if spec_struct_emitted(
            prefix.last(),
        ) {
            spec_write_struct(
                prefix.last(),
                spec_default_name(all, prefix.last().name),
                gen_bots_only_api,
            )
        } else {
            Seq::<char>::empty()
        })
    }
}

/// The whole module dedicated to types.
pub open spec fn spec_types_mod(all: Seq<DefinitionV>, gen_bots_only_api: bool) -> Seq<char> {
    "pub mod types {\n"@ + "    use serde::{Deserialize, Serialize};\n"@
        + "    use serde_with::{serde_as, DisplayFromStr};\n"@ + spec_types_items(
        all,
        all,
        gen_bots_only_api,
    ) + "}\n"@
}

/// Writes the entire module dedicated to types.
pub fn write_types_mod(
    file: &mut String,
    definitions: &Vec<Definition>,
    metadata: &Metadata,
    gen_bots_only_api: bool,
)
    requires
        metadata.wf(),
        metadata.defs() == defs_view(definitions@),
    ensures
        final(file)@ == old(file)@ + spec_types_mod(defs_view(definitions@), gen_bots_only_api),
{
    let ghost dv = defs_view(definitions@);
    let mut out = String::new();
    out.append("pub mod types {\n");
    out.append("    use serde::{Deserialize, Serialize};\n");
    out.append("    use serde_with::{serde_as, DisplayFromStr};\n");
    let ghost hdr = out@;
    let n = definitions.len();
    let mut j: usize = 0;
    proof {
        assert(hdr + spec_types_items(dv, dv.take(0), gen_bots_only_api) =~= hdr);
    }
    while j < n
        invariant
            j <= n,
            n == definitions@.len(),
            dv == defs_view(definitions@),
            metadata.wf(),
            metadata.defs() == dv,
            out@ == hdr + spec_types_items(dv, dv.take(j as int), gen_bots_only_api),
        decreases n - j,
    {
        proof {
            assert(dv[j as int] == definitions@[j as int]@);
            assert(dv.take(j as int + 1).drop_last() =~= dv.take(j as int));
            assert(dv.take(j as int + 1).last() == dv[j as int]);
        }
        let d = &definitions[j];
        let is_types = match d.category {
            Category::Types => true,
            Category::Functions => false,
        };
        if is_types && !crate::ignore_type(&d.ty) && d.params.len() > 0 {
            write_definition(&mut out, d, metadata, gen_bots_only_api);
        }
        proof {
            assert(out@ =~= hdr + spec_types_items(dv, dv.take(j as int + 1), gen_bots_only_api));
        }
        j = j + 1;
    }
    out.append("}\n");
    proof {
        assert(dv.take(n as int) =~= dv);
        assert(out@ =~= spec_types_mod(dv, gen_bots_only_api));
    }
    file.append(out.as_str());
}

} // verus!
