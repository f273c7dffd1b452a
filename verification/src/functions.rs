//! Generating callable `fn` stubs from function definitions.

use vstd::prelude::*;
use vstd::string::StringExecFns;

use crate::metadata::defs_view;
use crate::metadata::Metadata;
use crate::rustifier::definitions;
use crate::rustifier::definitions::spec_function_name;
use crate::rustifier::parameters;
use crate::rustifier::spec_rusty_doc;
use crate::rustifier::types;
use crate::text;
use crate::tl::category::Category;
use crate::tl::definition::Definition;
use crate::tl::definition::DefinitionV;
use crate::tl::parameter::Parameter;
use crate::tl::parameter::ParameterV;

verus! {

/// One argument's line in the documentation block.
pub open spec fn spec_doc_arg(p: ParameterV, gen_bots_only_api: bool) -> Seq<char> {
    if text::spec_contains(p.description, "; for bots only"@) && !gen_bots_only_api {
        Seq::<char>::empty()
    } else {
        "    /// * `"@ + parameters::spec_attr_name(p) + "` - "@ + text::spec_replace(
            p.description,
            "\n"@,
            "\n    /// "@,
        ) + "\n"@
    }
}

pub open spec fn spec_doc_args(ps: Seq<ParameterV>, gen_bots_only_api: bool) -> Seq<char>
    decreases ps.len(),
{
    if ps.len() == 0 {
        Seq::<char>::empty()
    } else {
        spec_doc_args(ps.drop_last(), gen_bots_only_api) + spec_doc_arg(
            ps.last(),
            gen_bots_only_api,
        )
    }
}

/// One parameter in the stub's signature.
pub open spec fn spec_sig_param(p: ParameterV, gen_bots_only_api: bool) -> Seq<char> {
    if text::spec_contains(p.description, "; for bots only"@) && !gen_bots_only_api {
        Seq::<char>::empty()
    } else {
        parameters::spec_attr_name(p) + ": "@ + (if parameters::spec_is_optional(p) {
            "Option<"@
        } else {
            Seq::<char>::empty()
        }) + types::spec_get_path(p.ty, parameters::spec_optional_generic_arg(p)) + (
        if parameters::spec_is_optional(p) {
            ">"@
        } else {
            Seq::<char>::empty()
        }) + ", "@
    }
}

pub open spec fn spec_sig_params(ps: Seq<ParameterV>, gen_bots_only_api: bool) -> Seq<char>
    decreases ps.len(),
{
    if ps.len() == 0 {
        Seq::<char>::empty()
    } else {
        spec_sig_params(ps.drop_last(), gen_bots_only_api) + spec_sig_param(
            ps.last(),
            gen_bots_only_api,
        )
    }
}

/// One field of the composed request.
pub open spec fn spec_req_field(p: ParameterV, gen_bots_only_api: bool) -> Seq<char> {
    if text::spec_contains(p.description, "; for bots only"@) && !gen_bots_only_api {
        Seq::<char>::empty()
    } else {
        "            \""@ + parameters::spec_attr_name(p) + "\": "@ + parameters::spec_attr_name(p)
            + ",\n"@
    }
}

pub open spec fn spec_req_fields(ps: Seq<ParameterV>, gen_bots_only_api: bool) -> Seq<char>
    decreases ps.len(),
{
    if ps.len() == 0 {
        Seq::<char>::empty()
    } else {
        spec_req_fields(ps.drop_last(), gen_bots_only_api) + spec_req_field(
            ps.last(),
            gen_bots_only_api,
        )
    }
}

/// The callable stub generated for one function definition: it composes the
/// request, dispatches it, and decodes the typed result or a typed error.
pub open spec fn spec_write_function(d: DefinitionV, gen_bots_only_api: bool) -> Seq<char> {
    if text::spec_contains(d.description, "; for bots only"@) && !gen_bots_only_api {
        Seq::<char>::empty()
    } else {
        spec_rusty_doc("    "@, d.description) + "\n"@ + "    /// # Arguments\n"@ + spec_doc_args(
            d.params,
            gen_bots_only_api,
        ) + "    /// * `client_id` - The client id to send the request to\n"@
            + "    #[allow(clippy::too_many_arguments)]\n"@ + "    pub async fn "@
            + spec_function_name(d.name) + "("@ + spec_sig_params(d.params, gen_bots_only_api)
            + "client_id: i32) -> Result<"@ + types::spec_get_path(d.ty, false)
            + ", crate::types::Error> {\n"@ + "        let request = json!({\n"@
            + "            \"@type\": \""@ + d.name + "\",\n"@ + spec_req_fields(
            d.params,
            gen_bots_only_api,
        ) + "        });\n"@ + "        let response = send_request(client_id, request).await;\n"@
            + "        if response[\"@type\"] == \"error\" {\n"@
            + "            return Err(serde_json::from_value(response).unwrap())\n"@
            + "        }\n"@ + (if d.ty.name == "Ok"@ {
            "        Ok(())\n"@
        } else {
            "        Ok(serde_json::from_value(response).unwrap())\n"@
        }) + "    }\n"@
    }
}

fn emit_doc_arg(out: &mut String, p: &Parameter, gen_bots_only_api: bool)
    ensures
        final(out)@ == old(out)@ + spec_doc_arg(p@, gen_bots_only_api),
{
    if parameters::is_for_bots_only(p) && !gen_bots_only_api {
        return ;
    }
    out.append("    /// * `");
    let an = parameters::attr_name(p);
    out.append(an.as_str());
    out.append("` - ");
    let desc = text::str_chars(p.description.as_str());
    let nl = text::str_chars("\n");
    let rep = text::str_chars("\n    /// ");
    proof {
        reveal_strlit("\n");
        assert(nl@.len() == 1);
    }
    let replaced = text::replace(desc.as_slice(), nl.as_slice(), rep.as_slice());
    out.append(text::chars_string(replaced.as_slice()).as_str());
    out.append("\n");
    proof {
        assert(out@ =~= old(out)@ + spec_doc_arg(p@, gen_bots_only_api));
    }
}

fn emit_sig_param(out: &mut String, p: &Parameter, gen_bots_only_api: bool)
    ensures
        final(out)@ == old(out)@ + spec_sig_param(p@, gen_bots_only_api),
{
    if parameters::is_for_bots_only(p) && !gen_bots_only_api {
        return ;
    }
    let an = parameters::attr_name(p);
    out.append(an.as_str());
    out.append(": ");
    let opt = parameters::is_optional(p);
    if opt {
        out.append("Option<");
    }
    let qn = parameters::qual_name(p);
    out.append(qn.as_str());
    if opt {
        out.append(">");
    }
    out.append(", ");
    proof {
        assert(out@ =~= old(out)@ + spec_sig_param(p@, gen_bots_only_api));
    }
}

fn emit_req_field(out: &mut String, p: &Parameter, gen_bots_only_api: bool)
    ensures
        final(out)@ == old(out)@ + spec_req_field(p@, gen_bots_only_api),
{
    if parameters::is_for_bots_only(p) && !gen_bots_only_api {
        return ;
    }
    out.append("            \"");
    let an = parameters::attr_name(p);
    out.append(an.as_str());
    out.append("\": ");
    out.append(an.as_str());
    out.append(",\n");
    proof {
        assert(out@ =~= old(out)@ + spec_req_field(p@, gen_bots_only_api));
    }
}

/// Writes the `fn` stub corresponding to the definition.
#[verifier::rlimit(100)]
pub fn write_function(
    file: &mut String,
    def: &Definition,
    _metadata: &Metadata,
    gen_bots_only_api: bool,
)
    ensures
        final(file)@ == old(file)@ + spec_write_function(def@, gen_bots_only_api),
{
    if definitions::is_for_bots_only(def) && !gen_bots_only_api {
        return ;
    }
    let mut out = String::new();
    let doc = definitions::description(def, "    ");
    out.append(doc.as_str());
    out.append("\n");
    out.append("    /// # Arguments\n");
    let ghost pv = def@.params;
    let n = def.params.len();
    let ghost base1 = out@;
    let mut p: usize = 0;
    proof {
        assert(base1 + spec_doc_args(pv.take(0), gen_bots_only_api) =~= base1);
    }
    while p < n
        invariant
            p <= n,
            n == def.params@.len(),
            pv == def@.params,
            pv.len() == n,
            out@ == base1 + spec_doc_args(pv.take(p as int), gen_bots_only_api),
        decreases n - p,
    {
        proof {
            assert(pv.take(p as int + 1).drop_last() =~= pv.take(p as int));
            assert(pv.take(p as int + 1).last() == pv[p as int]);
            assert(def@.params[p as int] == def.params@[p as int]@);
        }
        emit_doc_arg(&mut out, &def.params[p], gen_bots_only_api);
        p = p + 1;
    }
    proof {
        assert(pv.take(n as int) =~= pv);
    }
    out.append("    /// * `client_id` - The client id to send the request to\n");
    out.append("    #[allow(clippy::too_many_arguments)]\n");
    out.append("    pub async fn ");
    let fname = definitions::function_name(def);
    out.append(fname.as_str());
    out.append("(");
    let ghost base2 = out@;
    let mut p2: usize = 0;
    proof {
        assert(base2 + spec_sig_params(pv.take(0), gen_bots_only_api) =~= base2);
    }
    while p2 < n
        invariant
            p2 <= n,
            n == def.params@.len(),
            pv == def@.params,
            pv.len() == n,
            out@ == base2 + spec_sig_params(pv.take(p2 as int), gen_bots_only_api),
        decreases n - p2,
    {
        proof {
            assert(pv.take(p2 as int + 1).drop_last() =~= pv.take(p2 as int));
            assert(pv.take(p2 as int + 1).last() == pv[p2 as int]);
            assert(def@.params[p2 as int] == def.params@[p2 as int]@);
        }
        emit_sig_param(&mut out, &def.params[p2], gen_bots_only_api);
        p2 = p2 + 1;
    }
    proof {
        assert(pv.take(n as int) =~= pv);
    }
    out.append("client_id: i32) -> Result<");
    let rq = types::qual_name(&def.ty);
    out.append(rq.as_str());
    out.append(", crate::types::Error> {\n");
    out.append("        let request = json!({\n");
    out.append("            \"@type\": \"");
    out.append(def.name.as_str());
    out.append("\",\n");
    let ghost base3 = out@;
    let mut p3: usize = 0;
    proof {
        assert(base3 + spec_req_fields(pv.take(0), gen_bots_only_api) =~= base3);
    }
    while p3 < n
        invariant
            p3 <= n,
            n == def.params@.len(),
            pv == def@.params,
            pv.len() == n,
            out@ == base3 + spec_req_fields(pv.take(p3 as int), gen_bots_only_api),
        decreases n - p3,
    {
        proof {
            assert(pv.take(p3 as int + 1).drop_last() =~= pv.take(p3 as int));
            assert(pv.take(p3 as int + 1).last() == pv[p3 as int]);
            assert(def@.params[p3 as int] == def.params@[p3 as int]@);
        }
        emit_req_field(&mut out, &def.params[p3], gen_bots_only_api);
        p3 = p3 + 1;
    }
    proof {
        assert(pv.take(n as int) =~= pv);
    }
    out.append("        });\n");
    out.append("        let response = send_request(client_id, request).await;\n");
    out.append("        if response[\"@type\"] == \"error\" {\n");
    out.append("            return Err(serde_json::from_value(response).unwrap())\n");
    out.append("        }\n");
    if types::is_ok(&def.ty) {
        out.append("        Ok(())\n");
    } else {
        out.append("        Ok(serde_json::from_value(response).unwrap())\n");
    }
    out.append("    }\n");
    proof {
        assert(out@ =~= spec_write_function(def@, gen_bots_only_api));
    }
    file.append(out.as_str());
}

/// Writes an entire definition as Rust code (`fn`).
pub fn write_definition(
    file: &mut String,
    def: &Definition,
    metadata: &Metadata,
    gen_bots_only_api: bool,
)
    ensures
        final(file)@ == old(file)@ + spec_write_function(def@, gen_bots_only_api),
{
    write_function(file, def, metadata, gen_bots_only_api);
}

/// The stubs of a prefix of the definition list.
pub open spec fn spec_functions_items(prefix: Seq<DefinitionV>, gen_bots_only_api: bool) -> Seq<
    char,
>
    decreases prefix.len(),
{
    if prefix.len() == 0 {
        Seq::<char>::empty()
    } else {
        spec_functions_items(prefix.drop_last(), gen_bots_only_api) + (if prefix.last().category
            == Category::Functions {
            spec_write_function(prefix.last(), gen_bots_only_api)
        } else {
            Seq::<char>::empty()
        })
    }
}

/// The whole module dedicated to functions.
pub open spec fn spec_functions_mod(all: Seq<DefinitionV>, gen_bots_only_api: bool) -> Seq<char> {
    "pub mod functions {\n"@ + "    use serde_json::json;\n"@ + "    use crate::send_request;\n"@
        + spec_functions_items(all, gen_bots_only_api) + "}\n"@
}

/// Writes the entire module dedicated to functions.
pub fn write_functions_mod(
    file: &mut String,
    definitions: &Vec<Definition>,
    metadata: &Metadata,
    gen_bots_only_api: bool,
)
    ensures
        final(file)@ == old(file)@ + spec_functions_mod(defs_view(definitions@), gen_bots_only_api),
{
    let ghost dv = defs_view(definitions@);
    let mut out = String::new();
    out.append("pub mod functions {\n");
    out.append("    use serde_json::json;\n");
    out.append("    use crate::send_request;\n");
    let ghost hdr = out@;
    let n = definitions.len();
    let mut j: usize = 0;
    proof {
        assert(hdr + spec_functions_items(dv.take(0), gen_bots_only_api) =~= hdr);
    }
    while j < n
        invariant
            j <= n,
            n == definitions@.len(),
            dv == defs_view(definitions@),
            out@ == hdr + spec_functions_items(dv.take(j as int), gen_bots_only_api),
        decreases n - j,
    {
        proof {
            assert(dv[j as int] == definitions@[j as int]@);
            assert(dv.take(j as int + 1).drop_last() =~= dv.take(j as int));
            assert(dv.take(j as int + 1).last() == dv[j as int]);
        }
        let d = &definitions[j];
        let is_fn = match d.category {
            Category::Functions => true,
            Category::Types => false,
        };
        if is_fn {
            write_definition(&mut out, d, metadata, gen_bots_only_api);
        }
        proof {
            assert(out@ =~= hdr + spec_functions_items(dv.take(j as int + 1), gen_bots_only_api));
        }
        j = j + 1;
    }
    out.append("}\n");
    proof {
        assert(dv.take(n as int) =~= dv);
        assert(out@ =~= spec_functions_mod(dv, gen_bots_only_api));
    }
    file.append(out.as_str());
}

} // verus!
