//! Generating request-builder `struct`s with setters and a `send` method
//! from function definitions, grouped by namespace.

use vstd::prelude::*;
use vstd::string::StringExecFns;

use crate::grouper;
use crate::grouper::keys_of;
use crate::grouper::spec_group_idxs;
use crate::grouper::spec_group_keys;
use crate::metadata::defs_view;
use crate::metadata::usize_seq;
use crate::metadata::Metadata;
use crate::rustifier::definitions;
use crate::rustifier::parameters;
use crate::rustifier::spec_rusty_doc;
use crate::rustifier::spec_rusty_type_name;
use crate::rustifier::types;
use crate::text;
use crate::tl::category::Category;
use crate::tl::definition::Definition;
use crate::tl::definition::DefinitionV;
use crate::tl::parameter::ParameterV;

verus! {

/// The generic parameter list of a definition: the generic references among
/// its parameter types, in angle brackets, optionally with their bound.
pub open spec fn spec_gplist(ps: Seq<ParameterV>, started: bool, declaring: bool) -> Seq<char>
    decreases ps.len(),
{
    if ps.len() == 0 {
        if started {
            ">"@
        } else {
            Seq::<char>::empty()
        }
    } else {
        let p = ps[0];
        if p.ty.generic_ref {
            (if !started {
                "<"@
            } else {
                ", "@
            }) + p.ty.name + (if declaring {
                ": crate::RemoteCall"@
            } else {
                Seq::<char>::empty()
            }) + spec_gplist(ps.drop_first(), true, declaring)
        } else {
            spec_gplist(ps.drop_first(), started, declaring)
        }
    }
}

/// The generic parameter list of a definition.
pub fn get_generic_param_list(def: &Definition, declaring: bool) -> (r: String)
    ensures
        r@ == spec_gplist(def@.params, false, declaring),
{
    let ghost pv = def@.params;
    let mut out = String::new();
    let mut started = false;
    let n = def.params.len();
    let mut i: usize = 0;
    proof {
        assert(pv.skip(0) =~= pv);
        assert(out@ + spec_gplist(pv, false, declaring) =~= spec_gplist(pv, false, declaring));
    }
    while i < n
        invariant
            i <= n,
            n == def.params@.len(),
            pv == def@.params,
            pv.len() == n,
            spec_gplist(pv, false, declaring) == out@ + spec_gplist(
                pv.skip(i as int),
                started,
                declaring,
            ),
        decreases n - i,
    {
        let ghost rest = pv.skip(i as int);
        proof {
            assert(rest[0] == pv[i as int]);
            assert(rest.drop_first() =~= pv.skip(i as int + 1));
            assert(def@.params[i as int] == def.params@[i as int]@);
        }
        let p = &def.params[i];
        if p.ty.generic_ref {
            if !started {
                out.append("<");
            } else {
                out.append(", ");
            }
            out.append(p.ty.name.as_str());
            if declaring {
                out.append(": crate::RemoteCall");
            }
            started = true;
        }
        proof {
            assert(spec_gplist(pv, false, declaring) =~= out@ + spec_gplist(
                pv.skip(i as int + 1),
                started,
                declaring,
            ));
        }
        i = i + 1;
    }
    if started {
        out.append(">");
    }
    proof {
        assert(pv.skip(n as int) =~= Seq::<ParameterV>::empty());
        assert(out@ =~= spec_gplist(pv, false, declaring));
    }
    out
}

/// One field of the builder struct: every field is optional until set.
pub open spec fn spec_builder_field(p: ParameterV, ind: Seq<char>) -> Seq<char> {
    ind + "    "@ + parameters::spec_attr_name(p) + ": Option<"@ + types::spec_get_path(
        p.ty,
        parameters::spec_optional_generic_arg(p),
    ) + ">,\n"@
}

pub open spec fn spec_builder_fields(ps: Seq<ParameterV>, ind: Seq<char>) -> Seq<char>
    decreases ps.len(),
{
    if ps.len() == 0 {
        Seq::<char>::empty()
    } else {
        spec_builder_fields(ps.drop_last(), ind) + spec_builder_field(ps.last(), ind)
    }
}

/// The builder `struct` generated for one function definition.
pub open spec fn spec_builder_struct(d: DefinitionV, ind: Seq<char>) -> Seq<char> {
    spec_rusty_doc(ind, d.description) + "\n"@ + ind + "#[derive(Default, Serialize)]\n"@ + ind
        + "pub struct "@ + spec_rusty_type_name(d.name) + spec_gplist(d.params, false, true)
        + " {\n"@ + spec_builder_fields(d.params, ind) + ind + "}\n"@
}

fn emit_builder_field(out: &mut String, p: &crate::tl::parameter::Parameter, ind: &str)
    ensures
        final(out)@ == old(out)@ + spec_builder_field(p@, ind@),
{
    out.append(ind);
    out.append("    ");
    let an = parameters::attr_name(p);
    out.append(an.as_str());
    out.append(": Option<");
    let qn = parameters::qual_name(p);
    out.append(qn.as_str());
    out.append(">,\n");
    proof {
        assert(out@ =~= old(out)@ + spec_builder_field(p@, ind@));
    }
}

/// Writes the builder `struct` corresponding to the definition.
#[verifier::rlimit(100)]
pub fn write_struct(file: &mut String, indent: &str, def: &Definition, _metadata: &Metadata)
    ensures
        final(file)@ == old(file)@ + spec_builder_struct(def@, indent@),
{
    let mut out = String::new();
    let doc = definitions::description(def, indent);
    out.append(doc.as_str());
    out.append("\n");
    out.append(indent);
    out.append("#[derive(Default, Serialize)]\n");
    out.append(indent);
    out.append("pub struct ");
    let tn = definitions::ty_name(def);
    out.append(tn.as_str());
    let gp = get_generic_param_list(def, true);
    out.append(gp.as_str());
    out.append(" {\n");
    let ghost base = out@;
    let ghost pv = def@.params;
    let n = def.params.len();
    let mut p: usize = 0;
    proof {
        assert(base + spec_builder_fields(pv.take(0), indent@) =~= base);
    }
    while p < n
        invariant
            p <= n,
            n == def.params@.len(),
            pv == def@.params,
            pv.len() == n,
            out@ == base + spec_builder_fields(pv.take(p as int), indent@),
        decreases n - p,
    {
        proof {
            assert(pv.take(p as int + 1).drop_last() =~= pv.take(p as int));
            assert(pv.take(p as int + 1).last() == pv[p as int]);
            assert(def@.params[p as int] == def.params@[p as int]@);
        }
        emit_builder_field(&mut out, &def.params[p], indent);
        p = p + 1;
    }
    proof {
        assert(pv.take(n as int) =~= pv);
    }
    out.append(indent);
    out.append("}\n");
    proof {
        assert(out@ =~= spec_builder_struct(def@, indent@));
    }
    file.append(out.as_str());
}

/// One setter of the builder: it stores the value and hands the builder
/// back.
pub open spec fn spec_setter(p: ParameterV, ind: Seq<char>, tn: Seq<char>) -> Seq<char> {
    spec_rusty_doc(ind + "    "@, p.description) + "\n"@ + ind + "    pub fn "@
        + parameters::spec_attr_name(p) + "(mut self, "@ + parameters::spec_attr_name(p) + ": "@
        + types::spec_get_path(p.ty, parameters::spec_optional_generic_arg(p)) + ") -> "@ + tn
        + " {\n"@ + ind + "        self."@ + parameters::spec_attr_name(p) + " = Some("@
        + parameters::spec_attr_name(p) + ");\n"@ + ind + "        self\n"@ + ind + "    }\n"@
}

pub open spec fn spec_setters(ps: Seq<ParameterV>, ind: Seq<char>, tn: Seq<char>) -> Seq<char>
    decreases ps.len(),
{
    if ps.len() == 0 {
        Seq::<char>::empty()
    } else {
        spec_setters(ps.drop_last(), ind, tn) + spec_setter(ps.last(), ind, tn)
    }
}

/// The `impl` generated for one builder: a constructor, one setter per
/// field, and the `send` method that dispatches the request.
pub open spec fn spec_builder_impl(d: DefinitionV, ind: Seq<char>) -> Seq<char> {
    let tn = spec_rusty_type_name(d.name);
    ind + "impl "@ + tn + " {\n"@ + ind + "    pub fn new() -> "@ + tn + " {\n"@ + ind
        + "        Default::default()\n"@ + ind + "    }\n"@ + spec_setters(d.params, ind, tn)
        + ind + "    pub async fn send(self, client_id: i32) -> Result<"@ + types::spec_get_path(
        d.ty,
        false,
    ) + ", crate::types::Error> {\n"@ + ind
        + "        let mut request = serde_json::to_value(self).unwrap();\n"@ + ind
        + "        request[\"@type\"] = serde_json::to_value(\""@ + d.name + "\").unwrap();\n"@
        + ind + "        let response = send_request(client_id, request).await;\n"@ + ind
        + "        if response[\"@type\"] == \"error\" {\n"@ + ind
        + "            return Err(serde_json::from_value(response).unwrap())\n"@ + ind
        + "        }\n"@ + ind + "        Ok(serde_json::from_value(response).unwrap())\n"@ + ind
        + "    }\n"@ + ind + "}\n"@
}

fn emit_setter(out: &mut String, p: &crate::tl::parameter::Parameter, ind: &str, tn: &String)
    ensures
        final(out)@ == old(out)@ + spec_setter(p@, ind@, tn@),
{
    let mut ind4 = String::new();
    ind4.append(ind);
    ind4.append("    ");
    let doc = parameters::description(p, ind4.as_str());
    out.append(doc.as_str());
    out.append("\n");
    out.append(ind);
    out.append("    pub fn ");
    let an = parameters::attr_name(p);
    out.append(an.as_str());
    out.append("(mut self, ");
    out.append(an.as_str());
    out.append(": ");
    let qn = parameters::qual_name(p);
    out.append(qn.as_str());
    out.append(") -> ");
    out.append(tn.as_str());
    out.append(" {\n");
    out.append(ind);
    out.append("        self.");
    out.append(an.as_str());
    out.append(" = Some(");
    out.append(an.as_str());
    out.append(");\n");
    out.append(ind);
    out.append("        self\n");
    out.append(ind);
    out.append("    }\n");
    proof {
        assert(out@ =~= old(out)@ + spec_setter(p@, ind@, tn@));
    }
}

/// Writes the `impl` corresponding to the definition.
#[verifier::rlimit(100)]
pub fn write_impl(file: &mut String, indent: &str, def: &Definition, _metadata: &Metadata)
    ensures
        final(file)@ == old(file)@ + spec_builder_impl(def@, indent@),
{
    let mut out = String::new();
    let tn = definitions::ty_name(def);
    out.append(indent);
    out.append("impl ");
    out.append(tn.as_str());
    out.append(" {\n");
    out.append(indent);
    out.append("    pub fn new() -> ");
    out.append(tn.as_str());
    out.append(" {\n");
    out.append(indent);
    out.append("        Default::default()\n");
    out.append(indent);
    out.append("    }\n");
    let ghost base = out@;
    let ghost pv = def@.params;
    let n = def.params.len();
    let mut p: usize = 0;
    proof {
        assert(base + spec_setters(pv.take(0), indent@, tn@) =~= base);
    }
    while p < n
        invariant
            p <= n,
            n == def.params@.len(),
            pv == def@.params,
            pv.len() == n,
            tn@ == spec_rusty_type_name(def@.name),
            out@ == base + spec_setters(pv.take(p as int), indent@, tn@),
        decreases n - p,
    {
        proof {
            assert(pv.take(p as int + 1).drop_last() =~= pv.take(p as int));
            assert(pv.take(p as int + 1).last() == pv[p as int]);
            assert(def@.params[p as int] == def.params@[p as int]@);
        }
        emit_setter(&mut out, &def.params[p], indent, &tn);
        p = p + 1;
    }
    proof {
        assert(pv.take(n as int) =~= pv);
    }
    out.append(indent);
    out.append("    pub async fn send(self, client_id: i32) -> Result<");
    let rq = types::qual_name(&def.ty);
    out.append(rq.as_str());
    out.append(", crate::types::Error> {\n");
    out.append(indent);
    out.append("        let mut request = serde_json::to_value(self).unwrap();\n");
    out.append(indent);
    out.append("        request[\"@type\"] = serde_json::to_value(\"");
    out.append(def.name.as_str());
    out.append("\").unwrap();\n");
    out.append(indent);
    out.append("        let response = send_request(client_id, request).await;\n");
    out.append(indent);
    out.append("        if response[\"@type\"] == \"error\" {\n");
    out.append(indent);
    out.append("            return Err(serde_json::from_value(response).unwrap())\n");
    out.append(indent);
    out.append("        }\n");
    out.append(indent);
    out.append("        Ok(serde_json::from_value(response).unwrap())\n");
    out.append(indent);
    out.append("    }\n");
    out.append(indent);
    out.append("}\n");
    proof {
        assert(out@ =~= spec_builder_impl(def@, indent@));
    }
    file.append(out.as_str());
}

/// The builder and its `impl` for one definition.
pub open spec fn spec_builder_def(d: DefinitionV, ind: Seq<char>) -> Seq<char> {
    spec_builder_struct(d, ind) + spec_builder_impl(d, ind)
}

/// Writes an entire definition as Rust code (`struct` and `impl`).
pub fn write_definition(file: &mut String, indent: &str, def: &Definition, metadata: &Metadata)
    ensures
        final(file)@ == old(file)@ + spec_builder_def(def@, indent@),
{
    write_struct(file, indent, def, metadata);
    write_impl(file, indent, def, metadata);
}

/// The builders of one namespace group.
pub open spec fn spec_builder_group(all: Seq<DefinitionV>, idxs: Seq<int>, ind: Seq<char>) -> Seq<
    char,
>
    decreases idxs.len(),
{
    if idxs.len() == 0 {
        Seq::<char>::empty()
    } else {
        spec_builder_group(all, idxs.drop_last(), ind) + (if 0 <= idxs.last() < all.len() {
            spec_builder_def(all[idxs.last()], ind)
        } else {
            Seq::<char>::empty()
        })
    }
}

/// The groups of the module: the unnamed namespace inline, each named
/// namespace in a nested module.
pub open spec fn spec_builder_groups(all: Seq<DefinitionV>, keys: Seq<Seq<char>>) -> Seq<char>
    decreases keys.len(),
{
    if keys.len() == 0 {
        Seq::<char>::empty()
    } else {
        let k = keys.last();
        spec_builder_groups(all, keys.drop_last()) + (if k.len() == 0 {
            spec_builder_group(all, spec_group_idxs(all, Category::Functions, k), "    "@)
        } else {
            "    pub mod "@ + k + " {\n"@ + spec_builder_group(
                all,
                spec_group_idxs(all, Category::Functions, k),
                "        "@,
            ) + "    }\n"@
        })
    }
}

/// The whole module dedicated to request builders.
pub open spec fn spec_builders_mod(all: Seq<DefinitionV>) -> Seq<char> {
    "pub mod functions {\n"@ + "    use serde::Serialize;\n"@ + "    use crate::send_request;\n"@
        + spec_builder_groups(all, spec_group_keys(all, Category::Functions)) + "}\n"@
}

/// Writes the entire module dedicated to request builders, one namespace
/// group at a time.
#[verifier::rlimit(100)]
pub fn write_functions_mod(file: &mut String, definitions: &Vec<Definition>, metadata: &Metadata)
    ensures
        final(file)@ == old(file)@ + spec_builders_mod(defs_view(definitions@)),
{
    let ghost dv = defs_view(definitions@);
    let mut out = String::new();
    out.append("pub mod functions {\n");
    out.append("    use serde::Serialize;\n");
    out.append("    use crate::send_request;\n");
    let ghost hdr = out@;
    let grouped = grouper::group_by_ns(definitions, Category::Functions);
    let ghost keys = spec_group_keys(dv, Category::Functions);
    let gn = grouped.len();
    let mut g: usize = 0;
    proof {
        assert(keys_of(grouped@).len() == keys.len());
        assert(hdr + spec_builder_groups(dv, keys.take(0)) =~= hdr);
    }
    while g < gn
        invariant
            g <= gn,
            gn == grouped@.len(),
            dv == defs_view(definitions@),
            definitions@.len() == dv.len(),
            keys == spec_group_keys(dv, Category::Functions),
            keys_of(grouped@) == keys,
            forall|k: int|
                0 <= k < grouped@.len() ==> usize_seq(#[trigger] grouped@[k].1@)
                    == spec_group_idxs(dv, Category::Functions, grouped@[k].0@),
            out@ == hdr + spec_builder_groups(dv, keys.take(g as int)),
        decreases gn - g,
    {
        proof {
            assert(keys.take(g as int + 1).drop_last() =~= keys.take(g as int));
            assert(keys.take(g as int + 1).last() == keys[g as int]);
            assert(keys[g as int] == keys_of(grouped@)[g as int]);
            assert(keys[g as int] == grouped@[g as int].0@);
        }
        let key_empty = grouped[g].0.as_str().is_empty();
        proof {
            crate::grouper::lemma_group_idxs_props(dv, Category::Functions, grouped@[g as int].0@);
            let sg = spec_group_idxs(dv, Category::Functions, grouped@[g as int].0@);
            assert(usize_seq(grouped@[g as int].1@) == sg);
            assert forall|q: int|
                0 <= q < grouped@[g as int].1@.len() implies (#[trigger] grouped@[g as int].1@[q]
                as int) < dv.len() by {
                assert(usize_seq(grouped@[g as int].1@)[q] == grouped@[g as int].1@[q] as int);
                assert(sg[q] < dv.len());
            }
        }
        if key_empty {
            emit_group(&mut out, definitions, &grouped[g].1, "    ", metadata, Ghost(dv));
        } else {
            out.append("    pub mod ");
            out.append(grouped[g].0.as_str());
            out.append(" {\n");
            emit_group(&mut out, definitions, &grouped[g].1, "        ", metadata, Ghost(dv));
            out.append("    }\n");
        }
        proof {
            assert(out@ =~= hdr + spec_builder_groups(dv, keys.take(g as int + 1)));
        }
        g = g + 1;
    }
    out.append("}\n");
    proof {
        assert(keys.take(gn as int) =~= keys);
        assert(out@ =~= spec_builders_mod(dv));
    }
    file.append(out.as_str());
}

/// Writes the builders of one namespace group.
#[verifier::rlimit(100)]
fn emit_group(
    out: &mut String,
    definitions: &Vec<Definition>,
    idxs: &Vec<usize>,
    indent: &str,
    metadata: &Metadata,
    Ghost(dv): Ghost<Seq<DefinitionV>>,
)
    requires
        dv == defs_view(definitions@),
        forall|q: int| 0 <= q < idxs@.len() ==> (#[trigger] idxs@[q] as int) < dv.len(),
    ensures
        final(out)@ == old(out)@ + spec_builder_group(dv, usize_seq(idxs@), indent@),
{
    let ghost sidx = usize_seq(idxs@);
    let n = idxs.len();
    let mut k: usize = 0;
    proof {
        assert(old(out)@ + spec_builder_group(dv, sidx.take(0), indent@) =~= old(out)@);
    }
    while k < n
        invariant
            k <= n,
            n == idxs@.len(),
            dv == defs_view(definitions@),
            definitions@.len() == dv.len(),
            sidx == usize_seq(idxs@),
            forall|q: int| 0 <= q < idxs@.len() ==> (#[trigger] idxs@[q] as int) < dv.len(),
            out@ == old(out)@ + spec_builder_group(dv, sidx.take(k as int), indent@),
        decreases n - k,
    {
        proof {
            assert(sidx.take(k as int + 1).drop_last() =~= sidx.take(k as int));
            assert(sidx.take(k as int + 1).last() == sidx[k as int]);
            assert(sidx[k as int] == idxs@[k as int] as int);
        }
        let di = idxs[k];
        let d = &definitions[di];
        proof {
            assert(dv[di as int] == definitions@[di as int]@);
        }
        write_struct(out, indent, d, metadata);
        write_impl(out, indent, d, metadata);
        proof {
            assert(out@ =~= old(out)@ + spec_builder_group(dv, sidx.take(k as int + 1), indent@));
        }
        k = k + 1;
    }
    proof {
        assert(sidx.take(n as int) =~= sidx);
    }
}

} // verus!
