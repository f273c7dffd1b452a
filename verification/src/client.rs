//! Generating the client module: one method per remote procedure.

use vstd::prelude::*;
use vstd::string::StringExecFns;

use crate::grouper;
use crate::grouper::keys_of;
use crate::grouper::spec_group_idxs;
use crate::grouper::spec_group_keys;
use crate::metadata::defs_view;
use crate::metadata::usize_seq;
use crate::metadata::Metadata;
use crate::rustifier::definitions;
use crate::rustifier::definitions::spec_function_name;
use crate::rustifier::parameters;
use crate::rustifier::types;
use crate::spec_ignore_type;
use crate::tl::category::Category;
use crate::tl::definition::Definition;
use crate::tl::definition::DefinitionV;
use crate::tl::parameter::Parameter;
use crate::tl::parameter::ParameterV;

verus! {

/// One parameter of a client method.
pub open spec fn spec_method_param(p: ParameterV) -> Seq<char> {
    ", "@ + parameters::spec_attr_name(p) + ": "@ + types::spec_get_path(
        p.ty,
        parameters::spec_optional_generic_arg(p),
    )
}

pub open spec fn spec_method_params(ps: Seq<ParameterV>) -> Seq<char>
    decreases ps.len(),
{
    if ps.len() == 0 {
        Seq::<char>::empty()
    } else {
        spec_method_params(ps.drop_last()) + spec_method_param(ps.last())
    }
}

/// One field of the composed request.
pub open spec fn spec_method_field(p: ParameterV) -> Seq<char> {
    "                \""@ + parameters::spec_attr_name(p) + "\": "@ + parameters::spec_attr_name(p)
        + ",\n"@
}

pub open spec fn spec_method_fields(ps: Seq<ParameterV>) -> Seq<char>
    decreases ps.len(),
{
    if ps.len() == 0 {
        Seq::<char>::empty()
    } else {
        spec_method_fields(ps.drop_last()) + spec_method_field(ps.last())
    }
}

/// The client method generated for one function definition.
pub open spec fn spec_write_method(d: DefinitionV) -> Seq<char> {
    "        pub async fn "@ + spec_function_name(d.name) + "(&self"@ + spec_method_params(
        d.params,
    ) + ") -> "@ + types::spec_get_path(d.ty, false) + " {\n"@
        + "            let request = json!({\n"@ + "                \"@type\": \""@ + d.name
        + "\",\n"@ + spec_method_fields(d.params) + "            });\n"@
        + "            let response = self.send_request(request).await;\n"@
        + "            serde_json::from_value(response).unwrap()\n"@ + "        }\n"@
}

fn emit_method_param(out: &mut String, p: &Parameter)
    ensures
        final(out)@ == old(out)@ + spec_method_param(p@),
{
    out.append(", ");
    let an = parameters::attr_name(p);
    out.append(an.as_str());
    out.append(": ");
    let qn = parameters::qual_name(p);
    out.append(qn.as_str());
    proof {
        assert(out@ =~= old(out)@ + spec_method_param(p@));
    }
}

fn emit_method_field(out: &mut String, p: &Parameter)
    ensures
        final(out)@ == old(out)@ + spec_method_field(p@),
{
    out.append("                \"");
    let an = parameters::attr_name(p);
    out.append(an.as_str());
    out.append("\": ");
    out.append(an.as_str());
    out.append(",\n");
    proof {
        assert(out@ =~= old(out)@ + spec_method_field(p@));
    }
}

/// Writes the client method corresponding to the definition.
#[verifier::rlimit(100)]
pub fn write_method(file: &mut String, def: &Definition, _metadata: &Metadata)
    ensures
        final(file)@ == old(file)@ + spec_write_method(def@),
{
    let mut out = String::new();
    out.append("        pub async fn ");
    let fname = definitions::function_name(def);
    out.append(fname.as_str());
    out.append("(&self");
    let ghost pv = def@.params;
    let n = def.params.len();
    let ghost base1 = out@;
    let mut p: usize = 0;
    proof {
        assert(base1 + spec_method_params(pv.take(0)) =~= base1);
    }
    while p < n
        invariant
            p <= n,
            n == def.params@.len(),
            pv == def@.params,
            pv.len() == n,
            out@ == base1 + spec_method_params(pv.take(p as int)),
        decreases n - p,
    {
        proof {
            assert(pv.take(p as int + 1).drop_last() =~= pv.take(p as int));
            assert(pv.take(p as int + 1).last() == pv[p as int]);
            assert(def@.params[p as int] == def.params@[p as int]@);
        }
        emit_method_param(&mut out, &def.params[p]);
        p = p + 1;
    }
    proof {
        assert(pv.take(n as int) =~= pv);
    }
    out.append(") -> ");
    let rq = types::qual_name(&def.ty);
    out.append(rq.as_str());
    out.append(" {\n");
    out.append("            let request = json!({\n");
    out.append("                \"@type\": \"");
    out.append(def.name.as_str());
    out.append("\",\n");
    let ghost base2 = out@;
    let mut p2: usize = 0;
    proof {
        assert(base2 + spec_method_fields(pv.take(0)) =~= base2);
    }
    while p2 < n
        invariant
            p2 <= n,
            n == def.params@.len(),
            pv == def@.params,
            pv.len() == n,
            out@ == base2 + spec_method_fields(pv.take(p2 as int)),
        decreases n - p2,
    {
        proof {
            assert(pv.take(p2 as int + 1).drop_last() =~= pv.take(p2 as int));
            assert(pv.take(p2 as int + 1).last() == pv[p2 as int]);
            assert(def@.params[p2 as int] == def.params@[p2 as int]@);
        }
        emit_method_field(&mut out, &def.params[p2]);
        p2 = p2 + 1;
    }
    proof {
        assert(pv.take(n as int) =~= pv);
    }
    out.append("            });\n");
    out.append("            let response = self.send_request(request).await;\n");
    out.append("            serde_json::from_value(response).unwrap()\n");
    out.append("        }\n");
    proof {
        assert(out@ =~= spec_write_method(def@));
    }
    file.append(out.as_str());
}

/// The methods of one namespace group, skipping special result types.
pub open spec fn spec_client_group(all: Seq<DefinitionV>, idxs: Seq<int>) -> Seq<char>
    decreases idxs.len(),
{
    if idxs.len() == 0 {
        Seq::<char>::empty()
    } else {
        spec_client_group(all, idxs.drop_last()) + (if 0 <= idxs.last() < all.len()
            && !spec_ignore_type(all[idxs.last()].ty) {
            spec_write_method(all[idxs.last()])
        } else {
            Seq::<char>::empty()
        })
    }
}

/// The method groups, flattened in key order.
pub open spec fn spec_client_groups(all: Seq<DefinitionV>, keys: Seq<Seq<char>>) -> Seq<char>
    decreases keys.len(),
{
    if keys.len() == 0 {
        Seq::<char>::empty()
    } else {
        spec_client_groups(all, keys.drop_last()) + spec_client_group(
            all,
            spec_group_idxs(all, Category::Functions, keys.last()),
        )
    }
}

/// The opening of the client module: the client type and its dispatcher.
pub open spec fn spec_client_header() -> Seq<char> {
    "pub mod client {\n    use crate::{tdjson, OBSERVER};\n    use serde_json::{json, Value};\n    use uuid::Uuid;\n    pub struct Client {\n        client_id: i32,\n    }\n    impl Client {\n        pub fn new() -> Self {\n            Client {\n                client_id: tdjson::create_client(),\n            }\n        }\n        async fn send_request(&self, mut request: Value) -> Value {\n            let extra = Uuid::new_v4().to_string();\n            request[\"@extra\"] = serde_json::to_value(extra.clone()).unwrap();\n\n            let receiver = OBSERVER.subscribe(extra);\n            tdjson::send(self.client_id, request.to_string());\n\n            receiver.await.unwrap()\n        }"@
}

/// The whole module dedicated to the client.
pub open spec fn spec_client_mod(all: Seq<DefinitionV>) -> Seq<char> {
    spec_client_header() + spec_client_groups(all, spec_group_keys(all, Category::Functions))
        + "    }\n"@ + "}\n"@
}

/// Writes the entire module dedicated to the client.
#[verifier::rlimit(100)]
pub fn write_client_mod(file: &mut String, definitions: &Vec<Definition>, metadata: &Metadata)
    ensures
        final(file)@ == old(file)@ + spec_client_mod(defs_view(definitions@)),
{
    let ghost dv = defs_view(definitions@);
    let mut out = String::new();
    out.append(
        "pub mod client {\n    use crate::{tdjson, OBSERVER};\n    use serde_json::{json, Value};\n    use uuid::Uuid;\n    pub struct Client {\n        client_id: i32,\n    }\n    impl Client {\n        pub fn new() -> Self {\n            Client {\n                client_id: tdjson::create_client(),\n            }\n        }\n        async fn send_request(&self, mut request: Value) -> Value {\n            let extra = Uuid::new_v4().to_string();\n            request[\"@extra\"] = serde_json::to_value(extra.clone()).unwrap();\n\n            let receiver = OBSERVER.subscribe(extra);\n            tdjson::send(self.client_id, request.to_string());\n\n            receiver.await.unwrap()\n        }",
    );
    let ghost hdr = out@;
    let grouped = grouper::group_by_ns(definitions, Category::Functions);
    let ghost keys = spec_group_keys(dv, Category::Functions);
    let gn = grouped.len();
    let mut g: usize = 0;
    proof {
        assert(keys_of(grouped@).len() == keys.len());
        assert(hdr + spec_client_groups(dv, keys.take(0)) =~= hdr);
    }
    while g < gn
        invariant
            g <= gn,
            gn == grouped@.len(),
            dv == defs_view(definitions@),
            definitions@.len() == dv.len(),
            keys == spec_group_keys(dv, Category::Functions),
            keys_of(grouped@) == keys,
            forall|k: int|
                0 <= k < grouped@.len() ==> usize_seq(#[trigger] grouped@[k].1@)
                    == spec_group_idxs(dv, Category::Functions, grouped@[k].0@),
            out@ == hdr + spec_client_groups(dv, keys.take(g as int)),
        decreases gn - g,
    {
        proof {
            assert(keys.take(g as int + 1).drop_last() =~= keys.take(g as int));
            assert(keys.take(g as int + 1).last() == keys[g as int]);
            assert(keys[g as int] == keys_of(grouped@)[g as int]);
            assert(keys[g as int] == grouped@[g as int].0@);
            crate::grouper::lemma_group_idxs_props(dv, Category::Functions, grouped@[g as int].0@);
            let sg = spec_group_idxs(dv, Category::Functions, grouped@[g as int].0@);
            assert(usize_seq(grouped@[g as int].1@) == sg);
            assert forall|q: int|
                0 <= q < grouped@[g as int].1@.len() implies (#[trigger] grouped@[g as int].1@[q]
                as int) < dv.len() by {
                assert(usize_seq(grouped@[g as int].1@)[q] == grouped@[g as int].1@[q] as int);
                assert(sg[q] < dv.len());
            }
        }
        emit_client_group(&mut out, definitions, &grouped[g].1, metadata, Ghost(dv));
        proof {
            assert(out@ =~= hdr + spec_client_groups(dv, keys.take(g as int + 1)));
        }
        g = g + 1;
    }
    out.append("    }\n");
    out.append("}\n");
    proof {
        assert(keys.take(gn as int) =~= keys);
        assert(out@ =~= spec_client_mod(dv));
    }
    file.append(out.as_str());
}

/// Writes the methods of one namespace group.
#[verifier::rlimit(100)]
fn emit_client_group(
    out: &mut String,
    definitions: &Vec<Definition>,
    idxs: &Vec<usize>,
    metadata: &Metadata,
    Ghost(dv): Ghost<Seq<DefinitionV>>,
)
    requires
        dv == defs_view(definitions@),
        forall|q: int| 0 <= q < idxs@.len() ==> (#[trigger] idxs@[q] as int) < dv.len(),
    ensures
        final(out)@ == old(out)@ + spec_client_group(dv, usize_seq(idxs@)),
{
    let ghost sidx = usize_seq(idxs@);
    let n = idxs.len();
    let mut k: usize = 0;
    proof {
        assert(old(out)@ + spec_client_group(dv, sidx.take(0)) =~= old(out)@);
    }
    while k < n
        invariant
            k <= n,
            n == idxs@.len(),
            dv == defs_view(definitions@),
            definitions@.len() == dv.len(),
            sidx == usize_seq(idxs@),
            forall|q: int| 0 <= q < idxs@.len() ==> (#[trigger] idxs@[q] as int) < dv.len(),
            out@ == old(out)@ + spec_client_group(dv, sidx.take(k as int)),
        decreases n - k,
    {
        proof {
            assert(sidx.take(k as int + 1).drop_last() =~= sidx.take(k as int));
            assert(sidx.take(k as int + 1).last() == sidx[k as int]);
            assert(sidx[k as int] == idxs@[k as int] as int);
        }
        let di = idxs[k];
        let d = &definitions[di];
        proof {
            assert(dv[di as int] == definitions@[di as int]@);
        }
        if !crate::ignore_type(&d.ty) {
            write_method(out, d, metadata);
        }
        proof {
            assert(out@ =~= old(out)@ + spec_client_group(dv, sidx.take(k as int + 1)));
        }
        k = k + 1;
    }
    proof {
        assert(sidx.take(n as int) =~= sidx);
    }
}

} // verus!
