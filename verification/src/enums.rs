//! Generating `enum` declarations from the constructors of each type.

use vstd::prelude::*;
use vstd::string::StringExecFns;

use crate::metadata::defs_view;
use crate::metadata::lemma_defs_with_type_props;
use crate::metadata::spec_defs_with_type;
use crate::metadata::spec_has_constructor;
use crate::metadata::spec_recursive_name;
use crate::metadata::usize_seq;
use crate::metadata::Metadata;
use crate::rustifier::definitions;
use crate::rustifier::spec_rusty_doc;
use crate::rustifier::spec_rusty_type_name;
use crate::spec_ignore_type;
use crate::text;
use crate::tl::category::Category;
use crate::tl::definition::Definition;
use crate::tl::definition::DefinitionV;
use crate::tl::ty::Type;
use crate::tl::ty::TypeV;

verus! {

/// One `enum` variant with the given boxing decision.
pub open spec fn spec_variant_r(d: DefinitionV, rec: bool, gen_bots_only_api: bool) -> Seq<char> {
    if text::spec_contains(d.description, "; for bots only"@) && !gen_bots_only_api {
        Seq::<char>::empty()
    } else {
        spec_rusty_doc("        "@, d.description) + "\n"@
            + "        #[serde(rename(serialize = \""@ + d.name + "\", deserialize = \""@ + d.name
            + "\"))]\n"@ + "        "@ + definitions::spec_variant_name(d) + (if d.params.len()
            == 0 {
            ",\n"@
        } else {
            "("@ + (if rec {
                "Box<"@
            } else {
                Seq::<char>::empty()
            }) + "crate::types::"@ + spec_rusty_type_name(d.name) + (if rec {
                ">"@
            } else {
                Seq::<char>::empty()
            }) + "),\n"@
        })
    }
}

/// One `enum` variant: named after the definition, carrying its struct as
/// payload (boxed when the definition recurses), or bare when it has no
/// fields.
pub open spec fn spec_variant(all: Seq<DefinitionV>, d: DefinitionV, gen_bots_only_api: bool) -> Seq<
    char,
> {
    spec_variant_r(d, spec_recursive_name(all, d.name), gen_bots_only_api)
}

/// Appends one variant.
fn emit_variant(out: &mut String, d: &Definition, rec: bool, gen_bots_only_api: bool)
    ensures
        final(out)@ == old(out)@ + spec_variant_r(d@, rec, gen_bots_only_api),
{
    if definitions::is_for_bots_only(d) && !gen_bots_only_api {
        return ;
    }
    let doc = definitions::description(d, "        ");
    out.append(doc.as_str());
    out.append("\n");
    out.append("        #[serde(rename(serialize = \"");
    out.append(d.name.as_str());
    out.append("\", deserialize = \"");
    out.append(d.name.as_str());
    out.append("\"))]\n");
    out.append("        ");
    let vn = definitions::variant_name(d);
    out.append(vn.as_str());
    if d.params.len() == 0 {
        out.append(",\n");
    } else {
        out.append("(");
        if rec {
            out.append("Box<");
        }
        let qn = definitions::qual_name(d);
        out.append(qn.as_str());
        if rec {
            out.append(">");
        }
        out.append("),\n");
    }
    proof {
        assert(out@ =~= old(out)@ + spec_variant_r(d@, rec, gen_bots_only_api));
    }
}

/// The variants named by a list of definition indices.
pub open spec fn spec_variants(
    all: Seq<DefinitionV>,
    idxs: Seq<int>,
    gen_bots_only_api: bool,
) -> Seq<char>
    decreases idxs.len(),
{
    if idxs.len() == 0 {
        Seq::<char>::empty()
    } else {
        spec_variants(all, idxs.drop_last(), gen_bots_only_api) + (if 0 <= idxs.last()
            < all.len() {
            spec_variant(all, all[idxs.last()], gen_bots_only_api)
        } else {
            Seq::<char>::empty()
        })
    }
}

/// The `enum` generated for one type: one variant per constructor.
pub open spec fn spec_write_enum(all: Seq<DefinitionV>, t: TypeV, gen_bots_only_api: bool) -> Seq<
    char,
> {
    "    #[derive(Clone, Debug, PartialEq, Deserialize, Serialize)]\n"@
        + "    #[serde(tag = \"@type\")]\n"@ + "    pub enum "@ + spec_rusty_type_name(t.name)
        + " {\n"@ + spec_variants(all, spec_defs_with_type(all, t.name), gen_bots_only_api)
        + "    }\n"@
}

/// The `impl Default` generated for one type: its first constructor, in
/// encounter order, is the default arm.
pub open spec fn spec_write_impl_default(all: Seq<DefinitionV>, t: TypeV) -> Seq<char> {
    let idxs = spec_defs_with_type(all, t.name);
    "    impl Default for "@ + spec_rusty_type_name(t.name) + " {\n"@ + (if idxs.len() > 0 && 0
        <= idxs[0] < all.len() {
        let d0 = all[idxs[0]];
        "        fn default() -> Self { "@ + spec_rusty_type_name(t.name) + "::"@
            + definitions::spec_variant_name(d0) + (if d0.params.len() > 0 {
            "(Default::default())"@
        } else {
            Seq::<char>::empty()
        }) + " }\n"@
    } else {
        Seq::<char>::empty()
    }) + "    }\n"@
}

/// Writes the enumeration listing the constructors of one type.
#[verifier::rlimit(80)]
pub fn write_enum(
    file: &mut String,
    ty: &Type,
    definitions: &Vec<Definition>,
    metadata: &Metadata,
    gen_bots_only_api: bool,
)
    requires
        metadata.wf(),
        metadata.defs() == defs_view(definitions@),
        spec_has_constructor(defs_view(definitions@), ty@.name),
    ensures
        final(file)@ == old(file)@ + spec_write_enum(defs_view(definitions@), ty@, gen_bots_only_api),
{
    let ghost dv = defs_view(definitions@);
    let ghost sidx = spec_defs_with_type(dv, ty@.name);
    let mut out = String::new();
    out.append("    #[derive(Clone, Debug, PartialEq, Deserialize, Serialize)]\n");
    out.append("    #[serde(tag = \"@type\")]\n");
    out.append("    pub enum ");
    let tn = crate::rustifier::types::ty_name(ty);
    out.append(tn.as_str());
    out.append(" {\n");
    let ghost hdr = out@;
    let idxs = metadata.defs_with_type(ty);
    proof {
        lemma_defs_with_type_props(dv, ty@.name);
        assert(usize_seq(idxs@) == sidx);
        assert(hdr + spec_variants(dv, sidx.take(0), gen_bots_only_api) =~= hdr);
    }
    let n = idxs.len();
    let mut k: usize = 0;
    while k < n
        invariant
            k <= n,
            n == idxs@.len(),
            dv == defs_view(definitions@),
            definitions@.len() == dv.len(),
            metadata.wf(),
            metadata.defs() == dv,
            usize_seq(idxs@) == sidx,
            sidx == spec_defs_with_type(dv, ty@.name),
            forall|q: int|
                0 <= q < sidx.len() ==> 0 <= #[trigger] sidx[q] < dv.len(),
            out@ == hdr + spec_variants(dv, sidx.take(k as int), gen_bots_only_api),
        decreases n - k,
    {
        proof {
            assert(sidx.take(k as int + 1).drop_last() =~= sidx.take(k as int));
            assert(sidx.take(k as int + 1).last() == sidx[k as int]);
            assert(sidx[k as int] == idxs@[k as int] as int);
        }
        let di = idxs[k];
        let d = &definitions[di];
        proof {
            assert(dv[di as int] == definitions@[di as int]@);
        }
        let rec = metadata.is_recursive_def(d);
        emit_variant(&mut out, d, rec, gen_bots_only_api);
        proof {
            assert(out@ =~= hdr + spec_variants(dv, sidx.take(k as int + 1), gen_bots_only_api));
        }
        k = k + 1;
    }
    out.append("    }\n");
    proof {
        assert(sidx.take(n as int) =~= sidx);
        assert(out@ =~= spec_write_enum(dv, ty@, gen_bots_only_api));
    }
    file.append(out.as_str());
}

/// Writes the `impl Default` selecting the type's first constructor.
pub fn write_impl_default(
    file: &mut String,
    ty: &Type,
    definitions: &Vec<Definition>,
    metadata: &Metadata,
)
    requires
        metadata.wf(),
        metadata.defs() == defs_view(definitions@),
        spec_has_constructor(defs_view(definitions@), ty@.name),
    ensures
        final(file)@ == old(file)@ + spec_write_impl_default(defs_view(definitions@), ty@),
{
    let ghost dv = defs_view(definitions@);
    let mut out = String::new();
    out.append("    impl Default for ");
    let tn = crate::rustifier::types::ty_name(ty);
    out.append(tn.as_str());
    out.append(" {\n");
    let idxs = metadata.defs_with_type(ty);
    proof {
        lemma_defs_with_type_props(dv, ty@.name);
        assert(usize_seq(idxs@) == spec_defs_with_type(dv, ty@.name));
        assert(usize_seq(idxs@).len() > 0);
        assert(usize_seq(idxs@)[0] == idxs@[0] as int);
        assert(spec_defs_with_type(dv, ty@.name)[0] == idxs@[0] as int);
        assert(0 <= idxs@[0] as int && (idxs@[0] as int) < dv.len());
        assert(dv.len() == definitions@.len());
    }
    let d0 = &definitions[idxs[0]];
    proof {
        assert(dv[idxs@[0] as int] == definitions@[idxs@[0] as int]@);
    }
    out.append("        fn default() -> Self { ");
    out.append(tn.as_str());
    out.append("::");
    let vn = definitions::variant_name(d0);
    out.append(vn.as_str());
    if d0.params.len() > 0 {
        out.append("(Default::default())");
    }
    out.append(" }\n");
    out.append("    }\n");
    proof {
        assert(out@ =~= spec_write_impl_default(dv, ty@));
    }
    file.append(out.as_str());
}

/// The `enum` and its `impl Default` for one type.
pub open spec fn spec_enum_def(all: Seq<DefinitionV>, t: TypeV, gen_bots_only_api: bool) -> Seq<
    char,
> {
    spec_write_enum(all, t, gen_bots_only_api) + spec_write_impl_default(all, t)
}

/// Writes an entire definition as Rust code (`enum` and `impl`).
pub fn write_definition(
    file: &mut String,
    ty: &Type,
    definitions: &Vec<Definition>,
    metadata: &Metadata,
    gen_bots_only_api: bool,
)
    requires
        metadata.wf(),
        metadata.defs() == defs_view(definitions@),
        spec_has_constructor(defs_view(definitions@), ty@.name),
    ensures
        final(file)@ == old(file)@ + spec_enum_def(defs_view(definitions@), ty@, gen_bots_only_api),
{
    write_enum(file, ty, definitions, metadata, gen_bots_only_api);
    write_impl_default(file, ty, definitions, metadata);
}

/// The enums of the remaining definitions: one per distinct result type,
/// consecutive duplicates collapsed.
pub open spec fn spec_enums_items(
    all: Seq<DefinitionV>,
    suffix: Seq<DefinitionV>,
    last: Option<TypeV>,
    gen_bots_only_api: bool,
) -> Seq<char>
    decreases suffix.len(),
{
    if suffix.len() == 0 {
        Seq::<char>::empty()
    } else {
        let d = suffix[0];
        if d.category == Category::Types && !spec_ignore_type(d.ty) {
            (if last != Some(d.ty) {
                spec_enum_def(all, d.ty, gen_bots_only_api)
            } else {
                Seq::<char>::empty()
            }) + spec_enums_items(all, suffix.drop_first(), Some(d.ty), gen_bots_only_api)
        } else {
            spec_enums_items(all, suffix.drop_first(), last, gen_bots_only_api)
        }
    }
}

/// The whole module dedicated to enums.
pub open spec fn spec_enums_mod(all: Seq<DefinitionV>, gen_bots_only_api: bool) -> Seq<char> {
    "pub mod enums {\n"@ + "    use serde::{Deserialize, Serialize};\n"@ + spec_enums_items(
        all,
        all,
        None,
        gen_bots_only_api,
    ) + "}\n"@
}

/// Writes the entire module dedicated to enums.
#[verifier::rlimit(80)]
pub fn write_enums_mod(
    file: &mut String,
    definitions: &Vec<Definition>,
    metadata: &Metadata,
    gen_bots_only_api: bool,
)
    requires
        metadata.wf(),
        metadata.defs() == defs_view(definitions@),
    ensures
        final(file)@ == old(file)@ + spec_enums_mod(defs_view(definitions@), gen_bots_only_api),
{
    let ghost dv = defs_view(definitions@);
    let mut out = String::new();
    out.append("pub mod enums {\n");
    out.append("    use serde::{Deserialize, Serialize};\n");
    let ghost hdr = out@;
    let n = definitions.len();
    let mut j: usize = 0;
    let mut last_idx: Option<usize> = None;
    proof {
        assert(dv.skip(0) =~= dv);
    }
    while j < n
        invariant
            j <= n,
            n == definitions@.len(),
            dv == defs_view(definitions@),
            metadata.wf(),
            metadata.defs() == dv,
            match last_idx {
                Some(li) => li < j && dv[li as int].category == Category::Types,
                None => true,
            },
            spec_enums_items(dv, dv, None, gen_bots_only_api) == out@.skip(hdr.len() as int)
                + spec_enums_items(
                dv,
                dv.skip(j as int),
                match last_idx {
                    Some(li) => Some(dv[li as int].ty),
                    None => None,
                },
                gen_bots_only_api,
            ),
            hdr.len() <= out@.len(),
            out@.take(hdr.len() as int) == hdr,
        decreases n - j,
    {
        let ghost rest = dv.skip(j as int);
        let ghost last_v: Option<TypeV> = match last_idx {
            Some(li) => Some(dv[li as int].ty),
            None => None,
        };
        proof {
            assert(rest[0] == dv[j as int]);
            assert(rest.drop_first() =~= dv.skip(j as int + 1));
            assert(dv[j as int] == definitions@[j as int]@);
        }
        let d = &definitions[j];
        let is_types = match d.category {
            Category::Types => true,
            Category::Functions => false,
        };
        if is_types && !crate::ignore_type(&d.ty) {
            let same_as_last = match last_idx {
                Some(li) => definitions[li].ty.same_value(&d.ty),
                None => false,
            };
            proof {
                if last_idx is Some {
                    let li = last_idx->0;
                    assert(dv[li as int].ty == definitions@[li as int]@.ty);
                }
                assert(same_as_last == (last_v == Some(dv[j as int].ty)));
            }
            if !same_as_last {
                proof {
                    assert(dv[j as int].category == Category::Types && dv[j as int].ty.name
                        == d@.ty.name);
                    assert(spec_has_constructor(dv, d@.ty.name));
                }
                write_definition(&mut out, &d.ty, definitions, metadata, gen_bots_only_api);
            }
            last_idx = Some(j);
        }
        proof {
            assert(out@.take(hdr.len() as int) =~= hdr);
            assert(spec_enums_items(dv, dv, None, gen_bots_only_api) =~= out@.skip(hdr.len() as int)
                + spec_enums_items(
                dv,
                dv.skip(j as int + 1),
                match last_idx {
                    Some(li) => Some(dv[li as int].ty),
                    None => None,
                },
                gen_bots_only_api,
            ));
        }
        j = j + 1;
    }
    out.append("}\n");
    proof {
        assert(dv.skip(n as int) =~= Seq::<DefinitionV>::empty());
        assert(out@ =~= spec_enums_mod(dv, gen_bots_only_api));
    }
    file.append(out.as_str());
}

} // verus!
