//! Rendered names for parsed definitions.

use vstd::prelude::*;

use crate::rustifier::rusty_doc;
use crate::rustifier::rusty_type_name;
use crate::rustifier::spec_rusty_doc;
use crate::rustifier::spec_rusty_type_name;
use crate::text;
use crate::tl::definition::Definition;
use crate::tl::definition::DefinitionV;

verus! {

/// The rendered type name of a definition.
pub fn ty_name(def: &Definition) -> (r: String)
    ensures
        r@ == spec_rusty_type_name(def@.name),
{
    let v = rusty_type_name(def.name.as_str());
    text::chars_string(v.as_slice())
}

/// The call-style name of a definition: an underscore before every
/// upper-case letter, which is folded to lower case.
pub open spec fn spec_function_name(s: Seq<char>) -> Seq<char>
    decreases s.len(),
{
    if s.len() == 0 {
        Seq::<char>::empty()
    } else {
        (if text::is_upper_char(s[0]) {
            seq!['_', text::to_lower_char(s[0])]
        } else {
            seq![s[0]]
        }) + spec_function_name(s.drop_first())
    }
}

/// The call-style name of a definition.
pub fn function_name(def: &Definition) -> (r: String)
    ensures
        r@ == spec_function_name(def@.name),
{
    let v = text::str_chars(def.name.as_str());
    let n = v.len();
    let mut out: Vec<char> = Vec::new();
    let mut i: usize = 0;
    proof {
        assert(v@.skip(0) =~= v@);
        assert(out@ + spec_function_name(v@) =~= spec_function_name(v@));
    }
    while i < n
        invariant
            i <= n,
            n == v@.len(),
            v@ == def.name@,
            spec_function_name(v@) == out@ + spec_function_name(v@.skip(i as int)),
        decreases n - i,
    {
        let ghost rest = v@.skip(i as int);
        proof {
            assert(rest[0] == v@[i as int]);
            assert(rest.drop_first() =~= v@.skip(i as int + 1));
        }
        let c = v[i];
        if text::is_upper(c) {
            out.push('_');
            out.push(text::to_lower(c));
        } else {
            out.push(c);
        }
        proof {
            assert(spec_function_name(v@) =~= out@ + spec_function_name(v@.skip(i as int + 1)));
        }
        i = i + 1;
    }
    proof {
        assert(v@.skip(n as int) =~= Seq::<char>::empty());
        assert(out@ + spec_function_name(v@.skip(n as int)) =~= out@);
    }
    text::chars_string(out.as_slice())
}

/// The qualified path of the struct generated for a definition.
pub fn qual_name(def: &Definition) -> (r: String)
    ensures
        r@ == "crate::types::"@ + spec_rusty_type_name(def@.name),
{
    let mut out: Vec<char> = Vec::new();
    text::append_str(&mut out, "crate::types::");
    let tn = rusty_type_name(def.name.as_str());
    text::append_chars(&mut out, tn.as_slice());
    text::chars_string(out.as_slice())
}

/// The position of the last ASCII upper-case letter, or the start.
pub open spec fn last_upper_start(s: Seq<char>) -> int {
    match text::spec_rfind_upper(s) {
        Some(i) => i,
        None => 0,
    }
}

/// The variant name of a definition inside its type's `enum`: the rendered
/// name with the type's own rendered name stripped as a prefix; an empty
/// remainder falls back to the suffix from the last upper-case letter, and
/// the reserved remainder `Self` to the suffix from the second-to-last.
pub open spec fn spec_variant_name(d: DefinitionV) -> Seq<char> {
    let name = spec_rusty_type_name(d.name);
    let ty_name = spec_rusty_type_name(d.ty.name);
    let variant = if text::spec_starts_with(name, ty_name) && name.len() > ty_name.len() {
        if text::is_lower_char(name[ty_name.len() as int]) {
            name
        } else {
            name.skip(ty_name.len() as int)
        }
    } else {
        name
    };
    if variant.len() == 0 {
        name.skip(last_upper_start(name))
    } else if variant == "Self"@ {
        name.skip(last_upper_start(name.take(name.len() - 4)))
    } else {
        variant
    }
}

/// The variant name of a definition inside its type's `enum`.
pub fn variant_name(def: &Definition) -> (r: String)
    ensures
        r@ == spec_variant_name(def@),
{
    let name = rusty_type_name(def.name.as_str());
    let ty_name = rusty_type_name(def.ty.name.as_str());
    let nlen = name.len();
    let tlen = ty_name.len();
    let use_suffix = text::starts_with(name.as_slice(), ty_name.as_slice()) && nlen > tlen
        && !text::is_lower(name[tlen]);
    let variant: Vec<char> = if use_suffix {
        let s = text::subvec(name.as_slice(), tlen, nlen);
        proof {
            assert(s@ =~= name@.skip(tlen as int));
        }
        s
    } else {
        text::subvec(name.as_slice(), 0, nlen)
    };
    proof {
        assert(name@.subrange(0, nlen as int) =~= name@);
    }
    if variant.len() == 0 {
        let k: usize = match text::rfind_upper(name.as_slice()) {
            Some(i) => i,
            None => 0,
        };
        let out = text::subvec(name.as_slice(), k, nlen);
        proof {
            assert(out@ =~= name@.skip(k as int));
        }
        return text::chars_string(out.as_slice());
    }
    if text::eq_chars_str(variant.as_slice(), "Self") {
        proof {
            reveal_strlit("Self");
            assert(variant@.len() == 4);
        }
        let prefix = text::subvec(name.as_slice(), 0, nlen - 4);
        proof {
            assert(prefix@ =~= name@.take(nlen as int - 4));
        }
        let k: usize = match text::rfind_upper(prefix.as_slice()) {
            Some(i) => i,
            None => 0,
        };
        let out = text::subvec(name.as_slice(), k, nlen);
        proof {
            assert(out@ =~= name@.skip(k as int));
        }
        return text::chars_string(out.as_slice());
    }
    text::chars_string(variant.as_slice())
}

/// The documentation block of a definition.
pub fn description(def: &Definition, indent: &str) -> (r: String)
    ensures
        r@ == spec_rusty_doc(indent@, def@.description),
{
    let v = rusty_doc(indent, def.description.as_str());
    text::chars_string(v.as_slice())
}

/// Whether the documentation restricts the definition to bot callers.
pub fn is_for_bots_only(def: &Definition) -> (r: bool)
    ensures
        r == text::spec_contains(def@.description, "; for bots only"@),
{
    let desc = text::str_chars(def.description.as_str());
    let m = text::str_chars("; for bots only");
    text::contains_sub(desc.as_slice(), m.as_slice())
}

/// Whether the generated struct carries a hash implementation.
pub fn should_implement_hash(def: &Definition) -> (r: bool)
    ensures
        r == (def@.name == "chatListFilter"@),
{
    text::eq_str(def.name.as_str(), "chatListFilter")
}

} // verus!
