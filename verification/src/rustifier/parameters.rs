//! Rendered names for parsed parameters.

use vstd::prelude::*;
use vstd::string::StringExecFns;

use crate::rustifier::rusty_doc;
use crate::rustifier::spec_rusty_doc;
use crate::rustifier::types::spec_builtin;
use crate::rustifier::types::spec_get_path;
use crate::rustifier::types;
use crate::text;
use crate::tl::parameter::Parameter;
use crate::tl::parameter::ParameterV;

verus! {

/// Whether the parameter's documentation marks it optional: it contains one
/// of the two fixed marker phrases.
pub open spec fn spec_is_optional(p: ParameterV) -> bool {
    text::spec_contains(p.description, "; may be null"@) || text::spec_contains(
        p.description,
        "; pass null"@,
    )
}

/// Whether the documentation marks the elements of the field's container as
/// individually optional.
pub open spec fn spec_optional_generic_arg(p: ParameterV) -> bool {
    text::spec_contains(p.description, "; messages may be null"@)
}

/// Whether the parameter's type is a built-in, or the parameter is optional.
pub open spec fn spec_is_builtin_param(p: ParameterV) -> bool {
    spec_builtin(p.ty.name) is Some || spec_is_optional(p)
}

/// Every ASCII letter of the name folded to lower case.
pub open spec fn spec_to_lower_all(s: Seq<char>) -> Seq<char> {
    Seq::new(s.len(), |i: int| text::to_lower_char(s[i]))
}

/// The field name of a parameter: target-language keywords are escaped,
/// `self` is renamed, anything else is folded to lower case.
pub open spec fn spec_attr_name(p: ParameterV) -> Seq<char> {
    if p.name == "final"@ {
        "r#final"@
    } else if p.name == "loop"@ {
        "r#loop"@
    } else if p.name == "self"@ {
        "is_self"@
    } else if p.name == "static"@ {
        "r#static"@
    } else if p.name == "type"@ {
        "r#type"@
    } else {
        spec_to_lower_all(p.name)
    }
}

/// The qualified type path of a parameter, its generic argument wrapped as
/// optional when the documentation says its elements may be absent.
pub fn qual_name(param: &Parameter) -> (r: String)
    ensures
        r@ == spec_get_path(param@.ty, spec_optional_generic_arg(param@)),
{
    let desc = text::str_chars(param.description.as_str());
    let marker = text::str_chars("; messages may be null");
    let optional_generic_arg = text::contains_sub(desc.as_slice(), marker.as_slice());
    let v = types::get_path(&param.ty, optional_generic_arg);
    text::chars_string(v.as_slice())
}

/// The field name of a parameter.
pub fn attr_name(param: &Parameter) -> (r: String)
    ensures
        r@ == spec_attr_name(param@),
{
    let n = param.name.as_str();
    if text::eq_str(n, "final") {
        return String::from_str("r#final");
    }
    if text::eq_str(n, "loop") {
        return String::from_str("r#loop");
    }
    if text::eq_str(n, "self") {
        return String::from_str("is_self");
    }
    if text::eq_str(n, "static") {
        return String::from_str("r#static");
    }
    if text::eq_str(n, "type") {
        return String::from_str("r#type");
    }
    let v = text::str_chars(n);
    let len = v.len();
    let mut out: Vec<char> = Vec::new();
    let mut i: usize = 0;
    while i < len
        invariant
            i <= len,
            len == v@.len(),
            v@ == param.name@,
            out@.len() == i,
            forall|k: int| 0 <= k < i ==> out@[k] == text::to_lower_char(v@[k]),
        decreases len - i,
    {
        out.push(text::to_lower(v[i]));
        i = i + 1;
    }
    proof {
        assert(out@ =~= spec_to_lower_all(param.name@));
    }
    text::chars_string(out.as_slice())
}

/// Whether the parameter's type is a built-in, or the parameter is optional.
pub fn is_builtin_type(param: &Parameter) -> (r: bool)
    ensures
        r == spec_is_builtin_param(param@),
{
    if types::builtin_type(&param.ty).is_some() {
        return true;
    }
    is_optional(param)
}

/// Whether the documentation marks the parameter optional.
pub fn is_optional(param: &Parameter) -> (r: bool)
    ensures
        r == spec_is_optional(param@),
{
    let desc = text::str_chars(param.description.as_str());
    let m1 = text::str_chars("; may be null");
    let m2 = text::str_chars("; pass null");
    text::contains_sub(desc.as_slice(), m1.as_slice()) || text::contains_sub(
        desc.as_slice(),
        m2.as_slice(),
    )
}

/// Whether the documentation restricts the parameter to bot callers.
pub fn is_for_bots_only(param: &Parameter) -> (r: bool)
    ensures
        r == text::spec_contains(param@.description, "; for bots only"@),
{
    let desc = text::str_chars(param.description.as_str());
    let m = text::str_chars("; for bots only");
    text::contains_sub(desc.as_slice(), m.as_slice())
}

/// The documentation block of a parameter.
pub fn description(param: &Parameter, indent: &str) -> (r: String)
    ensures
        r@ == spec_rusty_doc(indent@, param@.description),
{
    let v = rusty_doc(indent, param.description.as_str());
    text::chars_string(v.as_slice())
}

/// The serialization adapter of the parameter's type, if it needs one.
pub fn serde_as(param: &Parameter) -> (r: Option<String>)
    ensures
        match r {
            Some(s) => types::spec_serde_as(param@.ty) == Some(s@),
            None => types::spec_serde_as(param@.ty) is None,
        },
{
    types::serde_as(&param.ty)
}

} // verus!
