//! Rendered names for parsed types.

use vstd::prelude::*;

use crate::rustifier::rusty_type_name;
use crate::rustifier::spec_rusty_type_name;
use crate::text;
use crate::tl::ty::Type;
use crate::tl::ty::TypeV;

verus! {

/// The built-in type table: the target type of a schema primitive name, if
/// it has one.
pub open spec fn spec_builtin(name: Seq<char>) -> Option<Seq<char>> {
    if name == "Bool"@ {
        Some("bool"@)
    } else if name == "bytes"@ {
        Some("Vec<u8>"@)
    } else if name == "double"@ {
        Some("f64"@)
    } else if name == "int"@ {
        Some("i32"@)
    } else if name == "int128"@ {
        Some("[u8; 16]"@)
    } else if name == "int256"@ {
        Some("[u8; 32]"@)
    } else if name == "int32"@ {
        Some("i32"@)
    } else if name == "int53"@ {
        Some("i64"@)
    } else if name == "int64"@ {
        Some("i64"@)
    } else if name == "long"@ {
        Some("i64"@)
    } else if name == "string"@ {
        Some("String"@)
    } else if name == "vector"@ {
        Some("Vec"@)
    } else if name == "Vector"@ {
        Some("Vec"@)
    } else if name == "Ok"@ {
        Some("()"@)
    } else {
        None
    }
}

/// The target type of a schema primitive name, if it has one.
pub(crate) fn builtin_type(ty: &Type) -> (r: Option<&'static str>)
    ensures
        match r {
            Some(t) => spec_builtin(ty.name@) == Some(t@),
            None => spec_builtin(ty.name@) is None,
        },
{
    let n = ty.name.as_str();
    if text::eq_str(n, "Bool") {
        Some("bool")
    } else if text::eq_str(n, "bytes") {
        Some("Vec<u8>")
    } else if text::eq_str(n, "double") {
        Some("f64")
    } else if text::eq_str(n, "int") {
        Some("i32")
    } else if text::eq_str(n, "int128") {
        Some("[u8; 16]")
    } else if text::eq_str(n, "int256") {
        Some("[u8; 32]")
    } else if text::eq_str(n, "int32") {
        Some("i32")
    } else if text::eq_str(n, "int53") {
        Some("i64")
    } else if text::eq_str(n, "int64") {
        Some("i64")
    } else if text::eq_str(n, "long") {
        Some("i64")
    } else if text::eq_str(n, "string") {
        Some("String")
    } else if text::eq_str(n, "vector") {
        Some("Vec")
    } else if text::eq_str(n, "Vector") {
        Some("Vec")
    } else if text::eq_str(n, "Ok") {
        Some("()")
    } else {
        None
    }
}

/// The base path of a type: its built-in target type, or its qualified path
/// under `crate::types` (bare) or `crate::enums` (boxed).
pub open spec fn spec_base_path(t: TypeV) -> Seq<char> {
    match spec_builtin(t.name) {
        Some(b) => b,
        None => (if t.bare {
            "crate::types::"@
        } else {
            "crate::enums::"@
        }) + spec_rusty_type_name(t.name),
    }
}

pub(crate) fn get_base_path(ty: &Type) -> (r: Vec<char>)
    ensures
        r@ == spec_base_path(ty@),
{
    match builtin_type(ty) {
        Some(b) => text::str_chars(b),
        None => {
            let mut out: Vec<char> = Vec::new();
            if ty.bare {
                text::append_str(&mut out, "crate::types::");
            } else {
                text::append_str(&mut out, "crate::enums::");
            }
            let tn = rusty_type_name(ty.name.as_str());
            text::append_chars(&mut out, tn.as_slice());
            out
        },
    }
}

/// The full path of a type, its generic argument rendered recursively and,
/// when the enclosing field asks for it, wrapped as optional.
pub open spec fn spec_get_path(t: TypeV, optional_generic_arg: bool) -> Seq<char>
    decreases t,
{
    spec_base_path(t) + (match t.generic_arg {
        Some(a) => seq!['<'] + (if optional_generic_arg {
            "Option<"@
        } else {
            Seq::<char>::empty()
        }) + spec_get_path(*a, false) + (if optional_generic_arg {
            ">"@
        } else {
            Seq::<char>::empty()
        }) + seq!['>'],
        None => Seq::<char>::empty(),
    })
}

pub(crate) fn get_path(ty: &Type, optional_generic_arg: bool) -> (r: Vec<char>)
    ensures
        r@ == spec_get_path(ty@, optional_generic_arg),
    decreases ty,
{
    let mut out = get_base_path(ty);
    match &ty.generic_arg {
        Some(a) => {
            out.push('<');
            if optional_generic_arg {
                text::append_str(&mut out, "Option<");
            }
            let inner = get_path(a, false);
            text::append_chars(&mut out, inner.as_slice());
            if optional_generic_arg {
                text::append_str(&mut out, ">");
            }
            out.push('>');
            proof {
                assert(out@ =~= spec_get_path(ty@, optional_generic_arg));
            }
        },
        None => {
            proof {
                assert(out@ =~= spec_get_path(ty@, optional_generic_arg));
            }
        },
    }
    out
}

/// The rendered type name, excluding namespace.
pub fn ty_name(ty: &Type) -> (r: String)
    ensures
        r@ == spec_rusty_type_name(ty@.name),
{
    let v = rusty_type_name(ty.name.as_str());
    text::chars_string(v.as_slice())
}

/// The qualified path of a type.
pub fn qual_name(ty: &Type) -> (r: String)
    ensures
        r@ == spec_get_path(ty@, false),
{
    let v = get_path(ty, false);
    text::chars_string(v.as_slice())
}

/// Whether the type is the unit marker type.
pub fn is_ok(ty: &Type) -> (r: bool)
    ensures
        r == (ty@.name == "Ok"@),
{
    text::eq_str(ty.name.as_str(), "Ok")
}

/// Whether generated values of this type carry a hash implementation.
pub fn should_implement_hash(ty: &Type) -> (r: bool)
    ensures
        r == (ty@.name == "ChatList"@),
{
    text::eq_str(ty.name.as_str(), "ChatList")
}

/// The serialization adapter of a type: 64-bit integers travel as decimal
/// strings, recursively through generic arguments.
pub open spec fn spec_serde_as(t: TypeV) -> Option<Seq<char>>
    decreases t,
{
    if t.name == "int64"@ {
        Some("DisplayFromStr"@)
    } else {
        match t.generic_arg {
            Some(a) => match spec_serde_as(*a) {
                Some(s) => Some(spec_base_path(t) + seq!['<'] + s + seq!['>']),
                None => None,
            },
            None => None,
        }
    }
}

pub(crate) fn serde_as_path(ty: &Type) -> (r: Option<Vec<char>>)
    ensures
        match r {
            Some(v) => spec_serde_as(ty@) == Some(v@),
            None => spec_serde_as(ty@) is None,
        },
    decreases ty,
{
    if text::eq_str(ty.name.as_str(), "int64") {
        return Some(text::str_chars("DisplayFromStr"));
    }
    match &ty.generic_arg {
        Some(a) => {
            match serde_as_path(a) {
                Some(s) => {
                    let mut out = get_base_path(ty);
                    out.push('<');
                    text::append_chars(&mut out, s.as_slice());
                    out.push('>');
                    proof {
                        assert(Some(out@) == spec_serde_as(ty@));
                    }
                    Some(out)
                },
                None => None,
            }
        },
        None => None,
    }
}

/// The serialization adapter of a type, if it needs one.
pub fn serde_as(ty: &Type) -> (r: Option<String>)
    ensures
        match r {
            Some(s) => spec_serde_as(ty@) == Some(s@),
            None => spec_serde_as(ty@) is None,
        },
{
    match serde_as_path(ty) {
        Some(v) => Some(text::chars_string(v.as_slice())),
        None => None,
    }
}

} // verus!
