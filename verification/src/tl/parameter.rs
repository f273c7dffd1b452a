//! A single parameter of a definition.

use vstd::prelude::*;
use vstd::slice::slice_subrange;

use crate::errors::ParamParseError;
use crate::errors::ParamParseErrorV;
use crate::text;
use crate::tl::ty::spec_parse_type;
use crate::tl::ty::spec_render_type;
use crate::tl::ty::Type;
use crate::tl::ty::TypeV;

verus! {

/// A single parameter, with a name and a type.
#[derive(Debug)]
pub struct Parameter {
    /// The name of the parameter.
    pub name: String,
    /// The type of the parameter.
    pub ty: Type,
    /// The description of the parameter.
    pub description: String,
}

/// The mathematical value of a [`Parameter`].
pub ghost struct ParameterV {
    pub name: Seq<char>,
    pub ty: TypeV,
    pub description: Seq<char>,
}

impl View for Parameter {
    type V = ParameterV;

    open spec fn view(&self) -> ParameterV {
        ParameterV { name: self.name@, ty: self.ty@, description: self.description@ }
    }
}

/// What parsing a parameter token yields. A token in braces is a generic
/// type definition, reported through a distinguished error; otherwise the
/// token is split as `name:type` on its first two colons.
pub open spec fn spec_parse_parameter(s: Seq<char>) -> Result<ParameterV, ParamParseErrorV> {
    if s.len() > 0 && s[0] == '{' {
        if text::spec_ends_with(s, ":Type}"@) {
            match text::spec_find_char(s, ':') {
                Some(i) => Err(ParamParseErrorV::TypeDef { name: s.subrange(1, i) }),
                None => Err(ParamParseErrorV::MissingDef),
            }
        } else {
            Err(ParamParseErrorV::MissingDef)
        }
    } else {
        match text::spec_find_char(s, ':') {
            None => Err(ParamParseErrorV::NotImplemented),
            Some(i) => {
                let name = s.take(i);
                let rest = s.skip(i + 1);
                let ty_text = match text::spec_find_char(rest, ':') {
                    Some(j) => rest.take(j),
                    None => rest,
                };
                if name.len() == 0 {
                    Err(ParamParseErrorV::Empty)
                } else {
                    match spec_parse_type(ty_text) {
                        Ok(t) => Ok(
                            ParameterV { name, ty: t, description: Seq::<char>::empty() },
                        ),
                        Err(e) => Err(e),
                    }
                }
            },
        }
    }
}

/// The textual rendering of a parameter: `name:type`.
pub open spec fn spec_render_parameter(p: ParameterV) -> Seq<char> {
    p.name + seq![':'] + spec_render_type(p.ty)
}

impl Parameter {
    /// Parses a parameter token, already split into characters.
    pub(crate) fn from_chars(v: &[char]) -> (r: Result<Parameter, ParamParseError>)
        ensures
            match r {
                Ok(p) => spec_parse_parameter(v@) == Ok::<ParameterV, ParamParseErrorV>(p@),
                Err(e) => spec_parse_parameter(v@) == Err::<ParameterV, ParamParseErrorV>(e@),
            },
    {
        if v.len() > 0 && v[0] == '{' {
            let tail: Vec<char> = text::str_chars(":Type}");
            if text::ends_with(v, tail.as_slice()) {
                match text::find_char(v, ':') {
                    Some(i) => {
                        proof {
                            text::lemma_find_char_props(v@, ':');
                            assert(v@.skip(0) =~= v@);
                        }
                        let name_v = text::subvec(v, 1, i);
                        return Err(
                            ParamParseError::TypeDef { name: text::chars_string(name_v.as_slice()) },
                        );
                    },
                    None => {
                        proof {
                            assert(v@.skip(0) =~= v@);
                        }
                        return Err(ParamParseError::MissingDef);
                    },
                }
            }
            return Err(ParamParseError::MissingDef);
        }
        match text::find_char(v, ':') {
            None => {
                proof {
                    assert(v@.skip(0) =~= v@);
                }
                Err(ParamParseError::NotImplemented)
            },
            Some(i) => {
                proof {
                    assert(v@.skip(0) =~= v@);
                    text::lemma_find_char_props(v@, ':');
                }
                let rest = slice_subrange(v, i + 1, v.len());
                proof {
                    assert(rest@ =~= v@.skip(i + 1));
                }
                let ty_slice = match text::find_char(rest, ':') {
                    Some(j) => {
                        proof {
                            assert(rest@.skip(0) =~= rest@);
                            assert(rest@.subrange(0, j as int) =~= rest@.take(j as int));
                        }
                        slice_subrange(rest, 0, j)
                    },
                    None => {
                        proof {
                            assert(rest@.skip(0) =~= rest@);
                        }
                        rest
                    },
                };
                if i == 0 {
                    return Err(ParamParseError::Empty);
                }
                let name_v = text::subvec(v, 0, i);
                proof {
                    assert(name_v@ =~= v@.take(i as int));
                }
                match Type::from_chars(ty_slice) {
                    Ok(t) => Ok(
                        Parameter {
                            name: text::chars_string(name_v.as_slice()),
                            ty: t,
                            description: String::new(),
                        },
                    ),
                    Err(e) => Err(e),
                }
            },
        }
    }

    /// Parses a parameter such as `name:type` or a generic type definition
    /// in braces.
    pub fn from_str(param: &str) -> (r: Result<Parameter, ParamParseError>)
        ensures
            match r {
                Ok(p) => spec_parse_parameter(param@) == Ok::<ParameterV, ParamParseErrorV>(p@),
                Err(e) => spec_parse_parameter(param@) == Err::<ParameterV, ParamParseErrorV>(e@),
            },
    {
        let v = text::str_chars(param);
        Parameter::from_chars(v.as_slice())
    }

    /// Appends the rendering of this parameter to `out`.
    pub(crate) fn push_rendered(&self, out: &mut Vec<char>)
        ensures
            final(out)@ == old(out)@ + spec_render_parameter(self@),
    {
        text::append_string(out, &self.name);
        out.push(':');
        self.ty.push_rendered(out);
        proof {
            assert(out@ =~= old(out)@ + spec_render_parameter(self@));
        }
    }

    /// Renders the parameter back to its textual form.
    pub fn to_string(&self) -> (r: String)
        ensures
            r@ == spec_render_parameter(self@),
    {
        let mut out: Vec<char> = Vec::new();
        self.push_rendered(&mut out);
        text::chars_string(out.as_slice())
    }

    /// Structural equality of two parameters.
    pub fn same_value(&self, other: &Parameter) -> (r: bool)
        ensures
            r == (self@ == other@),
    {
        self.name == other.name && self.ty.same_value(&other.ty) && self.description
            == other.description
    }
}

impl PartialEq for Parameter {
    fn eq(&self, other: &Parameter) -> (r: bool) {
        self.same_value(other)
    }
}

impl vstd::std_specs::cmp::PartialEqSpecImpl for Parameter {
    open spec fn obeys_eq_spec() -> bool {
        true
    }

    open spec fn eq_spec(&self, other: &Parameter) -> bool {
        self@ == other@
    }
}


// ---------------------------------------------------------------------------
// Round-trip stability
// ---------------------------------------------------------------------------

/// No name anywhere in the type holds the given character.
pub open spec fn type_free_of(t: TypeV, c: char) -> bool
    decreases t,
{
    &&& (forall|i: int| 0 <= i < t.name.len() ==> t.name[i] != c)
    &&& match t.generic_arg {
        Some(a) => type_free_of(*a, c),
        None => true,
    }
}

/// A type free of a delimiter renders to text free of it.
pub proof fn lemma_render_free_of(t: TypeV, c: char)
    requires
        type_free_of(t, c),
        c != '!',
        c != '<',
        c != '>',
    ensures
        forall|i: int|
            0 <= i < spec_render_type(t).len() ==> #[trigger] spec_render_type(t)[i] != c,
    decreases t,
{
    let s = spec_render_type(t);
    let pre: Seq<char> = if t.generic_ref {
        seq!['!']
    } else {
        Seq::<char>::empty()
    };
    let plen = pre.len() as int;
    let nlen = t.name.len() as int;
    match t.generic_arg {
        Some(a) => {
            lemma_render_free_of(*a, c);
            let inner = spec_render_type(*a);
            assert forall|i: int| 0 <= i < s.len() implies #[trigger] s[i] != c by {
                if i < plen {
                    assert(s[i] == '!');
                } else if i < plen + nlen {
                    assert(s[i] == t.name[i - plen]);
                } else if i == plen + nlen {
                    assert(s[i] == '<');
                } else if i < plen + nlen + 1 + inner.len() {
                    assert(s[i] == inner[i - plen - nlen - 1]);
                } else {
                    assert(s[i] == '>');
                }
            }
        },
        None => {
            assert forall|i: int| 0 <= i < s.len() implies #[trigger] s[i] != c by {
                if i < plen {
                    assert(s[i] == '!');
                } else {
                    assert(s[i] == t.name[i - plen]);
                }
            }
        },
    }
}

/// A parsed type only holds characters of its source text.
pub proof fn lemma_parse_type_free_of(s: Seq<char>, t: TypeV, c: char)
    requires
        spec_parse_type(s) == Ok::<TypeV, crate::errors::ParamParseErrorV>(t),
        forall|i: int| 0 <= i < s.len() ==> s[i] != c,
    ensures
        type_free_of(t, c),
    decreases s.len(),
{
    let body = if s.len() > 0 && s[0] == '!' {
        s.drop_first()
    } else {
        s
    };
    assert(forall|i: int| 0 <= i < body.len() ==> body[i] != c);
    crate::text::lemma_find_char_props(body, '<');
    match crate::text::spec_find_char(body, '<') {
        Some(i) => {
            let inner = body.subrange(i + 1, body.len() - 1);
            match spec_parse_type(inner) {
                Ok(arg) => {
                    assert(forall|k: int| 0 <= k < inner.len() ==> inner[k] != c);
                    lemma_parse_type_free_of(inner, arg, c);
                    assert(forall|k: int| 0 <= k < i ==> body.take(i)[k] == body[k]);
                },
                Err(_) => {},
            }
        },
        None => {},
    }
}

/// A parameter value as the definition parser produces it: a non-empty name
/// free of colons and white space, not opening a brace construct, a
/// well-formed colon-free type.
pub open spec fn wf_parameter(p: ParameterV) -> bool {
    &&& p.name.len() > 0
    &&& p.name[0] != '{'
    &&& (forall|i: int| 0 <= i < p.name.len() ==> p.name[i] != ':')
    &&& crate::tl::ty::wf_type(p.ty)
    &&& type_free_of(p.ty, ':')
}

/// Every parameter the parser accepts is well formed, with an empty
/// description.
pub proof fn lemma_parse_parameter_wf(s: Seq<char>, p: ParameterV)
    requires
        spec_parse_parameter(s) == Ok::<ParameterV, ParamParseErrorV>(p),
    ensures
        wf_parameter(p),
        p.description == Seq::<char>::empty(),
{
    text::lemma_find_char_props(s, ':');
    match text::spec_find_char(s, ':') {
        Some(i) => {
            let rest = s.skip(i + 1);
            text::lemma_find_char_props(rest, ':');
            let ty_text = match text::spec_find_char(rest, ':') {
                Some(j) => rest.take(j),
                None => rest,
            };
            assert(forall|k: int| 0 <= k < ty_text.len() ==> ty_text[k] != ':');
            match spec_parse_type(ty_text) {
                Ok(t) => {
                    crate::tl::ty::lemma_parse_type_wf(ty_text, t);
                    lemma_parse_type_free_of(ty_text, t, ':');
                    assert(forall|k: int| 0 <= k < i ==> s.take(i)[k] == s[k]);
                },
                Err(_) => {},
            }
        },
        None => {},
    }
}

/// Rendering a well-formed parameter and parsing it back yields the same
/// value, with an empty description.
pub proof fn lemma_render_parse_parameter(p: ParameterV)
    requires
        wf_parameter(p),
    ensures
        spec_parse_parameter(spec_render_parameter(p)) == Ok::<ParameterV, ParamParseErrorV>(
            ParameterV { name: p.name, ty: p.ty, description: Seq::<char>::empty() },
        ),
{
    let s = spec_render_parameter(p);
    let nlen = p.name.len() as int;
    assert(s[0] == p.name[0]);
    assert(s[nlen] == ':');
    assert(forall|j: int| 0 <= j < nlen ==> s[j] == p.name[j] && s[j] != ':');
    text::lemma_find_char_is(s, ':', nlen);
    let rest = s.skip(nlen + 1);
    assert(rest =~= spec_render_type(p.ty));
    lemma_render_free_of(p.ty, ':');
    text::lemma_find_char_none(rest, ':');
    assert(s.take(nlen) =~= p.name);
    crate::tl::ty::lemma_render_parse_type(p.ty);
}


} // verus!
