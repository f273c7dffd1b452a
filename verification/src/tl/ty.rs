//! The type of a definition or a parameter.

use vstd::prelude::*;
use vstd::slice::slice_subrange;

use crate::errors::ParamParseError;
use crate::errors::ParamParseErrorV;
use crate::text;

verus! {

/// The type of a definition or a parameter.
#[derive(Debug)]
pub struct Type {
    /// The name of the type.
    pub name: String,
    /// Whether this type is bare or boxed.
    pub bare: bool,
    /// Whether the type name refers to a generic definition.
    pub generic_ref: bool,
    /// If the type has a generic argument, which is its type.
    pub generic_arg: Option<Box<Type>>,
}

/// The mathematical value of a [`Type`].
pub ghost struct TypeV {
    pub name: Seq<char>,
    pub bare: bool,
    pub generic_ref: bool,
    pub generic_arg: Option<Box<TypeV>>,
}

/// The mathematical value of a [`Type`].
pub open spec fn type_view(t: Type) -> TypeV
    decreases t,
{
    TypeV {
        name: t.name@,
        bare: t.bare,
        generic_ref: t.generic_ref,
        generic_arg: match t.generic_arg {
            Some(b) => Some(Box::new(type_view(*b))),
            None => None,
        },
    }
}

impl View for Type {
    type V = TypeV;

    open spec fn view(&self) -> TypeV {
        type_view(*self)
    }
}

/// What parsing a type token yields: strip a leading `!`, split off a
/// trailing `<argument>` (recursively parsed), and derive bareness from the
/// case of the name's first letter.
pub open spec fn spec_parse_type(s: Seq<char>) -> Result<TypeV, ParamParseErrorV>
    decreases s.len(),
    via spec_parse_type_decreases
{
    let t = if s.len() > 0 && s[0] == '!' {
        s.drop_first()
    } else {
        s
    };
    let generic_ref = s.len() > 0 && s[0] == '!';
    match text::spec_find_char(t, '<') {
        Some(i) => {
            if t.len() == 0 || t[t.len() - 1] != '>' {
                Err(ParamParseErrorV::InvalidGeneric)
            } else {
                match spec_parse_type(t.subrange(i + 1, t.len() - 1)) {
                    Err(e) => Err(e),
                    Ok(arg) => {
                        let name = t.take(i);
                        if name.len() == 0 {
                            Err(ParamParseErrorV::Empty)
                        } else {
                            Ok(
                                TypeV {
                                    name,
                                    bare: text::is_lower_char(name[0]),
                                    generic_ref,
                                    generic_arg: Some(Box::new(arg)),
                                },
                            )
                        }
                    },
                }
            }
        },
        None => {
            if t.len() == 0 {
                Err(ParamParseErrorV::Empty)
            } else {
                Ok(
                    TypeV {
                        name: t,
                        bare: text::is_lower_char(t[0]),
                        generic_ref,
                        generic_arg: None,
                    },
                )
            }
        },
    }
}

#[via_fn]
proof fn spec_parse_type_decreases(s: Seq<char>) {
    let t = if s.len() > 0 && s[0] == '!' {
        s.drop_first()
    } else {
        s
    };
    text::lemma_find_char_props(t, '<');
}

/// The textual rendering of a type: `!` for a generic reference, the name,
/// and the generic argument in angle brackets.
pub open spec fn spec_render_type(t: TypeV) -> Seq<char>
    decreases t,
{
    (if t.generic_ref {
        seq!['!']
    } else {
        Seq::<char>::empty()
    }) + t.name + (match t.generic_arg {
        Some(a) => seq!['<'] + spec_render_type(*a) + seq!['>'],
        None => Seq::<char>::empty(),
    })
}

impl Type {
    /// Parses a type token, already split into characters.
    pub(crate) fn from_chars(v: &[char]) -> (r: Result<Type, ParamParseError>)
        ensures
            match r {
                Ok(t) => spec_parse_type(v@) == Ok::<TypeV, ParamParseErrorV>(t@),
                Err(e) => spec_parse_type(v@) == Err::<TypeV, ParamParseErrorV>(e@),
            },
        decreases v@.len(),
    {
        let (start, generic_ref): (usize, bool) = if v.len() > 0 && v[0] == '!' {
            (1, true)
        } else {
            (0, false)
        };
        let t = slice_subrange(v, start, v.len());
        proof {
            if generic_ref {
                assert(t@ =~= v@.drop_first());
            } else {
                assert(t@ =~= v@);
            }
        }
        match text::find_char(t, '<') {
            Some(i) => {
                if t.len() == 0 || t[t.len() - 1] != '>' {
                    return Err(ParamParseError::InvalidGeneric);
                }
                proof {
                    text::lemma_find_char_props(t@, '<');
                }
                let inner = slice_subrange(t, i + 1, t.len() - 1);
                match Type::from_chars(inner) {
                    Err(e) => Err(e),
                    Ok(arg) => {
                        if i == 0 {
                            return Err(ParamParseError::Empty);
                        }
                        let name_v = text::subvec(t, 0, i);
                        proof {
                            assert(name_v@ =~= t@.take(i as int));
                        }
                        let bare = text::is_lower(name_v[0]);
                        Ok(
                            Type {
                                name: text::chars_string(name_v.as_slice()),
                                bare,
                                generic_ref,
                                generic_arg: Some(Box::new(arg)),
                            },
                        )
                    },
                }
            },
            None => {
                if t.len() == 0 {
                    return Err(ParamParseError::Empty);
                }
                let bare = text::is_lower(t[0]);
                Ok(
                    Type {
                        name: text::chars_string(t),
                        bare,
                        generic_ref,
                        generic_arg: None,
                    },
                )
            },
        }
    }

    /// Parses a type such as `name` or `name<arg>`.
    pub fn from_str(ty: &str) -> (r: Result<Type, ParamParseError>)
        ensures
            match r {
                Ok(t) => spec_parse_type(ty@) == Ok::<TypeV, ParamParseErrorV>(t@),
                Err(e) => spec_parse_type(ty@) == Err::<TypeV, ParamParseErrorV>(e@),
            },
    {
        let v = text::str_chars(ty);
        Type::from_chars(v.as_slice())
    }

    /// Appends the rendering of this type to `out`.
    pub(crate) fn push_rendered(&self, out: &mut Vec<char>)
        ensures
            final(out)@ == old(out)@ + spec_render_type(self@),
        decreases self,
    {
        if self.generic_ref {
            out.push('!');
        }
        text::append_string(out, &self.name);
        match &self.generic_arg {
            Some(b) => {
                out.push('<');
                b.push_rendered(out);
                out.push('>');
                proof {
                    assert(out@ =~= old(out)@ + spec_render_type(self@));
                }
            },
            None => {
                proof {
                    assert(out@ =~= old(out)@ + spec_render_type(self@));
                }
            },
        }
    }

    /// Renders the type back to its textual form.
    pub fn to_string(&self) -> (r: String)
        ensures
            r@ == spec_render_type(self@),
    {
        let mut out: Vec<char> = Vec::new();
        self.push_rendered(&mut out);
        proof {
            assert(out@ =~= spec_render_type(self@));
        }
        text::chars_string(out.as_slice())
    }
}

/// The generic references occurring in a type, outermost first.
pub open spec fn spec_generic_refs(t: TypeV) -> Seq<Seq<char>>
    decreases t,
{
    (if t.generic_ref {
        seq![t.name]
    } else {
        Seq::<Seq<char>>::empty()
    }) + (match t.generic_arg {
        Some(a) => spec_generic_refs(*a),
        None => Seq::<Seq<char>>::empty(),
    })
}

impl Type {
    /// Finds all the generic references in this type and appends their names
    /// to the output vector.
    pub fn find_generic_refs(&self, output: &mut Vec<String>)
        ensures
            final(output).deep_view() == old(output).deep_view() + spec_generic_refs(self@),
        decreases self,
    {
        if self.generic_ref {
            let ghost before = output.deep_view();
            output.push(self.name.clone());
            proof {
                assert(output.deep_view() =~= before.push(self.name@));
            }
        }
        match &self.generic_arg {
            Some(b) => {
                b.find_generic_refs(output);
                proof {
                    assert(output.deep_view() =~= old(output).deep_view() + spec_generic_refs(
                        self@,
                    ));
                }
            },
            None => {
                proof {
                    assert(output.deep_view() =~= old(output).deep_view() + spec_generic_refs(
                        self@,
                    ));
                }
            },
        }
    }
}

impl PartialEq for Type {
    fn eq(&self, other: &Type) -> (r: bool) {
        self.same_value(other)
    }
}

impl vstd::std_specs::cmp::PartialEqSpecImpl for Type {
    open spec fn obeys_eq_spec() -> bool {
        true
    }

    open spec fn eq_spec(&self, other: &Type) -> bool {
        self@ == other@
    }
}

impl Type {
    /// Structural equality of two types.
    pub fn same_value(&self, other: &Type) -> (r: bool)
        ensures
            r == (self@ == other@),
        decreases self,
    {
        if !(self.name == other.name && self.bare == other.bare && self.generic_ref
            == other.generic_ref) {
            return false;
        }
        match (&self.generic_arg, &other.generic_arg) {
            (Some(a), Some(b)) => a.same_value(b),
            (None, None) => true,
            _ => false,
        }
    }
}


// ---------------------------------------------------------------------------
// Round-trip stability
// ---------------------------------------------------------------------------

/// A type value as the parser produces it: a non-empty name free of `<`,
/// not opening with `!` unless the reference flag holds it, bareness
/// derived from the first letter, and a well-formed argument.
pub open spec fn wf_type(t: TypeV) -> bool
    decreases t,
{
    &&& t.name.len() > 0
    &&& (forall|i: int| 0 <= i < t.name.len() ==> t.name[i] != '<')
    &&& (!t.generic_ref ==> t.name[0] != '!')
    &&& t.bare == text::is_lower_char(t.name[0])
    &&& match t.generic_arg {
        Some(a) => wf_type(*a),
        None => true,
    }
}

/// Every type the parser accepts is well formed.
pub proof fn lemma_parse_type_wf(s: Seq<char>, t: TypeV)
    requires
        spec_parse_type(s) == Ok::<TypeV, ParamParseErrorV>(t),
    ensures
        wf_type(t),
    decreases s.len(),
{
    let body = if s.len() > 0 && s[0] == '!' {
        s.drop_first()
    } else {
        s
    };
    text::lemma_find_char_props(body, '<');
    match text::spec_find_char(body, '<') {
        Some(i) => {
            let inner = body.subrange(i + 1, body.len() - 1);
            match spec_parse_type(inner) {
                Ok(arg) => {
                    lemma_parse_type_wf(inner, arg);
                    assert(t.name == body.take(i));
                    assert(forall|k: int| 0 <= k < i ==> body.take(i)[k] == body[k]);
                    if !t.generic_ref {
                        assert(t.name[0] == s[0]);
                    }
                },
                Err(_) => {},
            }
        },
        None => {
            assert(t.name == body);
            if !t.generic_ref && s.len() > 0 {
                assert(t.name[0] == s[0]);
            }
        },
    }
}

/// Rendering a well-formed type and parsing it back yields the same value.
pub proof fn lemma_render_parse_type(t: TypeV)
    requires
        wf_type(t),
    ensures
        spec_parse_type(spec_render_type(t)) == Ok::<TypeV, ParamParseErrorV>(t),
    decreases t,
{
    let s = spec_render_type(t);
    let pre: Seq<char> = if t.generic_ref {
        seq!['!']
    } else {
        Seq::<char>::empty()
    };
    let argpart: Seq<char> = match t.generic_arg {
        Some(a) => seq!['<'] + spec_render_type(*a) + seq!['>'],
        None => Seq::<char>::empty(),
    };
    assert(s == pre + t.name + argpart);
    assert(s.len() > 0);
    assert(s[0] == (if t.generic_ref {
        '!'
    } else {
        t.name[0]
    }));
    let body = if s.len() > 0 && s[0] == '!' {
        s.drop_first()
    } else {
        s
    };
    assert(body =~= t.name + argpart);
    match t.generic_arg {
        None => {
            assert(body =~= t.name);
            text::lemma_find_char_none(body, '<');
            assert(spec_parse_type(s) == Ok::<TypeV, ParamParseErrorV>(
                TypeV {
                    name: body,
                    bare: text::is_lower_char(body[0]),
                    generic_ref: t.generic_ref,
                    generic_arg: None,
                },
            ));
        },
        Some(a) => {
            let nlen = t.name.len() as int;
            assert(body[nlen] == '<');
            assert(forall|j: int| 0 <= j < nlen ==> body[j] == t.name[j] && body[j] != '<');
            text::lemma_find_char_is(body, '<', nlen);
            assert(body[body.len() - 1] == '>');
            let inner = body.subrange(nlen + 1, body.len() - 1);
            assert(inner =~= spec_render_type(*a));
            lemma_render_parse_type(*a);
            assert(body.take(nlen) =~= t.name);
            assert(spec_parse_type(s) == Ok::<TypeV, ParamParseErrorV>(
                TypeV {
                    name: t.name,
                    bare: text::is_lower_char(t.name[0]),
                    generic_ref: t.generic_ref,
                    generic_arg: Some(Box::new(*a)),
                },
            ));
            assert(Some(Box::new(*a)) == t.generic_arg);
        },
    }
}


} // verus!
