//! A full Type Language definition.

use vstd::prelude::*;
use vstd::slice::slice_subrange;

use crate::errors::ParamParseError;
use crate::errors::ParamParseErrorV;
use crate::errors::ParseError;
use crate::errors::ParseErrorV;
use crate::text;
use crate::tl::category::Category;
use crate::tl::parameter::spec_parse_parameter;
use crate::tl::parameter::spec_render_parameter;
use crate::tl::parameter::Parameter;
use crate::tl::parameter::ParameterV;
use crate::tl::ty::spec_parse_type;
use crate::tl::ty::spec_render_type;
use crate::tl::ty::Type;
use crate::tl::ty::TypeV;
use crate::utils::spec_infer_id;

verus! {

// ---------------------------------------------------------------------------
// The definition and its mathematical value
// ---------------------------------------------------------------------------

/// A Type Language definition.
#[derive(Debug)]
pub struct Definition {
    /// The name of this definition. Also known as "predicate" or "method".
    pub name: String,
    /// The description of this definition.
    pub description: String,
    /// A possibly-empty list of parameters this definition has.
    pub params: Vec<Parameter>,
    /// The type to which this definition belongs to.
    pub ty: Type,
    /// The category to which this definition belongs to.
    pub category: Category,
    /// The stable numeric identifier of this definition.
    pub id: u32,
}

/// The mathematical value of a [`Definition`].
pub ghost struct DefinitionV {
    pub name: Seq<char>,
    pub description: Seq<char>,
    pub params: Seq<ParameterV>,
    pub ty: TypeV,
    pub category: Category,
    pub id: u32,
}

impl View for Definition {
    type V = DefinitionV;

    open spec fn view(&self) -> DefinitionV {
        DefinitionV {
            name: self.name@,
            description: self.description@,
            params: Seq::new(self.params@.len(), |i: int| self.params@[i]@),
            ty: self.ty@,
            category: self.category,
            id: self.id,
        }
    }
}

// ---------------------------------------------------------------------------
// Documentation annotations: an association of keys to texts
// ---------------------------------------------------------------------------

/// The map described by an association sequence, later entries shadowing
/// earlier ones.
pub open spec fn docs_map(s: Seq<(Seq<char>, Seq<char>)>) -> Map<Seq<char>, Seq<char>>
    decreases s.len(),
{
    if s.len() == 0 {
        Map::<Seq<char>, Seq<char>>::empty()
    } else {
        docs_map(s.drop_last()).insert(s.last().0, s.last().1)
    }
}

/// The association sequence without the entries keyed `k`.
spec fn spec_filter_key(s: Seq<(Seq<char>, Seq<char>)>, k: Seq<char>) -> Seq<(Seq<char>, Seq<char>)>
    decreases s.len(),
{
    if s.len() == 0 {
        Seq::<(Seq<char>, Seq<char>)>::empty()
    } else if s.last().0 == k {
        spec_filter_key(s.drop_last(), k)
    } else {
        spec_filter_key(s.drop_last(), k).push(s.last())
    }
}

/// The value of the last entry keyed `k`, if any.
spec fn spec_last_val(s: Seq<(Seq<char>, Seq<char>)>, k: Seq<char>) -> Option<Seq<char>>
    decreases s.len(),
{
    if s.len() == 0 {
        None
    } else if s.last().0 == k {
        Some(s.last().1)
    } else {
        spec_last_val(s.drop_last(), k)
    }
}

proof fn lemma_docs_map_remove(s: Seq<(Seq<char>, Seq<char>)>, k: Seq<char>)
    ensures
        docs_map(spec_filter_key(s, k)) == docs_map(s).remove(k),
    decreases s.len(),
{
    if s.len() == 0 {
        assert(docs_map(s).remove(k) =~~= Map::<Seq<char>, Seq<char>>::empty());
    } else {
        lemma_docs_map_remove(s.drop_last(), k);
        if s.last().0 == k {
            assert(docs_map(s.drop_last()).insert(k, s.last().1).remove(k) =~~= docs_map(
                s.drop_last(),
            ).remove(k));
            assert(docs_map(spec_filter_key(s, k)) =~~= docs_map(s).remove(k));
        } else {
            let fl = spec_filter_key(s.drop_last(), k);
            assert(fl.push(s.last()).drop_last() =~= fl);
            assert(fl.push(s.last()).last() == s.last());
            assert(docs_map(s.drop_last()).insert(s.last().0, s.last().1).remove(k)
                =~~= docs_map(s.drop_last()).remove(k).insert(s.last().0, s.last().1));
            assert(docs_map(spec_filter_key(s, k)) =~~= docs_map(s).remove(k));
        }
    }
}

proof fn lemma_docs_map_last(s: Seq<(Seq<char>, Seq<char>)>, k: Seq<char>)
    ensures
        match spec_last_val(s, k) {
            Some(v) => docs_map(s).contains_key(k) && docs_map(s)[k] == v,
            None => !docs_map(s).contains_key(k),
        },
    decreases s.len(),
{
    if s.len() > 0 && s.last().0 != k {
        lemma_docs_map_last(s.drop_last(), k);
    }
}

/// The documentation annotations of a statement, keyed by annotation name.
struct Docs {
    entries: Vec<(String, String)>,
}

impl Docs {
    /// The map this association holds.
    pub closed spec fn as_map(&self) -> Map<Seq<char>, Seq<char>> {
        docs_map(self.entries.deep_view())
    }

    fn new() -> (r: Docs)
        ensures
            r.as_map() == Map::<Seq<char>, Seq<char>>::empty(),
    {
        let r = Docs { entries: Vec::new() };
        proof {
            assert(r.entries.deep_view() =~~= Seq::<(Seq<char>, Seq<char>)>::empty());
        }
        r
    }

    fn insert(&mut self, k: String, v: String)
        ensures
            final(self).as_map() == old(self).as_map().insert(k@, v@),
    {
        let ghost before = self.entries.deep_view();
        self.entries.push((k, v));
        proof {
            assert(self.entries.deep_view().drop_last() =~~= before);
        }
    }

    fn take(&mut self, k: &str) -> (r: Option<String>)
        ensures
            final(self).as_map() == old(self).as_map().remove(k@),
            match r {
                Some(v) => old(self).as_map().contains_key(k@) && v@ == old(self).as_map()[k@],
                None => !old(self).as_map().contains_key(k@),
            },
    {
        let ghost all = self.entries.deep_view();
        let mut kept: Vec<(String, String)> = Vec::new();
        let mut found: Option<String> = None;
        let mut i: usize = 0;
        let n = self.entries.len();
        proof {
            assert(kept.deep_view() =~~= spec_filter_key(all.take(0), k@));
        }
        while i < n
            invariant
                i <= n,
                n == self.entries@.len(),
                all == self.entries.deep_view(),
                kept.deep_view() == spec_filter_key(all.take(i as int), k@),
                match found {
                    Some(v) => spec_last_val(all.take(i as int), k@) == Some(v@),
                    None => spec_last_val(all.take(i as int), k@) is None,
                },
            decreases n - i,
        {
            proof {
                assert(all.take(i as int + 1).drop_last() =~~= all.take(i as int));
                assert(all.take(i as int + 1).last() == all[i as int]);
                assert(all[i as int] == (self.entries@[i as int].0@, self.entries@[i as int].1@));
            }
            let key_matches = text::eq_str(self.entries[i].0.as_str(), k);
            if key_matches {
                found = Some(self.entries[i].1.clone());
            } else {
                let ghost kept_before = kept.deep_view();
                kept.push((self.entries[i].0.clone(), self.entries[i].1.clone()));
                proof {
                    assert(kept.deep_view() =~~= kept_before.push(all[i as int]));
                }
            }
            i = i + 1;
        }
        proof {
            assert(all.take(n as int) =~~= all);
            lemma_docs_map_remove(all, k@);
            lemma_docs_map_last(all, k@);
        }
        self.entries = kept;
        found
    }
}

// ---------------------------------------------------------------------------
// Extracting documentation annotations
// ---------------------------------------------------------------------------

/// The position just before the newline that ends the trailing comment
/// region, or the start of the statement when there is no such region.
pub open spec fn spec_comments_end(s: Seq<char>) -> int {
    match text::spec_rfind_sub(s, "//"@) {
        Some(cs) => match text::spec_find_char(s.skip(cs), '\n') {
            Some(e) => cs + e,
            None => 0,
        },
        None => 0,
    }
}

/// One annotation: the text between an `@` and the next `@` (or the end of
/// the comment region), with comment markers removed and trimmed, split on
/// its first space into key and value.
pub open spec fn spec_docs_loop(
    s: Seq<char>,
    ce: int,
    offset: int,
    docs: Map<Seq<char>, Seq<char>>,
) -> Map<Seq<char>, Seq<char>>
    decreases s.len() - offset,
    when 0 <= offset <= s.len() && 0 <= ce <= s.len()
    via spec_docs_loop_decreases
{
    match text::spec_find_char(s.skip(offset), '@') {
        None => docs,
        Some(r0) => {
            let start = offset + r0;
            let end = match text::spec_find_char(s.skip(start + 1), '@') {
                Some(e2) => start + 1 + e2,
                None => ce,
            };
            let region = if start + 1 <= end <= s.len() {
                s.subrange(start + 1, end)
            } else {
                Seq::<char>::empty()
            };
            let comment = text::spec_trim(
                text::spec_replace(text::spec_replace(region, "//-"@, ""@), "//"@, ""@),
            );
            let docs2 = match text::spec_find_char(comment, ' ') {
                Some(kk) => docs.insert(comment.take(kk), comment.skip(kk + 1)),
                None => docs.insert(comment, Seq::<char>::empty()),
            };
            let next = if end > start + 1 {
                end
            } else {
                start + 1
            };
            spec_docs_loop(s, ce, next, docs2)
        },
    }
}

#[via_fn]
proof fn spec_docs_loop_decreases(
    s: Seq<char>,
    ce: int,
    offset: int,
    docs: Map<Seq<char>, Seq<char>>,
) {
    let rest = s.skip(offset);
    text::lemma_find_char_props(rest, '@');
    match text::spec_find_char(rest, '@') {
        None => {},
        Some(r0) => {
            let start = offset + r0;
            text::lemma_find_char_props(s.skip(start + 1), '@');
        },
    }
}

/// The annotations of a statement.
pub open spec fn spec_docs(s: Seq<char>) -> Map<Seq<char>, Seq<char>> {
    spec_docs_loop(s, spec_comments_end(s), 0, Map::<Seq<char>, Seq<char>>::empty())
}

/// The statement with its leading comment region removed.
pub open spec fn spec_body(s: Seq<char>) -> Seq<char> {
    s.skip(spec_comments_end(s))
}

// ---------------------------------------------------------------------------
// Hexadecimal identifiers
// ---------------------------------------------------------------------------

pub open spec fn is_hex_digit(c: char) -> bool {
    ('0' <= c && c <= '9') || ('a' <= c && c <= 'f') || ('A' <= c && c <= 'F')
}

pub open spec fn hex_digit_val(c: char) -> int {
    if '0' <= c && c <= '9' {
        c as int - 48
    } else if 'a' <= c && c <= 'f' {
        c as int - 87
    } else if 'A' <= c && c <= 'F' {
        c as int - 55
    } else {
        0
    }
}

pub open spec fn spec_hex_int(s: Seq<char>) -> int
    decreases s.len(),
{
    if s.len() == 0 {
        0
    } else {
        spec_hex_int(s.drop_last()) * 16 + hex_digit_val(s.last())
    }
}

/// The value of an explicit hexadecimal identifier, if the text is one.
pub open spec fn spec_parse_hex(s: Seq<char>) -> Option<u32> {
    if s.len() > 0 && (forall|i: int| 0 <= i < s.len() ==> is_hex_digit(s[i])) && spec_hex_int(s)
        <= u32::MAX {
        Some(spec_hex_int(s) as u32)
    } else {
        None
    }
}

proof fn lemma_hex_int_nonneg(s: Seq<char>)
    ensures
        spec_hex_int(s) >= 0,
    decreases s.len(),
{
    if s.len() > 0 {
        lemma_hex_int_nonneg(s.drop_last());
    }
}

proof fn lemma_hex_int_extend_exceeds(s: Seq<char>, i: int)
    requires
        0 <= i <= s.len(),
        spec_hex_int(s.take(i)) > u32::MAX,
    ensures
        spec_hex_int(s) > u32::MAX,
    decreases s.len() - i,
{
    if i == s.len() {
        assert(s.take(i) =~= s);
    } else {
        assert(s.take(i + 1).drop_last() =~= s.take(i));
        assert(s.take(i + 1).last() == s[i]);
        lemma_hex_int_nonneg(s.take(i));
        lemma_hex_int_extend_exceeds(s, i + 1);
    }
}

fn hex_digit(c: char) -> (r: Option<u32>)
    ensures
        match r {
            Some(d) => is_hex_digit(c) && d == hex_digit_val(c),
            None => !is_hex_digit(c),
        },
{
    if c >= '0' && c <= '9' {
        Some((c as u32) - 48)
    } else if c >= 'a' && c <= 'f' {
        Some((c as u32) - 87)
    } else if c >= 'A' && c <= 'F' {
        Some((c as u32) - 55)
    } else {
        None
    }
}

fn parse_hex(v: &[char]) -> (r: Option<u32>)
    ensures
        r == spec_parse_hex(v@),
{
    let n = v.len();
    if n == 0 {
        return None;
    }
    let mut acc: u32 = 0;
    let mut i: usize = 0;
    while i < n
        invariant
            i <= n,
            n == v@.len(),
            acc == spec_hex_int(v@.take(i as int)),
            forall|j: int| 0 <= j < i ==> is_hex_digit(v@[j]),
        decreases n - i,
    {
        proof {
            assert(v@.take(i as int + 1).drop_last() =~= v@.take(i as int));
            assert(v@.take(i as int + 1).last() == v@[i as int]);
        }
        match hex_digit(v[i]) {
            None => {
                return None;
            },
            Some(d) => {
                if acc > (u32::MAX - d) / 16 {
                    proof {
                        lemma_hex_int_extend_exceeds(v@, i as int + 1);
                    }
                    return None;
                }
                acc = acc * 16 + d;
            },
        }
        i = i + 1;
    }
    proof {
        assert(v@.take(n as int) =~= v@);
    }
    Some(acc)
}

// ---------------------------------------------------------------------------
// Parsing a definition
// ---------------------------------------------------------------------------

/// Parsing the parameter tokens in order. A parsed parameter claims (and
/// consumes) the annotation keyed by its name, or `param_description` if the
/// parameter is literally named `description`; a generic type definition is
/// dropped from the field list; an unknown token fails the whole statement.
pub open spec fn spec_params_loop(
    tokens: Seq<Seq<char>>,
    docs: Map<Seq<char>, Seq<char>>,
) -> Result<(Seq<ParameterV>, Map<Seq<char>, Seq<char>>), ParseErrorV>
    decreases tokens.len(),
{
    if tokens.len() == 0 {
        Ok((Seq::<ParameterV>::empty(), docs))
    } else {
        match spec_parse_parameter(tokens[0]) {
            Ok(p0) => {
                let key = if p0.name == "description"@ {
                    "param_description"@
                } else {
                    p0.name
                };
                let p = if docs.contains_key(key) {
                    ParameterV { name: p0.name, ty: p0.ty, description: docs[key] }
                } else {
                    p0
                };
                let docs2 = if docs.contains_key(key) {
                    docs.remove(key)
                } else {
                    docs
                };
                match spec_params_loop(tokens.drop_first(), docs2) {
                    Ok(rest) => Ok((seq![p] + rest.0, rest.1)),
                    Err(e) => Err(e),
                }
            },
            Err(ParamParseErrorV::NotImplemented) => Err(ParseErrorV::NotImplemented),
            Err(ParamParseErrorV::TypeDef { name }) => spec_params_loop(
                tokens.drop_first(),
                docs,
            ),
            Err(e) => Err(ParseErrorV::InvalidParam(e)),
        }
    }
}

/// What parsing one full statement yields.
pub open spec fn spec_parse_definition(s: Seq<char>) -> Result<DefinitionV, ParseErrorV> {
    if text::spec_trim(s).len() == 0 {
        Err(ParseErrorV::Empty)
    } else {
        let docs = spec_docs(s);
        let body = spec_body(s);
        match text::spec_find_char(body, '=') {
            None => Err(ParseErrorV::MissingType),
            Some(e) => {
                let left = text::spec_trim(body.take(e));
                let after = body.skip(e + 1);
                let tytext = match text::spec_find_char(after, '=') {
                    Some(e2) => text::spec_trim(after.take(e2)),
                    None => text::spec_trim(after),
                };
                match spec_parse_type(tytext) {
                    Err(_) => Err(ParseErrorV::MissingType),
                    Ok(ty) => {
                        let rawname = match text::spec_find_char(left, ' ') {
                            Some(pos) => text::spec_trim(left.take(pos)),
                            None => left,
                        };
                        let middle = match text::spec_find_char(left, ' ') {
                            Some(pos) => text::spec_trim(left.skip(pos)),
                            None => Seq::<char>::empty(),
                        };
                        let name = match text::spec_find_char(rawname, '#') {
                            Some(h) => rawname.take(h),
                            None => rawname,
                        };
                        let id_text = match text::spec_find_char(rawname, '#') {
                            Some(h) => {
                                let rest = rawname.skip(h + 1);
                                match text::spec_find_char(rest, '#') {
                                    Some(h2) => Some(rest.take(h2)),
                                    None => Some(rest),
                                }
                            },
                            None => None,
                        };
                        if name.len() == 0 {
                            Err(ParseErrorV::MissingName)
                        } else {
                            let description = if docs.contains_key("description"@) {
                                docs["description"@]
                            } else {
                                Seq::<char>::empty()
                            };
                            let docs1 = docs.remove("description"@);
                            match spec_params_loop(text::spec_split_ws(middle), docs1) {
                                Err(e) => Err(e),
                                Ok(pair) => {
                                    let id = match id_text {
                                        Some(h) => match spec_parse_hex(h) {
                                            Some(x) => x,
                                            None => spec_infer_id(text::spec_trim(body)),
                                        },
                                        None => spec_infer_id(text::spec_trim(body)),
                                    };
                                    Ok(
                                        DefinitionV {
                                            name,
                                            description,
                                            params: pair.0,
                                            ty,
                                            category: Category::Types,
                                            id,
                                        },
                                    )
                                },
                            }
                        }
                    },
                }
            },
        }
    }
}

// ---------------------------------------------------------------------------
// Rendering
// ---------------------------------------------------------------------------

/// The rendering of a parameter list: one space before each parameter.
pub open spec fn spec_render_params(ps: Seq<ParameterV>) -> Seq<char>
    decreases ps.len(),
{
    if ps.len() == 0 {
        Seq::<char>::empty()
    } else {
        spec_render_params(ps.drop_last()) + seq![' '] + spec_render_parameter(ps.last())
    }
}

/// The textual rendering of a definition: name, parameters, ` = `, type.
pub open spec fn spec_render_definition(d: DefinitionV) -> Seq<char> {
    d.name + spec_render_params(d.params) + " = "@ + spec_render_type(d.ty)
}

impl Definition {
    /// Parses one full Type Language statement: documentation annotations,
    /// `name#id parameters = type`.
    pub fn from_str(definition: &str) -> (r: Result<Definition, ParseError>)
        ensures
            match r {
                Ok(d) => spec_parse_definition(definition@) == Ok::<DefinitionV, ParseErrorV>(d@),
                Err(e) => spec_parse_definition(definition@) == Err::<DefinitionV, ParseErrorV>(
                    e@,
                ),
            },
    {
        let v = text::str_chars(definition);
        let n = v.len();
        let trimmed = text::trim(v.as_slice());
        if trimmed.len() == 0 {
            return Err(ParseError::Empty);
        }
        let slashes = text::str_chars("//");
        proof {
            reveal_strlit("//");
            assert(slashes@.len() == 2);
        }

        // Locate the end of the comment region.
        let ce: usize = match text::rfind_sub(v.as_slice(), slashes.as_slice()) {
            Some(cs) => {
                match text::find_char_from(v.as_slice(), '\n', cs) {
                    Some(e) => e,
                    None => 0,
                }
            },
            None => 0,
        };
        proof {
            assert(ce as int == spec_comments_end(v@));
            assert(ce <= n);
        }

        // Collect the documentation annotations.
        let mut docs = Docs::new();
        let mut offset: usize = 0;
        loop
            invariant
                offset <= n,
                n == v@.len(),
                ce <= n,
                ce as int == spec_comments_end(v@),
                spec_docs_loop(v@, ce as int, offset as int, docs.as_map()) == spec_docs(v@),
            ensures
                docs.as_map() == spec_docs(v@),
            decreases n - offset,
        {
            match text::find_char_from(v.as_slice(), '@', offset) {
                None => {
                    break ;
                },
                Some(start) => {
                    let end: usize = match text::find_char_from(v.as_slice(), '@', start + 1) {
                        Some(e2) => e2,
                        None => ce,
                    };
                    let region: Vec<char> = if start + 1 <= end {
                        text::subvec(v.as_slice(), start + 1, end)
                    } else {
                        Vec::new()
                    };
                    proof {
                        if start + 1 <= end {
                            assert(region@ =~= v@.subrange(start + 1, end as int));
                        } else {
                            assert(region@ =~= Seq::<char>::empty());
                        }
                    }
                    let dash = text::str_chars("//-");
                    let slash2 = text::str_chars("//");
                    let empty: Vec<char> = Vec::new();
                    proof {
                        reveal_strlit("//-");
                        reveal_strlit("//");
                        assert(dash@.len() == 3);
                        assert(slash2@.len() == 2);
                        assert(empty@ =~= ""@) by {
                            reveal_strlit("");
                        }
                    }
                    let c1 = text::replace(region.as_slice(), dash.as_slice(), empty.as_slice());
                    let c2 = text::replace(c1.as_slice(), slash2.as_slice(), empty.as_slice());
                    let comment = text::trim(c2.as_slice());
                    let clen = comment.len();
                    match text::find_char(comment.as_slice(), ' ') {
                        Some(kk) => {
                            let key = text::subvec(comment.as_slice(), 0, kk);
                            let val = text::subvec(comment.as_slice(), kk + 1, clen);
                            proof {
                                assert(key@ =~= comment@.take(kk as int));
                                assert(val@ =~= comment@.skip(kk as int + 1));
                            }
                            docs.insert(
                                text::chars_string(key.as_slice()),
                                text::chars_string(val.as_slice()),
                            );
                        },
                        None => {
                            docs.insert(text::chars_string(comment.as_slice()), String::new());
                        },
                    }
                    let next_offset: usize = if end > start + 1 {
                        end
                    } else {
                        start + 1
                    };
                    proof {
                        assert(spec_docs_loop(v@, ce as int, next_offset as int, docs.as_map())
                            == spec_docs(v@));
                    }
                    offset = next_offset;
                },
            }
        }

        // Split the body on the first `=` into the left-hand side and the
        // result type.
        let body = text::subvec(v.as_slice(), ce, n);
        proof {
            assert(body@ =~= spec_body(v@));
        }
        let eq_pos = match text::find_char(body.as_slice(), '=') {
            None => {
                return Err(ParseError::MissingType);
            },
            Some(e) => e,
        };
        let left_raw = text::subvec(body.as_slice(), 0, eq_pos);
        proof {
            assert(left_raw@ =~= body@.take(eq_pos as int));
        }
        let left = text::trim(left_raw.as_slice());
        let after = text::subvec(body.as_slice(), eq_pos + 1, body.len());
        proof {
            assert(after@ =~= body@.skip(eq_pos as int + 1));
        }
        let tyvec = match text::find_char(after.as_slice(), '=') {
            Some(e2) => {
                let t = text::subvec(after.as_slice(), 0, e2);
                proof {
                    assert(t@ =~= after@.take(e2 as int));
                }
                text::trim(t.as_slice())
            },
            None => text::trim(after.as_slice()),
        };
        let ty = match Type::from_chars(tyvec.as_slice()) {
            Err(_) => {
                return Err(ParseError::MissingType);
            },
            Ok(t) => t,
        };

        // Split the left-hand side into the raw name and the parameter text.
        let (rawname, middle): (Vec<char>, Vec<char>) = match text::find_char(left.as_slice(), ' ')
            {
            Some(pos) => {
                let a = text::subvec(left.as_slice(), 0, pos);
                let b = text::subvec(left.as_slice(), pos, left.len());
                proof {
                    assert(a@ =~= left@.take(pos as int));
                    assert(b@ =~= left@.skip(pos as int));
                }
                (text::trim(a.as_slice()), text::trim(b.as_slice()))
            },
            None => (left, Vec::new()),
        };

        // Split an explicit `#id` off the name.
        let (namev, id_text): (Vec<char>, Option<Vec<char>>) = match text::find_char(
            rawname.as_slice(),
            '#',
        ) {
            Some(h) => {
                let rlen = rawname.len();
                let rest = text::subvec(rawname.as_slice(), h + 1, rlen);
                proof {
                    assert(rest@ =~= rawname@.skip(h as int + 1));
                }
                let idt = match text::find_char(rest.as_slice(), '#') {
                    Some(h2) => {
                        let t = text::subvec(rest.as_slice(), 0, h2);
                        proof {
                            assert(t@ =~= rest@.take(h2 as int));
                        }
                        t
                    },
                    None => rest,
                };
                let nm = text::subvec(rawname.as_slice(), 0, h);
                proof {
                    assert(nm@ =~= rawname@.take(h as int));
                }
                (nm, Some(idt))
            },
            None => (rawname, None),
        };
        if namev.len() == 0 {
            return Err(ParseError::MissingName);
        }

        // Claim the definition's own description.
        let description = match docs.take("description") {
            Some(d) => d,
            None => String::new(),
        };
        let ghost docs1 = docs.as_map();

        // Parse the parameters, claiming their annotations in order.
        let tokens = text::split_ws(middle.as_slice());
        let ghost tseq = tokens.deep_view();
        let mut params: Vec<Parameter> = Vec::new();
        let mut ti: usize = 0;
        let tn = tokens.len();
        proof {
            assert(tseq.skip(0) =~~= tseq);
            assert(Seq::new(params@.len(), |i: int| params@[i]@) =~= Seq::<ParameterV>::empty());
        }
        let mut perr: Option<ParseError> = None;
        loop
            invariant_except_break
                perr is None,
                match spec_params_loop(tseq.skip(ti as int), docs.as_map()) {
                    Ok(pair) => spec_params_loop(tseq, docs1) == Ok::<
                        (Seq<ParameterV>, Map<Seq<char>, Seq<char>>),
                        ParseErrorV,
                    >((Seq::new(params@.len(), |i: int| params@[i]@) + pair.0, pair.1)),
                    Err(e) => spec_params_loop(tseq, docs1) == Err::<
                        (Seq<ParameterV>, Map<Seq<char>, Seq<char>>),
                        ParseErrorV,
                    >(e),
                },
            invariant
                ti <= tn,
                tn == tokens@.len(),
                tseq == tokens.deep_view(),
                tseq.len() == tn,
                forall|j: int| 0 <= j < tn ==> tseq[j] == #[trigger] tokens@[j]@,
            ensures
                match perr {
                    None => spec_params_loop(tseq, docs1) == Ok::<
                        (Seq<ParameterV>, Map<Seq<char>, Seq<char>>),
                        ParseErrorV,
                    >((Seq::new(params@.len(), |i: int| params@[i]@), docs.as_map())),
                    Some(e) => spec_params_loop(tseq, docs1) == Err::<
                        (Seq<ParameterV>, Map<Seq<char>, Seq<char>>),
                        ParseErrorV,
                    >(e@),
                },
            decreases tn - ti,
        {
            if ti >= tn {
                proof {
                    assert(tseq.skip(tn as int) =~~= Seq::<Seq<char>>::empty());
                    assert(Seq::new(params@.len(), |i: int| params@[i]@)
                        + Seq::<ParameterV>::empty() =~= Seq::new(
                        params@.len(),
                        |i: int| params@[i]@,
                    ));
                }
                break ;
            }
            let ghost rest = tseq.skip(ti as int);
            proof {
                assert(rest[0] == tseq[ti as int]);
                assert(rest.drop_first() =~~= tseq.skip(ti as int + 1));
            }
            match Parameter::from_chars(tokens[ti].as_slice()) {
                Ok(p) => {
                    let mut p = p;
                    let ghost p0v = p@;
                    let ghost docs_before = docs.as_map();
                    let ghost keyv: Seq<char> = if p0v.name == "description"@ {
                        "param_description"@
                    } else {
                        p0v.name
                    };
                    let claimed: Option<String> = if text::eq_str(
                        p.name.as_str(),
                        "description",
                    ) {
                        docs.take("param_description")
                    } else {
                        docs.take(p.name.as_str())
                    };
                    proof {
                        assert(docs.as_map() == docs_before.remove(keyv));
                        if !docs_before.contains_key(keyv) {
                            assert(docs_before.remove(keyv) =~~= docs_before);
                        }
                    }
                    match claimed {
                        Some(d) => {
                            p.description = d;
                        },
                        None => {},
                    }
                    proof {
                        if docs_before.contains_key(keyv) {
                            assert(p@ == ParameterV {
                                name: p0v.name,
                                ty: p0v.ty,
                                description: docs_before[keyv],
                            });
                        } else {
                            assert(p@ == p0v);
                        }
                        assert(spec_parse_parameter(rest[0]) == Ok::<
                            ParameterV,
                            crate::errors::ParamParseErrorV,
                        >(p0v));
                    }
                    let ghost pv = Seq::new(params@.len(), |i: int| params@[i]@);
                    params.push(p);
                    proof {
                        assert(Seq::new(params@.len(), |i: int| params@[i]@) =~= pv.push(p@));
                        match spec_params_loop(tseq.skip(ti as int + 1), docs.as_map()) {
                            Ok(pair) => {
                                assert(spec_params_loop(rest, docs_before) == Ok::<
                                    (Seq<ParameterV>, Map<Seq<char>, Seq<char>>),
                                    ParseErrorV,
                                >((seq![p@] + pair.0, pair.1)));
                                assert(pv.push(p@) + pair.0 =~= pv + (seq![p@] + pair.0));
                            },
                            Err(e) => {
                                assert(spec_params_loop(rest, docs_before) == Err::<
                                    (Seq<ParameterV>, Map<Seq<char>, Seq<char>>),
                                    ParseErrorV,
                                >(e));
                            },
                        }
                    }
                },
                Err(ParamParseError::NotImplemented) => {
                    perr = Some(ParseError::NotImplemented);
                    break ;
                },
                Err(ParamParseError::TypeDef { name: _ }) => {},
                Err(e) => {
                    perr = Some(ParseError::InvalidParam(e));
                    break ;
                },
            }
            ti = ti + 1;
        }
        match perr {
            Some(e) => {
                return Err(e);
            },
            None => {},
        }

        // Compute the identifier: an explicit hexadecimal one, or the
        // checksum of the canonicalized body.
        let trimmed_body = text::trim(body.as_slice());
        let id: u32 = {
            let explicit: Option<u32> = match &id_text {
                Some(h) => parse_hex(h.as_slice()),
                None => None,
            };
            match explicit {
                Some(x) => x,
                None => crate::utils::infer_id(
                    text::chars_string(trimmed_body.as_slice()).as_str(),
                ),
            }
        };

        let d = Definition {
            name: text::chars_string(namev.as_slice()),
            description,
            params,
            ty,
            category: Category::Types,
            id,
        };
        proof {
            assert(spec_parse_definition(definition@) == Ok::<DefinitionV, ParseErrorV>(d@));
        }
        Ok(d)
    }

    /// Renders the definition back to its textual form.
    pub fn to_string(&self) -> (r: String)
        ensures
            r@ == spec_render_definition(self@),
    {
        let mut out: Vec<char> = Vec::new();
        text::append_string(&mut out, &self.name);
        let ghost pview = self@.params;
        let mut i: usize = 0;
        let n = self.params.len();
        proof {
            assert(pview.take(0) =~= Seq::<ParameterV>::empty());
            assert(out@ =~= self.name@ + spec_render_params(pview.take(0)));
        }
        while i < n
            invariant
                i <= n,
                n == self.params@.len(),
                pview == self@.params,
                pview.len() == n,
                forall|j: int| 0 <= j < n ==> pview[j] == #[trigger] self.params@[j]@,
                out@ == self.name@ + spec_render_params(pview.take(i as int)),
            decreases n - i,
        {
            out.push(' ');
            self.params[i].push_rendered(&mut out);
            proof {
                assert(pview.take(i as int + 1).drop_last() =~= pview.take(i as int));
                assert(pview.take(i as int + 1).last() == pview[i as int]);
                assert(out@ =~= self.name@ + spec_render_params(pview.take(i as int + 1)));
            }
            i = i + 1;
        }
        text::append_str(&mut out, " = ");
        self.ty.push_rendered(&mut out);
        proof {
            assert(pview.take(n as int) =~= pview);
            assert(out@ =~= spec_render_definition(self@));
        }
        text::chars_string(out.as_slice())
    }

    /// Structural equality of two definitions.
    pub fn same_value(&self, other: &Definition) -> (r: bool)
        ensures
            r == (self@ == other@),
    {
        if !(self.name == other.name && self.description == other.description && self.id
            == other.id && self.category == other.category) {
            return false;
        }
        if !self.ty.same_value(&other.ty) {
            return false;
        }
        if self.params.len() != other.params.len() {
            proof {
                assert(self@.params.len() != other@.params.len());
            }
            return false;
        }
        let n = self.params.len();
        let mut i: usize = 0;
        while i < n
            invariant
                i <= n,
                n == self.params@.len(),
                n == other.params@.len(),
                forall|j: int| 0 <= j < i ==> #[trigger] self.params@[j]@ == other.params@[j]@,
            decreases n - i,
        {
            if !self.params[i].same_value(&other.params[i]) {
                proof {
                    assert(self@.params[i as int] != other@.params[i as int]);
                }
                return false;
            }
            i = i + 1;
        }
        proof {
            assert(self@.params =~= other@.params);
        }
        true
    }
}

impl PartialEq for Definition {
    fn eq(&self, other: &Definition) -> (r: bool) {
        self.same_value(other)
    }
}

impl vstd::std_specs::cmp::PartialEqSpecImpl for Definition {
    open spec fn obeys_eq_spec() -> bool {
        true
    }

    open spec fn eq_spec(&self, other: &Definition) -> bool {
        self@ == other@
    }
}


// ---------------------------------------------------------------------------
// Round-trip stability
// ---------------------------------------------------------------------------

/// A character that plays no structural role in a statement: not white
/// space, not the statement structure `=`/`#`, not a comment or annotation
/// opener.
pub open spec fn plain_char(c: char) -> bool {
    &&& !text::is_space_char(c)
    &&& c != '='
    &&& c != '#'
    &&& c != '@'
    &&& c != '/'
}

pub open spec fn plain_seq(s: Seq<char>) -> bool {
    forall|i: int| 0 <= i < s.len() ==> plain_char(#[trigger] s[i])
}

/// Every name in the type is plain.
pub open spec fn plain_type(t: TypeV) -> bool
    decreases t,
{
    &&& plain_seq(t.name)
    &&& match t.generic_arg {
        Some(a) => plain_type(*a),
        None => true,
    }
}

/// A plain type renders to plain text.
proof fn lemma_render_type_plain(t: TypeV)
    requires
        plain_type(t),
    ensures
        plain_seq(spec_render_type(t)),
    decreases t,
{
    let s = spec_render_type(t);
    let pre: Seq<char> = if t.generic_ref {
        seq!['!']
    } else {
        Seq::<char>::empty()
    };
    let plen = pre.len() as int;
    let nlen = t.name.len() as int;
    match t.generic_arg {
        Some(a) => {
            lemma_render_type_plain(*a);
            let inner = spec_render_type(*a);
            assert forall|i: int| 0 <= i < s.len() implies plain_char(#[trigger] s[i]) by {
                if i < plen {
                    assert(s[i] == '!');
                } else if i < plen + nlen {
                    assert(s[i] == t.name[i - plen]);
                } else if i == plen + nlen {
                    assert(s[i] == '<');
                } else if i < plen + nlen + 1 + inner.len() {
                    assert(s[i] == inner[i - plen - nlen - 1]);
                } else {
                    assert(s[i] == '>');
                }
            }
        },
        None => {
            assert forall|i: int| 0 <= i < s.len() implies plain_char(#[trigger] s[i]) by {
                if i < plen {
                    assert(s[i] == '!');
                } else {
                    assert(s[i] == t.name[i - plen]);
                }
            }
        },
    }
}

/// A definition value that renders to a plain, canonical statement: plain
/// names throughout, well-formed parameters, no documentation, a type
/// constructor.
pub open spec fn wf_definition(d: DefinitionV) -> bool {
    &&& d.name.len() > 0
    &&& plain_seq(d.name)
    &&& d.description == Seq::<char>::empty()
    &&& d.category == Category::Types
    &&& crate::tl::ty::wf_type(d.ty)
    &&& plain_type(d.ty)
    &&& forall|i: int|
        0 <= i < d.params.len() ==> {
            &&& crate::tl::parameter::wf_parameter(#[trigger] d.params[i])
            &&& d.params[i].description == Seq::<char>::empty()
            &&& plain_seq(d.params[i].name)
            &&& plain_type(d.params[i].ty)
        }
}

/// A well-formed, plain parameter renders to a plain token.
proof fn lemma_render_parameter_plain(p: ParameterV)
    requires
        plain_seq(p.name),
        plain_type(p.ty),
    ensures
        plain_seq(spec_render_parameter(p)),
        spec_render_parameter(p).len() > 0,
{
    lemma_render_type_plain(p.ty);
    let s = spec_render_parameter(p);
    let nlen = p.name.len() as int;
    let inner = spec_render_type(p.ty);
    assert forall|i: int| 0 <= i < s.len() implies plain_char(#[trigger] s[i]) by {
        if i < nlen {
            assert(s[i] == p.name[i]);
        } else if i == nlen {
            assert(s[i] == ':');
        } else {
            assert(s[i] == inner[i - nlen - 1]);
        }
    }
}

/// The parameter list renders front-first as well.
proof fn lemma_render_params_cons(ps: Seq<ParameterV>)
    requires
        ps.len() > 0,
    ensures
        spec_render_params(ps) == seq![' '] + spec_render_parameter(ps[0]) + spec_render_params(
            ps.drop_first(),
        ),
    decreases ps.len(),
{
    if ps.len() == 1 {
        assert(ps.drop_last() =~= Seq::<ParameterV>::empty());
        assert(ps.drop_first() =~= Seq::<ParameterV>::empty());
        assert(spec_render_params(ps) =~= seq![' '] + spec_render_parameter(ps[0])
            + spec_render_params(ps.drop_first()));
    } else {
        let dl = ps.drop_last();
        lemma_render_params_cons(dl);
        assert(dl[0] == ps[0]);
        assert(ps.drop_first().drop_last() =~= dl.drop_first());
        assert(ps.drop_first().last() == ps.last());
        assert(spec_render_params(ps.drop_first()) == spec_render_params(dl.drop_first())
            + seq![' '] + spec_render_parameter(ps.last()));
        assert(spec_render_params(ps) =~= seq![' '] + spec_render_parameter(ps[0])
            + spec_render_params(ps.drop_first()));
    }
}

/// The rendered parameter list is plain apart from its separating spaces:
/// every character is plain or the single space before each parameter.
proof fn lemma_render_params_shape(ps: Seq<ParameterV>)
    requires
        forall|i: int|
            0 <= i < ps.len() ==> plain_seq(#[trigger] ps[i].name) && plain_type(ps[i].ty),
    ensures
        forall|i: int|
            0 <= i < spec_render_params(ps).len() ==> (plain_char(
                #[trigger] spec_render_params(ps)[i],
            ) || spec_render_params(ps)[i] == ' '),
        ps.len() > 0 ==> spec_render_params(ps).len() > 0 && spec_render_params(ps)[0] == ' '
            && !text::is_space_char(spec_render_params(ps).last()) && plain_char(
            spec_render_params(ps).last(),
        ),
    decreases ps.len(),
{
    if ps.len() > 0 {
        let dl = ps.drop_last();
        lemma_render_params_shape(dl);
        lemma_render_parameter_plain(ps.last());
        let prev = spec_render_params(dl);
        let tok = spec_render_parameter(ps.last());
        let s = spec_render_params(ps);
        assert(s == prev + seq![' '] + tok);
        assert forall|i: int| 0 <= i < s.len() implies (plain_char(#[trigger] s[i]) || s[i]
            == ' ') by {
            if i < prev.len() {
                assert(s[i] == prev[i]);
            } else if i == prev.len() {
                assert(s[i] == ' ');
            } else {
                assert(s[i] == tok[i - prev.len() - 1]);
            }
        }
        assert(s.last() == tok.last());
        if dl.len() == 0 {
            assert(prev =~= Seq::<char>::empty());
            assert(s[0] == ' ');
        } else {
            assert(s[0] == prev[0]);
        }
    }
}

/// The rendered tokens of a parameter list.
pub open spec fn tokens_of(ps: Seq<ParameterV>) -> Seq<Seq<char>> {
    Seq::new(ps.len(), |i: int| spec_render_parameter(ps[i]))
}

/// Splitting the rendered parameter list recovers the rendered tokens.
proof fn lemma_split_render_params(ps: Seq<ParameterV>)
    requires
        forall|i: int|
            0 <= i < ps.len() ==> plain_seq(#[trigger] ps[i].name) && plain_type(ps[i].ty),
    ensures
        text::spec_split_ws(spec_render_params(ps)) == tokens_of(ps),
    decreases ps.len(),
{
    if ps.len() == 0 {
        assert(text::spec_split_ws(spec_render_params(ps)) =~= tokens_of(ps));
    } else {
        lemma_render_params_cons(ps);
        let tok = spec_render_parameter(ps[0]);
        let rest = spec_render_params(ps.drop_first());
        let s = spec_render_params(ps);
        assert(s == seq![' '] + tok + rest);
        lemma_render_parameter_plain(ps[0]);
        assert forall|i: int|
            0 <= i < ps.drop_first().len() implies plain_seq(
            #[trigger] ps.drop_first()[i].name,
        ) && plain_type(ps.drop_first()[i].ty) by {
            assert(ps.drop_first()[i] == ps[i + 1]);
        }
        lemma_render_params_shape(ps.drop_first());
        lemma_split_render_params(ps.drop_first());
        // The head space is skipped.
        assert(s[0] == ' ');
        assert(s.drop_first() =~= tok + rest);
        // The token runs to the next space or the end.
        let body = tok + rest;
        assert(forall|j: int| 0 <= j < tok.len() ==> body[j] == tok[j]);
        if ps.drop_first().len() == 0 {
            assert(rest =~= Seq::<char>::empty());
            assert(body =~= tok);
            assert forall|j: int| 0 <= j < body.len() implies !text::is_space_char(
                #[trigger] body[j],
            ) by {
                assert(body[j] == tok[j]);
            }
            match text::spec_find_space(body) {
                Some(k) => {
                    text::lemma_find_space_props(body);
                    assert(false);
                },
                None => {},
            }
            assert(!text::is_space_char(body[0]));
            assert(text::spec_split_ws(s) == text::spec_split_ws(body));
            assert(text::spec_split_ws(body) == seq![body]);
            assert(text::spec_split_ws(s) =~~= tokens_of(ps)) by {
                assert(tokens_of(ps).len() == 1);
                assert(tokens_of(ps)[0] == tok);
                assert(seq![body][0] == body);
            }
        } else {
            assert(rest[0] == ' ');
            assert(body[tok.len() as int] == ' ');
            assert(forall|j: int| 0 <= j < tok.len() ==> !text::is_space_char(body[j]));
            text::lemma_find_space_is_pub(body, tok.len() as int);
            assert(body.take(tok.len() as int) =~= tok);
            assert(body.skip(tok.len() as int) =~= rest);
            assert(text::spec_split_ws(s) == text::spec_split_ws(body));
            assert(text::spec_split_ws(body) == seq![tok] + text::spec_split_ws(rest));
            assert(text::spec_split_ws(s) =~~= tokens_of(ps)) by {
                assert(text::spec_split_ws(s) == seq![tok] + tokens_of(ps.drop_first()));
                assert forall|i: int|
                    0 <= i < ps.len() implies (seq![tok] + tokens_of(ps.drop_first()))[i]
                    == tokens_of(ps)[i] by {
                    if i > 0 {
                        assert(ps.drop_first()[i - 1] == ps[i]);
                    }
                }
            }
        }
    }
}

/// Parsing the rendered tokens with no annotations yields the parameters.
proof fn lemma_params_loop_tokens(ps: Seq<ParameterV>)
    requires
        forall|i: int|
            0 <= i < ps.len() ==> crate::tl::parameter::wf_parameter(#[trigger] ps[i])
                && ps[i].description == Seq::<char>::empty(),
    ensures
        spec_params_loop(tokens_of(ps), Map::<Seq<char>, Seq<char>>::empty()) == Ok::<
            (Seq<ParameterV>, Map<Seq<char>, Seq<char>>),
            ParseErrorV,
        >((ps, Map::<Seq<char>, Seq<char>>::empty())),
    decreases ps.len(),
{
    let toks = tokens_of(ps);
    if ps.len() == 0 {
        assert(toks =~~= Seq::<Seq<char>>::empty());
        assert(spec_params_loop(toks, Map::<Seq<char>, Seq<char>>::empty()) == Ok::<
            (Seq<ParameterV>, Map<Seq<char>, Seq<char>>),
            ParseErrorV,
        >((Seq::<ParameterV>::empty(), Map::<Seq<char>, Seq<char>>::empty())));
        assert(ps =~= Seq::<ParameterV>::empty());
    } else {
        crate::tl::parameter::lemma_render_parse_parameter(ps[0]);
        assert(spec_parse_parameter(toks[0]) == Ok::<
            ParameterV,
            crate::errors::ParamParseErrorV,
        >(ParameterV { name: ps[0].name, ty: ps[0].ty, description: Seq::<char>::empty() }));
        assert(ParameterV { name: ps[0].name, ty: ps[0].ty, description: Seq::<char>::empty() }
            == ps[0]);
        assert forall|i: int|
            0 <= i < ps.drop_first().len() implies crate::tl::parameter::wf_parameter(
            #[trigger] ps.drop_first()[i],
        ) && ps.drop_first()[i].description == Seq::<char>::empty() by {
            assert(ps.drop_first()[i] == ps[i + 1]);
        }
        lemma_params_loop_tokens(ps.drop_first());
        assert(toks.drop_first() =~~= tokens_of(ps.drop_first()));
        assert(!Map::<Seq<char>, Seq<char>>::empty().contains_key(ps[0].name));
        assert(seq![ps[0]] + ps.drop_first() =~= ps);
    }
}

/// The rendered statement of a well-formed definition decomposes exactly
/// into its name, parameter text, separator and type text.
#[verifier::rlimit(100)]
proof fn lemma_render_shape(d: DefinitionV)
    requires
        wf_definition(d),
    ensures
        ({
            let s = spec_render_definition(d);
            let rp = spec_render_params(d.params);
            let rt = spec_render_type(d.ty);
            let nlen = d.name.len() as int;
            let rplen = rp.len() as int;
            let epos = nlen + rplen + 1;
            &&& rt.len() > 0
            &&& s.len() == nlen + rplen + 3 + rt.len()
            &&& text::spec_trim(s) == s
            &&& s.len() > 0
            &&& spec_comments_end(s) == 0
            &&& spec_body(s) == s
            &&& spec_docs(s) == Map::<Seq<char>, Seq<char>>::empty()
            &&& text::spec_find_char(s, '=') == Some(epos)
            &&& text::spec_trim(s.take(epos)) == d.name + rp
            &&& text::spec_find_char(s.skip(epos + 1), '=') is None
            &&& text::spec_trim(s.skip(epos + 1)) == rt
            &&& spec_parse_type(rt) == Ok::<TypeV, crate::errors::ParamParseErrorV>(d.ty)
            &&& text::spec_find_char(d.name, '#') is None
        }),
{
    let s = spec_render_definition(d);
    let rp = spec_render_params(d.params);
    let rt = spec_render_type(d.ty);
    assert(s == d.name + rp + " = "@ + rt);
    lemma_render_type_plain(d.ty);
    lemma_render_params_shape(d.params);
    crate::tl::ty::lemma_render_parse_type(d.ty);
    assert(rt.len() > 0);
    let nlen = d.name.len() as int;
    let rplen = rp.len() as int;
    reveal_strlit(" = ");
    assert(" = "@.len() == 3);
    assert(" = "@[0] == ' ' && " = "@[1] == '=' && " = "@[2] == ' ');
    // Where each character of the statement comes from.
    assert(s.len() == nlen + rplen + 3 + rt.len());
    assert(forall|i: int| 0 <= i < nlen ==> s[i] == d.name[i]);
    assert(forall|i: int| nlen <= i < nlen + rplen ==> s[i] == rp[i - nlen]);
    assert(s[nlen + rplen] == ' ');
    assert(s[nlen + rplen + 1] == '=');
    assert(s[nlen + rplen + 2] == ' ');
    assert(forall|i: int|
        nlen + rplen + 3 <= i < s.len() ==> s[i] == rt[i - nlen - rplen - 3]);

    // The statement is already trimmed and not empty.
    assert(!text::is_space_char(s[0]));
    assert(!text::is_space_char(s[s.len() - 1]));
    text::lemma_trim_front_skip(s, 0);
    assert(s.skip(0) =~= s);
    text::lemma_trim_back_take(s, s.len() as int);
    assert(s.take(s.len() as int) =~= s);
    assert(text::spec_trim(s) == s);

    // No comment region and no annotations.
    assert forall|j: int| 0 <= j implies !text::matches_at(s, "//"@, j) by {
        reveal_strlit("//");
        if 0 <= j && j + 2 <= s.len() {
            assert(s.subrange(j, j + 2)[0] == s[j]);
            if s.subrange(j, j + 2) == "//"@ {
                assert(s[j] == '/');
            }
        }
    }
    text::lemma_rfind_sub_none(s, "//"@);
    assert(spec_comments_end(s) == 0);
    assert(spec_body(s) =~= s);
    text::lemma_find_char_none(s, '@');
    assert(spec_docs(s) =~= Map::<Seq<char>, Seq<char>>::empty()) by {
        assert(text::spec_find_char(s.skip(0), '@') is None) by {
            assert(s.skip(0) =~= s);
        }
    }

    // The first `=` is the separator.
    let epos = nlen + rplen + 1;
    text::lemma_find_char_is(s, '=', epos);
    let left_raw = s.take(epos);
    assert(left_raw =~= d.name + rp + seq![' ']);
    text::lemma_trim_front_skip(left_raw, 0);
    assert(left_raw.skip(0) =~= left_raw);
    text::lemma_trim_back_take(left_raw, epos - 1);
    assert(left_raw.take(epos - 1) =~= d.name + rp);
    assert(text::spec_trim(left_raw) == d.name + rp);
    let after = s.skip(epos + 1);
    assert(after =~= seq![' '] + rt);
    text::lemma_find_char_none(after, '=');
    text::lemma_trim_front_skip(after, 1);
    text::lemma_trim_back_take(after.skip(1), rt.len() as int);
    assert(after.skip(1) =~= rt);
    assert(after.skip(1).take(rt.len() as int) =~= rt);
    assert(text::spec_trim(after) == rt);
    text::lemma_find_char_none(d.name, '#');
}

/// Rendering a well-formed definition and parsing it back yields the same
/// definition, its identifier recomputed from the canonical text. This is
/// the round-trip stability of the textual form.
#[verifier::rlimit(100)]
pub proof fn lemma_parse_render_definition(d: DefinitionV)
    requires
        wf_definition(d),
    ensures
        spec_parse_definition(spec_render_definition(d)) == Ok::<DefinitionV, ParseErrorV>(
            DefinitionV {
                name: d.name,
                description: d.description,
                params: d.params,
                ty: d.ty,
                category: d.category,
                id: spec_infer_id(spec_render_definition(d)),
            },
        ),
{
    let s = spec_render_definition(d);
    let rp = spec_render_params(d.params);
    let rt = spec_render_type(d.ty);
    let nlen = d.name.len() as int;
    let rplen = rp.len() as int;
    let epos = nlen + rplen + 1;
    lemma_render_shape(d);
    lemma_render_params_shape(d.params);
    let left = text::spec_trim(s.take(epos));
    assert(left == d.name + rp);
    lemma_params_loop_tokens(d.params);
    assert(Map::<Seq<char>, Seq<char>>::empty().remove("description"@)
        =~= Map::<Seq<char>, Seq<char>>::empty());
    if d.params.len() == 0 {
        assert(rp =~= Seq::<char>::empty());
        assert(left =~= d.name);
        text::lemma_find_char_none(left, ' ');
        assert(text::spec_split_ws(Seq::<char>::empty()) =~~= tokens_of(d.params));
    } else {
        assert(rp[0] == ' ');
        assert(forall|j: int| 0 <= j < nlen ==> left[j] == d.name[j]);
        assert(left[nlen] == ' ');
        text::lemma_find_char_is(left, ' ', nlen);
        assert(left.take(nlen) =~= d.name);
        text::lemma_trim_front_skip(d.name, 0);
        assert(d.name.skip(0) =~= d.name);
        text::lemma_trim_back_take(d.name, nlen);
        assert(d.name.take(nlen) =~= d.name);
        assert(text::spec_trim(left.take(nlen)) == d.name);
        let middle_raw = left.skip(nlen);
        assert(middle_raw =~= rp);
        lemma_render_params_cons(d.params);
        lemma_render_parameter_plain(d.params[0]);
        assert(rp[1] == spec_render_parameter(d.params[0])[0]);
        assert(!text::is_space_char(rp[1]));
        text::lemma_trim_front_skip(rp, 1);
        text::lemma_trim_back_take(rp.skip(1), rplen - 1);
        assert(rp.skip(1).take(rplen - 1) =~= rp.skip(1));
        assert(text::spec_trim(middle_raw) == rp.skip(1));
        lemma_split_render_params(d.params);
        assert(rp.drop_first() =~= rp.skip(1));
        assert(text::spec_split_ws(rp.skip(1)) == tokens_of(d.params)) by {
            assert(text::spec_split_ws(rp) == text::spec_split_ws(rp.drop_first()));
        }
    }
}

/// Parsing, rendering and parsing again yields the first parse: the
/// round-trip stability of the textual form, for plain canonical statements
/// whose identifier is the inferred one.
pub proof fn lemma_round_trip(s: Seq<char>, d: DefinitionV)
    requires
        spec_parse_definition(s) == Ok::<DefinitionV, ParseErrorV>(d),
        wf_definition(d),
        d.id == spec_infer_id(spec_render_definition(d)),
    ensures
        spec_parse_definition(spec_render_definition(d)) == Ok::<DefinitionV, ParseErrorV>(d),
{
    lemma_parse_render_definition(d);
}


} // verus!
