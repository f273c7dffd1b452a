//! Functions mapping schema identifiers to target-language identifiers.
//!
//! Each parsed term has a corresponding rendered name, found in the matching
//! submodule: `type_name` for a type definition, `qual_name` for the
//! qualified path, `variant_name` for an `enum` variant, `attr_name` for a
//! field name.

pub mod definitions;
pub mod parameters;
pub mod types;

use vstd::prelude::*;

use crate::text;

verus! {

/// The casing state of the identifier fold: force the next letter upper
/// case, force it lower case, or keep it as written.
#[derive(Clone, Copy)]
enum Casing {
    Upper,
    Lower,
    Preserve,
}

/// The ghost counterpart of the casing state.
#[derive(Clone, Copy)]
pub ghost enum CasingV {
    Upper,
    Lower,
    Preserve,
}

impl View for Casing {
    type V = CasingV;

    closed spec fn view(&self) -> CasingV {
        match self {
            Casing::Upper => CasingV::Upper,
            Casing::Lower => CasingV::Lower,
            Casing::Preserve => CasingV::Preserve,
        }
    }
}

/// The case fold over an identifier: an underscore forces the next letter
/// upper case and is dropped; a letter written after an upper-case letter is
/// forced lower case; other letters pass through unchanged.
pub open spec fn spec_casing_fold(s: Seq<char>, st: CasingV) -> Seq<char>
    decreases s.len(),
{
    if s.len() == 0 {
        Seq::<char>::empty()
    } else {
        let c = s[0];
        if c == '_' {
            spec_casing_fold(s.drop_first(), CasingV::Upper)
        } else {
            match st {
                CasingV::Upper => seq![text::to_upper_char(c)] + spec_casing_fold(
                    s.drop_first(),
                    CasingV::Lower,
                ),
                CasingV::Lower => seq![text::to_lower_char(c)] + spec_casing_fold(
                    s.drop_first(),
                    if text::is_upper_char(c) {
                        CasingV::Lower
                    } else {
                        CasingV::Preserve
                    },
                ),
                CasingV::Preserve => seq![c] + spec_casing_fold(
                    s.drop_first(),
                    if text::is_upper_char(c) {
                        CasingV::Lower
                    } else {
                        CasingV::Preserve
                    },
                ),
            }
        }
    }
}

/// The rendered type name of a schema identifier: the namespace prefix (up
/// to the last `.`) is stripped, then the case fold is applied starting in
/// the upper-case state.
pub open spec fn spec_rusty_type_name(name: Seq<char>) -> Seq<char> {
    let base = match text::spec_rfind_char(name, '.') {
        Some(p) => name.skip(p + 1),
        None => name,
    };
    spec_casing_fold(base, CasingV::Upper)
}

/// Renders a schema identifier as a target type name, excluding namespace.
pub(crate) fn rusty_type_name(name: &str) -> (r: Vec<char>)
    ensures
        r@ == spec_rusty_type_name(name@),
{
    let v = text::str_chars(name);
    let vlen = v.len();
    let base: Vec<char> = match text::rfind_char(v.as_slice(), '.') {
        Some(p) => {
            let b = text::subvec(v.as_slice(), p + 1, vlen);
            proof {
                assert(b@ =~= v@.skip(p as int + 1));
            }
            b
        },
        None => v,
    };
    let n = base.len();
    let mut out: Vec<char> = Vec::new();
    let mut st = Casing::Upper;
    let mut i: usize = 0;
    proof {
        assert(base@.skip(0) =~= base@);
        assert(out@ + spec_casing_fold(base@, CasingV::Upper) =~= spec_casing_fold(
            base@,
            CasingV::Upper,
        ));
    }
    while i < n
        invariant
            i <= n,
            n == base@.len(),
            spec_casing_fold(base@, CasingV::Upper) == out@ + spec_casing_fold(
                base@.skip(i as int),
                st@,
            ),
        decreases n - i,
    {
        let ghost rest = base@.skip(i as int);
        proof {
            assert(rest[0] == base@[i as int]);
            assert(rest.drop_first() =~= base@.skip(i as int + 1));
        }
        let c = base[i];
        if c == '_' {
            st = Casing::Upper;
        } else {
            match st {
                Casing::Upper => {
                    out.push(text::to_upper(c));
                    st = Casing::Lower;
                },
                Casing::Lower => {
                    out.push(text::to_lower(c));
                    st = if text::is_upper(c) {
                        Casing::Lower
                    } else {
                        Casing::Preserve
                    };
                },
                Casing::Preserve => {
                    out.push(c);
                    st = if text::is_upper(c) {
                        Casing::Lower
                    } else {
                        Casing::Preserve
                    };
                },
            }
        }
        proof {
            assert(spec_casing_fold(base@, CasingV::Upper) =~= out@ + spec_casing_fold(
                base@.skip(i as int + 1),
                st@,
            ));
        }
        i = i + 1;
    }
    proof {
        assert(base@.skip(n as int) =~= Seq::<char>::empty());
        assert(out@ + spec_casing_fold(base@.skip(n as int), st@) =~= out@);
    }
    out
}

/// The documentation block for a text: each line prefixed by the indent and
/// `/// `.
pub open spec fn spec_rusty_doc(indent: Seq<char>, doc: Seq<char>) -> Seq<char> {
    indent + "/// "@ + text::spec_replace(doc, "\n"@, "\n"@ + indent + "/// "@)
}

/// Renders a documentation text as a block of doc comments.
pub(crate) fn rusty_doc(indent: &str, doc: &str) -> (r: Vec<char>)
    ensures
        r@ == spec_rusty_doc(indent@, doc@),
{
    let nl = text::str_chars("\n");
    proof {
        reveal_strlit("\n");
        assert(nl@.len() == 1);
    }
    let mut rep: Vec<char> = Vec::new();
    text::append_str(&mut rep, "\n");
    text::append_str(&mut rep, indent);
    text::append_str(&mut rep, "/// ");
    let doc_v = text::str_chars(doc);
    let replaced = text::replace(doc_v.as_slice(), nl.as_slice(), rep.as_slice());
    let mut out: Vec<char> = Vec::new();
    text::append_str(&mut out, indent);
    text::append_str(&mut out, "/// ");
    text::append_chars(&mut out, replaced.as_slice());
    proof {
        assert(out@ =~= spec_rusty_doc(indent@, doc@));
    }
    out
}

} // verus!
