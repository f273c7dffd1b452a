//! Free-standing utility functions: the stable identifier of a definition.

use vstd::prelude::*;

use crate::text;

verus! {

/// The CRC-32 (IEEE) checksum of a byte sequence, as computed by
/// `crc32fast::hash`.
pub uninterp spec fn crc32_of(data: Seq<u8>) -> u32;

/// Relies on `crc32fast::hash`: the IEEE CRC-32 checksum of the bytes, a
/// pure function of its input.
#[verifier::external_body]
fn crc32(data: &[u8]) -> (r: u32)
    ensures
        r == crc32_of(data@),
{
    crc32fast::hash(data)
}

/// Removes every ` name:flags.N?true` boolean-shorthand fragment: while a
/// `?true` occurs, cut from the previous space (or the start) through the
/// end of the `?true`.
pub open spec fn spec_strip_true_flags(s: Seq<char>) -> Seq<char>
    decreases s.len(),
    via spec_strip_true_flags_decreases
{
    match text::spec_find_sub(s, "?true"@) {
        None => s,
        Some(pos) => {
            let space = match text::spec_rfind_char(s.take(pos), ' ') {
                Some(k) => k,
                None => 0,
            };
            spec_strip_true_flags(s.take(space) + s.skip(pos + 5))
        },
    }
}

#[via_fn]
proof fn spec_strip_true_flags_decreases(s: Seq<char>) {
    text::lemma_find_sub_props(s, "?true"@);
    match text::spec_find_sub(s, "?true"@) {
        None => {},
        Some(pos) => {
            reveal_strlit("?true");
            lemma_space_before(s, pos);
        },
    }
}

proof fn lemma_space_before(s: Seq<char>, pos: int)
    requires
        0 <= pos,
        pos + 5 <= s.len(),
    ensures
        ({
            let space = match text::spec_rfind_char(s.take(pos), ' ') {
                Some(k) => k,
                None => 0,
            };
            0 <= space <= pos
        }),
{
    let prefix = s.take(pos);
    match text::spec_rfind_char(prefix, ' ') {
        Some(k) => {
            text::lemma_rfind_char_props(prefix, ' ');
        },
        None => {},
    }
}

/// The canonical form of a statement that the identifier checksum is taken
/// over: `:bytes `/`?bytes ` aliased to `: string`/`? string`, `<` turned
/// into a space, `>`, `{` and `}` removed, and boolean-flag shorthand
/// stripped.
pub open spec fn spec_canonical(s: Seq<char>) -> Seq<char> {
    spec_strip_true_flags(
        text::spec_replace(
            text::spec_replace(
                text::spec_replace(
                    text::spec_replace(
                        text::spec_replace(
                            text::spec_replace(s, ":bytes "@, ": string"@),
                            "?bytes "@,
                            "? string"@,
                        ),
                        "<"@,
                        " "@,
                    ),
                    ">"@,
                    ""@,
                ),
                "{"@,
                ""@,
            ),
            "}"@,
            ""@,
        ),
    )
}

/// The stable identifier of a definition: the CRC-32 checksum of the UTF-8
/// bytes of the canonicalized statement.
pub open spec fn spec_infer_id(s: Seq<char>) -> u32 {
    crc32_of(vstd::utf8::encode_utf8(spec_canonical(s)))
}

fn strip_true_flags(v: Vec<char>) -> (r: Vec<char>)
    ensures
        r@ == spec_strip_true_flags(v@),
    decreases v@.len(),
{
    let pat = text::str_chars("?true");
    proof {
        reveal_strlit("?true");
        assert(pat@ == "?true"@);
        assert(pat@.len() == 5);
    }
    let n = v.len();
    match text::find_sub(v.as_slice(), pat.as_slice()) {
        None => v,
        Some(pos) => {
            proof {
                text::lemma_find_sub_props(v@, "?true"@);
                assert(pos + 5 <= n);
            }
            let prefix = text::subvec(v.as_slice(), 0, pos);
            proof {
                assert(prefix@ =~= v@.take(pos as int));
            }
            let space: usize = match text::rfind_char(prefix.as_slice(), ' ') {
                Some(k) => k,
                None => 0,
            };
            proof {
                text::lemma_rfind_char_props(prefix@, ' ');
            }
            let mut next = text::subvec(v.as_slice(), 0, space);
            let tail = text::subvec(v.as_slice(), pos + 5, n);
            text::append_chars(&mut next, tail.as_slice());
            proof {
                assert(next@ =~= v@.take(space as int) + v@.skip(pos + 5));
            }
            strip_true_flags(next)
        },
    }
}

/// Infers the identifier for a definition statement.
pub fn infer_id(definition: &str) -> (r: u32)
    ensures
        r == spec_infer_id(definition@),
{
    let v = text::str_chars(definition);
    let p1 = text::str_chars(":bytes ");
    let r1 = text::str_chars(": string");
    let p2 = text::str_chars("?bytes ");
    let r2 = text::str_chars("? string");
    let lt = text::str_chars("<");
    let sp = text::str_chars(" ");
    let gt = text::str_chars(">");
    let ob = text::str_chars("{");
    let cb = text::str_chars("}");
    let empty: Vec<char> = Vec::new();
    proof {
        reveal_strlit(":bytes ");
        reveal_strlit("?bytes ");
        reveal_strlit("<");
        reveal_strlit(">");
        reveal_strlit("{");
        reveal_strlit("}");
        assert(p1@.len() > 0);
        assert(p2@.len() > 0);
        assert(lt@.len() > 0);
        assert(gt@.len() > 0);
        assert(ob@.len() > 0);
        assert(cb@.len() > 0);
        assert(empty@ =~= ""@) by {
            reveal_strlit("");
        }
    }
    let s1 = text::replace(v.as_slice(), p1.as_slice(), r1.as_slice());
    let s2 = text::replace(s1.as_slice(), p2.as_slice(), r2.as_slice());
    let s3 = text::replace(s2.as_slice(), lt.as_slice(), sp.as_slice());
    let s4 = text::replace(s3.as_slice(), gt.as_slice(), empty.as_slice());
    let s5 = text::replace(s4.as_slice(), ob.as_slice(), empty.as_slice());
    let s6 = text::replace(s5.as_slice(), cb.as_slice(), empty.as_slice());
    let stripped = strip_true_flags(s6);
    let out = text::chars_string(stripped.as_slice());
    crc32(out.as_str().as_bytes())
}


/// The identifier inference is deterministic: equal statement texts receive
/// equal identifiers, in every run.
pub proof fn lemma_infer_id_deterministic(s1: Seq<char>, s2: Seq<char>)
    requires
        s1 == s2,
    ensures
        spec_infer_id(s1) == spec_infer_id(s2),
{
}

} // verus!
