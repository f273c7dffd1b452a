//! Character-sequence utilities shared by the parser and the generator.
//!
//! All string logic in this crate works on `Vec<char>` / `&[char]` values,
//! whose view is a `Seq<char>`; `String` appears only at the public
//! boundaries.

use vstd::prelude::*;
use vstd::string::StrSliceExecFns;
use vstd::slice::slice_subrange;
use vstd::slice::slice_to_vec;

verus! {

// ---------------------------------------------------------------------------
// Character classes and case mapping
// ---------------------------------------------------------------------------

pub open spec fn is_lower_char(c: char) -> bool {
    'a' <= c && c <= 'z'
}

pub open spec fn is_upper_char(c: char) -> bool {
    'A' <= c && c <= 'Z'
}

pub open spec fn to_upper_char(c: char) -> char {
    if is_lower_char(c) {
        ((c as u8) - 32) as char
    } else {
        c
    }
}

pub open spec fn to_lower_char(c: char) -> char {
    if is_upper_char(c) {
        ((c as u8) + 32) as char
    } else {
        c
    }
}

/// The white-space characters recognized by this crate: the Unicode
/// `White_Space` set.
pub open spec fn is_space_char(c: char) -> bool {
    ||| c == ' '
    ||| c == '\t'
    ||| c == '\n'
    ||| c == '\r'
    ||| c == '\u{000B}'
    ||| c == '\u{000C}'
    ||| c == '\u{0085}'
    ||| c == '\u{00A0}'
    ||| c == '\u{1680}'
    ||| ('\u{2000}' <= c && c <= '\u{200A}')
    ||| c == '\u{2028}'
    ||| c == '\u{2029}'
    ||| c == '\u{202F}'
    ||| c == '\u{205F}'
    ||| c == '\u{3000}'
}

pub(crate) fn is_lower(c: char) -> (r: bool)
    ensures
        r == is_lower_char(c),
{
    c >= 'a' && c <= 'z'
}

pub(crate) fn is_upper(c: char) -> (r: bool)
    ensures
        r == is_upper_char(c),
{
    c >= 'A' && c <= 'Z'
}

pub(crate) fn to_upper(c: char) -> (r: char)
    ensures
        r == to_upper_char(c),
{
    if c >= 'a' && c <= 'z' {
        ((c as u8) - 32) as char
    } else {
        c
    }
}

pub(crate) fn to_lower(c: char) -> (r: char)
    ensures
        r == to_lower_char(c),
{
    if c >= 'A' && c <= 'Z' {
        ((c as u8) + 32) as char
    } else {
        c
    }
}

pub(crate) fn is_space(c: char) -> (r: bool)
    ensures
        r == is_space_char(c),
{
    c == ' ' || c == '\t' || c == '\n' || c == '\r' || c == '\u{000B}' || c == '\u{000C}'
        || c == '\u{0085}' || c == '\u{00A0}' || c == '\u{1680}' || (c >= '\u{2000}' && c
        <= '\u{200A}') || c == '\u{2028}' || c == '\u{2029}' || c == '\u{202F}' || c == '\u{205F}'
        || c == '\u{3000}'
}

// ---------------------------------------------------------------------------
// String <-> character vector bridges
// ---------------------------------------------------------------------------

/// Relies on `String::push`: appends one character at the end of the string.
#[verifier::external_body]
pub(crate) fn push_char(s: &mut String, c: char)
    ensures
        final(s)@ == old(s)@.push(c),
{
    s.push(c);
}

/// Collects the characters of a string slice into a vector.
pub(crate) fn str_chars(s: &str) -> (r: Vec<char>)
    ensures
        r@ == s@,
{
    let n: usize = s.unicode_len();
    let mut r: Vec<char> = Vec::new();
    let mut i: usize = 0;
    while i < n
        invariant
            i <= n,
            n == s@.len(),
            r@ == s@.take(i as int),
        decreases n - i,
    {
        r.push(s.get_char(i));
        proof {
            assert(r@ =~= s@.take(i as int + 1));
        }
        i = i + 1;
    }
    proof {
        assert(r@ =~= s@);
    }
    r
}

/// Builds a string from a slice of characters.
pub(crate) fn chars_string(v: &[char]) -> (r: String)
    ensures
        r@ == v@,
{
    let mut r = String::new();
    let mut i: usize = 0;
    while i < v.len()
        invariant
            i <= v@.len(),
            r@ == v@.take(i as int),
        decreases v@.len() - i,
    {
        push_char(&mut r, v[i]);
        proof {
            assert(r@ =~= v@.take(i as int + 1));
        }
        i = i + 1;
    }
    proof {
        assert(r@ =~= v@);
    }
    r
}

// ---------------------------------------------------------------------------
// Building blocks for assembling character vectors
// ---------------------------------------------------------------------------

pub(crate) fn append_chars(out: &mut Vec<char>, v: &[char])
    ensures
        final(out)@ == old(out)@ + v@,
{
    let mut i: usize = 0;
    while i < v.len()
        invariant
            i <= v@.len(),
            out@ == old(out)@ + v@.take(i as int),
        decreases v@.len() - i,
    {
        out.push(v[i]);
        proof {
            assert(old(out)@ + v@.take(i as int + 1) =~= (old(out)@ + v@.take(i as int)).push(
                v@[i as int],
            ));
        }
        i = i + 1;
    }
    proof {
        assert(old(out)@ + v@.take(v@.len() as int) =~= old(out)@ + v@);
    }
}

pub(crate) fn append_str(out: &mut Vec<char>, s: &str)
    ensures
        final(out)@ == old(out)@ + s@,
{
    let n: usize = s.unicode_len();
    let mut i: usize = 0;
    while i < n
        invariant
            i <= n,
            n == s@.len(),
            out@ == old(out)@ + s@.take(i as int),
        decreases n - i,
    {
        out.push(s.get_char(i));
        proof {
            assert(old(out)@ + s@.take(i as int + 1) =~= (old(out)@ + s@.take(i as int)).push(
                s@[i as int],
            ));
        }
        i = i + 1;
    }
    proof {
        assert(old(out)@ + s@.take(n as int) =~= old(out)@ + s@);
    }
}

pub(crate) fn append_string(out: &mut Vec<char>, s: &String)
    ensures
        final(out)@ == old(out)@ + s@,
{
    append_str(out, s.as_str());
}

/// Copies the subrange `[i, j)` of a slice into a fresh vector.
pub(crate) fn subvec(v: &[char], i: usize, j: usize) -> (r: Vec<char>)
    requires
        i <= j <= v@.len(),
    ensures
        r@ == v@.subrange(i as int, j as int),
{
    slice_to_vec(slice_subrange(v, i, j))
}

// ---------------------------------------------------------------------------
// Comparisons
// ---------------------------------------------------------------------------

pub(crate) fn eq_chars_str(v: &[char], s: &str) -> (r: bool)
    ensures
        r == (v@ == s@),
{
    let n: usize = s.unicode_len();
    if v.len() != n {
        proof {
            assert(v@ != s@);
        }
        return false;
    }
    let mut i: usize = 0;
    while i < n
        invariant
            i <= n,
            n == s@.len(),
            v@.len() == s@.len(),
            forall|k: int| 0 <= k < i ==> v@[k] == s@[k],
        decreases n - i,
    {
        if v[i] != s.get_char(i) {
            proof {
                assert(v@ != s@);
            }
            return false;
        }
        i = i + 1;
    }
    proof {
        assert(v@ =~= s@);
    }
    true
}

// ---------------------------------------------------------------------------
// Searching for a character
// ---------------------------------------------------------------------------

/// Index of the first occurrence of `c` in `s`.
pub open spec fn spec_find_char(s: Seq<char>, c: char) -> Option<int>
    decreases s.len(),
{
    if s.len() == 0 {
        None
    } else if s[0] == c {
        Some(0int)
    } else {
        match spec_find_char(s.drop_first(), c) {
            Some(i) => Some(i + 1),
            None => None,
        }
    }
}

pub proof fn lemma_find_char_is(s: Seq<char>, c: char, i: int)
    requires
        0 <= i < s.len(),
        s[i] == c,
        forall|j: int| 0 <= j < i ==> s[j] != c,
    ensures
        spec_find_char(s, c) == Some(i),
    decreases i,
{
    if i == 0 {
    } else {
        assert(s[0] != c);
        let t = s.drop_first();
        assert(t[i - 1] == s[i]);
        assert(forall|j: int| 0 <= j < i - 1 ==> t[j] == s[j + 1] && s[j + 1] != c);
        lemma_find_char_is(t, c, i - 1);
    }
}

pub proof fn lemma_find_char_none(s: Seq<char>, c: char)
    requires
        forall|j: int| 0 <= j < s.len() ==> s[j] != c,
    ensures
        spec_find_char(s, c) is None,
    decreases s.len(),
{
    if s.len() > 0 {
        let t = s.drop_first();
        assert(forall|j: int| 0 <= j < t.len() ==> t[j] == s[j + 1] && s[j + 1] != c);
        lemma_find_char_none(t, c);
    }
}

pub proof fn lemma_find_char_props(s: Seq<char>, c: char)
    ensures
        match spec_find_char(s, c) {
            Some(i) => 0 <= i < s.len() && s[i] == c && forall|j: int| 0 <= j < i ==> s[j] != c,
            None => forall|j: int| 0 <= j < s.len() ==> s[j] != c,
        },
    decreases s.len(),
{
    if s.len() == 0 {
    } else if s[0] == c {
    } else {
        let t = s.drop_first();
        lemma_find_char_props(t, c);
        assert(forall|j: int| 0 <= j < t.len() ==> t[j] == s[j + 1]);
        match spec_find_char(t, c) {
            Some(i) => {
                assert(s[i + 1] == t[i]);
                assert forall|j: int| 0 <= j < i + 1 implies s[j] != c by {
                    if j > 0 {
                        assert(t[j - 1] != c);
                    }
                }
            },
            None => {
                assert forall|j: int| 0 <= j < s.len() implies s[j] != c by {
                    if j > 0 {
                        assert(t[j - 1] != c);
                    }
                }
            },
        }
    }
}

/// Finds the first occurrence of `c` in `v` at or after position `from`.
pub(crate) fn find_char_from(v: &[char], c: char, from: usize) -> (r: Option<usize>)
    requires
        from <= v@.len(),
    ensures
        match r {
            Some(i) => from <= i < v@.len() && spec_find_char(v@.skip(from as int), c) == Some(
                i - from,
            ),
            None => spec_find_char(v@.skip(from as int), c) is None,
        },
{
    let ghost t = v@.skip(from as int);
    let mut i: usize = from;
    while i < v.len()
        invariant
            from <= i <= v@.len(),
            t == v@.skip(from as int),
            forall|j: int| 0 <= j < i - from ==> t[j] != c,
        decreases v@.len() - i,
    {
        proof {
            assert(t[i - from] == v@[i as int]);
        }
        if v[i] == c {
            proof {
                lemma_find_char_is(t, c, i - from);
            }
            return Some(i);
        }
        i = i + 1;
    }
    proof {
        lemma_find_char_none(t, c);
    }
    None
}

pub(crate) fn find_char(v: &[char], c: char) -> (r: Option<usize>)
    ensures
        match r {
            Some(i) => i < v@.len() && spec_find_char(v@, c) == Some(i as int),
            None => spec_find_char(v@, c) is None,
        },
{
    let r = find_char_from(v, c, 0);
    proof {
        assert(v@.skip(0) =~= v@);
    }
    r
}

/// Index of the last occurrence of `c` in `s`.
pub open spec fn spec_rfind_char(s: Seq<char>, c: char) -> Option<int>
    decreases s.len(),
{
    if s.len() == 0 {
        None
    } else if s[s.len() - 1] == c {
        Some(s.len() - 1)
    } else {
        spec_rfind_char(s.drop_last(), c)
    }
}

pub proof fn lemma_rfind_char_is(s: Seq<char>, c: char, i: int)
    requires
        0 <= i < s.len(),
        s[i] == c,
        forall|j: int| i < j < s.len() ==> s[j] != c,
    ensures
        spec_rfind_char(s, c) == Some(i),
    decreases s.len(),
{
    if i == s.len() - 1 {
    } else {
        assert(s[s.len() - 1] != c);
        let t = s.drop_last();
        assert(t[i] == s[i]);
        assert(forall|j: int| i < j < t.len() ==> t[j] == s[j] && s[j] != c);
        lemma_rfind_char_is(t, c, i);
    }
}

pub proof fn lemma_rfind_char_none(s: Seq<char>, c: char)
    requires
        forall|j: int| 0 <= j < s.len() ==> s[j] != c,
    ensures
        spec_rfind_char(s, c) is None,
    decreases s.len(),
{
    if s.len() > 0 {
        let t = s.drop_last();
        assert(forall|j: int| 0 <= j < t.len() ==> t[j] == s[j]);
        lemma_rfind_char_none(t, c);
    }
}

pub proof fn lemma_rfind_char_props(s: Seq<char>, c: char)
    ensures
        match spec_rfind_char(s, c) {
            Some(i) => 0 <= i < s.len() && s[i] == c && forall|j: int| i < j < s.len() ==> s[j]
                != c,
            None => forall|j: int| 0 <= j < s.len() ==> s[j] != c,
        },
    decreases s.len(),
{
    if s.len() == 0 {
    } else if s[s.len() - 1] == c {
    } else {
        let t = s.drop_last();
        lemma_rfind_char_props(t, c);
        assert(forall|j: int| 0 <= j < t.len() ==> t[j] == s[j]);
    }
}

pub(crate) fn rfind_char(v: &[char], c: char) -> (r: Option<usize>)
    ensures
        match r {
            Some(i) => i < v@.len() && spec_rfind_char(v@, c) == Some(i as int),
            None => spec_rfind_char(v@, c) is None,
        },
{
    let mut i: usize = v.len();
    while i > 0
        invariant
            i <= v@.len(),
            forall|j: int| i <= j < v@.len() ==> v@[j] != c,
        decreases i,
    {
        i = i - 1;
        if v[i] == c {
            proof {
                lemma_rfind_char_is(v@, c, i as int);
            }
            return Some(i);
        }
    }
    proof {
        lemma_rfind_char_none(v@, c);
    }
    None
}

// ---------------------------------------------------------------------------
// Searching for a substring
// ---------------------------------------------------------------------------

/// Whether `p` occurs in `s` starting at position `i`.
pub open spec fn matches_at(s: Seq<char>, p: Seq<char>, i: int) -> bool {
    0 <= i && i + p.len() <= s.len() && s.subrange(i, i + p.len()) == p
}

/// Index of the first occurrence of `p` in `s`.
pub open spec fn spec_find_sub(s: Seq<char>, p: Seq<char>) -> Option<int>
    decreases s.len(),
{
    if s.len() < p.len() {
        None
    } else if matches_at(s, p, 0) {
        Some(0int)
    } else if s.len() == 0 {
        None
    } else {
        match spec_find_sub(s.drop_first(), p) {
            Some(i) => Some(i + 1),
            None => None,
        }
    }
}

pub open spec fn spec_contains(s: Seq<char>, p: Seq<char>) -> bool {
    spec_find_sub(s, p) is Some
}

proof fn lemma_matches_at_shift(s: Seq<char>, p: Seq<char>, i: int)
    requires
        s.len() > 0,
        1 <= i,
    ensures
        matches_at(s, p, i) == matches_at(s.drop_first(), p, i - 1),
{
    let t = s.drop_first();
    if 0 <= i && i + p.len() <= s.len() {
        assert(t.subrange(i - 1, i - 1 + p.len()) =~= s.subrange(i, i + p.len()));
    }
}

pub proof fn lemma_find_sub_is(s: Seq<char>, p: Seq<char>, i: int)
    requires
        matches_at(s, p, i),
        forall|j: int| 0 <= j < i ==> !matches_at(s, p, j),
    ensures
        spec_find_sub(s, p) == Some(i),
    decreases i,
{
    assert(s.len() >= p.len());
    if i == 0 {
    } else {
        assert(!matches_at(s, p, 0));
        assert(s.len() > 0);
        let t = s.drop_first();
        lemma_matches_at_shift(s, p, i);
        assert forall|j: int| 0 <= j < i - 1 implies !matches_at(t, p, j) by {
            lemma_matches_at_shift(s, p, j + 1);
        }
        lemma_find_sub_is(t, p, i - 1);
    }
}

pub proof fn lemma_find_sub_none(s: Seq<char>, p: Seq<char>)
    requires
        forall|j: int| 0 <= j ==> !matches_at(s, p, j),
    ensures
        spec_find_sub(s, p) is None,
    decreases s.len(),
{
    if s.len() < p.len() {
    } else if s.len() == 0 {
        assert(s.subrange(0, 0) =~= p);
        assert(matches_at(s, p, 0));
        assert(false);
    } else {
        assert(!matches_at(s, p, 0));
        let t = s.drop_first();
        assert forall|j: int| 0 <= j implies !matches_at(t, p, j) by {
            lemma_matches_at_shift(s, p, j + 1);
        }
        lemma_find_sub_none(t, p);
    }
}

pub proof fn lemma_find_sub_props(s: Seq<char>, p: Seq<char>)
    ensures
        match spec_find_sub(s, p) {
            Some(i) => matches_at(s, p, i) && forall|j: int| 0 <= j < i ==> !matches_at(s, p, j),
            None => forall|j: int| 0 <= j ==> !matches_at(s, p, j),
        },
    decreases s.len(),
{
    if s.len() < p.len() {
        assert forall|j: int| 0 <= j implies !matches_at(s, p, j) by {}
    } else if matches_at(s, p, 0) {
    } else if s.len() == 0 {
        assert(p.len() == 0);
        assert(s.subrange(0, 0) =~= p);
        assert(false);
    } else {
        let t = s.drop_first();
        lemma_find_sub_props(t, p);
        match spec_find_sub(t, p) {
            Some(i) => {
                lemma_matches_at_shift(s, p, i + 1);
                assert forall|j: int| 0 <= j < i + 1 implies !matches_at(s, p, j) by {
                    if j >= 1 {
                        lemma_matches_at_shift(s, p, j);
                    }
                }
            },
            None => {
                assert forall|j: int| 0 <= j implies !matches_at(s, p, j) by {
                    if j >= 1 {
                        lemma_matches_at_shift(s, p, j);
                    }
                }
            },
        }
    }
}

/// Checks whether `p` occurs in `v` starting exactly at position `i`.
fn check_match_at(v: &[char], p: &[char], i: usize) -> (r: bool)
    requires
        i <= v@.len(),
    ensures
        r == matches_at(v@, p@, i as int),
{
    let n = v.len();
    if n - i < p.len() {
        return false;
    }
    let mut k: usize = 0;
    while k < p.len()
        invariant
            k <= p@.len(),
            n == v@.len(),
            i + p@.len() <= n,
            forall|j: int| 0 <= j < k ==> v@[i + j] == p@[j],
        decreases p@.len() - k,
    {
        if v[i + k] != p[k] {
            proof {
                assert(v@.subrange(i as int, i + p@.len())[k as int] == v@[i + k]);
                assert(v@.subrange(i as int, i + p@.len()) != p@);
            }
            return false;
        }
        k = k + 1;
    }
    proof {
        assert(v@.subrange(i as int, i + p@.len()) =~= p@);
    }
    true
}

/// Finds the first occurrence of `p` in `v` at or after position `from`.
pub(crate) fn find_sub_from(v: &[char], p: &[char], from: usize) -> (r: Option<usize>)
    requires
        from <= v@.len(),
    ensures
        match r {
            Some(i) => from <= i && i as int + p@.len() <= v@.len() && spec_find_sub(
                v@.skip(from as int),
                p@,
            ) == Some(i - from),
            None => spec_find_sub(v@.skip(from as int), p@) is None,
        },
{
    let ghost t = v@.skip(from as int);
    if p.len() == 0 {
        proof {
            assert(t.subrange(0, 0) =~= p@);
            assert(matches_at(t, p@, 0));
            lemma_find_sub_is(t, p@, 0);
        }
        return Some(from);
    }
    let mut i: usize = from;
    while i < v.len()
        invariant
            from <= i <= v@.len(),
            p@.len() > 0,
            t == v@.skip(from as int),
            forall|j: int| 0 <= j < i - from ==> !matches_at(t, p@, j),
        decreases v@.len() - i,
    {
        let m = check_match_at(v, p, i);
        proof {
            if i + p@.len() <= v@.len() {
                assert(t.subrange(i - from, i - from + p@.len()) =~= v@.subrange(
                    i as int,
                    i + p@.len(),
                ));
            }
            assert(matches_at(t, p@, i - from) == matches_at(v@, p@, i as int));
        }
        if m {
            proof {
                lemma_find_sub_is(t, p@, i - from);
            }
            return Some(i);
        }
        i = i + 1;
    }
    proof {
        assert forall|j: int| 0 <= j implies !matches_at(t, p@, j) by {
            if j + p@.len() > t.len() {
                assert(!matches_at(t, p@, j));
            }
        }
        lemma_find_sub_none(t, p@);
    }
    None
}

pub(crate) fn find_sub(v: &[char], p: &[char]) -> (r: Option<usize>)
    ensures
        match r {
            Some(i) => i as int + p@.len() <= v@.len() && spec_find_sub(v@, p@) == Some(i as int),
            None => spec_find_sub(v@, p@) is None,
        },
{
    let r = find_sub_from(v, p, 0);
    proof {
        assert(v@.skip(0) =~= v@);
    }
    r
}

pub(crate) fn contains_sub(v: &[char], p: &[char]) -> (r: bool)
    ensures
        r == spec_contains(v@, p@),
{
    find_sub(v, p).is_some()
}

// ---------------------------------------------------------------------------
// Prefix / suffix tests
// ---------------------------------------------------------------------------

pub open spec fn spec_starts_with(s: Seq<char>, p: Seq<char>) -> bool {
    s.len() >= p.len() && s.take(p.len() as int) == p
}

pub open spec fn spec_ends_with(s: Seq<char>, p: Seq<char>) -> bool {
    s.len() >= p.len() && s.skip(s.len() - p.len()) == p
}

pub(crate) fn starts_with(v: &[char], p: &[char]) -> (r: bool)
    ensures
        r == spec_starts_with(v@, p@),
{
    if v.len() < p.len() {
        return false;
    }
    let m = check_match_at(v, p, 0);
    proof {
        assert(v@.subrange(0, p@.len() as int) =~= v@.take(p@.len() as int));
    }
    m
}

pub(crate) fn ends_with(v: &[char], p: &[char]) -> (r: bool)
    ensures
        r == spec_ends_with(v@, p@),
{
    if v.len() < p.len() {
        return false;
    }
    let m = check_match_at(v, p, v.len() - p.len());
    proof {
        assert(v@.subrange(v@.len() - p@.len(), v@.len() as int) =~= v@.skip(v@.len() - p@.len()));
    }
    m
}

// ---------------------------------------------------------------------------
// Trimming
// ---------------------------------------------------------------------------

pub open spec fn spec_trim_front(s: Seq<char>) -> Seq<char>
    decreases s.len(),
{
    if s.len() > 0 && is_space_char(s[0]) {
        spec_trim_front(s.drop_first())
    } else {
        s
    }
}

pub open spec fn spec_trim_back(s: Seq<char>) -> Seq<char>
    decreases s.len(),
{
    if s.len() > 0 && is_space_char(s[s.len() - 1]) {
        spec_trim_back(s.drop_last())
    } else {
        s
    }
}

/// The sequence with leading and trailing white space removed.
pub open spec fn spec_trim(s: Seq<char>) -> Seq<char> {
    spec_trim_back(spec_trim_front(s))
}

pub proof fn lemma_trim_front_skip(s: Seq<char>, i: int)
    requires
        0 <= i <= s.len(),
        forall|k: int| 0 <= k < i ==> is_space_char(s[k]),
        i < s.len() ==> !is_space_char(s[i]),
    ensures
        spec_trim_front(s) == s.skip(i),
    decreases i,
{
    if i == 0 {
        assert(s.skip(0) =~= s);
    } else {
        let t = s.drop_first();
        assert(forall|k: int| 0 <= k < i - 1 ==> t[k] == s[k + 1]);
        assert(i - 1 < t.len() ==> t[i - 1] == s[i]);
        lemma_trim_front_skip(t, i - 1);
        assert(t.skip(i - 1) =~= s.skip(i));
    }
}

pub proof fn lemma_trim_back_take(s: Seq<char>, j: int)
    requires
        0 <= j <= s.len(),
        forall|k: int| j <= k < s.len() ==> is_space_char(s[k]),
        j > 0 ==> !is_space_char(s[j - 1]),
    ensures
        spec_trim_back(s) == s.take(j),
    decreases s.len() - j,
{
    if j == s.len() {
        assert(s.take(j) =~= s);
    } else {
        let t = s.drop_last();
        assert(forall|k: int| j <= k < t.len() ==> t[k] == s[k]);
        lemma_trim_back_take(t, j);
        assert(t.take(j) =~= s.take(j));
    }
}

pub(crate) fn trim(v: &[char]) -> (r: Vec<char>)
    ensures
        r@ == spec_trim(v@),
{
    let mut i: usize = 0;
    while i < v.len() && is_space(v[i])
        invariant
            i <= v@.len(),
            forall|k: int| 0 <= k < i ==> is_space_char(v@[k]),
        decreases v@.len() - i,
    {
        i = i + 1;
    }
    proof {
        lemma_trim_front_skip(v@, i as int);
    }
    let mut j: usize = v.len();
    while j > i && is_space(v[j - 1])
        invariant
            i <= j <= v@.len(),
            forall|k: int| j <= k < v@.len() ==> is_space_char(v@[k]),
        decreases j,
    {
        j = j - 1;
    }
    let ghost t = v@.skip(i as int);
    proof {
        assert(forall|k: int| 0 <= k < t.len() ==> t[k] == v@[k + i]);
        if j == i {
            lemma_trim_back_take(t, 0);
        } else {
            lemma_trim_back_take(t, j - i);
        }
        assert(t.take(j - i) =~= v@.subrange(i as int, j as int));
    }
    subvec(v, i, j)
}

// ---------------------------------------------------------------------------
// Replacement
// ---------------------------------------------------------------------------

/// `s` with every occurrence of `p` replaced by `r`, scanning left to right
/// and never rescanning replaced text.
pub open spec fn spec_replace(s: Seq<char>, p: Seq<char>, r: Seq<char>) -> Seq<char>
    recommends
        p.len() > 0,
    decreases s.len(),
{
    match spec_find_sub(s, p) {
        Some(i) => {
            if p.len() > 0 && 0 <= i && i + p.len() <= s.len() {
                s.take(i) + r + spec_replace(s.skip(i + p.len()), p, r)
            } else {
                s
            }
        },
        None => s,
    }
}

pub(crate) fn replace(v: &[char], p: &[char], r: &[char]) -> (out: Vec<char>)
    requires
        p@.len() > 0,
    ensures
        out@ == spec_replace(v@, p@, r@),
{
    let mut out: Vec<char> = Vec::new();
    let mut cursor: usize = 0;
    let n = v.len();
    proof {
        assert(v@.skip(0) =~= v@);
        assert(out@ + spec_replace(v@, p@, r@) =~= spec_replace(v@, p@, r@));
    }
    loop
        invariant
            cursor <= n,
            n == v@.len(),
            p@.len() > 0,
            spec_replace(v@, p@, r@) == out@ + spec_replace(v@.skip(cursor as int), p@, r@),
        decreases v@.len() - cursor,
    {
        let ghost rest = v@.skip(cursor as int);
        match find_sub_from(v, p, cursor) {
            Some(i) => {
                proof {
                    lemma_find_sub_props(rest, p@);
                    assert(matches_at(rest, p@, i - cursor));
                }
                append_chars(&mut out, slice_subrange(v, cursor, i));
                append_chars(&mut out, r);
                let new_cursor = i + p.len();
                proof {
                    let skipped = rest.skip(i - cursor + p@.len());
                    assert(skipped =~= v@.skip(new_cursor as int));
                    assert(rest.take(i - cursor) =~= v@.subrange(cursor as int, i as int));
                }
                cursor = new_cursor;
            },
            None => {
                append_chars(&mut out, slice_subrange(v, cursor, v.len()));
                proof {
                    assert(v@.subrange(cursor as int, v@.len() as int) =~= rest);
                }
                return out;
            },
        }
    }
}


// ---------------------------------------------------------------------------
// Searching backwards for a substring
// ---------------------------------------------------------------------------

/// Index of the last occurrence of `p` in `s`.
pub open spec fn spec_rfind_sub(s: Seq<char>, p: Seq<char>) -> Option<int>
    decreases s.len(),
{
    if s.len() < p.len() {
        None
    } else if matches_at(s, p, s.len() - p.len()) {
        Some(s.len() - p.len())
    } else if s.len() == 0 {
        None
    } else {
        spec_rfind_sub(s.drop_last(), p)
    }
}

proof fn lemma_matches_at_front(s: Seq<char>, p: Seq<char>, j: int)
    requires
        s.len() > 0,
        0 <= j,
        j + p.len() <= s.len() - 1,
    ensures
        matches_at(s, p, j) == matches_at(s.drop_last(), p, j),
{
    let t = s.drop_last();
    assert(t.subrange(j, j + p.len() as int) =~= s.subrange(j, j + p.len() as int));
}

pub proof fn lemma_rfind_sub_is(s: Seq<char>, p: Seq<char>, i: int)
    requires
        matches_at(s, p, i),
        forall|j: int| i < j ==> !matches_at(s, p, j),
    ensures
        spec_rfind_sub(s, p) == Some(i),
    decreases s.len(),
{
    assert(s.len() >= p.len());
    if i == s.len() - p.len() {
    } else {
        assert(i < s.len() - p.len());
        assert(!matches_at(s, p, s.len() - p.len()));
        assert(s.len() > 0);
        let t = s.drop_last();
        lemma_matches_at_front(s, p, i);
        assert forall|j: int| i < j implies !matches_at(t, p, j) by {
            if j + p.len() <= t.len() {
                lemma_matches_at_front(s, p, j);
            }
        }
        lemma_rfind_sub_is(t, p, i);
    }
}

pub proof fn lemma_rfind_sub_none(s: Seq<char>, p: Seq<char>)
    requires
        forall|j: int| 0 <= j ==> !matches_at(s, p, j),
    ensures
        spec_rfind_sub(s, p) is None,
    decreases s.len(),
{
    if s.len() < p.len() {
    } else if s.len() == 0 {
        assert(s.subrange(0, 0) =~= p);
        assert(matches_at(s, p, 0));
        assert(false);
    } else {
        assert(!matches_at(s, p, s.len() - p.len()));
        let t = s.drop_last();
        assert forall|j: int| 0 <= j implies !matches_at(t, p, j) by {
            if j + p.len() <= t.len() {
                lemma_matches_at_front(s, p, j);
            }
        }
        lemma_rfind_sub_none(t, p);
    }
}

pub proof fn lemma_rfind_sub_props(s: Seq<char>, p: Seq<char>)
    ensures
        match spec_rfind_sub(s, p) {
            Some(i) => matches_at(s, p, i) && forall|j: int| i < j ==> !matches_at(s, p, j),
            None => forall|j: int| 0 <= j ==> !matches_at(s, p, j),
        },
    decreases s.len(),
{
    if s.len() < p.len() {
        assert forall|j: int| 0 <= j implies !matches_at(s, p, j) by {}
    } else if matches_at(s, p, s.len() - p.len()) {
        assert forall|j: int| s.len() - p.len() < j implies !matches_at(s, p, j) by {}
    } else if s.len() == 0 {
        assert(s.subrange(0, 0) =~= p);
        assert(false);
    } else {
        let t = s.drop_last();
        lemma_rfind_sub_props(t, p);
        match spec_rfind_sub(t, p) {
            Some(i) => {
                lemma_matches_at_front(s, p, i);
                assert forall|j: int| i < j implies !matches_at(s, p, j) by {
                    if j + p.len() <= t.len() {
                        lemma_matches_at_front(s, p, j);
                    }
                }
            },
            None => {
                assert forall|j: int| 0 <= j implies !matches_at(s, p, j) by {
                    if j + p.len() <= t.len() {
                        lemma_matches_at_front(s, p, j);
                    }
                }
            },
        }
    }
}

/// Finds the last occurrence of `p` in `v`.
pub(crate) fn rfind_sub(v: &[char], p: &[char]) -> (r: Option<usize>)
    ensures
        match r {
            Some(i) => i as int + p@.len() <= v@.len() && spec_rfind_sub(v@, p@) == Some(i as int),
            None => spec_rfind_sub(v@, p@) is None,
        },
{
    let n = v.len();
    if n < p.len() {
        proof {
            assert forall|j: int| 0 <= j implies !matches_at(v@, p@, j) by {}
            lemma_rfind_sub_none(v@, p@);
        }
        return None;
    }
    let mut i: usize = n - p.len();
    loop
        invariant
            i <= n - p@.len(),
            n == v@.len(),
            p@.len() <= n,
            forall|j: int| i < j ==> !matches_at(v@, p@, j),
        decreases i,
    {
        if check_match_at(v, p, i) {
            proof {
                lemma_rfind_sub_is(v@, p@, i as int);
            }
            return Some(i);
        }
        if i == 0 {
            proof {
                lemma_rfind_sub_none(v@, p@);
            }
            return None;
        }
        i = i - 1;
    }
}

// ---------------------------------------------------------------------------
// Searching for white space
// ---------------------------------------------------------------------------

/// Index of the first white-space character in `s`.
pub open spec fn spec_find_space(s: Seq<char>) -> Option<int>
    decreases s.len(),
{
    if s.len() == 0 {
        None
    } else if is_space_char(s[0]) {
        Some(0int)
    } else {
        match spec_find_space(s.drop_first()) {
            Some(i) => Some(i + 1),
            None => None,
        }
    }
}

pub proof fn lemma_find_space_props(s: Seq<char>)
    ensures
        match spec_find_space(s) {
            Some(i) => 0 <= i < s.len() && is_space_char(s[i]) && forall|j: int|
                0 <= j < i ==> !is_space_char(s[j]),
            None => forall|j: int| 0 <= j < s.len() ==> !is_space_char(s[j]),
        },
    decreases s.len(),
{
    if s.len() == 0 {
    } else if is_space_char(s[0]) {
    } else {
        let t = s.drop_first();
        lemma_find_space_props(t);
        assert(forall|j: int| 0 <= j < t.len() ==> t[j] == s[j + 1]);
        match spec_find_space(t) {
            Some(i) => {
                assert(s[i + 1] == t[i]);
                assert forall|j: int| 0 <= j < i + 1 implies !is_space_char(s[j]) by {
                    if j > 0 {
                        assert(!is_space_char(t[j - 1]));
                    }
                }
            },
            None => {
                assert forall|j: int| 0 <= j < s.len() implies !is_space_char(s[j]) by {
                    if j > 0 {
                        assert(!is_space_char(t[j - 1]));
                    }
                }
            },
        }
    }
}

pub proof fn lemma_find_space_is_pub(s: Seq<char>, i: int)
    requires
        0 <= i < s.len(),
        is_space_char(s[i]),
        forall|j: int| 0 <= j < i ==> !is_space_char(s[j]),
    ensures
        spec_find_space(s) == Some(i),
{
    lemma_find_space_is(s, i);
}

proof fn lemma_find_space_is(s: Seq<char>, i: int)
    requires
        0 <= i < s.len(),
        is_space_char(s[i]),
        forall|j: int| 0 <= j < i ==> !is_space_char(s[j]),
    ensures
        spec_find_space(s) == Some(i),
{
    lemma_find_space_props(s);
    match spec_find_space(s) {
        Some(k) => {
            if k < i {
                assert(!is_space_char(s[k]));
            }
            if i < k {
                assert(!is_space_char(s[i]));
            }
        },
        None => {
            assert(!is_space_char(s[i]));
        },
    }
}

/// Finds the first white-space character in `v` at or after `from`.
pub(crate) fn find_space_from(v: &[char], from: usize) -> (r: Option<usize>)
    requires
        from <= v@.len(),
    ensures
        match r {
            Some(i) => from <= i < v@.len() && spec_find_space(v@.skip(from as int)) == Some(
                i - from,
            ),
            None => spec_find_space(v@.skip(from as int)) is None,
        },
{
    let ghost t = v@.skip(from as int);
    let mut i: usize = from;
    while i < v.len()
        invariant
            from <= i <= v@.len(),
            t == v@.skip(from as int),
            forall|j: int| 0 <= j < i - from ==> !is_space_char(t[j]),
        decreases v@.len() - i,
    {
        proof {
            assert(t[i - from] == v@[i as int]);
        }
        if is_space(v[i]) {
            proof {
                lemma_find_space_is(t, i - from);
            }
            return Some(i);
        }
        i = i + 1;
    }
    proof {
        assert forall|j: int| 0 <= j < t.len() implies !is_space_char(t[j]) by {
            assert(t[j] == v@[j + from]);
        }
        match spec_find_space(t) {
            Some(k) => {
                lemma_find_space_props(t);
                assert(false);
            },
            None => {},
        }
    }
    None
}

// ---------------------------------------------------------------------------
// Splitting on white space
// ---------------------------------------------------------------------------

/// The maximal non-white-space tokens of `s`, in order.
pub open spec fn spec_split_ws(s: Seq<char>) -> Seq<Seq<char>>
    decreases s.len(),
    via spec_split_ws_decreases
{
    if s.len() == 0 {
        Seq::<Seq<char>>::empty()
    } else if is_space_char(s[0]) {
        spec_split_ws(s.drop_first())
    } else {
        match spec_find_space(s) {
            None => seq![s],
            Some(k) => seq![s.take(k)] + spec_split_ws(s.skip(k)),
        }
    }
}

#[via_fn]
proof fn spec_split_ws_decreases(s: Seq<char>) {
    if s.len() > 0 && !is_space_char(s[0]) {
        lemma_find_space_props(s);
    }
}

pub(crate) fn split_ws(v: &[char]) -> (r: Vec<Vec<char>>)
    ensures
        r.deep_view() == spec_split_ws(v@),
{
    let mut r: Vec<Vec<char>> = Vec::new();
    let mut i: usize = 0;
    let n = v.len();
    proof {
        assert(v@.skip(0) =~= v@);
        assert(r.deep_view() =~~= Seq::<Seq<char>>::empty());
        assert(r.deep_view() + spec_split_ws(v@) =~~= spec_split_ws(v@));
    }
    while i < n
        invariant
            i <= n,
            n == v@.len(),
            spec_split_ws(v@) == r.deep_view() + spec_split_ws(v@.skip(i as int)),
        decreases n - i,
    {
        let ghost rest = v@.skip(i as int);
        if is_space(v[i]) {
            proof {
                assert(rest[0] == v@[i as int]);
                assert(rest.drop_first() =~= v@.skip(i as int + 1));
            }
            i = i + 1;
        } else {
            proof {
                assert(rest[0] == v@[i as int]);
            }
            let e: usize = match find_space_from(v, i) {
                Some(e) => e,
                None => n,
            };
            let token = subvec(v, i, e);
            proof {
                if e < n {
                    assert(rest.take(e - i) =~= v@.subrange(i as int, e as int));
                    assert(rest.skip(e - i) =~= v@.skip(e as int));
                } else {
                    match spec_find_space(rest) {
                        Some(k) => {
                            lemma_find_space_props(rest);
                            assert(false);
                        },
                        None => {},
                    }
                    assert(rest =~= v@.subrange(i as int, e as int));
                }
            }
            let ghost before = r.deep_view();
            r.push(token);
            proof {
                assert(r.deep_view() =~~= before.push(token@));
                if e < n {
                    assert(before + (seq![rest.take(e - i)] + spec_split_ws(rest.skip(e - i)))
                        =~~= before.push(token@) + spec_split_ws(v@.skip(e as int)));
                } else {
                    assert(v@.skip(n as int) =~= Seq::<char>::empty());
                    assert(before + seq![rest] =~~= before.push(token@) + spec_split_ws(
                        v@.skip(n as int),
                    ));
                }
            }
            i = e;
        }
    }
    proof {
        assert(v@.skip(n as int) =~= Seq::<char>::empty());
        assert(r.deep_view() + spec_split_ws(Seq::<char>::empty()) =~~= r.deep_view());
    }
    r
}

// ---------------------------------------------------------------------------
// String equality
// ---------------------------------------------------------------------------

pub(crate) fn eq_str(a: &str, b: &str) -> (r: bool)
    ensures
        r == (a@ == b@),
{
    let na = a.unicode_len();
    let nb = b.unicode_len();
    if na != nb {
        proof {
            assert(a@ != b@);
        }
        return false;
    }
    let mut i: usize = 0;
    while i < na
        invariant
            i <= na,
            na == a@.len(),
            a@.len() == b@.len(),
            forall|k: int| 0 <= k < i ==> a@[k] == b@[k],
        decreases na - i,
    {
        if a.get_char(i) != b.get_char(i) {
            proof {
                assert(a@ != b@);
            }
            return false;
        }
        i = i + 1;
    }
    proof {
        assert(a@ =~= b@);
    }
    true
}



// ---------------------------------------------------------------------------
// Searching backwards for an upper-case letter
// ---------------------------------------------------------------------------

/// Index of the last ASCII upper-case letter in `s`.
pub open spec fn spec_rfind_upper(s: Seq<char>) -> Option<int>
    decreases s.len(),
{
    if s.len() == 0 {
        None
    } else if is_upper_char(s[s.len() - 1]) {
        Some(s.len() - 1)
    } else {
        spec_rfind_upper(s.drop_last())
    }
}

proof fn lemma_rfind_upper_is(s: Seq<char>, i: int)
    requires
        0 <= i < s.len(),
        is_upper_char(s[i]),
        forall|j: int| i < j < s.len() ==> !is_upper_char(s[j]),
    ensures
        spec_rfind_upper(s) == Some(i),
    decreases s.len(),
{
    if i == s.len() - 1 {
    } else {
        let t = s.drop_last();
        assert(forall|j: int| 0 <= j < t.len() ==> t[j] == s[j]);
        lemma_rfind_upper_is(t, i);
    }
}

proof fn lemma_rfind_upper_none(s: Seq<char>)
    requires
        forall|j: int| 0 <= j < s.len() ==> !is_upper_char(s[j]),
    ensures
        spec_rfind_upper(s) is None,
    decreases s.len(),
{
    if s.len() > 0 {
        let t = s.drop_last();
        assert(forall|j: int| 0 <= j < t.len() ==> t[j] == s[j]);
        lemma_rfind_upper_none(t);
    }
}

/// Finds the last ASCII upper-case letter in `v`.
pub(crate) fn rfind_upper(v: &[char]) -> (r: Option<usize>)
    ensures
        match r {
            Some(i) => i < v@.len() && spec_rfind_upper(v@) == Some(i as int),
            None => spec_rfind_upper(v@) is None,
        },
{
    let mut i: usize = v.len();
    while i > 0
        invariant
            i <= v@.len(),
            forall|j: int| i <= j < v@.len() ==> !is_upper_char(v@[j]),
        decreases i,
    {
        i = i - 1;
        if is_upper(v[i]) {
            proof {
                lemma_rfind_upper_is(v@, i as int);
            }
            return Some(i);
        }
    }
    proof {
        lemma_rfind_upper_none(v@);
    }
    None
}


} // verus!
