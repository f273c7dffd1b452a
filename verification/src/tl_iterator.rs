//! An iterator over the definitions of a Type Language file.

use vstd::prelude::*;

use crate::errors::ParseError;
use crate::errors::ParseErrorV;
use crate::text;
use crate::tl::category::Category;
use crate::tl::definition::spec_parse_definition;
use crate::tl::definition::Definition;
use crate::tl::definition::DefinitionV;

verus! {

// ---------------------------------------------------------------------------
// Scanning one statement
// ---------------------------------------------------------------------------

/// Scans from position `i` for the next unescaped statement terminator `;`,
/// skipping terminators inside `//` line comments. Returns the end position
/// (the terminator, or the end of input) and whether the scanned text held
/// nothing but white space and comments.
pub open spec fn spec_scan(s: Seq<char>, i: int, in_comment: bool, is_empty: bool) -> (int, bool)
    decreases s.len() - i,
    when 0 <= i <= s.len()
{
    if i >= s.len() {
        (s.len() as int, is_empty)
    } else {
        let c = s[i];
        let nc = if !in_comment && c == '/' && i + 1 < s.len() && s[i + 1] == '/' {
            true
        } else if in_comment && c == '\n' {
            false
        } else {
            in_comment
        };
        if !nc && c == ';' {
            (i, is_empty)
        } else {
            let ne = if !nc && !text::is_space_char(c) {
                false
            } else {
                is_empty
            };
            spec_scan(s, i + 1, nc, ne)
        }
    }
}

proof fn lemma_scan_bounds(s: Seq<char>, i: int, in_comment: bool, is_empty: bool)
    requires
        0 <= i <= s.len(),
    ensures
        i <= spec_scan(s, i, in_comment, is_empty).0 <= s.len(),
    decreases s.len() - i,
{
    if i < s.len() {
        let c = s[i];
        let nc = if !in_comment && c == '/' && i + 1 < s.len() && s[i + 1] == '/' {
            true
        } else if in_comment && c == '\n' {
            false
        } else {
            in_comment
        };
        if !(!nc && c == ';') {
            let ne = if !nc && !text::is_space_char(c) {
                false
            } else {
                is_empty
            };
            lemma_scan_bounds(s, i + 1, nc, ne);
        }
    }
}

/// The next non-empty statement at or after position `i`: its trimmed text
/// and the position to resume from. Empty statements are skipped silently.
pub open spec fn spec_next_statement(s: Seq<char>, i: int) -> Option<(Seq<char>, int)>
    decreases s.len() - i,
    when 0 <= i <= s.len()
    via spec_next_statement_decreases
{
    if i >= s.len() {
        None
    } else {
        let scan = spec_scan(s, i, false, true);
        let end = scan.0;
        let stmt = text::spec_trim(s.subrange(i, end));
        let ni = if end >= s.len() {
            s.len() as int
        } else {
            end + 1
        };
        if !scan.1 {
            Some((stmt, ni))
        } else {
            spec_next_statement(s, ni)
        }
    }
}

#[via_fn]
proof fn spec_next_statement_decreases(s: Seq<char>, i: int) {
    if 0 <= i < s.len() {
        lemma_scan_bounds(s, i, false, true);
    }
}

proof fn lemma_next_statement_bounds(s: Seq<char>, i: int)
    requires
        0 <= i <= s.len(),
    ensures
        match spec_next_statement(s, i) {
            Some(pair) => i < pair.1 <= s.len(),
            None => true,
        },
    decreases s.len() - i,
{
    if i < s.len() {
        lemma_scan_bounds(s, i, false, true);
        let scan = spec_scan(s, i, false, true);
        let ni = if scan.0 >= s.len() {
            s.len() as int
        } else {
            scan.0 + 1
        };
        if scan.1 {
            lemma_next_statement_bounds(s, ni);
        }
    }
}

// ---------------------------------------------------------------------------
// The iterator's step
// ---------------------------------------------------------------------------

/// The result with its category replaced.
pub open spec fn spec_with_category(r: Result<DefinitionV, ParseErrorV>, c: Category) -> Result<
    DefinitionV,
    ParseErrorV,
> {
    match r {
        Ok(d) => Ok(
            DefinitionV {
                name: d.name,
                description: d.description,
                params: d.params,
                ty: d.ty,
                category: c,
                id: d.id,
            },
        ),
        Err(e) => Err(e),
    }
}

/// One step of the iterator: the yielded item (if any), the new position,
/// and the new active category. A statement opening with a recognized
/// section marker switches the category and continues with the rest of the
/// statement; an unrecognized marker yields `UnknownSeparator` and parsing
/// resumes at the following statement.
pub open spec fn spec_iter_next(s: Seq<char>, i: int, cat: Category) -> (
    Option<Result<DefinitionV, ParseErrorV>>,
    int,
    Category,
)
    decreases s.len() - i,
    when 0 <= i <= s.len()
    via spec_iter_next_decreases
{
    match spec_next_statement(s, i) {
        None => (None, s.len() as int, cat),
        Some(pair) => {
            let stmt = pair.0;
            let ni = pair.1;
            if text::spec_starts_with(stmt, "---"@) {
                if text::spec_starts_with(stmt, "---functions---"@) {
                    let rest = text::spec_trim(stmt.skip(15));
                    if rest.len() == 0 {
                        spec_iter_next(s, ni, Category::Functions)
                    } else {
                        (
                            Some(
                                spec_with_category(
                                    spec_parse_definition(rest),
                                    Category::Functions,
                                ),
                            ),
                            ni,
                            Category::Functions,
                        )
                    }
                } else if text::spec_starts_with(stmt, "---types---"@) {
                    let rest = text::spec_trim(stmt.skip(11));
                    if rest.len() == 0 {
                        spec_iter_next(s, ni, Category::Types)
                    } else {
                        (
                            Some(spec_with_category(spec_parse_definition(rest), Category::Types)),
                            ni,
                            Category::Types,
                        )
                    }
                } else {
                    (Some(Err(ParseErrorV::UnknownSeparator)), ni, cat)
                }
            } else {
                (Some(spec_with_category(spec_parse_definition(stmt), cat)), ni, cat)
            }
        },
    }
}

#[via_fn]
proof fn spec_iter_next_decreases(s: Seq<char>, i: int, cat: Category) {
    lemma_next_statement_bounds(s, i);
}

// ---------------------------------------------------------------------------
// The iterator
// ---------------------------------------------------------------------------

/// An iterator over Type Language definitions.
pub struct TlIterator {
    contents: Vec<char>,
    index: usize,
    category: Category,
}

impl TlIterator {
    /// The text being iterated over.
    pub closed spec fn contents_view(&self) -> Seq<char> {
        self.contents@
    }

    /// The current position.
    pub closed spec fn index_view(&self) -> int {
        self.index as int
    }

    /// The active category.
    pub closed spec fn category_view(&self) -> Category {
        self.category
    }

    /// The position never runs past the end of the text.
    pub closed spec fn wf(&self) -> bool {
        0 <= self.index <= self.contents@.len()
    }

    /// Creates an iterator at the start of the given text, in the
    /// type-definition section.
    pub fn new(contents: String) -> (r: TlIterator)
        ensures
            r.contents_view() == contents@,
            r.index_view() == 0,
            r.category_view() == Category::Types,
            r.wf(),
    {
        TlIterator { contents: text::str_chars(contents.as_str()), index: 0, category: Category::Types }
    }

    /// Scans for the end of the statement starting at `from`.
    fn scan_statement(contents: &Vec<char>, from: usize) -> (r: (usize, bool))
        requires
            from <= contents@.len(),
        ensures
            (r.0 as int, r.1) == spec_scan(contents@, from as int, false, true),
            from <= r.0 <= contents@.len(),
    {
        let n = contents.len();
        let ghost target_scan = spec_scan(contents@, from as int, false, true);
        let mut j: usize = from;
        let mut in_c: bool = false;
        let mut emp: bool = true;
        while j < n
            invariant
                from <= j <= n,
                n == contents@.len(),
                spec_scan(contents@, j as int, in_c, emp) == target_scan,
            ensures
                from <= j <= n,
                j as int == target_scan.0 || (j == n && target_scan.0 == n as int),
                emp == target_scan.1,
            decreases n - j,
        {
            let ch = contents[j];
            let nc: bool = if !in_c && ch == '/' && j + 1 < n && contents[j + 1] == '/' {
                true
            } else if in_c && ch == '\n' {
                false
            } else {
                in_c
            };
            if !nc && ch == ';' {
                in_c = nc;
                break ;
            }
            let ne: bool = if !nc && !text::is_space(ch) {
                false
            } else {
                emp
            };
            in_c = nc;
            emp = ne;
            j = j + 1;
        }
        proof {
            lemma_scan_bounds(contents@, from as int, false, true);
        }
        (j, emp)
    }

    /// Yields the next statement's parse, skipping empty statements and
    /// applying section markers.
    #[verifier::rlimit(60)]
    pub fn next(&mut self) -> (r: Option<Result<Definition, ParseError>>)
        requires
            old(self).wf(),
        ensures
            final(self).wf(),
            final(self).contents_view() == old(self).contents_view(),
            ({
                let step = spec_iter_next(
                    old(self).contents_view(),
                    old(self).index_view(),
                    old(self).category_view(),
                );
                &&& final(self).index_view() == step.1
                &&& final(self).category_view() == step.2
                &&& match r {
                    None => step.0 is None,
                    Some(Ok(d)) => step.0 == Some(
                        Ok::<DefinitionV, ParseErrorV>(d@),
                    ),
                    Some(Err(e)) => step.0 == Some(
                        Err::<DefinitionV, ParseErrorV>(e@),
                    ),
                }
            }),
    {
        let n = self.contents.len();
        let ghost c0 = self.contents@;
        let ghost i0 = self.index as int;
        let ghost cat0 = self.category;
        loop
            invariant
                c0 == old(self).contents_view(),
                i0 == old(self).index_view(),
                cat0 == old(self).category_view(),
                self.contents@ == c0,
                n == c0.len(),
                0 <= self.index <= n,
                spec_iter_next(c0, self.index as int, self.category) == spec_iter_next(
                    c0,
                    i0,
                    cat0,
                ),
            ensures
                self.contents@ == c0,
                0 <= self.index <= n,
                ({
                    let step = spec_iter_next(c0, i0, cat0);
                    step.0 is None && self.index as int == step.1 && self.category == step.2
                }),
            decreases n - self.index,
        {
            if self.index >= n {
                self.index = n;
                break ;
            }
            // Scan for the end of the statement.
            let ghost target_scan = spec_scan(c0, self.index as int, false, true);
            let scanned = Self::scan_statement(&self.contents, self.index);
            let end = scanned.0;
            let emp = scanned.1;
            let stmt_raw = text::subvec(self.contents.as_slice(), self.index, end);
            let stmt = text::trim(stmt_raw.as_slice());
            let ni: usize = if end >= n {
                n
            } else {
                end + 1
            };
            proof {
                assert(stmt_raw@ =~= c0.subrange(self.index as int, end as int));
                assert(spec_next_statement(c0, self.index as int) == if !target_scan.1 {
                    Some((stmt@, ni as int))
                } else {
                    spec_next_statement(c0, ni as int)
                });
            }
            if emp {
                self.index = ni;
                continue ;
            }
            // A non-empty statement: apply section markers.
            let dashes = text::str_chars("---");
            if text::starts_with(stmt.as_slice(), dashes.as_slice()) {
                let fsep = text::str_chars("---functions---");
                let tsep = text::str_chars("---types---");
                proof {
                    reveal_strlit("---functions---");
                    reveal_strlit("---types---");
                    assert(fsep@.len() == 15);
                    assert(tsep@.len() == 11);
                }
                if text::starts_with(stmt.as_slice(), fsep.as_slice()) {
                    let rest_raw = text::subvec(stmt.as_slice(), 15, stmt.len());
                    let rest = text::trim(rest_raw.as_slice());
                    proof {
                        assert(rest_raw@ =~= stmt@.skip(15));
                    }
                    self.category = Category::Functions;
                    if rest.len() == 0 {
                        self.index = ni;
                        continue ;
                    }
                    self.index = ni;
                    let parsed = Definition::from_str(
                        text::chars_string(rest.as_slice()).as_str(),
                    );
                    match parsed {
                        Ok(d) => {
                            let mut d = d;
                            d.category = Category::Functions;
                            return Some(Ok(d));
                        },
                        Err(e) => {
                            return Some(Err(e));
                        },
                    }
                } else if text::starts_with(stmt.as_slice(), tsep.as_slice()) {
                    let rest_raw = text::subvec(stmt.as_slice(), 11, stmt.len());
                    let rest = text::trim(rest_raw.as_slice());
                    proof {
                        assert(rest_raw@ =~= stmt@.skip(11));
                    }
                    self.category = Category::Types;
                    if rest.len() == 0 {
                        self.index = ni;
                        continue ;
                    }
                    self.index = ni;
                    let parsed = Definition::from_str(
                        text::chars_string(rest.as_slice()).as_str(),
                    );
                    match parsed {
                        Ok(d) => {
                            let mut d = d;
                            d.category = Category::Types;
                            return Some(Ok(d));
                        },
                        Err(e) => {
                            return Some(Err(e));
                        },
                    }
                } else {
                    self.index = ni;
                    return Some(Err(ParseError::UnknownSeparator));
                }
            } else {
                self.index = ni;
                let cat_now = self.category;
                let parsed = Definition::from_str(text::chars_string(stmt.as_slice()).as_str());
                match parsed {
                    Ok(d) => {
                        let mut d = d;
                        d.category = cat_now;
                        return Some(Ok(d));
                    },
                    Err(e) => {
                        return Some(Err(e));
                    },
                }
            }
        }
        None
    }
}

} // verus!
