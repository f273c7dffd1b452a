//! Metadata derived from a complete definition set: which definitions
//! recurse into their own result type, which qualify for a default value,
//! and the constructors of each type.

use vstd::prelude::*;

use crate::rustifier::parameters;
use crate::rustifier::parameters::spec_is_builtin_param;
use crate::text;
use crate::tl::category::Category;
use crate::tl::definition::Definition;
use crate::tl::definition::DefinitionV;
use crate::tl::ty::Type;

verus! {

// ---------------------------------------------------------------------------
// Views of definition slices and name vectors
// ---------------------------------------------------------------------------

/// The mathematical values of a sequence of definitions.
pub open spec fn defs_view(defs: Seq<Definition>) -> Seq<DefinitionV> {
    Seq::new(defs.len(), |i: int| defs[i]@)
}

/// The set of names held in a vector of names.
pub open spec fn names_set(v: Seq<Seq<char>>) -> Set<Seq<char>> {
    Set::new(|n: Seq<char>| v.contains(n))
}

proof fn lemma_names_set_push(v: Seq<Seq<char>>, x: Seq<char>)
    ensures
        names_set(v.push(x)) =~= names_set(v).insert(x),
{
    assert forall|n: Seq<char>|
        names_set(v.push(x)).contains(n) <==> names_set(v).insert(x).contains(n) by {
        if v.push(x).contains(n) {
            let i = choose|i: int| 0 <= i < v.push(x).len() && v.push(x)[i] == n;
            if i < v.len() {
                assert(v[i] == n);
                assert(v.contains(n));
            }
        }
        if v.contains(n) {
            let i = choose|i: int| 0 <= i < v.len() && v[i] == n;
            assert(v.push(x)[i] == n);
            assert(v.push(x).contains(n));
        }
        if n == x {
            assert(v.push(x)[v.len() as int] == n);
            assert(v.push(x).contains(n));
        }
    }
}

/// Whether the vector holds the given name.
fn contains_name(v: &Vec<String>, name: &str) -> (r: bool)
    ensures
        r == names_set(v.deep_view()).contains(name@),
{
    let n = v.len();
    let mut i: usize = 0;
    while i < n
        invariant
            i <= n,
            n == v@.len(),
            forall|k: int| 0 <= k < i ==> v.deep_view()[k] != name@,
        decreases n - i,
    {
        proof {
            assert(v.deep_view()[i as int] == v@[i as int]@);
        }
        if text::eq_str(v[i].as_str(), name) {
            proof {
                assert(v.deep_view().contains(name@));
            }
            return true;
        }
        i = i + 1;
    }
    proof {
        if v.deep_view().contains(name@) {
            let k = choose|k: int|
                0 <= k < v.deep_view().len() && v.deep_view()[k] == name@;
            assert(false);
        }
    }
    false
}

// ---------------------------------------------------------------------------
// Recursion detection
// ---------------------------------------------------------------------------

/// The set of type names of a definition's parameters.
pub open spec fn spec_param_names(d: DefinitionV) -> Set<Seq<char>> {
    Set::new(
        |n: Seq<char>| exists|p: int| 0 <= p < d.params.len() && d.params[p].ty.name == n,
    )
}

/// One expansion step: add the parameter type names of every
/// type-definition whose result type is already reachable.
pub open spec fn spec_reach_step(defs: Seq<DefinitionV>, s: Set<Seq<char>>) -> Set<Seq<char>> {
    s.union(
        Set::new(
            |n: Seq<char>|
                exists|j: int, p: int|
                    0 <= j < defs.len() && defs[j].category == Category::Types && s.contains(
                        defs[j].ty.name,
                    ) && 0 <= p < defs[j].params.len() && defs[j].params[p].ty.name == n,
        ),
    )
}

/// The type names reachable from `s` in at most `k` steps.
pub open spec fn spec_reach(defs: Seq<DefinitionV>, s: Set<Seq<char>>, k: nat) -> Set<Seq<char>>
    decreases k,
{
    if k == 0 {
        s
    } else {
        spec_reach_step(defs, spec_reach(defs, s, (k - 1) as nat))
    }
}

/// A definition recurses when its own result type is reachable, through the
/// constructors of the definition set, from its parameter types.
pub open spec fn spec_is_recursive(defs: Seq<DefinitionV>, d: DefinitionV) -> bool {
    spec_reach(defs, spec_param_names(d), defs.len() as nat).contains(d.ty.name)
}

/// Whether some type-definition named `n` recurses.
pub open spec fn spec_recursive_name(defs: Seq<DefinitionV>, n: Seq<char>) -> bool {
    exists|j: int|
        0 <= j < defs.len() && defs[j].category == Category::Types && defs[j].name == n
            && spec_is_recursive(defs, defs[j])
}

/// Every reachable set contains its starting set.
pub proof fn lemma_reach_contains_start(defs: Seq<DefinitionV>, s: Set<Seq<char>>, k: nat)
    ensures
        s.subset_of(spec_reach(defs, s, k)),
    decreases k,
{
    if k > 0 {
        lemma_reach_contains_start(defs, s, (k - 1) as nat);
    }
}

/// A definition with a parameter typed as its own result type recurses.
pub proof fn lemma_direct_self_reference_recursive(
    defs: Seq<DefinitionV>,
    d: DefinitionV,
    p: int,
)
    requires
        0 <= p < d.params.len(),
        d.params[p].ty.name == d.ty.name,
    ensures
        spec_is_recursive(defs, d),
{
    assert(spec_param_names(d).contains(d.ty.name));
    lemma_reach_contains_start(defs, spec_param_names(d), defs.len() as nat);
}

/// Whatever a reachable constructor takes as parameters is reachable one
/// step later.
pub proof fn lemma_reach_through_constructor(
    defs: Seq<DefinitionV>,
    s: Set<Seq<char>>,
    k: nat,
    j: int,
    p: int,
)
    requires
        0 <= j < defs.len(),
        defs[j].category == Category::Types,
        spec_reach(defs, s, k).contains(defs[j].ty.name),
        0 <= p < defs[j].params.len(),
    ensures
        spec_reach(defs, s, (k + 1) as nat).contains(defs[j].params[p].ty.name),
{
    assert(spec_reach(defs, s, (k + 1) as nat) == spec_reach_step(defs, spec_reach(defs, s, k)));
}

/// A definition that reaches its own result type through one intermediate
/// constructor recurses: the transitive case of recursion detection.
pub proof fn lemma_transitive_self_reference_recursive(
    defs: Seq<DefinitionV>,
    d: DefinitionV,
    p: int,
    j: int,
    q: int,
)
    requires
        0 <= p < d.params.len(),
        0 <= j < defs.len(),
        defs[j].category == Category::Types,
        defs[j].ty.name == d.params[p].ty.name,
        0 <= q < defs[j].params.len(),
        defs[j].params[q].ty.name == d.ty.name,
    ensures
        spec_is_recursive(defs, d),
{
    let s0 = spec_param_names(d);
    assert(s0.contains(d.params[p].ty.name));
    assert(spec_reach(defs, s0, 0nat) == s0);
    lemma_reach_through_constructor(defs, s0, 0nat, j, q);
    assert(spec_reach(defs, s0, 1nat).contains(d.ty.name));
    lemma_reach_monotone_fuel(defs, s0, 1nat, defs.len() as nat);
}

/// Reachability grows with the step count.
pub proof fn lemma_reach_monotone_fuel(
    defs: Seq<DefinitionV>,
    s: Set<Seq<char>>,
    k1: nat,
    k2: nat,
)
    requires
        k1 <= k2,
    ensures
        spec_reach(defs, s, k1).subset_of(spec_reach(defs, s, k2)),
    decreases k2,
{
    if k1 < k2 {
        lemma_reach_monotone_fuel(defs, s, k1, (k2 - 1) as nat);
        assert(spec_reach(defs, s, (k2 - 1) as nat).subset_of(
            spec_reach_step(defs, spec_reach(defs, s, (k2 - 1) as nat)),
        ));
    }
}

/// The type names of the parameters of one definition, as a vector.
fn param_names_vec(d: &Definition) -> (r: Vec<String>)
    ensures
        names_set(r.deep_view()) == spec_param_names(d@),
{
    let n = d.params.len();
    let mut out: Vec<String> = Vec::new();
    let mut p: usize = 0;
    while p < n
        invariant
            p <= n,
            n == d.params@.len(),
            names_set(out.deep_view()) =~= Set::new(
                |nm: Seq<char>|
                    exists|q: int| 0 <= q < p && d@.params[q].ty.name == nm,
            ),
        decreases n - p,
    {
        let ghost before = out.deep_view();
        out.push(d.params[p].ty.name.clone());
        proof {
            assert(out.deep_view() =~~= before.push(d.params@[p as int].ty.name@));
            lemma_names_set_push(before, d.params@[p as int].ty.name@);
            assert(d@.params[p as int].ty.name == d.params@[p as int].ty.name@);
            assert forall|nm: Seq<char>|
                names_set(out.deep_view()).contains(nm) <==> (exists|q: int|
                    0 <= q < p + 1 && d@.params[q].ty.name == nm) by {
                if exists|q: int| 0 <= q < p + 1 && d@.params[q].ty.name == nm {
                    let q = choose|q: int| 0 <= q < p + 1 && d@.params[q].ty.name == nm;
                    if q < p {
                        assert(names_set(before).contains(nm));
                    }
                }
            }
            assert(names_set(out.deep_view()) =~= Set::new(
                |nm: Seq<char>|
                    exists|q: int| 0 <= q < p + 1 && d@.params[q].ty.name == nm,
            ));
        }
        p = p + 1;
    }
    proof {
        assert(names_set(out.deep_view()) =~= spec_param_names(d@));
    }
    out
}

/// One expansion step over the definition set.
fn reach_step(defs: &Vec<Definition>, s: &Vec<String>) -> (out: Vec<String>)
    ensures
        names_set(out.deep_view()) == spec_reach_step(defs_view(defs@), names_set(s.deep_view())),
{
    let ghost dv = defs_view(defs@);
    let ghost s0 = names_set(s.deep_view());
    let mut out: Vec<String> = Vec::new();
    let sn = s.len();
    let mut i: usize = 0;
    while i < sn
        invariant
            i <= sn,
            sn == s@.len(),
            out@.len() == i,
            out.deep_view() == s.deep_view().take(i as int),
        decreases sn - i,
    {
        let ghost before = out.deep_view();
        out.push(s[i].clone());
        proof {
            assert(out@.len() == i + 1);
            assert forall|k: int| 0 <= k < i + 1 implies out.deep_view()[k] == s.deep_view().take(
                i as int + 1,
            )[k] by {
                assert(out.deep_view()[k] == out@[k]@);
                assert(s.deep_view()[k] == s@[k]@);
                if k < i {
                    assert(before[k] == s.deep_view().take(i as int)[k]);
                    assert(out.deep_view()[k] == before[k]);
                } else {
                    assert(out@[k] == s@[i as int]);
                }
            }
            assert(out.deep_view() =~~= s.deep_view().take(i as int + 1));
        }
        i = i + 1;
    }
    proof {
        assert(out.deep_view() =~~= s.deep_view());
    }
    let n = defs.len();
    let mut j: usize = 0;
    while j < n
        invariant
            j <= n,
            n == defs@.len(),
            dv == defs_view(defs@),
            s0 == names_set(s.deep_view()),
            names_set(out.deep_view()) =~= s0.union(
                Set::new(
                    |nm: Seq<char>|
                        exists|jj: int, p: int|
                            0 <= jj < j && dv[jj].category == Category::Types && s0.contains(
                                dv[jj].ty.name,
                            ) && 0 <= p < dv[jj].params.len() && dv[jj].params[p].ty.name == nm,
                ),
            ),
        decreases n - j,
    {
        let use_def = match defs[j].category {
            Category::Types => contains_name(s, defs[j].ty.name.as_str()),
            Category::Functions => false,
        };
        proof {
            assert(dv[j as int] == defs@[j as int]@);
        }
        if use_def {
            let pn = defs[j].params.len();
            let mut p: usize = 0;
            while p < pn
                invariant
                    p <= pn,
                    j < n,
                    pn == defs@[j as int].params@.len(),
                    n == defs@.len(),
                    dv == defs_view(defs@),
                    s0 == names_set(s.deep_view()),
                    dv[j as int].category == Category::Types,
                    s0.contains(dv[j as int].ty.name),
                    names_set(out.deep_view()) =~= s0.union(
                        Set::new(
                            |nm: Seq<char>|
                                (exists|jj: int, q: int|
                                    0 <= jj < j && dv[jj].category == Category::Types
                                        && s0.contains(dv[jj].ty.name) && 0 <= q
                                        < dv[jj].params.len() && dv[jj].params[q].ty.name == nm)
                                    || (exists|q: int|
                                    0 <= q < p && dv[j as int].params[q].ty.name == nm),
                        ),
                    ),
                decreases pn - p,
            {
                proof {
                    assert(dv[j as int] == defs@[j as int]@);
                    assert(dv[j as int].params[p as int].name == defs@[j as int].params@[
                        p as int
                    ]@.name);
                }
                let pname = &defs[j].params[p].ty.name;
                if !contains_name(&out, pname.as_str()) {
                    let ghost before = out.deep_view();
                    out.push(pname.clone());
                    proof {
                        assert(out.deep_view() =~~= before.push(pname@));
                        lemma_names_set_push(before, pname@);
                    }
                }
                proof {
                    assert(dv[j as int].params[p as int].ty.name == pname@);
                    assert forall|nm: Seq<char>|
                        names_set(out.deep_view()).contains(nm) <==> s0.union(
                            Set::new(
                                |nm2: Seq<char>|
                                    (exists|jj: int, q: int|
                                        0 <= jj < j && dv[jj].category == Category::Types
                                            && s0.contains(dv[jj].ty.name) && 0 <= q
                                            < dv[jj].params.len() && dv[jj].params[q].ty.name
                                            == nm2) || (exists|q: int|
                                        0 <= q < p + 1 && dv[j as int].params[q].ty.name == nm2),
                            ),
                        ).contains(nm) by {
                        if exists|q: int| 0 <= q < p + 1 && dv[j as int].params[q].ty.name == nm {
                            let q = choose|q: int|
                                0 <= q < p + 1 && dv[j as int].params[q].ty.name == nm;
                        }
                    }
                    assert(names_set(out.deep_view()) =~= s0.union(
                        Set::new(
                            |nm: Seq<char>|
                                (exists|jj: int, q: int|
                                    0 <= jj < j && dv[jj].category == Category::Types
                                        && s0.contains(dv[jj].ty.name) && 0 <= q
                                        < dv[jj].params.len() && dv[jj].params[q].ty.name == nm)
                                    || (exists|q: int|
                                    0 <= q < p + 1 && dv[j as int].params[q].ty.name == nm),
                        ),
                    ));
                }
                p = p + 1;
            }
            proof {
                assert forall|nm: Seq<char>|
                    names_set(out.deep_view()).contains(nm) <==> s0.union(
                        Set::new(
                            |nm2: Seq<char>|
                                exists|jj: int, q: int|
                                    0 <= jj < j + 1 && dv[jj].category == Category::Types
                                        && s0.contains(dv[jj].ty.name) && 0 <= q
                                        < dv[jj].params.len() && dv[jj].params[q].ty.name == nm2,
                        ),
                    ).contains(nm) by {
                    if exists|jj: int, q: int|
                        0 <= jj < j + 1 && dv[jj].category == Category::Types && s0.contains(
                            dv[jj].ty.name,
                        ) && 0 <= q < dv[jj].params.len() && dv[jj].params[q].ty.name == nm {
                        let (jj, q) = choose|jj: int, q: int|
                            0 <= jj < j + 1 && dv[jj].category == Category::Types && s0.contains(
                                dv[jj].ty.name,
                            ) && 0 <= q < dv[jj].params.len() && dv[jj].params[q].ty.name == nm;
                    }
                }
                assert(names_set(out.deep_view()) =~= s0.union(
                    Set::new(
                        |nm: Seq<char>|
                            exists|jj: int, q: int|
                                0 <= jj < j + 1 && dv[jj].category == Category::Types
                                    && s0.contains(dv[jj].ty.name) && 0 <= q < dv[jj].params.len()
                                    && dv[jj].params[q].ty.name == nm,
                    ),
                ));
            }
        } else {
            proof {
                assert forall|nm: Seq<char>|
                    names_set(out.deep_view()).contains(nm) <==> s0.union(
                        Set::new(
                            |nm2: Seq<char>|
                                exists|jj: int, q: int|
                                    0 <= jj < j + 1 && dv[jj].category == Category::Types
                                        && s0.contains(dv[jj].ty.name) && 0 <= q
                                        < dv[jj].params.len() && dv[jj].params[q].ty.name == nm2,
                        ),
                    ).contains(nm) by {
                    if exists|jj: int, q: int|
                        0 <= jj < j + 1 && dv[jj].category == Category::Types && s0.contains(
                            dv[jj].ty.name,
                        ) && 0 <= q < dv[jj].params.len() && dv[jj].params[q].ty.name == nm {
                        let (jj, q) = choose|jj: int, q: int|
                            0 <= jj < j + 1 && dv[jj].category == Category::Types && s0.contains(
                                dv[jj].ty.name,
                            ) && 0 <= q < dv[jj].params.len() && dv[jj].params[q].ty.name == nm;
                        assert(jj < j);
                    }
                }
                assert(names_set(out.deep_view()) =~= s0.union(
                    Set::new(
                        |nm: Seq<char>|
                            exists|jj: int, q: int|
                                0 <= jj < j + 1 && dv[jj].category == Category::Types
                                    && s0.contains(dv[jj].ty.name) && 0 <= q < dv[jj].params.len()
                                    && dv[jj].params[q].ty.name == nm,
                    ),
                ));
            }
        }
        j = j + 1;
    }
    proof {
        assert(names_set(out.deep_view()) =~= spec_reach_step(dv, s0));
    }
    out
}

/// Whether a definition's parameter types transitively reach its own result
/// type through the definition set's constructors.
pub fn def_self_references(definitions: &Vec<Definition>, def: &Definition) -> (r: bool)
    ensures
        r == spec_is_recursive(defs_view(definitions@), def@),
{
    let ghost dv = defs_view(definitions@);
    let mut s = param_names_vec(def);
    let fuel = definitions.len();
    let mut k: usize = 0;
    while k < fuel
        invariant
            k <= fuel,
            fuel == definitions@.len(),
            dv == defs_view(definitions@),
            names_set(s.deep_view()) == spec_reach(dv, spec_param_names(def@), k as nat),
        decreases fuel - k,
    {
        s = reach_step(definitions, &s);
        k = k + 1;
    }
    contains_name(&s, def.ty.name.as_str())
}


// ---------------------------------------------------------------------------
// Bare-composition detection
// ---------------------------------------------------------------------------

/// Whether a definition directly disqualifies itself from a default value:
/// some parameter is neither a built-in nor a bare type.
pub open spec fn spec_direct_bad(d: DefinitionV) -> bool {
    exists|p: int|
        0 <= p < d.params.len() && !spec_is_builtin_param(d.params[p]) && !d.params[p].ty.bare
}

/// The last type-definition with the given name, if any.
pub open spec fn spec_find_def_by_name(defs: Seq<DefinitionV>, name: Seq<char>) -> Option<int>
    decreases defs.len(),
{
    if defs.len() == 0 {
        None
    } else if defs.last().category == Category::Types && defs.last().name == name {
        Some(defs.len() - 1)
    } else {
        spec_find_def_by_name(defs.drop_last(), name)
    }
}

proof fn lemma_find_def_is(defs: Seq<DefinitionV>, name: Seq<char>, i: int)
    requires
        0 <= i < defs.len(),
        defs[i].category == Category::Types,
        defs[i].name == name,
        forall|j: int|
            i < j < defs.len() ==> !(defs[j].category == Category::Types && defs[j].name == name),
    ensures
        spec_find_def_by_name(defs, name) == Some(i),
    decreases defs.len(),
{
    if i == defs.len() - 1 {
    } else {
        let t = defs.drop_last();
        assert(forall|j: int| 0 <= j < t.len() ==> t[j] == defs[j]);
        lemma_find_def_is(t, name, i);
    }
}

proof fn lemma_find_def_none(defs: Seq<DefinitionV>, name: Seq<char>)
    requires
        forall|j: int|
            0 <= j < defs.len() ==> !(defs[j].category == Category::Types && defs[j].name == name),
    ensures
        spec_find_def_by_name(defs, name) is None,
    decreases defs.len(),
{
    if defs.len() > 0 {
        let t = defs.drop_last();
        assert(forall|j: int| 0 <= j < t.len() ==> t[j] == defs[j]);
        lemma_find_def_none(t, name);
    }
}

/// Finds the last type-definition with the given name.
fn find_def_by_name(definitions: &Vec<Definition>, name: &str) -> (r: Option<usize>)
    ensures
        match r {
            Some(i) => i < definitions@.len() && spec_find_def_by_name(
                defs_view(definitions@),
                name@,
            ) == Some(i as int),
            None => spec_find_def_by_name(defs_view(definitions@), name@) is None,
        },
{
    let ghost dv = defs_view(definitions@);
    let mut i: usize = definitions.len();
    while i > 0
        invariant
            i <= definitions@.len(),
            dv == defs_view(definitions@),
            forall|j: int|
                i <= j < dv.len() ==> !(dv[j].category == Category::Types && dv[j].name == name@),
        decreases i,
    {
        i = i - 1;
        proof {
            assert(dv[i as int] == definitions@[i as int]@);
        }
        let is_types = match definitions[i].category {
            Category::Types => true,
            Category::Functions => false,
        };
        if is_types && text::eq_str(definitions[i].name.as_str(), name) {
            proof {
                lemma_find_def_is(dv, name@, i as int);
            }
            return Some(i);
        }
    }
    proof {
        lemma_find_def_none(dv, name@);
    }
    None
}

/// Whether some parameter's type is constructed by a definition already in
/// the disqualified set.
pub open spec fn spec_flagged(defs: Seq<DefinitionV>, d: DefinitionV, b: Set<Seq<char>>) -> bool {
    exists|p: int|
        #![trigger d.params[p]]
        0 <= p < d.params.len() && match spec_find_def_by_name(defs, d.params[p].ty.name) {
            Some(e) => b.contains(defs[e].name),
            None => false,
        }
}

/// The names of the definitions that disqualify themselves directly.
pub open spec fn spec_bad_start(defs: Seq<DefinitionV>) -> Set<Seq<char>> {
    Set::new(
        |n: Seq<char>|
            exists|j: int|
                0 <= j < defs.len() && defs[j].category == Category::Types && defs[j].name == n
                    && spec_direct_bad(defs[j]),
    )
}

/// One step: add every type-definition one of whose parameter types is
/// constructed by an already-disqualified definition.
pub open spec fn spec_bad_step(defs: Seq<DefinitionV>, b: Set<Seq<char>>) -> Set<Seq<char>> {
    b.union(
        Set::new(
            |n: Seq<char>|
                exists|j: int|
                    0 <= j < defs.len() && defs[j].category == Category::Types && defs[j].name == n
                        && spec_flagged(defs, defs[j], b),
        ),
    )
}

pub open spec fn spec_bad_iter(defs: Seq<DefinitionV>, k: nat) -> Set<Seq<char>>
    decreases k,
{
    if k == 0 {
        spec_bad_start(defs)
    } else {
        spec_bad_step(defs, spec_bad_iter(defs, (k - 1) as nat))
    }
}

/// The names of the definitions that cannot carry a default value: a
/// parameter is neither built-in nor bare, or is of a type whose constructor
/// is itself disqualified, transitively.
pub open spec fn spec_bad(defs: Seq<DefinitionV>) -> Set<Seq<char>> {
    spec_bad_iter(defs, defs.len() as nat)
}

/// Whether some type-definition named `n` qualifies for a default value.
pub open spec fn spec_default_name(defs: Seq<DefinitionV>, n: Seq<char>) -> bool {
    exists|j: int|
        0 <= j < defs.len() && defs[j].category == Category::Types && defs[j].name == n
            && !spec_bad(defs).contains(n)
}

/// Whether a parameter directly disqualifies the definition.
fn direct_bad(def: &Definition) -> (r: bool)
    ensures
        r == spec_direct_bad(def@),
{
    let n = def.params.len();
    let mut p: usize = 0;
    while p < n
        invariant
            p <= n,
            n == def.params@.len(),
            forall|q: int|
                0 <= q < p ==> !(!spec_is_builtin_param(def@.params[q]) && !def@.params[q].ty.bare),
        decreases n - p,
    {
        proof {
            assert(def@.params[p as int] == def.params@[p as int]@);
        }
        if !parameters::is_builtin_type(&def.params[p]) && !def.params[p].ty.bare {
            return true;
        }
        p = p + 1;
    }
    false
}

/// Whether a parameter's constructor is already disqualified.
fn flagged(definitions: &Vec<Definition>, def: &Definition, b: &Vec<String>) -> (r: bool)
    ensures
        r == spec_flagged(defs_view(definitions@), def@, names_set(b.deep_view())),
{
    let ghost dv = defs_view(definitions@);
    let ghost bs = names_set(b.deep_view());
    let n = def.params.len();
    let mut p: usize = 0;
    while p < n
        invariant
            p <= n,
            n == def.params@.len(),
            dv == defs_view(definitions@),
            bs == names_set(b.deep_view()),
            forall|q: int|
                #![trigger def@.params[q]]
                0 <= q < p ==> !(match spec_find_def_by_name(dv, def@.params[q].ty.name) {
                    Some(e) => bs.contains(dv[e].name),
                    None => false,
                }),
        decreases n - p,
    {
        proof {
            assert(def@.params[p as int] == def.params@[p as int]@);
        }
        match find_def_by_name(definitions, def.params[p].ty.name.as_str()) {
            Some(e) => {
                proof {
                    assert(dv[e as int] == definitions@[e as int]@);
                }
                if contains_name(b, definitions[e].name.as_str()) {
                    return true;
                }
            },
            None => {},
        }
        p = p + 1;
    }
    false
}

/// The disqualified names: the direct ones, then the closure.
fn compute_bad(definitions: &Vec<Definition>) -> (r: Vec<String>)
    ensures
        names_set(r.deep_view()) == spec_bad(defs_view(definitions@)),
{
    let ghost dv = defs_view(definitions@);
    let n = definitions.len();
    let mut bad: Vec<String> = Vec::new();
    let mut j: usize = 0;
    proof {
        assert forall|nm: Seq<char>|
            names_set(bad.deep_view()).contains(nm) <==> (exists|jj: int|
                0 <= jj < 0 && dv[jj].category == Category::Types && dv[jj].name == nm
                    && spec_direct_bad(dv[jj])) by {
            if names_set(bad.deep_view()).contains(nm) {
                let i = choose|i: int|
                    0 <= i < bad.deep_view().len() && bad.deep_view()[i] == nm;
            }
        }
    }
    while j < n
        invariant
            j <= n,
            n == definitions@.len(),
            dv == defs_view(definitions@),
            names_set(bad.deep_view()) =~= Set::new(
                |nm: Seq<char>|
                    exists|jj: int|
                        0 <= jj < j && dv[jj].category == Category::Types && dv[jj].name == nm
                            && spec_direct_bad(dv[jj]),
            ),
        decreases n - j,
    {
        proof {
            assert(dv[j as int] == definitions@[j as int]@);
        }
        let is_types = match definitions[j].category {
            Category::Types => true,
            Category::Functions => false,
        };
        if is_types && direct_bad(&definitions[j]) {
            let ghost before = bad.deep_view();
            bad.push(definitions[j].name.clone());
            proof {
                assert(bad.deep_view() =~~= before.push(definitions@[j as int].name@));
                lemma_names_set_push(before, definitions@[j as int].name@);
            }
        }
        proof {
            assert forall|nm: Seq<char>|
                names_set(bad.deep_view()).contains(nm) <==> (exists|jj: int|
                    0 <= jj < j + 1 && dv[jj].category == Category::Types && dv[jj].name == nm
                        && spec_direct_bad(dv[jj])) by {
                if exists|jj: int|
                    0 <= jj < j + 1 && dv[jj].category == Category::Types && dv[jj].name == nm
                        && spec_direct_bad(dv[jj]) {
                    let jj = choose|jj: int|
                        0 <= jj < j + 1 && dv[jj].category == Category::Types && dv[jj].name == nm
                            && spec_direct_bad(dv[jj]);
                }
            }
            assert(names_set(bad.deep_view()) =~= Set::new(
                |nm: Seq<char>|
                    exists|jj: int|
                        0 <= jj < j + 1 && dv[jj].category == Category::Types && dv[jj].name == nm
                            && spec_direct_bad(dv[jj]),
            ));
        }
        j = j + 1;
    }
    proof {
        assert(names_set(bad.deep_view()) =~= spec_bad_start(dv));
    }
    let mut k: usize = 0;
    while k < n
        invariant
            k <= n,
            n == definitions@.len(),
            dv == defs_view(definitions@),
            names_set(bad.deep_view()) == spec_bad_iter(dv, k as nat),
        decreases n - k,
    {
        let mut out: Vec<String> = Vec::new();
        let bn = bad.len();
        let mut i: usize = 0;
        while i < bn
            invariant
                i <= bn,
                bn == bad@.len(),
                out@.len() == i,
                out.deep_view() == bad.deep_view().take(i as int),
            decreases bn - i,
        {
            let ghost before = out.deep_view();
            out.push(bad[i].clone());
            proof {
                assert forall|kk: int|
                    0 <= kk < i + 1 implies out.deep_view()[kk] == bad.deep_view().take(
                    i as int + 1,
                )[kk] by {
                    assert(out.deep_view()[kk] == out@[kk]@);
                    assert(bad.deep_view()[kk] == bad@[kk]@);
                    if kk < i {
                        assert(before[kk] == bad.deep_view().take(i as int)[kk]);
                        assert(out.deep_view()[kk] == before[kk]);
                    } else {
                        assert(out@[kk] == bad@[i as int]);
                    }
                }
                assert(out.deep_view() =~~= bad.deep_view().take(i as int + 1));
            }
            i = i + 1;
        }
        proof {
            assert(out.deep_view() =~~= bad.deep_view());
            assert(names_set(out.deep_view()) =~= names_set(bad.deep_view()));
        }
        let ghost b0 = names_set(bad.deep_view());
        let mut j2: usize = 0;
        while j2 < n
            invariant
                j2 <= n,
                n == definitions@.len(),
                dv == defs_view(definitions@),
                b0 == names_set(bad.deep_view()),
                names_set(out.deep_view()) =~= b0.union(
                    Set::new(
                        |nm: Seq<char>|
                            exists|jj: int|
                                0 <= jj < j2 && dv[jj].category == Category::Types && dv[jj].name
                                    == nm && spec_flagged(dv, dv[jj], b0),
                    ),
                ),
            decreases n - j2,
        {
            proof {
                assert(dv[j2 as int] == definitions@[j2 as int]@);
            }
            let is_types = match definitions[j2].category {
                Category::Types => true,
                Category::Functions => false,
            };
            if is_types && flagged(definitions, &definitions[j2], &bad) {
                if !contains_name(&out, definitions[j2].name.as_str()) {
                    let ghost before = out.deep_view();
                    out.push(definitions[j2].name.clone());
                    proof {
                        assert(out.deep_view() =~~= before.push(definitions@[j2 as int].name@));
                        lemma_names_set_push(before, definitions@[j2 as int].name@);
                    }
                }
            }
            proof {
                assert forall|nm: Seq<char>|
                    names_set(out.deep_view()).contains(nm) <==> b0.union(
                        Set::new(
                            |nm2: Seq<char>|
                                exists|jj: int|
                                    0 <= jj < j2 + 1 && dv[jj].category == Category::Types
                                        && dv[jj].name == nm2 && spec_flagged(dv, dv[jj], b0),
                        ),
                    ).contains(nm) by {
                    if exists|jj: int|
                        0 <= jj < j2 + 1 && dv[jj].category == Category::Types && dv[jj].name == nm
                            && spec_flagged(dv, dv[jj], b0) {
                        let jj = choose|jj: int|
                            0 <= jj < j2 + 1 && dv[jj].category == Category::Types && dv[jj].name
                                == nm && spec_flagged(dv, dv[jj], b0);
                    }
                }
                assert(names_set(out.deep_view()) =~= b0.union(
                    Set::new(
                        |nm: Seq<char>|
                            exists|jj: int|
                                0 <= jj < j2 + 1 && dv[jj].category == Category::Types
                                    && dv[jj].name == nm && spec_flagged(dv, dv[jj], b0),
                    ),
                ));
            }
            j2 = j2 + 1;
        }
        proof {
            assert(names_set(out.deep_view()) =~= spec_bad_step(dv, b0));
        }
        bad = out;
        k = k + 1;
    }
    bad
}

/// Whether every parameter of the definition is, transitively, built-in or
/// bare, so that it qualifies for a default value.
pub fn def_contains_only_bare_types(definitions: &Vec<Definition>, def: &Definition) -> (r: bool)
    ensures
        r == !spec_bad(defs_view(definitions@)).contains(def@.name),
{
    let bad = compute_bad(definitions);
    !contains_name(&bad, def.name.as_str())
}



// ---------------------------------------------------------------------------
// Grouping definitions by the type they construct
// ---------------------------------------------------------------------------

/// The indices of the type-definitions constructing the named type, in
/// encounter order.
pub open spec fn spec_defs_with_type(defs: Seq<DefinitionV>, name: Seq<char>) -> Seq<int>
    decreases defs.len(),
{
    if defs.len() == 0 {
        Seq::<int>::empty()
    } else {
        spec_defs_with_type(defs.drop_last(), name) + (if defs.last().category == Category::Types
            && defs.last().ty.name == name {
            seq![defs.len() - 1]
        } else {
            Seq::<int>::empty()
        })
    }
}

/// Every listed index names a constructor of the type, and a type with a
/// constructor has a non-empty list.
pub proof fn lemma_defs_with_type_props(defs: Seq<DefinitionV>, name: Seq<char>)
    ensures
        forall|k: int|
            0 <= k < spec_defs_with_type(defs, name).len() ==> {
                let i = #[trigger] spec_defs_with_type(defs, name)[k];
                &&& 0 <= i < defs.len()
                &&& defs[i].category == Category::Types
                &&& defs[i].ty.name == name
            },
        (exists|j: int|
            0 <= j < defs.len() && defs[j].category == Category::Types && defs[j].ty.name
                == name) ==> spec_defs_with_type(defs, name).len() > 0,
    decreases defs.len(),
{
    if defs.len() > 0 {
        let t = defs.drop_last();
        lemma_defs_with_type_props(t, name);
        assert(forall|j: int| 0 <= j < t.len() ==> t[j] == defs[j]);
        if exists|j: int|
            0 <= j < defs.len() && defs[j].category == Category::Types && defs[j].ty.name
                == name {
            let j = choose|j: int|
                0 <= j < defs.len() && defs[j].category == Category::Types && defs[j].ty.name
                    == name;
            if j < defs.len() - 1 {
                assert(t[j] == defs[j]);
            }
        }
    }
}

/// The integer values of a vector of indices.
pub open spec fn usize_seq(v: Seq<usize>) -> Seq<int> {
    Seq::new(v.len(), |i: int| v[i] as int)
}

/// Whether the grouping holds an entry for the named type.
pub open spec fn spec_dwt_key(dwt: Seq<(String, Vec<usize>)>, n: Seq<char>) -> bool {
    exists|k: int| 0 <= k < dwt.len() && #[trigger] dwt[k].0@ == n
}

/// Whether some type-definition constructs the named type.
pub open spec fn spec_has_constructor(defs: Seq<DefinitionV>, n: Seq<char>) -> bool {
    exists|j: int|
        0 <= j < defs.len() && #[trigger] defs[j].category == Category::Types && defs[j].ty.name
            == n
}

/// Finds the entry with the given key.
fn find_key(dwt: &Vec<(String, Vec<usize>)>, name: &str) -> (r: Option<usize>)
    ensures
        match r {
            Some(ki) => ki < dwt@.len() && dwt@[ki as int].0@ == name@,
            None => forall|k: int| 0 <= k < dwt@.len() ==> dwt@[k].0@ != name@,
        },
{
    let n = dwt.len();
    let mut i: usize = 0;
    while i < n
        invariant
            i <= n,
            n == dwt@.len(),
            forall|k: int| 0 <= k < i ==> dwt@[k].0@ != name@,
        decreases n - i,
    {
        if text::eq_str(dwt[i].0.as_str(), name) {
            return Some(i);
        }
        i = i + 1;
    }
    None
}

// ---------------------------------------------------------------------------
// The metadata itself
// ---------------------------------------------------------------------------

/// Additional metadata required by several parts of the generation: which
/// definitions recurse, which qualify for a default value, and the
/// constructors of each type.
pub struct Metadata {
    recursing_defs: Vec<String>,
    default_impl_defs: Vec<String>,
    defs_with_type: Vec<(String, Vec<usize>)>,
    defs_ghost: Ghost<Seq<DefinitionV>>,
}

impl Metadata {
    /// The definition set this metadata was built from.
    pub closed spec fn defs(&self) -> Seq<DefinitionV> {
        self.defs_ghost@
    }

    /// The stored analyses agree with the definition set.
    pub closed spec fn wf(&self) -> bool {
        &&& forall|n: Seq<char>|
            #[trigger] names_set(self.recursing_defs.deep_view()).contains(n)
                <==> spec_recursive_name(self.defs(), n)
        &&& forall|n: Seq<char>|
            #[trigger] names_set(self.default_impl_defs.deep_view()).contains(n)
                <==> spec_default_name(self.defs(), n)
        &&& forall|k: int|
            0 <= k < self.defs_with_type@.len() ==> usize_seq(
                #[trigger] self.defs_with_type@[k].1@,
            ) == spec_defs_with_type(self.defs(), self.defs_with_type@[k].0@)
        &&& forall|n: Seq<char>|
            #[trigger] spec_dwt_key(self.defs_with_type@, n) <==> spec_has_constructor(
                self.defs(),
                n,
            )
    }

    /// Builds the metadata from the complete definition set.
    pub fn new(definitions: &Vec<Definition>) -> (r: Metadata)
        ensures
            r.wf(),
            r.defs() == defs_view(definitions@),
    {
        let ghost dv = defs_view(definitions@);
        let n = definitions.len();

        // Which definitions recurse.
        let mut recursing: Vec<String> = Vec::new();
        let mut j: usize = 0;
        proof {
            assert forall|nm: Seq<char>|
                names_set(recursing.deep_view()).contains(nm) <==> (exists|jj: int|
                    0 <= jj < 0 && dv[jj].category == Category::Types && dv[jj].name == nm
                        && spec_is_recursive(dv, dv[jj])) by {
                if names_set(recursing.deep_view()).contains(nm) {
                    let i = choose|i: int|
                        0 <= i < recursing.deep_view().len() && recursing.deep_view()[i] == nm;
                }
            }
        }
        while j < n
            invariant
                j <= n,
                n == definitions@.len(),
                dv == defs_view(definitions@),
                names_set(recursing.deep_view()) =~= Set::new(
                    |nm: Seq<char>|
                        exists|jj: int|
                            0 <= jj < j && dv[jj].category == Category::Types && dv[jj].name == nm
                                && spec_is_recursive(dv, dv[jj]),
                ),
            decreases n - j,
        {
            proof {
                assert(dv[j as int] == definitions@[j as int]@);
            }
            let is_types = match definitions[j].category {
                Category::Types => true,
                Category::Functions => false,
            };
            if is_types && def_self_references(definitions, &definitions[j]) {
                let ghost before = recursing.deep_view();
                recursing.push(definitions[j].name.clone());
                proof {
                    assert(recursing.deep_view() =~~= before.push(definitions@[j as int].name@));
                    lemma_names_set_push(before, definitions@[j as int].name@);
                }
            }
            proof {
                assert forall|nm: Seq<char>|
                    names_set(recursing.deep_view()).contains(nm) <==> (exists|jj: int|
                        0 <= jj < j + 1 && dv[jj].category == Category::Types && dv[jj].name == nm
                            && spec_is_recursive(dv, dv[jj])) by {
                    if exists|jj: int|
                        0 <= jj < j + 1 && dv[jj].category == Category::Types && dv[jj].name == nm
                            && spec_is_recursive(dv, dv[jj]) {
                        let jj = choose|jj: int|
                            0 <= jj < j + 1 && dv[jj].category == Category::Types && dv[jj].name
                                == nm && spec_is_recursive(dv, dv[jj]);
                    }
                }
                assert(names_set(recursing.deep_view()) =~= Set::new(
                    |nm: Seq<char>|
                        exists|jj: int|
                            0 <= jj < j + 1 && dv[jj].category == Category::Types && dv[jj].name
                                == nm && spec_is_recursive(dv, dv[jj]),
                ));
            }
            j = j + 1;
        }

        // Which definitions qualify for a default value.
        let bad = compute_bad(definitions);
        let mut default_impl: Vec<String> = Vec::new();
        let mut j2: usize = 0;
        proof {
            assert forall|nm: Seq<char>|
                names_set(default_impl.deep_view()).contains(nm) <==> (exists|jj: int|
                    0 <= jj < 0 && dv[jj].category == Category::Types && dv[jj].name == nm
                        && !spec_bad(dv).contains(nm)) by {
                if names_set(default_impl.deep_view()).contains(nm) {
                    let i = choose|i: int|
                        0 <= i < default_impl.deep_view().len() && default_impl.deep_view()[i]
                            == nm;
                }
            }
        }
        while j2 < n
            invariant
                j2 <= n,
                n == definitions@.len(),
                dv == defs_view(definitions@),
                names_set(bad.deep_view()) == spec_bad(dv),
                names_set(default_impl.deep_view()) =~= Set::new(
                    |nm: Seq<char>|
                        exists|jj: int|
                            0 <= jj < j2 && dv[jj].category == Category::Types && dv[jj].name == nm
                                && !spec_bad(dv).contains(nm),
                ),
            decreases n - j2,
        {
            proof {
                assert(dv[j2 as int] == definitions@[j2 as int]@);
            }
            let is_types = match definitions[j2].category {
                Category::Types => true,
                Category::Functions => false,
            };
            if is_types && !contains_name(&bad, definitions[j2].name.as_str()) {
                let ghost before = default_impl.deep_view();
                default_impl.push(definitions[j2].name.clone());
                proof {
                    assert(default_impl.deep_view() =~~= before.push(
                        definitions@[j2 as int].name@,
                    ));
                    lemma_names_set_push(before, definitions@[j2 as int].name@);
                }
            }
            proof {
                assert forall|nm: Seq<char>|
                    names_set(default_impl.deep_view()).contains(nm) <==> (exists|jj: int|
                        0 <= jj < j2 + 1 && dv[jj].category == Category::Types && dv[jj].name == nm
                            && !spec_bad(dv).contains(nm)) by {
                    if exists|jj: int|
                        0 <= jj < j2 + 1 && dv[jj].category == Category::Types && dv[jj].name == nm
                            && !spec_bad(dv).contains(nm) {
                        let jj = choose|jj: int|
                            0 <= jj < j2 + 1 && dv[jj].category == Category::Types && dv[jj].name
                                == nm && !spec_bad(dv).contains(nm);
                    }
                }
                assert(names_set(default_impl.deep_view()) =~= Set::new(
                    |nm: Seq<char>|
                        exists|jj: int|
                            0 <= jj < j2 + 1 && dv[jj].category == Category::Types && dv[jj].name
                                == nm && !spec_bad(dv).contains(nm),
                ));
            }
            j2 = j2 + 1;
        }

        // The constructors of each type, in encounter order.
        let mut dwt: Vec<(String, Vec<usize>)> = Vec::new();
        let mut j3: usize = 0;
        while j3 < n
            invariant
                j3 <= n,
                n == definitions@.len(),
                dv == defs_view(definitions@),
                forall|k1: int, k2: int|
                    0 <= k1 < k2 < dwt@.len() ==> #[trigger] dwt@[k1].0@ != #[trigger] dwt@[k2].0@,
                forall|k: int|
                    0 <= k < dwt@.len() ==> usize_seq(#[trigger] dwt@[k].1@)
                        == spec_defs_with_type(dv.take(j3 as int), dwt@[k].0@),
                forall|nm: Seq<char>|
                    #[trigger] spec_dwt_key(dwt@, nm) <==> spec_has_constructor(
                        dv.take(j3 as int),
                        nm,
                    ),
            decreases n - j3,
        {
            proof {
                assert(dv[j3 as int] == definitions@[j3 as int]@);
                assert(dv.take(j3 as int + 1).drop_last() =~= dv.take(j3 as int));
                assert(dv.take(j3 as int + 1).last() == dv[j3 as int]);
            }
            let ghost old_dwt = dwt@;
            let is_types = match definitions[j3].category {
                Category::Types => true,
                Category::Functions => false,
            };
            if is_types {
                match find_key(&dwt, definitions[j3].ty.name.as_str()) {
                    Some(ki) => {
                        proof {
                            assert(old_dwt[ki as int].0@ == dv[j3 as int].ty.name);
                        }
                        let mut entry = dwt.remove(ki);
                        entry.1.push(j3);
                        dwt.insert(ki, entry);
                        proof {
                            assert forall|k: int| 0 <= k < dwt@.len() implies dwt@[k].0@
                                == old_dwt[k].0@ && (k != ki ==> dwt@[k] == old_dwt[k]) by {
                                assert(dwt@ =~= old_dwt.update(
                                    ki as int,
                                    (old_dwt[ki as int].0, dwt@[ki as int].1),
                                ));
                            }
                            assert(usize_seq(dwt@[ki as int].1@) =~= usize_seq(
                                old_dwt[ki as int].1@,
                            ).push(j3 as int));
                            assert forall|k: int| 0 <= k < dwt@.len() implies usize_seq(
                                #[trigger] dwt@[k].1@,
                            ) == spec_defs_with_type(dv.take(j3 as int + 1), dwt@[k].0@) by {
                                if k == ki {
                                    assert(usize_seq(dwt@[k].1@) =~= spec_defs_with_type(
                                        dv.take(j3 as int),
                                        dwt@[k].0@,
                                    ) + seq![j3 as int]);
                                } else {
                                    assert(old_dwt[k].0@ != old_dwt[ki as int].0@);
                                    assert(dwt@[k].0@ != dv[j3 as int].ty.name);
                                    assert(usize_seq(dwt@[k].1@) =~= spec_defs_with_type(
                                        dv.take(j3 as int),
                                        dwt@[k].0@,
                                    ));
                                }
                            }
                        }
                    },
                    None => {
                        let mut single: Vec<usize> = Vec::new();
                        single.push(j3);
                        dwt.push((definitions[j3].ty.name.clone(), single));
                        proof {
                            assert(dwt@.len() == old_dwt.len() + 1);
                            assert(dwt@[old_dwt.len() as int].0@ == dv[j3 as int].ty.name);
                            assert(usize_seq(dwt@[old_dwt.len() as int].1@) =~= Seq::<
                                int,
                            >::empty().push(j3 as int));
                            assert forall|k: int| 0 <= k < dwt@.len() implies usize_seq(
                                #[trigger] dwt@[k].1@,
                            ) == spec_defs_with_type(dv.take(j3 as int + 1), dwt@[k].0@) by {
                                if k == old_dwt.len() {
                                    assert(spec_defs_with_type(
                                        dv.take(j3 as int),
                                        dwt@[k].0@,
                                    ) =~= Seq::<int>::empty()) by {
                                        if spec_defs_with_type(
                                            dv.take(j3 as int),
                                            dwt@[k].0@,
                                        ).len() > 0 {
                                            lemma_defs_with_type_props(
                                                dv.take(j3 as int),
                                                dwt@[k].0@,
                                            );
                                            let i0 = spec_defs_with_type(
                                                dv.take(j3 as int),
                                                dwt@[k].0@,
                                            )[0];
                                            assert(dv.take(j3 as int)[i0].category
                                                == Category::Types && dv.take(j3 as int)[
                                                i0
                                            ].ty.name == dwt@[k].0@);
                                            assert(spec_has_constructor(
                                                dv.take(j3 as int),
                                                dwt@[k].0@,
                                            ));
                                            assert(spec_dwt_key(old_dwt, dwt@[k].0@));
                                            assert(false);
                                        }
                                    }
                                    assert(usize_seq(dwt@[k].1@) =~= spec_defs_with_type(
                                        dv.take(j3 as int),
                                        dwt@[k].0@,
                                    ) + seq![j3 as int]);
                                } else {
                                    assert(dwt@[k] == old_dwt[k]);
                                    assert(dwt@[k].0@ != dv[j3 as int].ty.name);
                                    assert(usize_seq(dwt@[k].1@) =~= spec_defs_with_type(
                                        dv.take(j3 as int),
                                        dwt@[k].0@,
                                    ));
                                }
                            }
                        }
                    },
                }
            } else {
                proof {
                    assert forall|k: int| 0 <= k < dwt@.len() implies usize_seq(
                        #[trigger] dwt@[k].1@,
                    ) == spec_defs_with_type(dv.take(j3 as int + 1), dwt@[k].0@) by {
                        assert(usize_seq(dwt@[k].1@) =~= spec_defs_with_type(
                            dv.take(j3 as int),
                            dwt@[k].0@,
                        ));
                    }
                }
            }
            proof {
                assert forall|nm: Seq<char>|
                    #[trigger] spec_dwt_key(dwt@, nm) <==> spec_has_constructor(
                    dv.take(j3 as int + 1),
                    nm,
                ) by {
                    if spec_dwt_key(dwt@, nm) {
                        let k = choose|k: int| 0 <= k < dwt@.len() && #[trigger] dwt@[k].0@ == nm;
                        if k < old_dwt.len() && old_dwt[k].0@ == nm {
                            assert(spec_dwt_key(old_dwt, nm));
                            let jj = choose|jj: int|
                                0 <= jj < dv.take(j3 as int).len() && #[trigger] dv.take(
                                    j3 as int,
                                )[jj].category == Category::Types && dv.take(j3 as int)[jj].ty.name
                                    == nm;
                            assert(dv.take(j3 as int + 1)[jj].category == Category::Types
                                && dv.take(j3 as int + 1)[jj].ty.name == nm);
                            assert(spec_has_constructor(dv.take(j3 as int + 1), nm));
                        } else {
                            assert(dv[j3 as int].category == Category::Types && dv[j3 as int
                            ].ty.name == nm);
                            assert(dv.take(j3 as int + 1)[j3 as int].category == Category::Types
                                && dv.take(j3 as int + 1)[j3 as int].ty.name == nm);
                            assert(spec_has_constructor(dv.take(j3 as int + 1), nm));
                        }
                    }
                    if spec_has_constructor(dv.take(j3 as int + 1), nm) {
                        let jj = choose|jj: int|
                            0 <= jj < dv.take(j3 as int + 1).len() && #[trigger] dv.take(
                                j3 as int + 1,
                            )[jj].category == Category::Types && dv.take(j3 as int + 1)[jj].ty.name
                                == nm;
                        if jj < j3 {
                            assert(dv.take(j3 as int)[jj].category == Category::Types && dv.take(
                                j3 as int,
                            )[jj].ty.name == nm);
                            assert(spec_has_constructor(dv.take(j3 as int), nm));
                            assert(spec_dwt_key(old_dwt, nm));
                            let k = choose|k: int|
                                0 <= k < old_dwt.len() && #[trigger] old_dwt[k].0@ == nm;
                            assert(dwt@[k].0@ == nm);
                            assert(spec_dwt_key(dwt@, nm));
                        } else {
                            assert(dv[j3 as int].category == Category::Types && dv[j3 as int
                            ].ty.name == nm);
                            assert(spec_dwt_key(dwt@, nm));
                        }
                    }
                }
            }
            j3 = j3 + 1;
        }
        proof {
            assert(dv.take(n as int) =~= dv);
            assert(forall|k: int|
                0 <= k < dwt@.len() ==> usize_seq(#[trigger] dwt@[k].1@) == spec_defs_with_type(
                    dv,
                    dwt@[k].0@,
                ));
        }

        Metadata {
            recursing_defs: recursing,
            default_impl_defs: default_impl,
            defs_with_type: dwt,
            defs_ghost: Ghost(dv),
        }
    }

    /// Whether a type-definition with this definition's name recurses into
    /// its own result type.
    pub fn is_recursive_def(&self, def: &Definition) -> (r: bool)
        requires
            self.wf(),
        ensures
            r == spec_recursive_name(self.defs(), def@.name),
    {
        contains_name(&self.recursing_defs, def.name.as_str())
    }

    /// Whether a type-definition with this definition's name qualifies for a
    /// default value.
    pub fn can_def_implement_default(&self, def: &Definition) -> (r: bool)
        requires
            self.wf(),
        ensures
            r == spec_default_name(self.defs(), def@.name),
    {
        contains_name(&self.default_impl_defs, def.name.as_str())
    }

    /// The definitions constructing the given type, in encounter order. The
    /// type must have at least one constructor in the definition set.
    pub fn defs_with_type(&self, ty: &Type) -> (r: &Vec<usize>)
        requires
            self.wf(),
            spec_has_constructor(self.defs(), ty@.name),
        ensures
            usize_seq(r@) == spec_defs_with_type(self.defs(), ty@.name),
    {
        match find_key(&self.defs_with_type, ty.name.as_str()) {
            Some(ki) => &self.defs_with_type[ki].1,
            None => {
                proof {
                    assert(spec_dwt_key(self.defs_with_type@, ty@.name));
                    let k = choose|k: int|
                        0 <= k < self.defs_with_type@.len()
                            && #[trigger] self.defs_with_type@[k].0@ == ty@.name;
                    assert(false);
                }
                &self.defs_with_type[0].1
            },
        }
    }
}


} // verus!
