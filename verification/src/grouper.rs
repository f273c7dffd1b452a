//! Grouping definitions by the namespace prefix of their names.

use vstd::prelude::*;

use crate::metadata::defs_view;
use crate::metadata::usize_seq;
use crate::text;
use crate::tl::category::Category;
use crate::tl::definition::Definition;
use crate::tl::definition::DefinitionV;

verus! {

/// The namespace prefix of a name: everything before the last `.`, or
/// nothing.
pub open spec fn spec_ns_of(name: Seq<char>) -> Seq<char> {
    match text::spec_rfind_char(name, '.') {
        Some(p) => name.take(p),
        None => Seq::<char>::empty(),
    }
}

/// The namespace prefix of a name.
pub(crate) fn ns_of(name: &str) -> (r: Vec<char>)
    ensures
        r@ == spec_ns_of(name@),
{
    let v = text::str_chars(name);
    match text::rfind_char(v.as_slice(), '.') {
        Some(p) => {
            let b = text::subvec(v.as_slice(), 0, p);
            proof {
                assert(b@ =~= v@.take(p as int));
            }
            b
        },
        None => Vec::new(),
    }
}

/// The indices of the definitions of the given category in the given
/// namespace, in encounter order.
pub open spec fn spec_group_idxs(defs: Seq<DefinitionV>, cat: Category, ns: Seq<char>) -> Seq<int>
    decreases defs.len(),
{
    if defs.len() == 0 {
        Seq::<int>::empty()
    } else {
        spec_group_idxs(defs.drop_last(), cat, ns) + (if defs.last().category == cat && spec_ns_of(
            defs.last().name,
        ) == ns {
            seq![defs.len() - 1]
        } else {
            Seq::<int>::empty()
        })
    }
}

/// The namespaces of the definitions of the given category, in
/// first-encounter order.
pub open spec fn spec_group_keys(defs: Seq<DefinitionV>, cat: Category) -> Seq<Seq<char>>
    decreases defs.len(),
{
    if defs.len() == 0 {
        Seq::<Seq<char>>::empty()
    } else {
        let prev = spec_group_keys(defs.drop_last(), cat);
        prev + (if defs.last().category == cat && !prev.contains(spec_ns_of(defs.last().name)) {
            seq![spec_ns_of(defs.last().name)]
        } else {
            Seq::<Seq<char>>::empty()
        })
    }
}

/// The keys of a grouping.
pub open spec fn keys_of(g: Seq<(String, Vec<usize>)>) -> Seq<Seq<char>> {
    Seq::new(g.len(), |k: int| g[k].0@)
}

/// Finds the entry with the given key.
fn find_group(g: &Vec<(String, Vec<usize>)>, key: &[char]) -> (r: Option<usize>)
    ensures
        match r {
            Some(ki) => ki < g@.len() && g@[ki as int].0@ == key@,
            None => forall|k: int| 0 <= k < g@.len() ==> g@[k].0@ != key@,
        },
{
    let n = g.len();
    let mut i: usize = 0;
    while i < n
        invariant
            i <= n,
            n == g@.len(),
            forall|k: int| 0 <= k < i ==> g@[k].0@ != key@,
        decreases n - i,
    {
        if text::eq_chars_str(key, g[i].0.as_str()) {
            return Some(i);
        }
        i = i + 1;
    }
    None
}

/// Groups the definitions of one category by the namespace prefix of their
/// names, keys in first-encounter order.
pub fn group_by_ns(definitions: &Vec<Definition>, category: Category) -> (r: Vec<
    (String, Vec<usize>),
>)
    ensures
        keys_of(r@) == spec_group_keys(defs_view(definitions@), category),
        forall|k: int|
            0 <= k < r@.len() ==> usize_seq(#[trigger] r@[k].1@) == spec_group_idxs(
                defs_view(definitions@),
                category,
                r@[k].0@,
            ),
{
    let ghost dv = defs_view(definitions@);
    let n = definitions.len();
    let mut g: Vec<(String, Vec<usize>)> = Vec::new();
    let mut j: usize = 0;
    proof {
        assert(keys_of(g@) =~= spec_group_keys(dv.take(0), category));
    }
    while j < n
        invariant
            j <= n,
            n == definitions@.len(),
            dv == defs_view(definitions@),
            keys_of(g@) == spec_group_keys(dv.take(j as int), category),
            forall|k: int|
                0 <= k < g@.len() ==> usize_seq(#[trigger] g@[k].1@) == spec_group_idxs(
                    dv.take(j as int),
                    category,
                    g@[k].0@,
                ),
        decreases n - j,
    {
        proof {
            assert(dv[j as int] == definitions@[j as int]@);
            assert(dv.take(j as int + 1).drop_last() =~= dv.take(j as int));
            assert(dv.take(j as int + 1).last() == dv[j as int]);
        }
        let ghost old_g = g@;
        let matches_cat = match (definitions[j].category, category) {
            (Category::Types, Category::Types) => true,
            (Category::Functions, Category::Functions) => true,
            _ => false,
        };
        if matches_cat {
            let ns = ns_of(definitions[j].name.as_str());
            proof {
                assert(ns@ == spec_ns_of(dv[j as int].name));
            }
            match find_group(&g, ns.as_slice()) {
                Some(ki) => {
                    proof {
                        assert(keys_of(old_g)[ki as int] == ns@);
                        assert(spec_group_keys(dv.take(j as int), category).contains(ns@));
                    }
                    let mut entry = g.remove(ki);
                    entry.1.push(j);
                    g.insert(ki, entry);
                    proof {
                        assert forall|k: int| 0 <= k < g@.len() implies g@[k].0@ == old_g[k].0@
                            && (k != ki ==> g@[k] == old_g[k]) by {
                            assert(g@ =~= old_g.update(
                                ki as int,
                                (old_g[ki as int].0, g@[ki as int].1),
                            ));
                        }
                        assert(keys_of(g@) =~= keys_of(old_g));
                        assert(usize_seq(g@[ki as int].1@) =~= usize_seq(
                            old_g[ki as int].1@,
                        ).push(j as int));
                        assert forall|k: int| 0 <= k < g@.len() implies usize_seq(
                            #[trigger] g@[k].1@,
                        ) == spec_group_idxs(dv.take(j as int + 1), category, g@[k].0@) by {
                            if k == ki {
                                assert(usize_seq(g@[k].1@) =~= spec_group_idxs(
                                    dv.take(j as int),
                                    category,
                                    g@[k].0@,
                                ) + seq![j as int]);
                            } else {
                                assert(keys_of(old_g)[k] == old_g[k].0@);
                                if g@[k].0@ == ns@ {
                                    assert(keys_of(old_g)[k] == ns@);
                                    assert(keys_of(old_g)[ki as int] == ns@);
                                    lemma_group_keys_distinct(dv.take(j as int), category);
                                    assert(false);
                                }
                                assert(usize_seq(g@[k].1@) =~= spec_group_idxs(
                                    dv.take(j as int),
                                    category,
                                    g@[k].0@,
                                ));
                            }
                        }
                    }
                },
                None => {
                    let mut single: Vec<usize> = Vec::new();
                    single.push(j);
                    g.push((text::chars_string(ns.as_slice()), single));
                    proof {
                        assert forall|nm: Seq<char>|
                            spec_group_keys(dv.take(j as int), category).contains(nm)
                                implies nm != ns@ by {
                            let k = choose|k: int|
                                0 <= k < keys_of(old_g).len() && keys_of(old_g)[k] == nm;
                            assert(old_g[k].0@ == nm);
                        }
                        assert(!spec_group_keys(dv.take(j as int), category).contains(ns@));
                        assert(keys_of(g@) =~= keys_of(old_g).push(ns@));
                        assert(keys_of(g@) =~= spec_group_keys(dv.take(j as int + 1), category));
                        assert forall|k: int| 0 <= k < g@.len() implies usize_seq(
                            #[trigger] g@[k].1@,
                        ) == spec_group_idxs(dv.take(j as int + 1), category, g@[k].0@) by {
                            if k == old_g.len() {
                                assert(spec_group_idxs(
                                    dv.take(j as int),
                                    category,
                                    g@[k].0@,
                                ) =~= Seq::<int>::empty()) by {
                                    lemma_group_idxs_key(dv.take(j as int), category, g@[k].0@);
                                    if spec_group_idxs(dv.take(j as int), category, g@[k].0@).len()
                                        > 0 {
                                        assert(spec_group_keys(
                                            dv.take(j as int),
                                            category,
                                        ).contains(g@[k].0@));
                                        assert(false);
                                    }
                                }
                                assert(usize_seq(g@[k].1@) =~= spec_group_idxs(
                                    dv.take(j as int),
                                    category,
                                    g@[k].0@,
                                ) + seq![j as int]);
                            } else {
                                assert(g@[k] == old_g[k]);
                                assert(keys_of(old_g)[k] == old_g[k].0@);
                                if g@[k].0@ == ns@ {
                                    assert(spec_group_keys(
                                        dv.take(j as int),
                                        category,
                                    ).contains(ns@));
                                    assert(false);
                                }
                                assert(usize_seq(g@[k].1@) =~= spec_group_idxs(
                                    dv.take(j as int),
                                    category,
                                    g@[k].0@,
                                ));
                            }
                        }
                    }
                },
            }
        } else {
            proof {
                assert(keys_of(g@) =~= spec_group_keys(dv.take(j as int + 1), category));
                assert forall|k: int| 0 <= k < g@.len() implies usize_seq(#[trigger] g@[k].1@)
                    == spec_group_idxs(dv.take(j as int + 1), category, g@[k].0@) by {
                    assert(usize_seq(g@[k].1@) =~= spec_group_idxs(
                        dv.take(j as int),
                        category,
                        g@[k].0@,
                    ));
                }
            }
        }
        j = j + 1;
    }
    proof {
        assert(dv.take(n as int) =~= dv);
    }
    g
}

/// Every listed index is in range.
pub proof fn lemma_group_idxs_props(defs: Seq<DefinitionV>, cat: Category, ns: Seq<char>)
    ensures
        forall|k: int|
            0 <= k < spec_group_idxs(defs, cat, ns).len() ==> 0 <= #[trigger] spec_group_idxs(
                defs,
                cat,
                ns,
            )[k] < defs.len(),
    decreases defs.len(),
{
    if defs.len() > 0 {
        lemma_group_idxs_props(defs.drop_last(), cat, ns);
        let prev = spec_group_idxs(defs.drop_last(), cat, ns);
        assert forall|k: int|
            0 <= k < spec_group_idxs(defs, cat, ns).len() implies 0 <= #[trigger] spec_group_idxs(
            defs,
            cat,
            ns,
        )[k] < defs.len() by {
            if k < prev.len() {
                assert(spec_group_idxs(defs, cat, ns)[k] == prev[k]);
            }
        }
    }
}

/// Distinct namespaces appear once in the key list.
proof fn lemma_group_keys_distinct(defs: Seq<DefinitionV>, cat: Category)
    ensures
        forall|k1: int, k2: int|
            0 <= k1 < k2 < spec_group_keys(defs, cat).len() ==> #[trigger] spec_group_keys(
                defs,
                cat,
            )[k1] != #[trigger] spec_group_keys(defs, cat)[k2],
    decreases defs.len(),
{
    if defs.len() > 0 {
        lemma_group_keys_distinct(defs.drop_last(), cat);
        let prev = spec_group_keys(defs.drop_last(), cat);
        assert forall|k1: int, k2: int|
            0 <= k1 < k2 < spec_group_keys(defs, cat).len() implies #[trigger] spec_group_keys(
            defs,
            cat,
        )[k1] != #[trigger] spec_group_keys(defs, cat)[k2] by {
            if k2 < prev.len() {
            } else {
                assert(k2 == prev.len());
                assert(spec_group_keys(defs, cat)[k1] == prev[k1]);
                assert(prev.contains(prev[k1]));
            }
        }
    }
}

/// A namespace with a member is listed among the keys.
proof fn lemma_group_idxs_key(defs: Seq<DefinitionV>, cat: Category, ns: Seq<char>)
    ensures
        spec_group_idxs(defs, cat, ns).len() > 0 ==> spec_group_keys(defs, cat).contains(ns),
    decreases defs.len(),
{
    if defs.len() > 0 {
        lemma_group_idxs_key(defs.drop_last(), cat, ns);
        let prev = spec_group_keys(defs.drop_last(), cat);
        if spec_group_idxs(defs, cat, ns).len() > 0 {
            if spec_group_idxs(defs.drop_last(), cat, ns).len() > 0 {
                assert(prev.contains(ns));
                let k = choose|k: int| 0 <= k < prev.len() && prev[k] == ns;
                assert(spec_group_keys(defs, cat)[k] == ns);
                assert(spec_group_keys(defs, cat).contains(ns));
            } else {
                assert(defs.last().category == cat && spec_ns_of(defs.last().name) == ns);
                if prev.contains(ns) {
                    let k = choose|k: int| 0 <= k < prev.len() && prev[k] == ns;
                    assert(spec_group_keys(defs, cat)[k] == ns);
                    assert(spec_group_keys(defs, cat).contains(ns));
                } else {
                    assert(spec_group_keys(defs, cat)[prev.len() as int] == ns);
                    assert(spec_group_keys(defs, cat).contains(ns));
                }
            }
        }
    }
}

} // verus!
