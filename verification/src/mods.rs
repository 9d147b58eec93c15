//! Mod management: the catalog, dependency resolution, conflicts, recognising jars on disk,
//! and which archive entries an installation extracts.
use vstd::prelude::*;

verus! {

/// One mod of the server's catalog.
#[derive(Debug, Clone)]
pub struct ModCatalogEntry {
    pub id: String,
    pub modrinth_id: String,
    pub category: String,
    pub name: String,
    pub description: String,
    pub deps: Vec<String>,
    pub conflicts: Vec<String>,
    pub version: String,
    pub hidden: bool,
    pub configs: Vec<String>,
}

// ---------------------------------------------------------------------------------------------
// Text lists
// ---------------------------------------------------------------------------------------------

/// Whether some string of `v` has the text `s`.
pub open spec fn in_views(v: Seq<String>, s: Seq<char>) -> bool {
    exists|i: int| 0 <= i < v.len() && (#[trigger] v[i])@ == s
}

/// No two strings of `v` from index `from` on have the same text.
pub open spec fn distinct_from(v: Seq<String>, from: int) -> bool {
    forall|i: int, j: int| from <= i < j < v.len() ==> (#[trigger] v[i])@ != (#[trigger] v[j])@
}

/// Whether some string of `v` has the text of `s`.
pub fn contains_text(v: &Vec<String>, s: &str) -> (b: bool)
    ensures
        b == in_views(v@, s@),
{
    let mut i: usize = 0;
    while i < v.len()
        invariant
            i <= v.len(),
            forall|k: int| 0 <= k < i ==> (#[trigger] v@[k])@ != s@,
        decreases v.len() - i,
    {
        if crate::text::str_eq(v[i].as_str(), s) {
            return true;
        }
        i = i + 1;
    }
    false
}

// ---------------------------------------------------------------------------------------------
// Catalog lookup
// ---------------------------------------------------------------------------------------------

/// The catalog entry for `id`: the last one with that id, as a map built from the list keeps.
pub open spec fn catalog_index(cat: Seq<ModCatalogEntry>, id: Seq<char>) -> Option<int> {
    if exists|i: int| 0 <= i < cat.len() && (#[trigger] cat[i]).id@ == id {
        Some(
            choose|i: int|
                0 <= i < cat.len() && (#[trigger] cat[i]).id@ == id && forall|j: int|
                    i < j < cat.len() ==> (#[trigger] cat[j]).id@ != id,
        )
    } else {
        None
    }
}

/// Whether the catalog entry for `x` lists `d` among its dependencies.
pub open spec fn has_dep(cat: Seq<ModCatalogEntry>, x: Seq<char>, d: Seq<char>) -> bool {
    match catalog_index(cat, x) {
        Some(i) => in_views(cat[i].deps@, d),
        None => false,
    }
}

/// Position of the catalog entry for `id`.
pub fn find_catalog_entry(catalog: &[ModCatalogEntry], id: &str) -> (r: Option<usize>)
    ensures
        match r {
            Some(i) => catalog_index(catalog@, id@) == Some(i as int) && i < catalog@.len(),
            None => catalog_index(catalog@, id@) is None,
        },
{
    let mut k: usize = catalog.len();
    while k > 0
        invariant
            k <= catalog.len(),
            forall|j: int| k <= j < catalog@.len() ==> (#[trigger] catalog@[j]).id@ != id@,
        decreases k,
    {
        if crate::text::str_eq(catalog[k - 1].id.as_str(), id) {
            let i = k - 1;
            proof {
                let w = choose|w: int|
                    0 <= w < catalog@.len() && (#[trigger] catalog@[w]).id@ == id@ && forall|j: int|
                        w < j < catalog@.len() ==> (#[trigger] catalog@[j]).id@ != id@;
                assert(catalog@[i as int].id@ == id@);
                if w < i {
                    assert(catalog@[i as int].id@ != id@);
                }
                if w > i {
                    assert(catalog@[w].id@ != id@);
                }
            }
            return Some(i);
        }
        k = k - 1;
    }
    None
}

// ---------------------------------------------------------------------------------------------
// Dependency resolution
// ---------------------------------------------------------------------------------------------

/// The ids reached from `ids` in at most `n` dependency steps, where only ids not already in
/// `known` have their dependencies followed.
pub open spec fn reach(
    ids: Seq<String>,
    cat: Seq<ModCatalogEntry>,
    known: Seq<String>,
    n: nat,
) -> Set<Seq<char>>
    decreases n,
{
    if n == 0 {
        Set::new(|x: Seq<char>| in_views(ids, x))
    } else {
        let r = reach(ids, cat, known, (n - 1) as nat);
        Set::new(
            |d: Seq<char>|
                r.contains(d) || exists|x: Seq<char>|
                    #![trigger has_dep(cat, x, d)]
                    r.contains(x) && !in_views(known, x) && has_dep(cat, x, d),
        )
    }
}

/// Whether `d` is reached from `ids` through dependencies (see [`reach`]).
pub open spec fn reached(
    ids: Seq<String>,
    cat: Seq<ModCatalogEntry>,
    known: Seq<String>,
    d: Seq<char>,
) -> bool {
    exists|n: nat| #[trigger] reach(ids, cat, known, n).contains(d)
}

proof fn lemma_reach_step(
    ids: Seq<String>,
    cat: Seq<ModCatalogEntry>,
    known: Seq<String>,
    x: Seq<char>,
    d: Seq<char>,
)
    requires
        reached(ids, cat, known, x),
        !in_views(known, x),
        has_dep(cat, x, d),
    ensures
        reached(ids, cat, known, d),
{
    let n = choose|n: nat| #[trigger] reach(ids, cat, known, n).contains(x);
    assert(reach(ids, cat, known, n + 1).contains(d));
}

proof fn lemma_reach_in(
    ids: Seq<String>,
    cat: Seq<ModCatalogEntry>,
    known: Seq<String>,
    out: Seq<String>,
    n: nat,
)
    requires
        forall|x: Seq<char>| in_views(ids, x) ==> in_views(out, x),
        forall|x: Seq<char>, d: Seq<char>|
            #![trigger in_views(out, x), has_dep(cat, x, d)]
            in_views(out, x) && !in_views(known, x) && has_dep(cat, x, d) ==> in_views(out, d),
    ensures
        forall|d: Seq<char>| reach(ids, cat, known, n).contains(d) ==> in_views(out, d),
    decreases n,
{
    if n > 0 {
        lemma_reach_in(ids, cat, known, out, (n - 1) as nat);
        let r = reach(ids, cat, known, (n - 1) as nat);
        assert forall|d: Seq<char>| reach(ids, cat, known, n).contains(d) implies in_views(out, d) by {
            if !r.contains(d) {
                let x = choose|x: Seq<char>|
                    #![trigger has_dep(cat, x, d)]
                    r.contains(x) && !in_views(known, x) && has_dep(cat, x, d);
                assert(in_views(out, x));
            }
        }
    }
}

fn clone_strings(v: &[String]) -> (r: Vec<String>)
    ensures
        r@.len() == v@.len(),
        forall|i: int| 0 <= i < v@.len() ==> (#[trigger] r@[i])@ == v@[i]@,
{
    let mut r: Vec<String> = Vec::new();
    let mut i: usize = 0;
    while i < v.len()
        invariant
            i <= v.len(),
            r@.len() == i,
            forall|k: int| 0 <= k < i ==> (#[trigger] r@[k])@ == v@[k]@,
        decreases v.len() - i,
    {
        r.push(v[i].clone());
        i = i + 1;
    }
    r
}

/// Adds to `out` every id that `ids` lead to through the catalog's dependency lists: the ids
/// themselves and, transitively, the dependencies of each id added that `out` did not already
/// hold. Ids already in `out` are kept once; the new ones are appended, each once.
pub fn resolve_deps(ids: &[String], catalog: &[ModCatalogEntry], out: &mut Vec<String>)
    ensures
        final(out)@.len() >= old(out)@.len(),
        final(out)@.take(old(out)@.len() as int) == old(out)@,
        distinct_from(final(out)@, old(out)@.len() as int),
        forall|i: int|
            old(out)@.len() <= i < final(out)@.len() ==> !in_views(old(out)@, (#[trigger] final(out)@[i])@),
        forall|d: Seq<char>|
            #![trigger in_views(final(out)@, d)]
            in_views(final(out)@, d) <==> in_views(old(out)@, d) || reached(
                ids@,
                catalog@,
                old(out)@,
                d,
            ),
{
    let ghost known = out@;
    let ghost cat = catalog@;
    let ghost idv = ids@;
    let mut stack = clone_strings(ids);
    // Every text that can ever be added: the ids and all dependency names of the catalog.
    let ghost universe = (idv.map_values(|s: String| s@) + dep_texts(cat)).to_set();
    proof {
        vstd::seq_lib::seq_to_set_is_finite(idv.map_values(|s: String| s@) + dep_texts(cat));
        assert forall|k: int| 0 <= k < stack@.len() implies universe.contains(
            (#[trigger] stack@[k])@,
        ) && reached(idv, cat, known, stack@[k]@) by {
            assert(stack@[k]@ == idv[k]@);
            assert((idv.map_values(|s: String| s@) + dep_texts(cat))[k] == idv[k]@);
            assert(in_views(idv, stack@[k]@));
            assert(reach(idv, cat, known, 0).contains(stack@[k]@));
        }
        assert forall|x: Seq<char>| in_views(idv, x) implies in_views(out@, x) || in_views(
            stack@,
            x,
        ) by {
            let k = choose|k: int| 0 <= k < idv.len() && (#[trigger] idv[k])@ == x;
            assert(stack@[k]@ == idv[k]@);
        }
    }
    loop
        invariant
            known.len() <= out@.len(),
            out@.take(known.len() as int) == known,
            cat == catalog@,
            idv == ids@,
            known == old(out)@,
            universe == (idv.map_values(|s: String| s@) + dep_texts(cat)).to_set(),
            universe.finite(),
            distinct_from(out@, known.len() as int),
            forall|i: int| known.len() <= i < out@.len() ==> !in_views(known, (#[trigger] out@[i])@),
            forall|i: int| known.len() <= i < out@.len() ==> universe.contains((#[trigger] out@[i])@),
            forall|k: int| 0 <= k < stack@.len() ==> universe.contains((#[trigger] stack@[k])@),
            // soundness
            forall|k: int| 0 <= k < stack@.len() ==> reached(idv, cat, known, (#[trigger] stack@[k])@),
            forall|i: int|
                known.len() <= i < out@.len() ==> reached(idv, cat, known, (#[trigger] out@[i])@),
            // progress towards completeness
            forall|x: Seq<char>| in_views(idv, x) ==> in_views(out@, x) || in_views(stack@, x),
            forall|x: Seq<char>, d: Seq<char>|
                #![trigger in_views(out@, x), has_dep(cat, x, d)]
                in_views(out@, x) && !in_views(known, x) && has_dep(cat, x, d) ==> in_views(out@, d)
                    || in_views(stack@, d),
            out@.len() - known.len() <= universe.len(),
        decreases universe.len() - (out@.len() - known.len()), stack@.len(),
    {
        let ghost prev_out = out@;
        let ghost prev_stack = stack@;
        match stack.pop() {
            None => {
                proof {
                    assert forall|x: Seq<char>| in_views(idv, x) implies in_views(out@, x) by {
                        if in_views(stack@, x) {
                            let k = choose|k: int| 0 <= k < stack@.len() && (#[trigger] stack@[k])@ == x;
                            assert(false);
                        }
                    }
                    assert forall|x: Seq<char>, d: Seq<char>|
                        #![trigger in_views(out@, x), has_dep(cat, x, d)]
                        in_views(out@, x) && !in_views(known, x) && has_dep(cat, x, d) implies in_views(
                            out@,
                            d,
                        ) by {
                        if in_views(stack@, d) {
                            let k = choose|k: int| 0 <= k < stack@.len() && (#[trigger] stack@[k])@ == d;
                            assert(false);
                        }
                    }
                    assert forall|d: Seq<char>|
                        #![trigger in_views(out@, d)]
                        in_views(out@, d) <==> in_views(known, d) || reached(idv, cat, known, d) by {
                        if in_views(out@, d) && !in_views(known, d) {
                            let i = choose|i: int| 0 <= i < out@.len() && (#[trigger] out@[i])@ == d;
                            if i < known.len() {
                                assert(out@.take(known.len() as int)[i] == out@[i]);
                            }
                        }
                        if in_views(known, d) {
                            let i = choose|i: int| 0 <= i < known.len() && (#[trigger] known[i])@ == d;
                            assert(out@.take(known.len() as int)[i] == out@[i]);
                        }
                        if reached(idv, cat, known, d) {
                            let n = choose|n: nat| #[trigger] reach(idv, cat, known, n).contains(d);
                            lemma_reach_in(idv, cat, known, out@, n);
                        }
                    }
                }
                return ;
            },
            Some(id) => {
                assert(stack@ == prev_stack.drop_last());
                assert(id == prev_stack.last());
                if contains_text(out, id.as_str()) {
                    proof {
                        assert forall|x: Seq<char>| in_views(idv, x) implies in_views(out@, x)
                            || in_views(stack@, x) by {
                            if in_views(prev_stack, x) && !in_views(out@, x) {
                                let k = choose|k: int|
                                    0 <= k < prev_stack.len() && (#[trigger] prev_stack[k])@ == x;
                                if k < stack@.len() {
                                    assert(stack@[k] == prev_stack[k]);
                                }
                            }
                        }
                        assert forall|x: Seq<char>, d: Seq<char>|
                            #![trigger in_views(out@, x), has_dep(cat, x, d)]
                            in_views(out@, x) && !in_views(known, x) && has_dep(cat, x, d) implies in_views(
                                out@,
                                d,
                            ) || in_views(stack@, d) by {
                            if in_views(prev_stack, d) && !in_views(out@, d) {
                                let k = choose|k: int|
                                    0 <= k < prev_stack.len() && (#[trigger] prev_stack[k])@ == d;
                                if k < stack@.len() {
                                    assert(stack@[k] == prev_stack[k]);
                                }
                            }
                        }
                    }
                    continue ;
                }
                let ghost ids_text = id@;
                out.push(id.clone());
                proof {
                    assert(out@.drop_last() == prev_out);
                    assert(universe.contains(ids_text)) by {
                        assert(universe.contains(prev_stack[prev_stack.len() - 1]@));
                    }
                    assert forall|i: int, j: int|
                        known.len() <= i < j < out@.len() implies (#[trigger] out@[i])@ != (
                        #[trigger] out@[j])@ by {
                        if j == out@.len() - 1 {
                            assert(out@[i] == prev_out[i]);
                            assert(in_views(prev_out, out@[i]@));
                        } else {
                            assert(out@[i] == prev_out[i]);
                            assert(out@[j] == prev_out[j]);
                        }
                    }
                    lemma_distinct_bound(out@, known.len() as int, universe);
                    assert(out@.take(known.len() as int) =~= known);
                    assert(!in_views(known, ids_text)) by {
                        if in_views(known, ids_text) {
                            let i = choose|i: int| 0 <= i < known.len() && (#[trigger] known[i])@ == ids_text;
                            assert(prev_out.take(known.len() as int)[i] == prev_out[i]);
                        }
                    }
                }
                let entry = find_catalog_entry(catalog, id.as_str());
                match entry {
                    Some(ix) => {
                        let deps = &catalog[ix].deps;
                        let ghost base_stack = stack@;
                        let mut j: usize = 0;
                        while j < deps.len()
                            invariant
                                j <= deps.len(),
                                deps@ == cat[ix as int].deps@,
                                ix < cat.len(),
                                catalog_index(cat, ids_text) == Some(ix as int),
                                stack@.len() == base_stack.len() + j,
                                stack@.take(base_stack.len() as int) == base_stack,
                                forall|k: int|
                                    0 <= k < j ==> (#[trigger] stack@[base_stack.len() + k])@ == deps@[k]@,
                            decreases deps.len() - j,
                        {
                            stack.push(deps[j].clone());
                            j = j + 1;
                            assert(stack@.take(base_stack.len() as int) =~= base_stack);
                        }
                        proof {
                            assert forall|d: Seq<char>| has_dep(cat, ids_text, d) implies in_views(
                                stack@,
                                d,
                            ) by {
                                let q = choose|q: int|
                                    0 <= q < cat[ix as int].deps@.len() && (#[trigger] cat[
                                        ix as int
                                    ].deps@[q])@ == d;
                                assert(stack@[base_stack.len() + q]@ == deps@[q]@);
                            }
                            assert(reached(idv, cat, known, ids_text));
                            assert forall|k: int| 0 <= k < stack@.len() implies universe.contains(
                                (#[trigger] stack@[k])@,
                            ) && reached(idv, cat, known, stack@[k]@) by {
                                if k < base_stack.len() {
                                    assert(stack@.take(base_stack.len() as int)[k] == stack@[k]);
                                    assert(base_stack[k] == prev_stack[k]);
                                    assert(universe.contains(prev_stack[k]@));
                                    assert(reached(idv, cat, known, prev_stack[k]@));
                                } else {
                                    let q = k - base_stack.len();
                                    assert(stack@[base_stack.len() + q]@ == deps@[q]@);
                                    assert(cat[ix as int].deps@[q]@ == stack@[k]@);
                                    lemma_dep_text_in(cat, ix as int, q);
                                    let big = idv.map_values(|s: String| s@) + dep_texts(cat);
                                    let idx = dep_texts(cat).index_of(stack@[k]@);
                                    assert(dep_texts(cat)[idx] == stack@[k]@);
                                    assert(big[idv.len() + idx] == stack@[k]@);
                                    assert(big.contains(stack@[k]@));
                                    assert(universe.contains(stack@[k]@));
                                    assert(in_views(cat[ix as int].deps@, stack@[k]@));
                                    assert(has_dep(cat, ids_text, stack@[k]@));
                                    assert(reached(idv, cat, known, prev_stack[prev_stack.len() - 1]@));
                                    lemma_reach_step(idv, cat, known, ids_text, stack@[k]@);
                                }
                            }
                            lemma_progress_after_insert(
                                idv,
                                cat,
                                known,
                                prev_out,
                                out@,
                                prev_stack,
                                stack@,
                                base_stack,
                                ids_text,
                            );
                        }
                    },
                    None => {
                        proof {
                            assert forall|k: int| 0 <= k < stack@.len() implies universe.contains(
                                (#[trigger] stack@[k])@,
                            ) && reached(idv, cat, known, stack@[k]@) by {
                                assert(stack@[k] == prev_stack[k]);
                                assert(universe.contains(prev_stack[k]@));
                                assert(reached(idv, cat, known, prev_stack[k]@));
                            }
                            assert(stack@.take(stack@.len() as int) == stack@);
                            lemma_progress_after_insert(
                                idv,
                                cat,
                                known,
                                prev_out,
                                out@,
                                prev_stack,
                                stack@,
                                stack@,
                                ids_text,
                            );
                        }
                    },
                }
            },
        }
    }
}

/// The texts of all dependency names of the catalog, entry by entry.
pub open spec fn dep_texts(cat: Seq<ModCatalogEntry>) -> Seq<Seq<char>>
    decreases cat.len(),
{
    if cat.len() == 0 {
        Seq::<Seq<char>>::empty()
    } else {
        dep_texts(cat.drop_last()) + cat.last().deps@.map_values(|s: String| s@)
    }
}

proof fn lemma_dep_text_in(cat: Seq<ModCatalogEntry>, i: int, j: int)
    requires
        0 <= i < cat.len(),
        0 <= j < cat[i].deps@.len(),
    ensures
        dep_texts(cat).contains(cat[i].deps@[j]@),
    decreases cat.len(),
{
    let m = cat.last().deps@.map_values(|s: String| s@);
    if i == cat.len() - 1 {
        assert(m[j] == cat[i].deps@[j]@);
        assert((dep_texts(cat.drop_last()) + m)[dep_texts(cat.drop_last()).len() + j] == m[j]);
    } else {
        assert(cat.drop_last()[i] == cat[i]);
        lemma_dep_text_in(cat.drop_last(), i, j);
        let k = dep_texts(cat.drop_last()).index_of(cat[i].deps@[j]@);
        assert((dep_texts(cat.drop_last()) + m)[k] == dep_texts(cat.drop_last())[k]);
    }
}

/// Distinct texts drawn from a finite set are no more than the set holds.
proof fn lemma_distinct_bound(out: Seq<String>, from: int, universe: Set<Seq<char>>)
    requires
        0 <= from <= out.len(),
        universe.finite(),
        distinct_from(out, from),
        forall|i: int| from <= i < out.len() ==> universe.contains((#[trigger] out[i])@),
    ensures
        out.len() - from <= universe.len(),
{
    let a = out.subrange(from, out.len() as int).map_values(|s: String| s@);
    assert(a.no_duplicates()) by {
        assert forall|i: int, j: int| 0 <= i < a.len() && 0 <= j < a.len() && i != j implies a[i]
            != a[j] by {
            if i < j {
                assert(out[from + i]@ != out[from + j]@);
            } else {
                assert(out[from + j]@ != out[from + i]@);
            }
        }
    }
    a.unique_seq_to_set();
    assert(a.to_set().subset_of(universe)) by {
        assert forall|x: Seq<char>| a.to_set().contains(x) implies universe.contains(x) by {
            let k = a.index_of(x);
            assert(a[k] == out[from + k]@);
        }
    }
    vstd::set_lib::lemma_len_subset(a.to_set(), universe);
}

proof fn lemma_progress_after_insert(
    idv: Seq<String>,
    cat: Seq<ModCatalogEntry>,
    known: Seq<String>,
    prev_out: Seq<String>,
    out: Seq<String>,
    prev_stack: Seq<String>,
    stack: Seq<String>,
    base_stack: Seq<String>,
    x: Seq<char>,
)
    requires
        prev_stack.len() >= 1,
        base_stack == prev_stack.drop_last(),
        prev_stack.last()@ == x,
        stack.take(base_stack.len() as int) == base_stack,
        stack.len() >= base_stack.len(),
        forall|d: Seq<char>| has_dep(cat, x, d) ==> in_views(stack, d),
        out.drop_last() == prev_out,
        out.len() == prev_out.len() + 1,
        out.last()@ == x,
        forall|y: Seq<char>| in_views(idv, y) ==> in_views(prev_out, y) || in_views(prev_stack, y),
        forall|y: Seq<char>, d: Seq<char>|
            #![trigger in_views(prev_out, y), has_dep(cat, y, d)]
            in_views(prev_out, y) && !in_views(known, y) && has_dep(cat, y, d) ==> in_views(prev_out, d)
                || in_views(prev_stack, d),
    ensures
        forall|y: Seq<char>| in_views(idv, y) ==> in_views(out, y) || in_views(stack, y),
        forall|y: Seq<char>, d: Seq<char>|
            #![trigger in_views(out, y), has_dep(cat, y, d)]
            in_views(out, y) && !in_views(known, y) && has_dep(cat, y, d) ==> in_views(out, d)
                || in_views(stack, d),
{
    assert forall|y: Seq<char>| in_views(prev_out, y) implies in_views(out, y) by {
        let i = choose|i: int| 0 <= i < prev_out.len() && (#[trigger] prev_out[i])@ == y;
        assert(out[i] == prev_out[i]);
    }
    assert(in_views(out, x)) by {
        assert(out[out.len() - 1]@ == x);
    }
    assert forall|y: Seq<char>| in_views(prev_stack, y) implies in_views(out, y) || in_views(stack, y) by {
        let k = choose|k: int| 0 <= k < prev_stack.len() && (#[trigger] prev_stack[k])@ == y;
        if k < base_stack.len() {
            assert(stack.take(base_stack.len() as int)[k] == stack[k]);
            assert(base_stack[k] == prev_stack[k]);
        }
    }
    assert forall|y: Seq<char>, d: Seq<char>|
        #![trigger in_views(out, y), has_dep(cat, y, d)]
        in_views(out, y) && !in_views(known, y) && has_dep(cat, y, d) implies in_views(out, d)
            || in_views(stack, d) by {
        let i = choose|i: int| 0 <= i < out.len() && (#[trigger] out[i])@ == y;
        if i < out.len() - 1 {
            assert(prev_out[i] == out[i]);
            assert(in_views(prev_out, y));
        }
    }
}

// ---------------------------------------------------------------------------------------------
// Installation plan
// ---------------------------------------------------------------------------------------------

/// Whether `x` ends up installed: already installed, or reached from the requested ids.
pub open spec fn in_final_set(
    ids: Seq<String>,
    cat: Seq<ModCatalogEntry>,
    installed: Seq<String>,
    x: Seq<char>,
) -> bool {
    in_views(installed, x) || reached(ids, cat, Seq::<String>::empty(), x)
}

/// Index in `list` of its first string whose text satisfies `f`.
pub open spec fn first_where(list: Seq<String>, f: spec_fn(Seq<char>) -> bool) -> Option<int> {
    if exists|k: int| 0 <= k < list.len() && f((#[trigger] list[k])@) {
        Some(
            choose|k: int|
                0 <= k < list.len() && f((#[trigger] list[k])@) && forall|j: int|
                    0 <= j < k ==> !f((#[trigger] list[j])@),
        )
    } else {
        None
    }
}

/// How a conflict is reported: by the catalog name of each mod (its id when it has no entry).
pub open spec fn conflict_message(a: Seq<char>, b: Seq<char>) -> Seq<char> {
    "«"@ + a + "» конфликтует с «"@ + b + "» — нельзя установить их вместе"@
}

pub open spec fn display_name(cat: Seq<ModCatalogEntry>, id: Seq<char>) -> Seq<char> {
    match catalog_index(cat, id) {
        Some(j) => cat[j].name@,
        None => id,
    }
}

/// `msg` reports a conflict of the mod `x` of the final set: the first mod of its catalog
/// entry's conflict list that is also in the final set.
pub open spec fn reports_conflict(
    ids: Seq<String>,
    cat: Seq<ModCatalogEntry>,
    installed: Seq<String>,
    x: Seq<char>,
    msg: Seq<char>,
) -> bool {
    match catalog_index(cat, x) {
        Some(i) => match first_where(
            cat[i].conflicts@,
            |c: Seq<char>| in_final_set(ids, cat, installed, c),
        ) {
            Some(k) => msg == conflict_message(
                cat[i].name@,
                display_name(cat, cat[i].conflicts@[k]@),
            ),
            None => false,
        },
        None => false,
    }
}

/// Whether the catalog entry of `x` lists a mod of the final set as a conflict.
pub open spec fn has_conflict(
    ids: Seq<String>,
    cat: Seq<ModCatalogEntry>,
    installed: Seq<String>,
    x: Seq<char>,
) -> bool {
    match catalog_index(cat, x) {
        Some(i) => exists|k: int|
            0 <= k < cat[i].conflicts@.len() && in_final_set(
                ids,
                cat,
                installed,
                (#[trigger] cat[i].conflicts@[k])@,
            ),
        None => false,
    }
}

/// `msg` reports a conflict of some mod of the final set (see [`reports_conflict`]).
pub open spec fn conflict_reported(
    ids: Seq<String>,
    cat: Seq<ModCatalogEntry>,
    installed: Seq<String>,
    msg: Seq<char>,
) -> bool {
    exists|x: Seq<char>|
        in_final_set(ids, cat, installed, x) && #[trigger] reports_conflict(ids, cat, installed, x, msg)
}

proof fn lemma_conflict_witness(
    ids: Seq<String>,
    cat: Seq<ModCatalogEntry>,
    installed: Seq<String>,
    x: Seq<char>,
    msg: Seq<char>,
)
    requires
        in_final_set(ids, cat, installed, x),
        reports_conflict(ids, cat, installed, x, msg),
    ensures
        conflict_reported(ids, cat, installed, msg),
{
}

fn first_conflict_in(list: &Vec<String>, fin: &Vec<String>) -> (r: Option<usize>)
    ensures
        match r {
            Some(k) => first_where(list@, |c: Seq<char>| in_views(fin@, c)) == Some(k as int) && k
                < list@.len(),
            None => first_where(list@, |c: Seq<char>| in_views(fin@, c)) is None,
        },
{
    let ghost f = |c: Seq<char>| in_views(fin@, c);
    let mut k: usize = 0;
    while k < list.len()
        invariant
            k <= list.len(),
            f == (|c: Seq<char>| in_views(fin@, c)),
            forall|j: int| 0 <= j < k ==> !f((#[trigger] list@[j])@),
        decreases list.len() - k,
    {
        if contains_text(fin, list[k].as_str()) {
            proof {
                let w = choose|w: int|
                    0 <= w < list@.len() && f((#[trigger] list@[w])@) && forall|j: int|
                        0 <= j < w ==> !f((#[trigger] list@[j])@);
                assert(f(list@[k as int]@));
                if w < k {
                    assert(!f(list@[w]@));
                }
                if w > k {
                    assert(!f(list@[k as int]@));
                }
            }
            return Some(k);
        }
        k = k + 1;
    }
    None
}

fn conflict_of(
    Ghost(ids): Ghost<Seq<String>>,
    catalog: &[ModCatalogEntry],
    Ghost(installed): Ghost<Seq<String>>,
    fin: &Vec<String>,
    x: &str,
) -> (r: Option<String>)
    requires
        forall|d: Seq<char>|
            #![trigger in_views(fin@, d)]
            in_views(fin@, d) <==> in_final_set(ids, catalog@, installed, d),
        in_final_set(ids, catalog@, installed, x@),
    ensures
        match r {
            Some(msg) => conflict_reported(ids, catalog@, installed, msg@),
            None => !has_conflict(ids, catalog@, installed, x@),
        },
{
    match find_catalog_entry(catalog, x) {
        Some(ix) => {
            let conflicts = &catalog[ix].conflicts;
            proof {
                assert((|c: Seq<char>| in_views(fin@, c)) =~= (|c: Seq<char>|
                    in_final_set(ids, catalog@, installed, c)));
            }
            match first_conflict_in(conflicts, fin) {
                Some(k) => {
                    let a = catalog[ix].name.as_str();
                    let b = display_name_of(catalog, conflicts[k].as_str());
                    let msg = conflict_text(a, b.as_str());
                    assert(reports_conflict(ids, catalog@, installed, x@, msg@));
                    proof {
                        lemma_conflict_witness(ids, catalog@, installed, x@, msg@);
                    }
                    Some(msg)
                },
                None => {
                    proof {
                        if has_conflict(ids, catalog@, installed, x@) {
                            let k = choose|k: int|
                                0 <= k < catalog@[ix as int].conflicts@.len() && in_final_set(
                                    ids,
                                    catalog@,
                                    installed,
                                    (#[trigger] catalog@[ix as int].conflicts@[k])@,
                                );
                            assert(in_views(fin@, conflicts@[k]@));
                        }
                    }
                    None
                },
            }
        },
        None => None,
    }
}

fn display_name_of(catalog: &[ModCatalogEntry], id: &str) -> (n: String)
    ensures
        n@ == display_name(catalog@, id@),
{
    match find_catalog_entry(catalog, id) {
        Some(j) => catalog[j].name.clone(),
        None => id.to_owned(),
    }
}

fn conflict_text(a: &str, b: &str) -> (m: String)
    ensures
        m@ == conflict_message(a@, b@),
{
    let m1 = crate::text::concat("«", a);
    let m2 = crate::text::concat(m1.as_str(), "» конфликтует с «");
    let m3 = crate::text::concat(m2.as_str(), b);
    crate::text::concat(m3.as_str(), "» — нельзя установить их вместе")
}

/// What installing the mods `ids` takes, given the ids already `installed`: the requested ids
/// with all their dependencies are resolved through the catalog; if any mod of the resulting set
/// (installed ones included) names another mod of that set as a conflict, the installation is
/// refused with a message naming such a pair; otherwise the resolved ids not yet installed are
/// returned, each once.
pub fn plan_mod_install(
    ids: &[String],
    catalog: &[ModCatalogEntry],
    installed: &Vec<String>,
) -> (r: Result<Vec<String>, String>)
    ensures
        match r {
            Ok(v) => {
                &&& forall|x: Seq<char>|
                    in_final_set(ids@, catalog@, installed@, x) ==> !has_conflict(
                        ids@,
                        catalog@,
                        installed@,
                        x,
                    )
                &&& distinct_from(v@, 0)
                &&& forall|d: Seq<char>|
                    #![trigger in_views(v@, d)]
                    in_views(v@, d) <==> reached(ids@, catalog@, Seq::<String>::empty(), d)
                        && !in_views(installed@, d)
            },
            Err(msg) => conflict_reported(ids@, catalog@, installed@, msg@),
        },
{
    let mut resolved: Vec<String> = Vec::new();
    resolve_deps(ids, catalog, &mut resolved);
    // The final set: what is installed, then what resolution adds to it.
    let mut fin = clone_strings(installed.as_slice());
    let mut extra: Vec<String> = Vec::new();
    let mut i: usize = 0;
    proof {
        assert(resolved@.take(0) =~= Seq::<String>::empty());
        assert forall|d: Seq<char>| #[trigger] in_views(fin@, d) <==> in_views(installed@, d) by {
            if in_views(fin@, d) {
                let k = choose|k: int| 0 <= k < fin@.len() && (#[trigger] fin@[k])@ == d;
                assert(installed@[k]@ == d);
            }
            if in_views(installed@, d) {
                let k = choose|k: int| 0 <= k < installed@.len() && (#[trigger] installed@[k])@ == d;
                assert(fin@[k]@ == d);
            }
        }
    }
    while i < resolved.len()
        invariant
            i <= resolved.len(),
            distinct_from(resolved@, 0),
            forall|d: Seq<char>|
                #![trigger in_views(resolved@, d)]
                in_views(resolved@, d) <==> reached(ids@, catalog@, Seq::<String>::empty(), d),
            fin@.len() == installed@.len() + extra@.len(),
            forall|k: int| 0 <= k < installed@.len() ==> (#[trigger] fin@[k])@ == installed@[k]@,
            forall|k: int| 0 <= k < extra@.len() ==> (#[trigger] fin@[installed@.len() + k])@ == extra@[k]@,
            distinct_from(extra@, 0),
            forall|k: int| 0 <= k < extra@.len() ==> !in_views(installed@, (#[trigger] extra@[k])@),
            forall|d: Seq<char>|
                #![trigger in_views(extra@, d)]
                in_views(extra@, d) <==> in_views(resolved@.take(i as int), d) && !in_views(installed@, d),
            forall|d: Seq<char>|
                #![trigger in_views(fin@, d)]
                in_views(fin@, d) <==> in_views(installed@, d) || in_views(resolved@.take(i as int), d),
        decreases resolved.len() - i,
    {
        let ghost prev_take = resolved@.take(i as int);
        let ghost next_take = resolved@.take((i + 1) as int);
        assert(next_take == prev_take.push(resolved@[i as int]));
        assert(next_take.drop_last() =~= prev_take);
        if !contains_text(installed, resolved[i].as_str()) {
            let ghost prev_extra = extra@;
            let ghost prev_fin = fin@;
            extra.push(resolved[i].clone());
            fin.push(resolved[i].clone());
            proof {
                assert forall|a: int, b: int| 0 <= a < b < extra@.len() implies (#[trigger] extra@[a])@
                    != (#[trigger] extra@[b])@ by {
                    if b == extra@.len() - 1 {
                        assert(extra@[a] == prev_extra[a]);
                        assert(in_views(prev_extra, prev_extra[a]@));
                        assert(in_views(prev_take, extra@[a]@));
                        let t = choose|t: int| 0 <= t < prev_take.len() && (#[trigger] prev_take[t])@
                            == extra@[a]@;
                        assert(resolved@[t] == prev_take[t]);
                        assert(resolved@[i as int] == next_take[i as int]);
                    } else {
                        assert(extra@[a] == prev_extra[a]);
                        assert(extra@[b] == prev_extra[b]);
                    }
                }
                assert(extra@.drop_last() =~= prev_extra);
                assert(fin@.drop_last() =~= prev_fin);
                lemma_views_push(prev_extra, extra@);
                lemma_views_push(prev_fin, fin@);
                lemma_views_push(prev_take, next_take);
            }
        } else {
            proof {
                lemma_views_push(prev_take, next_take);
            }
        }
        i = i + 1;
    }
    assert(resolved@.take(resolved.len() as int) == resolved@);
    proof {
        assert forall|d: Seq<char>| #[trigger] in_views(fin@, d) <==> in_final_set(
            ids@,
            catalog@,
            installed@,
            d,
        ) by {
            if in_views(fin@, d) && !in_views(installed@, d) {
                assert(in_views(resolved@, d));
            }
            if reached(ids@, catalog@, Seq::<String>::empty(), d) {
                assert(in_views(resolved@, d));
            }
        }
    }
    // Look for a conflict inside the final set.
    let mut j: usize = 0;
    while j < fin.len()
        invariant
            j <= fin.len(),
            forall|d: Seq<char>|
                #![trigger in_views(fin@, d)]
                in_views(fin@, d) <==> in_final_set(ids@, catalog@, installed@, d),
            forall|k: int|
                0 <= k < j ==> !has_conflict(ids@, catalog@, installed@, (#[trigger] fin@[k])@),
        decreases fin.len() - j,
    {
        let x = fin[j].as_str();
        assert(in_final_set(ids@, catalog@, installed@, x@)) by {
            assert(in_views(fin@, fin@[j as int]@));
        }
        match conflict_of(Ghost(ids@), catalog, Ghost(installed@), &fin, x) {
            Some(msg) => {
                return Err(msg);
            },
            None => {},
        }
        j = j + 1;
    }
    proof {
        assert forall|x: Seq<char>| in_final_set(ids@, catalog@, installed@, x) implies !has_conflict(
            ids@,
            catalog@,
            installed@,
            x,
        ) by {
            assert(in_views(fin@, x));
            let k = choose|k: int| 0 <= k < fin@.len() && (#[trigger] fin@[k])@ == x;
        }
    }
    Ok(extra)
}

proof fn lemma_views_push(a: Seq<String>, b: Seq<String>)
    requires
        b.len() == a.len() + 1,
        b.drop_last() == a,
    ensures
        forall|d: Seq<char>| #[trigger] in_views(b, d) <==> in_views(a, d) || b.last()@ == d,
{
    assert forall|d: Seq<char>| #[trigger] in_views(b, d) <==> in_views(a, d) || b.last()@ == d by {
        if in_views(a, d) {
            let k = choose|k: int| 0 <= k < a.len() && (#[trigger] a[k])@ == d;
            assert(b[k] == a[k]);
        }
        if in_views(b, d) && b.last()@ != d {
            let k = choose|k: int| 0 <= k < b.len() && (#[trigger] b[k])@ == d;
            assert(a[k] == b[k]);
        }
        if b.last()@ == d {
            assert(b[b.len() - 1]@ == d);
        }
    }
}

// ---------------------------------------------------------------------------------------------
// Files of the launcher's own folder
// ---------------------------------------------------------------------------------------------

/// A path under the launcher folder `dir`: the folder, then the given names.
pub open spec fn path_in(dir: Seq<char>, name: Seq<char>) -> Seq<Seq<char>> {
    seq![dir, name]
}

pub open spec fn path_view(p: Seq<String>) -> Seq<Seq<char>> {
    p.map_values(|s: String| s@)
}

/// `dir` joined with `name`, as path segments.
pub fn join_path(dir: &str, name: &str) -> (p: Vec<String>)
    ensures
        path_view(p@) == path_in(dir@, name@),
{
    let mut p: Vec<String> = Vec::new();
    p.push(dir.to_owned());
    p.push(name.to_owned());
    assert(path_view(p@) =~= path_in(dir@, name@));
    p
}

/// Where the last catalog fetched is kept.
pub fn catalog_cache_path(game_dir: &str) -> (p: Vec<String>)
    ensures
        path_view(p@) == path_in(game_dir@, "mods_catalog_cache.json"@),
{
    join_path(game_dir, "mods_catalog_cache.json")
}

/// Where the individually installed mods are recorded.
pub fn mods_state_path(game_dir: &str) -> (p: Vec<String>)
    ensures
        path_view(p@) == path_in(game_dir@, "mods_state.json"@),
{
    join_path(game_dir, "mods_state.json")
}

/// Where the installed official pack is recorded.
pub fn official_pack_state_path(game_dir: &str) -> (p: Vec<String>)
    ensures
        path_view(p@) == path_in(game_dir@, "official_pack_state.json"@),
{
    join_path(game_dir, "official_pack_state.json")
}

/// Where the extras of the last imported build are recorded.
pub fn import_extras_state_path(game_dir: &str) -> (p: Vec<String>)
    ensures
        path_view(p@) == path_in(game_dir@, "import_extras_state.json"@),
{
    join_path(game_dir, "import_extras_state.json")
}

// ---------------------------------------------------------------------------------------------
// Recognising jars on disk
// ---------------------------------------------------------------------------------------------

/// `s` with only its ASCII letters and digits, lower-cased.
pub open spec fn slug(s: Seq<char>) -> Seq<char>
    decreases s.len(),
{
    if s.len() == 0 {
        s
    } else if crate::text::is_ascii_alnum(s.last()) {
        slug(s.drop_last()).push(crate::text::ascii_lower(s.last()))
    } else {
        slug(s.drop_last())
    }
}

/// `s` reduced to lower-case ASCII letters and digits.
pub fn normalize_slug(s: &str) -> (r: Vec<char>)
    ensures
        r@ == slug(s@),
{
    let cs = crate::text::chars_of(s);
    let mut r: Vec<char> = Vec::new();
    let mut i: usize = 0;
    while i < cs.len()
        invariant
            i <= cs.len(),
            cs@ == s@,
            r@ == slug(cs@.take(i as int)),
        decreases cs.len() - i,
    {
        let c = cs[i];
        assert(cs@.take((i + 1) as int).drop_last() == cs@.take(i as int));
        assert(cs@.take((i + 1) as int).last() == c);
        if (c >= '0' && c <= '9') || (c >= 'a' && c <= 'z') || (c >= 'A' && c <= 'Z') {
            if c >= 'A' && c <= 'Z' {
                r.push(((c as u8) + 32) as char);
            } else {
                r.push(c);
            }
        }
        i = i + 1;
    }
    assert(cs@.take(cs.len() as int) == cs@);
    r
}

/// Whether a file name has the extension `jar` (the text after its last dot, when that dot is
/// not the name's first character).
pub open spec fn is_jar_name(name: Seq<char>) -> bool {
    let parts = crate::text::split_char(name, '.');
    parts.len() >= 2 && parts.last() == "jar"@ && !(parts.len() == 2 && parts[0].len() == 0)
}

pub fn has_jar_extension(name: &str) -> (b: bool)
    ensures
        b == is_jar_name(name@),
{
    let cs = crate::text::chars_of(name);
    let parts = crate::text::split_chars(cs.as_slice(), '.');
    if parts.len() < 2 {
        return false;
    }
    let last = &parts[parts.len() - 1];
    let jar = crate::text::chars_of("jar");
    if !crate::text::chars_eq(last.as_slice(), jar.as_slice()) {
        return false;
    }
    !(parts.len() == 2 && parts[0].len() == 0)
}

/// How well the catalog entry `m` matches a jar whose slug is `f`: the length of the longest
/// non-empty slug of its id or name that `f` starts with, or 0.
pub open spec fn match_len(m: ModCatalogEntry, f: Seq<char>) -> int {
    let a = slug(m.id@);
    let b = slug(m.name@);
    let la = if a.len() > 0 && crate::text::starts_with(f, a) {
        a.len() as int
    } else {
        0
    };
    let lb = if b.len() > 0 && crate::text::starts_with(f, b) {
        b.len() as int
    } else {
        0
    };
    if la >= lb {
        la
    } else {
        lb
    }
}

/// `i` is a best match for a jar whose slug is `f`: a positive match length that no entry
/// exceeds and no later entry equals.
pub open spec fn is_best(cat: Seq<ModCatalogEntry>, f: Seq<char>, i: int) -> bool {
    &&& 0 <= i < cat.len()
    &&& match_len(cat[i], f) > 0
    &&& forall|j: int| 0 <= j < cat.len() ==> match_len(#[trigger] cat[j], f) <= match_len(cat[i], f)
    &&& forall|j: int| i < j < cat.len() ==> match_len(#[trigger] cat[j], f) < match_len(cat[i], f)
}

/// The catalog entry a jar named `file_name` belongs to: one with the greatest positive match
/// length, the last of them on a tie.
pub open spec fn best_match(cat: Seq<ModCatalogEntry>, file_name: Seq<char>) -> Option<int> {
    if exists|i: int| is_best(cat, slug(file_name), i) {
        Some(choose|i: int| is_best(cat, slug(file_name), i))
    } else {
        None
    }
}

proof fn lemma_best_unique(cat: Seq<ModCatalogEntry>, f: Seq<char>, a: int, b: int)
    requires
        is_best(cat, f, a),
        is_best(cat, f, b),
    ensures
        a == b,
{
    if a < b {
        assert(match_len(cat[b], f) < match_len(cat[a], f));
        assert(match_len(cat[a], f) <= match_len(cat[b], f));
    } else if b < a {
        assert(match_len(cat[a], f) < match_len(cat[b], f));
        assert(match_len(cat[b], f) <= match_len(cat[a], f));
    }
}

/// `t` is a non-empty slug of the id or of the name of `m` that the jar slug `f` begins with.
pub open spec fn prefix_slug_of(m: ModCatalogEntry, f: Seq<char>, t: Seq<char>) -> bool {
    &&& t == slug(m.id@) || t == slug(m.name@)
    &&& t.len() > 0
    &&& crate::text::starts_with(f, t)
}

/// The match length of an entry is that of its longest prefix slug, and 0 when it has none.
proof fn lemma_match_len_is_longest(m: ModCatalogEntry, f: Seq<char>)
    ensures
        match_len(m, f) >= 0,
        forall|t: Seq<char>| #[trigger] prefix_slug_of(m, f, t) ==> t.len() <= match_len(m, f),
        match_len(m, f) > 0 ==> (prefix_slug_of(m, f, slug(m.id@)) && slug(m.id@).len()
            == match_len(m, f)) || (prefix_slug_of(m, f, slug(m.name@)) && slug(m.name@).len()
            == match_len(m, f)),
{
}

/// A jar on disk is taken for the catalog entry with the longest slug (of its id or its name)
/// that the jar's slug begins with; no entry has a longer one, and no later entry one as long
/// (on a tie the last entry wins). Where no entry's slug begins the jar's, the jar is left
/// unrecognised.
pub proof fn catalog_match_is_longest_prefix(cat: Seq<ModCatalogEntry>, file_name: Seq<char>)
    ensures
        ({
            let f = slug(file_name);
            match best_match(cat, file_name) {
                Some(i) => 0 <= i < cat.len() && exists|s: Seq<char>|
                    #[trigger] prefix_slug_of(cat[i], f, s) && (forall|j: int, t: Seq<char>|
                        0 <= j < cat.len() && #[trigger] prefix_slug_of(cat[j], f, t) ==> t.len()
                            <= s.len()) && (forall|j: int, t: Seq<char>|
                        i < j < cat.len() && #[trigger] prefix_slug_of(cat[j], f, t) ==> t.len()
                            < s.len()),
                None => forall|j: int, t: Seq<char>|
                    0 <= j < cat.len() ==> !#[trigger] prefix_slug_of(cat[j], f, t),
            }
        }),
{
    let f = slug(file_name);
    if exists|i: int| is_best(cat, f, i) {
        let i = choose|i: int| is_best(cat, f, i);
        assert(best_match(cat, file_name) == Some(i));
        lemma_match_len_is_longest(cat[i], f);
        let s = if prefix_slug_of(cat[i], f, slug(cat[i].id@)) && slug(cat[i].id@).len() == match_len(
            cat[i],
            f,
        ) {
            slug(cat[i].id@)
        } else {
            slug(cat[i].name@)
        };
        assert(prefix_slug_of(cat[i], f, s) && s.len() == match_len(cat[i], f));
        assert forall|j: int, t: Seq<char>|
            0 <= j < cat.len() && #[trigger] prefix_slug_of(cat[j], f, t) implies t.len() <= s.len() by {
            lemma_match_len_is_longest(cat[j], f);
            assert(match_len(cat[j], f) <= match_len(cat[i], f));
        }
        assert forall|j: int, t: Seq<char>|
            i < j < cat.len() && #[trigger] prefix_slug_of(cat[j], f, t) implies t.len() < s.len() by {
            lemma_match_len_is_longest(cat[j], f);
            assert(match_len(cat[j], f) < match_len(cat[i], f));
        }
    } else {
        assert(best_match(cat, file_name) is None);
        assert forall|j: int, t: Seq<char>| 0 <= j < cat.len() implies !#[trigger] prefix_slug_of(
            cat[j],
            f,
            t,
        ) by {
            if prefix_slug_of(cat[j], f, t) {
                lemma_match_len_is_longest(cat[j], f);
                // the entry with the greatest match length, the last on a tie, would be best
                lemma_best_exists(cat, f, j);
                assert(false);
            }
        }
    }
}

/// Among the entries from `k` on, the last one with the greatest match length.
proof fn lemma_best_of_suffix(cat: Seq<ModCatalogEntry>, f: Seq<char>, k: int) -> (b: int)
    requires
        0 <= k < cat.len(),
    ensures
        k <= b < cat.len(),
        forall|x: int| k <= x < cat.len() ==> match_len(#[trigger] cat[x], f) <= match_len(cat[b], f),
        forall|x: int| b < x < cat.len() ==> match_len(#[trigger] cat[x], f) < match_len(cat[b], f),
    decreases cat.len() - k,
{
    if k == cat.len() - 1 {
        k
    } else {
        let b2 = lemma_best_of_suffix(cat, f, k + 1);
        if match_len(cat[k], f) > match_len(cat[b2], f) {
            k
        } else {
            b2
        }
    }
}

/// Where some entry matches at all, a best one exists.
proof fn lemma_best_exists(cat: Seq<ModCatalogEntry>, f: Seq<char>, j: int)
    requires
        0 <= j < cat.len(),
        match_len(cat[j], f) > 0,
    ensures
        exists|i: int| is_best(cat, f, i),
{
    let b = lemma_best_of_suffix(cat, f, 0);
    assert(match_len(cat[j], f) <= match_len(cat[b], f));
    assert(is_best(cat, f, b));
}

fn entry_match_len(m: &ModCatalogEntry, f: &[char]) -> (n: usize)
    ensures
        n as int == match_len(*m, f@),
{
    let a = normalize_slug(m.id.as_str());
    let b = normalize_slug(m.name.as_str());
    let la = if a.len() > 0 && crate::text::chars_starts_with(f, a.as_slice()) {
        a.len()
    } else {
        0
    };
    let lb = if b.len() > 0 && crate::text::chars_starts_with(f, b.as_slice()) {
        b.len()
    } else {
        0
    };
    if la >= lb {
        la
    } else {
        lb
    }
}

/// The catalog entry that a jar on disk named `file_name` is taken to be.
pub fn best_catalog_match(catalog: &[ModCatalogEntry], file_name: &str) -> (r: Option<usize>)
    ensures
        match r {
            Some(i) => best_match(catalog@, file_name@) == Some(i as int) && i < catalog@.len(),
            None => best_match(catalog@, file_name@) is None && forall|j: int|
                0 <= j < catalog@.len() ==> match_len(#[trigger] catalog@[j], slug(file_name@)) <= 0,
        },
{
    let f = normalize_slug(file_name);
    let mut best: Option<usize> = None;
    let mut best_len: usize = 0;
    let mut i: usize = 0;
    while i < catalog.len()
        invariant
            i <= catalog.len(),
            f@ == slug(file_name@),
            best is None ==> best_len == 0 && forall|j: int| 0 <= j < i ==> match_len(#[trigger] catalog@[j], f@) <= 0,
            best is Some ==> {
                &&& best->0 < i
                &&& best_len as int == match_len(catalog@[best->0 as int], f@)
                &&& best_len > 0
                &&& forall|j: int| 0 <= j < i ==> match_len(#[trigger] catalog@[j], f@) <= best_len
                &&& forall|j: int| best->0 < j < i ==> match_len(#[trigger] catalog@[j], f@) < best_len
            },
        decreases catalog.len() - i,
    {
        let n = entry_match_len(&catalog[i], f.as_slice());
        assert(n as int == match_len(catalog@[i as int], f@));
        if n > 0 && n >= best_len {
            best = Some(i);
            best_len = n;
        }
        assert(match_len(catalog@[i as int], f@) <= best_len);
        i = i + 1;
    }
    match best {
        Some(b) => {
            proof {
                assert(is_best(catalog@, f@, b as int));
                let w = choose|w: int| is_best(catalog@, slug(file_name@), w);
                lemma_best_unique(catalog@, f@, w, b as int);
            }
            Some(b)
        },
        None => {
            proof {
                if exists|w: int| is_best(catalog@, slug(file_name@), w) {
                    let w = choose|w: int| is_best(catalog@, slug(file_name@), w);
                    assert(match_len(catalog@[w], f@) <= 0);
                }
            }
            None
        },
    }
}

/// What the launcher records of a mod it installed: its files and version.
#[derive(Debug, Clone)]
pub struct InstalledMod {
    pub files: Vec<String>,
    pub version: String,
}

/// The state of a mod recognised on disk under the catalog entry `m`.
pub fn discovered_mod(m: &ModCatalogEntry, file_name: &str) -> (r: (String, InstalledMod))
    ensures
        r.0@ == m.id@,
        r.1.files@.len() == 1,
        r.1.files@[0]@ == file_name@,
        r.1.version@ == m.version@,
{
    let mut files: Vec<String> = Vec::new();
    files.push(file_name.to_owned());
    (m.id.clone(), InstalledMod { files, version: m.version.clone() })
}

fn state_position(state: &Vec<(String, InstalledMod)>, id: &str) -> (r: Option<usize>)
    ensures
        match r {
            Some(i) => i < state@.len() && state@[i as int].0@ == id@,
            None => forall|i: int| 0 <= i < state@.len() ==> (#[trigger] state@[i]).0@ != id@,
        },
{
    let mut i: usize = 0;
    while i < state.len()
        invariant
            i <= state.len(),
            forall|k: int| 0 <= k < i ==> (#[trigger] state@[k]).0@ != id@,
        decreases state.len() - i,
    {
        if crate::text::str_eq(state[i].0.as_str(), id) {
            return Some(i);
        }
        i = i + 1;
    }
    None
}

/// Adds, in order, each entry of `discovered` whose id `state` does not hold at that point;
/// entries already there are left as they are.
pub fn merge_discovered(state: &mut Vec<(String, InstalledMod)>, discovered: Vec<(String, InstalledMod)>)
    ensures
        final(state)@.len() >= old(state)@.len(),
        final(state)@.take(old(state)@.len() as int) == old(state)@,
        forall|i: int|
            old(state)@.len() <= i < final(state)@.len() ==> one_of(#[trigger] final(state)@[i], discovered@),
        forall|i: int|
            old(state)@.len() <= i < final(state)@.len() ==> forall|k: int|
                0 <= k < i ==> (#[trigger] final(state)@[k]).0@ != (#[trigger] final(state)@[i]).0@,
        forall|j: int| 0 <= j < discovered@.len() ==> has_id(final(state)@, (#[trigger] discovered@[j]).0@),
{
    let ghost start = state@;
    let ghost all = discovered@;
    let mut rest = discovered;
    let total = rest.len();
    let mut j: usize = 0;
    while rest.len() > 0
        invariant
            j + rest@.len() == all.len(),
            all.len() <= usize::MAX,
            all == discovered@,
            rest@ == all.skip(j as int),
            state@.len() >= start.len(),
            state@.take(start.len() as int) == start,
            start == old(state)@,
            forall|i: int| start.len() <= i < state@.len() ==> one_of(#[trigger] state@[i], all),
            forall|i: int|
                start.len() <= i < state@.len() ==> forall|k: int|
                    0 <= k < i ==> (#[trigger] state@[k]).0@ != (#[trigger] state@[i]).0@,
            forall|q: int| 0 <= q < j ==> has_id(state@, (#[trigger] all[q]).0@),
        decreases rest@.len(),
    {
        let ghost before = state@;
        let e = rest.remove(0);
        assert(e == all[j as int]);
        assert(rest@ == all.skip(j + 1));
        match state_position(state, e.0.as_str()) {
            Some(i) => {
                assert(state@[i as int].0@ == all[j as int].0@);
                assert forall|q: int| 0 <= q < j + 1 implies has_id(state@, (#[trigger] all[q]).0@) by {
                    if q == j {
                        assert(state@[i as int].0@ == all[q].0@);
                    }
                }
            },
            None => {
                state.push(e);
                proof {
                    assert(state@.take(start.len() as int) =~= start);
                    assert forall|i: int| start.len() <= i < state@.len() implies one_of(
                        #[trigger] state@[i],
                        all,
                    ) by {
                        if i < before.len() {
                            assert(state@[i] == before[i]);
                        } else {
                            assert(state@[i] == all[j as int]);
                        }
                    }
                    assert forall|i: int| start.len() <= i < state@.len() implies forall|k: int|
                        0 <= k < i ==> (#[trigger] state@[k]).0@ != (#[trigger] state@[i]).0@ by {
                        if i == state@.len() - 1 {
                            assert forall|k: int| 0 <= k < i implies (#[trigger] state@[k]).0@
                                != state@[i].0@ by {
                                assert(state@[k] == before[k]);
                            }
                        } else {
                            assert forall|k: int| 0 <= k < i implies (#[trigger] state@[k]).0@
                                != state@[i].0@ by {
                                assert(state@[k] == before[k]);
                                assert(state@[i] == before[i]);
                            }
                        }
                    }
                    assert forall|q: int| 0 <= q < j + 1 implies has_id(state@, (#[trigger] all[q]).0@) by {
                        if q == j {
                            assert(state@[state@.len() - 1].0@ == all[q].0@);
                        } else {
                            assert(has_id(before, all[q].0@));
                            let i = choose|i: int|
                                0 <= i < before.len() && (#[trigger] before[i]).0@ == all[q].0@;
                            assert(state@[i] == before[i]);
                        }
                    }
                }
            },
        }
        j = j + 1;
    }
    proof {
        assert(all == discovered@);
    }
}

/// Whether `e` is one of the entries of `d`.
pub open spec fn one_of(e: (String, InstalledMod), d: Seq<(String, InstalledMod)>) -> bool {
    exists|j: int| 0 <= j < d.len() && d[j] == e
}

/// Whether some entry of `state` has the id `id`.
pub open spec fn has_id(state: Seq<(String, InstalledMod)>, id: Seq<char>) -> bool {
    exists|i: int| 0 <= i < state.len() && (#[trigger] state[i]).0@ == id
}

/// Records that a jar was recognised as `entry.0`; a later recognition of the same id replaces
/// an earlier one, as inserting into a map does.
pub fn record_discovery(discovered: &mut Vec<(String, InstalledMod)>, entry: (String, InstalledMod))
    ensures
        exists|i: int| 0 <= i < final(discovered)@.len() && #[trigger] final(discovered)@[i] == entry,
        forall|i: int|
            0 <= i < final(discovered)@.len() && (#[trigger] final(discovered)@[i]).0@ != entry.0@
                ==> exists|k: int|
                0 <= k < old(discovered)@.len() && #[trigger] old(discovered)@[k] == final(discovered)@[i],
        forall|k: int|
            0 <= k < old(discovered)@.len() && (#[trigger] old(discovered)@[k]).0@ != entry.0@
                ==> exists|i: int|
                0 <= i < final(discovered)@.len() && #[trigger] final(discovered)@[i] == old(discovered)@[k],
{
    match state_position(discovered, entry.0.as_str()) {
        Some(i) => {
            let ghost before = discovered@;
            discovered.set(i, entry);
            proof {
                assert(discovered@[i as int] == entry);
                assert forall|k: int|
                    0 <= k < before.len() && (#[trigger] before[k]).0@ != entry.0@ implies exists|
                    x: int,
                | 0 <= x < discovered@.len() && #[trigger] discovered@[x] == before[k] by {
                    assert(discovered@[k] == before[k]);
                }
                assert forall|x: int|
                    0 <= x < discovered@.len() && (#[trigger] discovered@[x]).0@ != entry.0@ implies exists|
                    k: int,
                | 0 <= k < before.len() && #[trigger] before[k] == discovered@[x] by {
                    assert(discovered@[x] == before[x]);
                }
            }
        },
        None => {
            let ghost before = discovered@;
            discovered.push(entry);
            proof {
                assert(discovered@[discovered@.len() - 1] == entry);
                assert forall|k: int|
                    0 <= k < before.len() && (#[trigger] before[k]).0@ != entry.0@ implies exists|
                    x: int,
                | 0 <= x < discovered@.len() && #[trigger] discovered@[x] == before[k] by {
                    assert(discovered@[k] == before[k]);
                }
                assert forall|x: int|
                    0 <= x < discovered@.len() && (#[trigger] discovered@[x]).0@ != entry.0@ implies exists|
                    k: int,
                | 0 <= k < before.len() && #[trigger] before[k] == discovered@[x] by {
                    assert(discovered@[x] == before[x]);
                }
            }
        },
    }
}


// ---------------------------------------------------------------------------------------------
// Uninstalling
// ---------------------------------------------------------------------------------------------

pub const PACK_MEMBER_MESSAGE: &'static str = "Этот мод входит в сборку LemiSborka — уберите всю сборку целиком в её карточке выше";

/// Uninstalling a mod that is not individually tracked: refused when the installed official
/// pack lists it (the pack can only be removed as a whole), nothing to do otherwise.
pub fn untracked_uninstall(id: &str, pack_minimal_mods: &Option<Vec<String>>) -> (r: Result<(), String>)
    ensures
        match r {
            Ok(()) => !(pack_minimal_mods matches Some(p) && in_views(p@, id@)),
            Err(msg) => pack_minimal_mods matches Some(p) && in_views(p@, id@) && msg@
                == PACK_MEMBER_MESSAGE@,
        },
{
    match pack_minimal_mods {
        Some(p) => {
            if contains_text(p, id) {
                Err(PACK_MEMBER_MESSAGE.to_owned())
            } else {
                Ok(())
            }
        },
        None => Ok(()),
    }
}

/// Whether the catalog entry `m` is installed and depends on `id`.
pub open spec fn is_dependent(m: ModCatalogEntry, installed: Seq<String>, id: Seq<char>) -> bool {
    in_views(installed, m.id@) && in_views(m.deps@, id)
}

/// The names of the installed catalog mods that depend on `id`, in catalog order.
pub open spec fn dependent_names(cat: Seq<ModCatalogEntry>, installed: Seq<String>, id: Seq<char>) -> Seq<Seq<char>>
    decreases cat.len(),
{
    if cat.len() == 0 {
        Seq::<Seq<char>>::empty()
    } else if is_dependent(cat.last(), installed, id) {
        dependent_names(cat.drop_last(), installed, id).push(cat.last().name@)
    } else {
        dependent_names(cat.drop_last(), installed, id)
    }
}

/// Each name in `dependent_names` is that of an installed catalog entry that depends on `id`.
proof fn lemma_dependent_name_sound(cat: Seq<ModCatalogEntry>, installed: Seq<String>, id: Seq<char>, k: int) -> (j: int)
    requires
        0 <= k < dependent_names(cat, installed, id).len(),
    ensures
        0 <= j < cat.len(),
        cat[j].name@ == dependent_names(cat, installed, id)[k],
        in_views(installed, cat[j].id@),
        in_views(cat[j].deps@, id),
    decreases cat.len(),
{
    let prev = cat.drop_last();
    let pn = dependent_names(prev, installed, id);
    if k < pn.len() {
        let j = lemma_dependent_name_sound(prev, installed, id, k);
        assert(cat[j] == prev[j]);
        j
    } else {
        assert(is_dependent(cat.last(), installed, id));
        cat.len() - 1
    }
}

/// Each installed catalog entry that depends on `id` is named in `dependent_names`.
proof fn lemma_dependents_complete(cat: Seq<ModCatalogEntry>, installed: Seq<String>, id: Seq<char>)
    ensures
        forall|j: int|
            0 <= j < cat.len() && in_views(installed, (#[trigger] cat[j]).id@) && in_views(cat[j].deps@, id)
                ==> exists|k: int|
                0 <= k < dependent_names(cat, installed, id).len() && dependent_names(cat, installed, id)[k]
                    == cat[j].name@,
    decreases cat.len(),
{
    if cat.len() > 0 {
        let prev = cat.drop_last();
        lemma_dependents_complete(prev, installed, id);
        let names = dependent_names(cat, installed, id);
        let pn = dependent_names(prev, installed, id);
        let last = cat.len() - 1;
        assert forall|j: int|
            0 <= j < cat.len() && in_views(installed, (#[trigger] cat[j]).id@) && in_views(cat[j].deps@, id)
                implies exists|k: int| 0 <= k < names.len() && names[k] == cat[j].name@ by {
            if j < last {
                assert(cat[j] == prev[j]);
                let k = choose|k: int| 0 <= k < pn.len() && pn[k] == prev[j].name@;
                assert(names[k] == pn[k]);
            } else {
                assert(cat[j] == cat.last());
                assert(names[names.len() - 1] == cat.last().name@);
            }
        }
    }
}

/// Uninstalling `id` is blocked exactly by the installed catalog mods that list it among their
/// dependencies: each name given is that of a catalog entry that is installed and depends on
/// `id`, each such entry is named, and where there is none nothing blocks.
pub proof fn uninstall_blocked_only_by_installed_dependents(
    cat: Seq<ModCatalogEntry>,
    installed: Seq<String>,
    id: Seq<char>,
)
    ensures
        forall|k: int|
            #![trigger dependent_names(cat, installed, id)[k]]
            0 <= k < dependent_names(cat, installed, id).len() ==> exists|j: int|
                0 <= j < cat.len() && (#[trigger] cat[j]).name@ == dependent_names(cat, installed, id)[k]
                    && in_views(installed, cat[j].id@) && in_views(cat[j].deps@, id),
        forall|j: int|
            0 <= j < cat.len() && in_views(installed, (#[trigger] cat[j]).id@) && in_views(cat[j].deps@, id)
                ==> exists|k: int|
                0 <= k < dependent_names(cat, installed, id).len() && dependent_names(cat, installed, id)[k]
                    == cat[j].name@,
        dependent_names(cat, installed, id).len() == 0 <==> forall|j: int|
            0 <= j < cat.len() ==> !(in_views(installed, (#[trigger] cat[j]).id@) && in_views(
                cat[j].deps@,
                id,
            )),
{
    lemma_dependents_complete(cat, installed, id);
    let names = dependent_names(cat, installed, id);
    assert forall|k: int|
        #![trigger dependent_names(cat, installed, id)[k]]
        0 <= k < names.len() implies exists|j: int|
            0 <= j < cat.len() && (#[trigger] cat[j]).name@ == names[k] && in_views(installed, cat[j].id@)
                && in_views(cat[j].deps@, id) by {
        let j = lemma_dependent_name_sound(cat, installed, id, k);
        assert(cat[j].name@ == names[k]);
    }
    if names.len() > 0 {
        let j = lemma_dependent_name_sound(cat, installed, id, 0);
        assert(in_views(installed, cat[j].id@) && in_views(cat[j].deps@, id));
    }
}

/// What blocks uninstalling the individually installed mod `id`: the installed mods that depend
/// on it, named in catalog order as "От этого мода зависят: a, b"; nothing when there are none.
pub fn uninstall_blocker(id: &str, installed: &Vec<String>, catalog: &[ModCatalogEntry]) -> (r: Option<String>)
    ensures
        match r {
            Some(msg) => dependent_names(catalog@, installed@, id@).len() > 0 && msg@
                == "От этого мода зависят: "@ + crate::text::join(
                dependent_names(catalog@, installed@, id@),
                ", "@,
            ),
            None => dependent_names(catalog@, installed@, id@).len() == 0,
        },
{
    let mut names: Vec<String> = Vec::new();
    let mut i: usize = 0;
    while i < catalog.len()
        invariant
            i <= catalog.len(),
            names@.map_values(|p: String| p@) == dependent_names(catalog@.take(i as int), installed@, id@),
        decreases catalog.len() - i,
    {
        let ghost prev = names@;
        assert(catalog@.take((i + 1) as int).drop_last() == catalog@.take(i as int));
        assert(catalog@.take((i + 1) as int).last() == catalog@[i as int]);
        if contains_text(installed, catalog[i].id.as_str()) && contains_text(&catalog[i].deps, id) {
            names.push(catalog[i].name.clone());
            assert(names@.map_values(|p: String| p@) =~= prev.map_values(|p: String| p@).push(
                catalog@[i as int].name@,
            ));
        }
        i = i + 1;
    }
    assert(catalog@.take(catalog.len() as int) == catalog@);
    if names.len() == 0 {
        return None;
    }
    let joined = crate::text::join_strings(&names, ", ");
    Some(crate::text::concat("От этого мода зависят: ", joined.as_str()))
}

// ---------------------------------------------------------------------------------------------
// Archive entries
// ---------------------------------------------------------------------------------------------

/// Archives holding more entries than this are refused.
pub const MAX_ZIP_ENTRIES: usize = 20000;

/// Extraction stops once more than this many bytes have been written.
pub const MAX_DECOMPRESSED_BYTES: u64 = 2147483648;

pub const TOO_MANY_ENTRIES_MESSAGE: &'static str = "Архив содержит слишком много файлов";

pub const TOO_LARGE_MESSAGE: &'static str = "Архив превышает допустимый размер после распаковки — установка отменена";

/// An archive with `n` entries is accepted when it has no more than [`MAX_ZIP_ENTRIES`].
pub fn check_entry_count(n: usize) -> (r: Result<(), String>)
    ensures
        r is Ok <==> n <= MAX_ZIP_ENTRIES,
        r matches Err(m) ==> m@ == TOO_MANY_ENTRIES_MESSAGE@,
{
    if n > MAX_ZIP_ENTRIES {
        Err(TOO_MANY_ENTRIES_MESSAGE.to_owned())
    } else {
        Ok(())
    }
}

pub open spec fn seg_views(p: Seq<String>) -> Seq<Seq<char>> {
    p.map_values(|s: String| s@)
}

/// Where a mods archive entry is extracted, relative to the mods folder: entries under `mods/`
/// that are files, without that first component. Entries whose name is unsafe (`None`),
/// directories, other entries, and `mods` itself are skipped.
pub open spec fn mods_entry_target_of(enclosed: Option<Seq<Seq<char>>>, is_dir: bool) -> Option<Seq<Seq<char>>> {
    match enclosed {
        Some(c) => if c.len() > 0 && c[0] == "mods"@ && c.len() > 1 && !is_dir {
            Some(c.skip(1))
        } else {
            None
        },
        None => None,
    }
}

fn rest_of(c: &Vec<String>) -> (r: Vec<String>)
    requires
        c@.len() >= 1,
    ensures
        seg_views(r@) == seg_views(c@).skip(1),
{
    let mut r: Vec<String> = Vec::new();
    let mut i: usize = 1;
    while i < c.len()
        invariant
            1 <= i <= c.len(),
            seg_views(r@) == seg_views(c@).subrange(1, i as int),
        decreases c.len() - i,
    {
        let ghost prev = r@;
        r.push(c[i].clone());
        assert(seg_views(r@) =~= seg_views(prev).push(c@[i as int]@));
        assert(seg_views(r@) =~= seg_views(c@).subrange(1, (i + 1) as int));
        i = i + 1;
    }
    assert(seg_views(c@).subrange(1, c@.len() as int) == seg_views(c@).skip(1));
    r
}

pub open spec fn opt_segs(o: Option<Vec<String>>) -> Option<Seq<Seq<char>>> {
    match o {
        Some(v) => Some(seg_views(v@)),
        None => None,
    }
}

/// The path, under the mods folder, that a mods archive entry is extracted to.
pub fn mods_entry_target(enclosed: &Option<Vec<String>>, is_dir: bool) -> (r: Option<Vec<String>>)
    ensures
        opt_segs(r) == mods_entry_target_of(opt_segs(*enclosed), is_dir),
{
    match enclosed {
        Some(c) => {
            if c.len() > 1 && crate::text::str_eq(c[0].as_str(), "mods") && !is_dir {
                Some(rest_of(c))
            } else {
                None
            }
        },
        None => None,
    }
}

/// Whether an archive entry of an imported build is one of its extras: `options.txt`, or a
/// file under `resourcepacks`, `shaderpacks` or `config`.
pub open spec fn is_import_extra(enclosed: Option<Seq<Seq<char>>>, is_dir: bool) -> bool {
    match enclosed {
        Some(c) => !is_dir && (c == seq!["options.txt"@] || (c.len() > 0 && (c[0] == "resourcepacks"@
            || c[0] == "shaderpacks"@ || c[0] == "config"@))),
        None => false,
    }
}

/// What an imported build contributes besides its mods: a file entry is taken exactly when its
/// path is `options.txt` or lies under one of the folders `resourcepacks`, `shaderpacks` or
/// `config`; folders themselves, and entries whose path escapes the archive, never are. None of
/// them is a mod jar, which the `mods` folder alone supplies.
pub proof fn import_extras_are_options_and_pack_folders(enclosed: Option<Seq<Seq<char>>>, is_dir: bool)
    ensures
        is_import_extra(enclosed, is_dir) <==> (enclosed matches Some(c) && !is_dir && (c
            =~= seq!["options.txt"@] || (c.len() > 0 && (c[0] =~= "resourcepacks"@ || c[0]
            =~= "shaderpacks"@ || c[0] =~= "config"@)))),
        is_import_extra(enclosed, is_dir) ==> mods_entry_target_of(enclosed, is_dir) is None,
{
    reveal_strlit("mods");
    reveal_strlit("options.txt");
    reveal_strlit("resourcepacks");
    reveal_strlit("shaderpacks");
    reveal_strlit("config");
    if let Some(c) = enclosed {
        if is_import_extra(enclosed, is_dir) && c.len() > 0 {
            if c =~= seq!["options.txt"@] {
                assert(c[0] == "options.txt"@);
            }
            assert(c[0].len() != 4 || c[0][0] != 'm');
            assert(c[0] != "mods"@);
        }
    }
}

pub fn import_extra_entry(enclosed: &Option<Vec<String>>, is_dir: bool) -> (b: bool)
    ensures
        b == is_import_extra(opt_segs(*enclosed), is_dir),
{
    match enclosed {
        Some(c) => {
            if is_dir {
                return false;
            }
            if c.len() == 1 && crate::text::str_eq(c[0].as_str(), "options.txt") {
                assert(seg_views(c@) =~= seq!["options.txt"@]);
                return true;
            }
            if c.len() == 1 {
                assert(seg_views(c@) != seq!["options.txt"@]) by {
                    assert(seg_views(c@)[0] != "options.txt"@);
                }
            }
            if c.len() != 1 {
                assert(seg_views(c@).len() != 1);
            }
            c.len() > 0 && (crate::text::str_eq(c[0].as_str(), "resourcepacks") || crate::text::str_eq(
                c[0].as_str(),
                "shaderpacks",
            ) || crate::text::str_eq(c[0].as_str(), "config"))
        },
        None => false,
    }
}

/// How many more bytes an entry may be read for once `total` bytes have been written: what is
/// left of the cap, plus one so that going over it can be seen.
pub fn copy_allowance(total: u64) -> (n: u64)
    requires
        total <= MAX_DECOMPRESSED_BYTES,
    ensures
        n == MAX_DECOMPRESSED_BYTES - total + 1,
{
    MAX_DECOMPRESSED_BYTES - total + 1
}

/// The running total after an entry of `copied` bytes; refused once it passes the cap.
pub fn add_copied(total: u64, copied: u64) -> (r: Result<u64, String>)
    requires
        total <= MAX_DECOMPRESSED_BYTES,
        copied <= MAX_DECOMPRESSED_BYTES - total + 1,
    ensures
        match r {
            Ok(t) => t == total + copied && t <= MAX_DECOMPRESSED_BYTES,
            Err(m) => total + copied > MAX_DECOMPRESSED_BYTES && m@ == TOO_LARGE_MESSAGE@,
        },
{
    let t = total + copied;
    if t > MAX_DECOMPRESSED_BYTES {
        Err(TOO_LARGE_MESSAGE.to_owned())
    } else {
        Ok(t)
    }
}

// ---------------------------------------------------------------------------------------------
// Downloads
// ---------------------------------------------------------------------------------------------

/// A single mod or build download larger than this is refused.
pub const MAX_DOWNLOAD_BYTES: u64 = 524288000;

pub const DOWNLOAD_TOO_LARGE_MESSAGE: &'static str = "Файл мода подозрительно велик";

pub const PACK_SIZE_MISMATCH_MESSAGE: &'static str = "Скачанный файл сборки повреждён или неполон (размер не совпадает)";

/// A download is refused before reading its body when it announces more than
/// [`MAX_DOWNLOAD_BYTES`].
pub fn check_announced_size(content_length: Option<u64>) -> (r: Result<(), String>)
    ensures
        r is Ok <==> !(content_length matches Some(n) && n > MAX_DOWNLOAD_BYTES),
        r matches Err(m) ==> m@ == DOWNLOAD_TOO_LARGE_MESSAGE@,
{
    match content_length {
        Some(n) => if n > MAX_DOWNLOAD_BYTES {
            Err(DOWNLOAD_TOO_LARGE_MESSAGE.to_owned())
        } else {
            Ok(())
        },
        None => Ok(()),
    }
}

/// A downloaded body longer than [`MAX_DOWNLOAD_BYTES`] is refused (a chunked answer announces
/// no length).
pub fn check_received_size(len: usize) -> (r: Result<(), String>)
    ensures
        r is Ok <==> len <= MAX_DOWNLOAD_BYTES,
        r matches Err(m) ==> m@ == DOWNLOAD_TOO_LARGE_MESSAGE@,
{
    if len as u64 > MAX_DOWNLOAD_BYTES {
        Err(DOWNLOAD_TOO_LARGE_MESSAGE.to_owned())
    } else {
        Ok(())
    }
}

/// The official pack's archive must have the announced size, when one is announced (non-zero).
pub fn check_pack_size(file_size: u64, len: usize) -> (r: Result<(), String>)
    ensures
        r is Ok <==> (file_size == 0 || len == file_size),
        r matches Err(m) ==> m@ == PACK_SIZE_MISMATCH_MESSAGE@,
{
    if file_size > 0 && len as u64 != file_size {
        Err(PACK_SIZE_MISMATCH_MESSAGE.to_owned())
    } else {
        Ok(())
    }
}

/// The files of a previous installation that the new one no longer has, in their order; these
/// are removed, as extracting only adds and overwrites.
pub open spec fn stale(prev: Seq<String>, new_files: Seq<String>) -> Seq<Seq<char>>
    decreases prev.len(),
{
    if prev.len() == 0 {
        Seq::<Seq<char>>::empty()
    } else if in_views(new_files, prev.last()@) {
        stale(prev.drop_last(), new_files)
    } else {
        stale(prev.drop_last(), new_files).push(prev.last()@)
    }
}

pub fn stale_files(prev: &Vec<String>, new_files: &Vec<String>) -> (r: Vec<String>)
    ensures
        r@.map_values(|p: String| p@) == stale(prev@, new_files@),
{
    let mut r: Vec<String> = Vec::new();
    let mut i: usize = 0;
    while i < prev.len()
        invariant
            i <= prev.len(),
            r@.map_values(|p: String| p@) == stale(prev@.take(i as int), new_files@),
        decreases prev.len() - i,
    {
        let ghost before = r@;
        assert(prev@.take((i + 1) as int).drop_last() == prev@.take(i as int));
        assert(prev@.take((i + 1) as int).last() == prev@[i as int]);
        if !contains_text(new_files, prev[i].as_str()) {
            r.push(prev[i].clone());
            assert(r@.map_values(|p: String| p@) =~= before.map_values(|p: String| p@).push(
                prev@[i as int]@,
            ));
        }
        i = i + 1;
    }
    assert(prev@.take(prev.len() as int) == prev@);
    r
}

// ---------------------------------------------------------------------------------------------
// What the launcher shows
// ---------------------------------------------------------------------------------------------

/// A mod of an import code, as the preview shows it.
#[derive(Debug, Clone)]
pub struct ImportPreviewItem {
    pub id: String,
    pub name: String,
    pub version: String,
    pub resolved: bool,
}

/// The preview of an import code: its mods and whether it carries configs.
#[derive(Debug, Clone)]
pub struct ImportPreview {
    pub items: Vec<ImportPreviewItem>,
    pub configs: bool,
}

/// The preview line for the mod `id`: its catalog name and version when the catalog has it,
/// otherwise the id itself with the version "неизвестно", marked unresolved.
pub open spec fn preview_item_of(cat: Seq<ModCatalogEntry>, id: Seq<char>, item: ImportPreviewItem) -> bool {
    &&& item.id@ == id
    &&& match catalog_index(cat, id) {
        Some(i) => item.name@ == cat[i].name@ && item.version@ == cat[i].version@ && item.resolved,
        None => item.name@ == id && item.version@ == "неизвестно"@ && !item.resolved,
    }
}

/// The preview of an import code listing `mods`, one line per id in order.
pub fn import_preview(mods: &Vec<String>, configs: bool, catalog: &[ModCatalogEntry]) -> (p: ImportPreview)
    ensures
        p.configs == configs,
        p.items@.len() == mods@.len(),
        forall|k: int| 0 <= k < mods@.len() ==> preview_item_of(catalog@, mods@[k]@, #[trigger] p.items@[k]),
{
    let mut items: Vec<ImportPreviewItem> = Vec::new();
    let mut k: usize = 0;
    while k < mods.len()
        invariant
            k <= mods.len(),
            items@.len() == k,
            forall|j: int| 0 <= j < k ==> preview_item_of(catalog@, mods@[j]@, #[trigger] items@[j]),
        decreases mods.len() - k,
    {
        let id = mods[k].as_str();
        let item = match find_catalog_entry(catalog, id) {
            Some(i) => ImportPreviewItem {
                id: id.to_owned(),
                name: catalog[i].name.clone(),
                version: catalog[i].version.clone(),
                resolved: true,
            },
            None => ImportPreviewItem {
                id: id.to_owned(),
                name: id.to_owned(),
                version: "неизвестно".to_owned(),
                resolved: false,
            },
        };
        items.push(item);
        k = k + 1;
    }
    ImportPreview { items, configs }
}

/// The official pack as the launcher records it once installed.
#[derive(Debug, Clone)]
pub struct OfficialPackState {
    pub files: Vec<String>,
    pub minimal_mods: Vec<String>,
    pub version: String,
}

/// What the launcher shows of installed mods: each individually tracked id with its version,
/// and the ids present only through the official pack.
#[derive(Debug, Clone)]
pub struct InstalledModsInfo {
    pub individual: Vec<(String, String)>,
    pub pack_ids: Vec<String>,
}

/// The installed-mods summary of a mods state and the installed official pack (if any).
pub fn installed_mods_info(state: &Vec<(String, InstalledMod)>, pack: &Option<OfficialPackState>) -> (r: InstalledModsInfo)
    ensures
        r.individual@.len() == state@.len(),
        forall|k: int|
            0 <= k < state@.len() ==> (#[trigger] r.individual@[k]).0@ == state@[k].0@
                && r.individual@[k].1@ == state@[k].1.version@,
        match pack {
            Some(p) => seg_views(r.pack_ids@) == seg_views(p.minimal_mods@),
            None => r.pack_ids@.len() == 0,
        },
{
    let mut individual: Vec<(String, String)> = Vec::new();
    let mut k: usize = 0;
    while k < state.len()
        invariant
            k <= state.len(),
            individual@.len() == k,
            forall|j: int|
                0 <= j < k ==> (#[trigger] individual@[j]).0@ == state@[j].0@ && individual@[j].1@
                    == state@[j].1.version@,
        decreases state.len() - k,
    {
        individual.push((state[k].0.clone(), state[k].1.version.clone()));
        k = k + 1;
    }
    let pack_ids = match pack {
        Some(p) => {
            let v = clone_strings(p.minimal_mods.as_slice());
            assert(seg_views(v@) =~= seg_views(p.minimal_mods@));
            v
        },
        None => Vec::new(),
    };
    InstalledModsInfo { individual, pack_ids }
}

/// All files of a mods state, entry after entry.
pub open spec fn state_files(state: Seq<(String, InstalledMod)>) -> Seq<Seq<char>>
    decreases state.len(),
{
    if state.len() == 0 {
        Seq::<Seq<char>>::empty()
    } else {
        state_files(state.drop_last()) + seg_views(state.last().1.files@)
    }
}

fn append_strings(r: &mut Vec<String>, more: &Vec<String>)
    ensures
        seg_views(final(r)@) == seg_views(old(r)@) + seg_views(more@),
{
    let mut q: usize = 0;
    while q < more.len()
        invariant
            q <= more.len(),
            seg_views(r@) == seg_views(old(r)@) + seg_views(more@).take(q as int),
        decreases more.len() - q,
    {
        let ghost prev = r@;
        r.push(more[q].clone());
        assert(seg_views(r@) =~= seg_views(prev).push(more@[q as int]@));
        assert(seg_views(more@).take((q + 1) as int) =~= seg_views(more@).take(q as int).push(
            more@[q as int]@,
        ));
        q = q + 1;
    }
    assert(seg_views(more@).take(more.len() as int) == seg_views(more@));
}

/// All files the launcher tracks in the mods folder: those of each state entry, then those of
/// the official pack.
pub fn tracked_files(state: &Vec<(String, InstalledMod)>, pack_files: &Vec<String>) -> (r: Vec<String>)
    ensures
        seg_views(r@) == state_files(state@) + seg_views(pack_files@),
{
    let mut r: Vec<String> = Vec::new();
    let mut k: usize = 0;
    while k < state.len()
        invariant
            k <= state.len(),
            seg_views(r@) == state_files(state@.take(k as int)),
        decreases state.len() - k,
    {
        append_strings(&mut r, &state[k].1.files);
        assert(state@.take((k + 1) as int).drop_last() == state@.take(k as int));
        assert(state@.take((k + 1) as int).last() == state@[k as int]);
        k = k + 1;
    }
    assert(state@.take(state.len() as int) == state@);
    append_strings(&mut r, pack_files);
    r
}

/// The official pack as the version endpoint announces it.
#[derive(Debug, Clone)]
pub struct OfficialPackResponse {
    pub success: bool,
    pub version: String,
    pub name: String,
    pub download_url: String,
    pub file_size: u64,
    pub changelog: Vec<String>,
    pub minimal_mods: Vec<String>,
}

/// The official pack as the launcher shows it.
#[derive(Debug, Clone)]
pub struct OfficialPackInfo {
    pub version: String,
    pub name: String,
    pub download_url: String,
    pub file_size: u64,
    pub changelog: Vec<String>,
    pub minimal_mods: Vec<String>,
}

/// The pack offered by a (successful) answer of the version endpoint, with its fields; none
/// when the answer says it did not succeed.
pub fn official_pack_info(resp: OfficialPackResponse) -> (r: Option<OfficialPackInfo>)
    ensures
        r is Some <==> resp.success,
        r matches Some(p) ==> p.version == resp.version && p.name == resp.name && p.download_url
            == resp.download_url && p.file_size == resp.file_size && p.changelog == resp.changelog
            && p.minimal_mods == resp.minimal_mods,
{
    if !resp.success {
        return None;
    }
    Some(
        OfficialPackInfo {
            version: resp.version,
            name: resp.name,
            download_url: resp.download_url,
            file_size: resp.file_size,
            changelog: resp.changelog,
            minimal_mods: resp.minimal_mods,
        },
    )
}

// ---------------------------------------------------------------------------------------------
// What is left on disk
// ---------------------------------------------------------------------------------------------

/// The files of `files` whose flag in `present` is set, in order.
pub open spec fn kept_files(files: Seq<String>, present: Seq<bool>) -> Seq<Seq<char>>
    decreases files.len(),
{
    if files.len() == 0 {
        Seq::<Seq<char>>::empty()
    } else if present[files.len() - 1] {
        kept_files(files.drop_last(), present.take(files.len() - 1)).push(files.last()@)
    } else {
        kept_files(files.drop_last(), present.take(files.len() - 1))
    }
}

/// The recorded files of a mod that are still in the mods folder (`present[i]` tells whether
/// `files[i]` is there).
pub fn existing_files(files: &Vec<String>, present: &Vec<bool>) -> (r: Vec<String>)
    requires
        present.len() == files.len(),
    ensures
        seg_views(r@) == kept_files(files@, present@),
{
    let mut r: Vec<String> = Vec::new();
    let mut i: usize = 0;
    while i < files.len()
        invariant
            i <= files.len(),
            present.len() == files.len(),
            seg_views(r@) == kept_files(files@.take(i as int), present@.take(i as int)),
        decreases files.len() - i,
    {
        let ghost before = r@;
        assert(files@.take((i + 1) as int).drop_last() == files@.take(i as int));
        assert(present@.take((i + 1) as int).take(i as int) == present@.take(i as int));
        if present[i] {
            r.push(files[i].clone());
            assert(seg_views(r@) =~= seg_views(before).push(files@[i as int]@));
        }
        i = i + 1;
    }
    assert(files@.take(files.len() as int) == files@);
    assert(present@.take(files.len() as int) == present@);
    r
}

/// `e` is an entry of `state` with only the files that `present` marks, none of them missing.
pub open spec fn pruned_from(
    e: (String, InstalledMod),
    state: Seq<(String, InstalledMod)>,
    present: Seq<Vec<bool>>,
) -> bool {
    exists|i: int|
        0 <= i < state.len() && e.0@ == (#[trigger] state[i]).0@ && seg_views(e.1.files@)
            == kept_files(state[i].1.files@, present[i]@) && e.1.files.len() > 0 && e.1.version@
            == state[i].1.version@
}

/// The recorded mods as they are on disk: each keeps the files still present, and a mod with
/// none left is dropped, so the state reflects the folder rather than old bookkeeping.
pub fn prune_state(state: Vec<(String, InstalledMod)>, present: &Vec<Vec<bool>>) -> (r: Vec<
    (String, InstalledMod),
>)
    requires
        present.len() == state.len(),
        forall|i: int| 0 <= i < state.len() ==> (#[trigger] present@[i]).len() == state@[i].1.files.len(),
    ensures
        r.len() <= state.len(),
        forall|k: int| 0 <= k < r.len() ==> pruned_from(#[trigger] r@[k], state@, present@),
        forall|i: int|
            0 <= i < state.len() && kept_files((#[trigger] state@[i]).1.files@, present@[i]@).len() > 0
                ==> exists|k: int| 0 <= k < r.len() && (#[trigger] r@[k]).0@ == state@[i].0@,
{
    let mut r: Vec<(String, InstalledMod)> = Vec::new();
    let mut i: usize = 0;
    while i < state.len()
        invariant
            i <= state.len(),
            present.len() == state.len(),
            forall|j: int| 0 <= j < state.len() ==> (#[trigger] present@[j]).len() == state@[j].1.files.len(),
            r.len() <= i,
            forall|k: int| 0 <= k < r.len() ==> pruned_from(#[trigger] r@[k], state@, present@),
            forall|j: int|
                0 <= j < i && kept_files((#[trigger] state@[j]).1.files@, present@[j]@).len() > 0
                    ==> exists|k: int| 0 <= k < r.len() && (#[trigger] r@[k]).0@ == state@[j].0@,
        decreases state.len() - i,
    {
        let files = existing_files(&state[i].1.files, &present[i]);
        if files.len() > 0 {
            let ghost before = r@;
            r.push((state[i].0.clone(), InstalledMod { files, version: state[i].1.version.clone() }));
            proof {
                let k = r@.len() - 1;
                assert(r@[k].0@ == state@[i as int].0@);
                assert forall|kk: int| 0 <= kk < r.len() implies pruned_from(
                    #[trigger] r@[kk],
                    state@,
                    present@,
                ) by {
                    if kk < k {
                        assert(r@[kk] == before[kk]);
                    } else {
                        assert(r@[kk].0@ == state@[i as int].0@);
                        assert(seg_views(r@[kk].1.files@) == kept_files(
                            state@[i as int].1.files@,
                            present@[i as int]@,
                        ));
                    }
                }
                assert forall|j: int|
                    0 <= j < i + 1 && kept_files((#[trigger] state@[j]).1.files@, present@[j]@).len() > 0
                        implies exists|kk: int| 0 <= kk < r.len() && (#[trigger] r@[kk]).0@ == state@[j].0@ by {
                    if j < i {
                        let kk = choose|kk: int| 0 <= kk < before.len() && (#[trigger] before[kk]).0@ == state@[j].0@;
                        assert(r@[kk] == before[kk]);
                    } else {
                        assert(r@[k].0@ == state@[j].0@);
                    }
                }
            }
        }
        i = i + 1;
    }
    r
}

/// The installed pack counts as installed only while at least one of its files is still there.
pub fn pack_still_installed(state: OfficialPackState, present: &Vec<bool>) -> (r: Option<OfficialPackState>)
    ensures
        (exists|i: int| 0 <= i < present.len() && present@[i]) ==> r == Some(state),
        !(exists|i: int| 0 <= i < present.len() && present@[i]) ==> r is None,
{
    let mut i: usize = 0;
    while i < present.len()
        invariant
            i <= present.len(),
            forall|j: int| 0 <= j < i ==> !present@[j],
        decreases present.len() - i,
    {
        if present[i] {
            return Some(state);
        }
        i = i + 1;
    }
    None
}

pub const MOD_DELETE_FAILED: &'static str = "Не удалось удалить один или несколько файлов мода — возможно, игра ещё запущена или файл занят другой программой";

pub const PACK_DELETE_FAILED: &'static str = "Не удалось удалить один или несколько файлов сборки — возможно, игра ещё запущена или файл занят другой программой";

pub const IMPORT_CODE_NOT_FOUND: &'static str = "Код не найден или истёк";

/// The error for a failed import-code request: `404` means the code is unknown or expired.
pub fn import_code_failure(code: u16, status: &str) -> (m: String)
    ensures
        code == 404 ==> m@ == IMPORT_CODE_NOT_FOUND@,
        code != 404 ==> m@ == "Не удалось загрузить сборку"@ + " ("@ + status@ + ")"@,
{
    if code == 404 {
        IMPORT_CODE_NOT_FOUND.to_owned()
    } else {
        crate::net::status_message("Не удалось загрузить сборку", status)
    }
}

/// How many times the pack download is tried: it bundles many mods and may outlast one timeout.
pub const PACK_DOWNLOAD_ATTEMPTS: u32 = 3;

pub open spec fn pack_failure_text(last_error: Seq<char>) -> Seq<char> {
    "Не удалось скачать сборку после "@ + crate::text::decimal(PACK_DOWNLOAD_ATTEMPTS as nat)
        + " попыток: "@ + last_error
}

/// What follows a try at downloading the pack.
#[derive(Debug)]
pub enum PackDownloadStep {
    /// The archive arrived.
    Got(Vec<u8>),
    /// Wait, then try again with this attempt number.
    Retry { attempt: u32 },
    /// Stop with this error.
    GiveUp { message: String },
}

/// Decides what follows attempt `attempt` (counted from 1) of downloading the pack.
pub fn after_pack_download(attempt: u32, outcome: Result<Vec<u8>, String>) -> (step: PackDownloadStep)
    requires
        1 <= attempt <= PACK_DOWNLOAD_ATTEMPTS,
    ensures
        outcome matches Ok(b) ==> (step matches PackDownloadStep::Got(g) && g@ == b@),
        outcome matches Err(e) ==> if attempt < PACK_DOWNLOAD_ATTEMPTS {
            step matches PackDownloadStep::Retry { attempt: a } && a == attempt + 1
        } else {
            step matches PackDownloadStep::GiveUp { message } && message@ == pack_failure_text(e@)
        },
{
    match outcome {
        Ok(b) => PackDownloadStep::Got(b),
        Err(e) => {
            if attempt < PACK_DOWNLOAD_ATTEMPTS {
                PackDownloadStep::Retry { attempt: attempt + 1 }
            } else {
                let mut v = crate::text::chars_of("Не удалось скачать сборку после ");
                let d = crate::text::u64_text(PACK_DOWNLOAD_ATTEMPTS as u64);
                crate::text::extend_chars(&mut v, d.as_slice());
                crate::text::extend_str(&mut v, " попыток: ");
                crate::text::extend_str(&mut v, e.as_str());
                PackDownloadStep::GiveUp { message: crate::text::string_of(v.as_slice()) }
            }
        },
    }
}

/// The files removed after a new pack version is extracted are exactly the previous version's
/// files that the new one does not have: nothing the new version wrote is removed, and nothing
/// it dropped is left behind.
pub proof fn stale_files_are_the_dropped_ones(prev: Seq<String>, new_files: Seq<String>, x: Seq<char>)
    ensures
        stale(prev, new_files).contains(x) <==> (in_views(prev, x) && !in_views(new_files, x)),
    decreases prev.len(),
{
    if prev.len() > 0 {
        let p = prev.drop_last();
        let l = prev.last()@;
        let sp = stale(p, new_files);
        stale_files_are_the_dropped_ones(p, new_files, x);
        assert(in_views(prev, x) <==> (in_views(p, x) || l == x)) by {
            if in_views(prev, x) {
                let i = choose|i: int| 0 <= i < prev.len() && (#[trigger] prev[i])@ == x;
                if i < prev.len() - 1 {
                    assert(p[i]@ == x);
                }
            }
            if in_views(p, x) {
                let i = choose|i: int| 0 <= i < p.len() && (#[trigger] p[i])@ == x;
                assert(prev[i]@ == x);
            }
            if l == x {
                assert(prev[prev.len() - 1]@ == x);
            }
        }
        if !in_views(new_files, l) {
            assert(sp.push(l).contains(x) <==> (sp.contains(x) || x == l)) by {
                if sp.push(l).contains(x) {
                    let i = choose|i: int| 0 <= i < sp.push(l).len() && sp.push(l)[i] == x;
                    if i < sp.len() {
                        assert(sp[i] == x);
                    }
                }
                if sp.contains(x) {
                    let i = choose|i: int| 0 <= i < sp.len() && sp[i] == x;
                    assert(sp.push(l)[i] == x);
                }
                if x == l {
                    assert(sp.push(l)[sp.len() as int] == l);
                }
            }
        }
    }
}

} // verus!
