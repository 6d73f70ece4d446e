use vstd::prelude::*;

use crate::order::{
    lemma_lt_irreflexive, lemma_lt_total, lemma_lt_transitive, lemma_sorted_unique, seq_lt, str_less,
    strictly_sorted,
};
use crate::text::{contains_pattern, contains_seq, lower_of, to_lower};

verus! {

/// A directory entry that passed the executability test and has a text name.
pub struct Candidate {
    /// The entry's full path.
    pub path: String,
    /// The entry's file name.
    pub name: String,
    /// Whether the similarity score of the lower-cased name against the
    /// lower-cased pattern reached the threshold.
    pub similar: bool,
}

/// The match rule: the lower-cased name holds the lower-cased pattern, or the
/// similarity test succeeded.
pub open spec fn entry_matches(name: Seq<char>, pattern_lower: Seq<char>, similar: bool) -> bool {
    contains_seq(lower_of(name), pattern_lower) || similar
}

pub open spec fn paths_view(v: Seq<String>) -> Seq<Seq<char>> {
    v.map_values(|s: String| s@)
}

/// The paths of the matching entries of one directory, in listing order.
pub open spec fn local_matches(es: Seq<Candidate>, pattern_lower: Seq<char>) -> Seq<Seq<char>>
    decreases es.len(),
{
    if es.len() == 0 {
        seq![]
    } else {
        let rest = local_matches(es.drop_last(), pattern_lower);
        let c = es.last();
        if entry_matches(c.name@, pattern_lower, c.similar) {
            rest.push(c.path@)
        } else {
            rest
        }
    }
}

/// Every path held by one of the collections.
pub open spec fn all_paths(locals: Seq<Vec<String>>) -> Set<Seq<char>> {
    Set::new(
        |p: Seq<char>|
            exists|d: int, k: int|
                0 <= d < locals.len() && 0 <= k < locals[d]@.len() && #[trigger] locals[d]@[k]@
                    == p,
    )
}

/// The paths of all matching entries over all listings.
pub open spec fn matched_paths(listings: Seq<Vec<Candidate>>, pattern_lower: Seq<char>) -> Set<
    Seq<char>,
> {
    Set::new(
        |p: Seq<char>|
            exists|d: int, k: int|
                0 <= d < listings.len() && 0 <= k < listings[d]@.len() && #[trigger] listings[d]@[k].path@
                    == p && entry_matches(
                    listings[d]@[k].name@,
                    pattern_lower,
                    listings[d]@[k].similar,
                ),
    )
}

/// A path stands in a directory's matches exactly when a matching entry has it.
pub proof fn lemma_local_matches_member(es: Seq<Candidate>, pattern_lower: Seq<char>, p: Seq<char>)
    ensures
        local_matches(es, pattern_lower).contains(p) <==> exists|k: int|
            0 <= k < es.len() && #[trigger] es[k].path@ == p && entry_matches(
                es[k].name@,
                pattern_lower,
                es[k].similar,
            ),
    decreases es.len(),
{
    if es.len() > 0 {
        let init = es.drop_last();
        lemma_local_matches_member(init, pattern_lower, p);
        let rest = local_matches(init, pattern_lower);
        let c = es.last();
        if local_matches(es, pattern_lower).contains(p) {
            if rest.contains(p) {
                let k = choose|k: int|
                    0 <= k < init.len() && #[trigger] init[k].path@ == p && entry_matches(
                        init[k].name@,
                        pattern_lower,
                        init[k].similar,
                    );
                assert(es[k] == init[k]);
            } else {
                let i = choose|i: int| 0 <= i < rest.push(c.path@).len() && rest.push(c.path@)[i] == p;
                assert(rest.push(c.path@)[i] == p);
                if i < rest.len() {
                    assert(rest[i] == p);
                }
                assert(es[es.len() - 1].path@ == p);
            }
        }
        if exists|k: int|
            0 <= k < es.len() && #[trigger] es[k].path@ == p && entry_matches(
                es[k].name@,
                pattern_lower,
                es[k].similar,
            ) {
            let k = choose|k: int|
                0 <= k < es.len() && #[trigger] es[k].path@ == p && entry_matches(
                    es[k].name@,
                    pattern_lower,
                    es[k].similar,
                );
            if k < es.len() - 1 {
                assert(init[k] == es[k]);
                assert(rest.contains(p));
                let i = choose|i: int| 0 <= i < rest.len() && rest[i] == p;
                assert(rest.push(c.path@)[i] == p);
            } else {
                assert(rest.push(c.path@)[rest.len() as int] == p);
            }
        }
    }
}

/// Filters one directory's listing: the paths of the entries that match, in
/// listing order.
pub fn scan_directory(entries: &Vec<Candidate>, pattern_lower: &str) -> (r: Vec<String>)
    ensures
        paths_view(r@) == local_matches(entries@, pattern_lower@),
{
    let mut r: Vec<String> = Vec::new();
    let n = entries.len();
    let mut i: usize = 0;
    while i < n
        invariant
            n == entries@.len(),
            i <= n,
            paths_view(r@) == local_matches(entries@.subrange(0, i as int), pattern_lower@),
        decreases n - i,
    {
        let c = &entries[i];
        proof {
            assert(entries@.subrange(0, i + 1).drop_last() =~= entries@.subrange(0, i as int));
            assert(entries@.subrange(0, i + 1).last() == entries@[i as int]);
        }
        if contains_pattern(c.name.as_str(), pattern_lower) || c.similar {
            r.push(c.path.clone());
            assert(paths_view(r@) =~= local_matches(entries@.subrange(0, i + 1), pattern_lower@));
        }
        i = i + 1;
    }
    assert(entries@.subrange(0, n as int) =~= entries@);
    r
}

proof fn lemma_insert_keeps_sorted(v: Seq<Seq<char>>, k: int, s: Seq<char>)
    requires
        strictly_sorted(v),
        0 <= k <= v.len(),
        forall|m: int| 0 <= m < k ==> seq_lt(#[trigger] v[m], s),
        k < v.len() ==> seq_lt(s, v[k]),
    ensures
        strictly_sorted(v.insert(k, s)),
{
    let w = v.insert(k, s);
    assert forall|j: int| k < j < w.len() implies seq_lt(s, #[trigger] w[j]) by {
        if j - 1 > k {
            lemma_lt_transitive(s, v[k], v[j - 1]);
        }
    }
    assert forall|i: int, j: int| 0 <= i < j < w.len() implies seq_lt(
        #[trigger] w[i],
        #[trigger] w[j],
    ) by {
        if j < k {
            assert(w[i] == v[i] && w[j] == v[j]);
        } else if i < k && j == k {
        } else if i < k && j > k {
            assert(seq_lt(v[i], v[j - 1]));
        } else if i == k {
            assert(seq_lt(s, w[j]));
        } else {
            assert(w[i] == v[i - 1]);
            assert(w[j] == v[j - 1]);
        }
    }
}

/// Adds `s` to the strictly sorted `r` unless it is already there.
fn insert_sorted(r: &mut Vec<String>, s: &String)
    requires
        strictly_sorted(paths_view(old(r)@)),
    ensures
        strictly_sorted(paths_view(final(r)@)),
        paths_view(final(r)@).to_set() == paths_view(old(r)@).to_set().insert(s@),
{
    let ghost v = paths_view(r@);
    let n = r.len();
    let mut k: usize = 0;
    let mut stop = false;
    while !stop && k < n
        invariant
            n == r@.len(),
            v == paths_view(r@),
            k <= n,
            forall|m: int| 0 <= m < k ==> seq_lt(#[trigger] v[m], s@),
            stop ==> k < n && !seq_lt(v[k as int], s@),
        decreases n - k + (if stop {
            0int
        } else {
            1int
        }),
    {
        if str_less(r[k].as_str(), s.as_str()) {
            k = k + 1;
        } else {
            stop = true;
        }
    }
    if k < n && r[k] == *s {
        assert(v.to_set().insert(s@) =~= v.to_set()) by {
            assert(v[k as int] == s@);
        }
        return;
    }
    proof {
        if k < n {
            lemma_lt_total(s@, v[k as int]);
        }
        lemma_insert_keeps_sorted(v, k as int, s@);
    }
    r.insert(k, s.clone());
    proof {
        let w = paths_view(r@);
        assert(w =~= v.insert(k as int, s@));
        assert forall|p: Seq<char>| w.to_set().contains(p) <==> v.to_set().insert(s@).contains(p) by {
            if w.to_set().contains(p) {
                let i = choose|i: int| 0 <= i < w.len() && w[i] == p;
                if i < k {
                    assert(v[i] == p);
                } else if i > k {
                    assert(v[i - 1] == p);
                }
            }
            if v.to_set().contains(p) {
                let i = choose|i: int| 0 <= i < v.len() && v[i] == p;
                if i < k {
                    assert(w[i] == p);
                } else {
                    assert(w[i + 1] == p);
                }
            }
            if p == s@ {
                assert(w[k as int] == p);
            }
        }
        assert(w.to_set() =~= v.to_set().insert(s@));
    }
}

/// The paths of the first `d` collections and the first `k` of collection `d`.
spec fn paths_upto(locals: Seq<Vec<String>>, d: int, k: int) -> Set<Seq<char>> {
    Set::new(
        |p: Seq<char>|
            exists|e: int, m: int|
                0 <= e < locals.len() && 0 <= m < locals[e]@.len() && (e < d || (e == d && m < k))
                    && #[trigger] locals[e]@[m]@ == p,
    )
}

/// Combines per-directory results into one strictly sorted sequence: every path
/// once, in ascending lexicographic order, whatever order the inputs came in.
pub fn merge_matches(locals: &Vec<Vec<String>>) -> (r: Vec<String>)
    ensures
        strictly_sorted(paths_view(r@)),
        paths_view(r@).to_set() == all_paths(locals@),
{
    let mut r: Vec<String> = Vec::new();
    let nd = locals.len();
    let mut d: usize = 0;
    assert(paths_view(r@).to_set() =~= paths_upto(locals@, 0, 0));
    while d < nd
        invariant
            nd == locals@.len(),
            d <= nd,
            strictly_sorted(paths_view(r@)),
            paths_view(r@).to_set() == paths_upto(locals@, d as int, 0),
        decreases nd - d,
    {
        let local = &locals[d];
        let nk = local.len();
        let mut k: usize = 0;
        while k < nk
            invariant
                nd == locals@.len(),
                d < nd,
                local == locals@[d as int],
                nk == local@.len(),
                k <= nk,
                strictly_sorted(paths_view(r@)),
                paths_view(r@).to_set() == paths_upto(locals@, d as int, k as int),
            decreases nk - k,
        {
            insert_sorted(&mut r, &local[k]);
            proof {
                let a = paths_upto(locals@, d as int, k as int);
                let b = paths_upto(locals@, d as int, k + 1);
                assert(locals@[d as int]@[k as int]@ == local@[k as int]@);
                assert forall|p: Seq<char>| b.contains(p) <==> a.insert(local@[k as int]@).contains(p) by {
                    if b.contains(p) {
                        let (e, m) = choose|e: int, m: int|
                            0 <= e < locals@.len() && 0 <= m < locals@[e]@.len() && (e < d || (e
                                == d && m < k + 1)) && #[trigger] locals@[e]@[m]@ == p;
                        if !(e == d && m == k) {
                            assert(a.contains(p));
                        }
                    }
                    if a.contains(p) {
                        let (e, m) = choose|e: int, m: int|
                            0 <= e < locals@.len() && 0 <= m < locals@[e]@.len() && (e < d || (e
                                == d && m < k)) && #[trigger] locals@[e]@[m]@ == p;
                        assert(b.contains(p));
                    }
                }
                assert(b =~= a.insert(local@[k as int]@));
            }
            k = k + 1;
        }
        proof {
            let a = paths_upto(locals@, d as int, nk as int);
            let b = paths_upto(locals@, d + 1, 0);
            assert forall|p: Seq<char>| a.contains(p) <==> b.contains(p) by {
                if a.contains(p) {
                    let (e, m) = choose|e: int, m: int|
                        0 <= e < locals@.len() && 0 <= m < locals@[e]@.len() && (e < d || (e == d
                            && m < nk)) && #[trigger] locals@[e]@[m]@ == p;
                    assert(b.contains(p));
                }
                if b.contains(p) {
                    let (e, m) = choose|e: int, m: int|
                        0 <= e < locals@.len() && 0 <= m < locals@[e]@.len() && (e < d + 1 || (e
                            == d + 1 && m < 0)) && #[trigger] locals@[e]@[m]@ == p;
                    assert(a.contains(p));
                }
            }
            assert(a =~= b);
        }
        d = d + 1;
    }
    proof {
        let a = paths_upto(locals@, nd as int, 0);
        let b = all_paths(locals@);
        assert forall|p: Seq<char>| a.contains(p) <==> b.contains(p) by {
            if b.contains(p) {
                let (e, m) = choose|e: int, m: int|
                    0 <= e < locals@.len() && 0 <= m < locals@[e]@.len() && #[trigger] locals@[e]@[m]@ == p;
                assert(a.contains(p));
            }
        }
        assert(a =~= b);
    }
    r
}

/// `r` is what a scan of `listings` for `pattern_lower` produces: the matching
/// paths, each once, in ascending order.
pub open spec fn is_scan_result(
    listings: Seq<Vec<Candidate>>,
    pattern_lower: Seq<char>,
    r: Seq<Seq<char>>,
) -> bool {
    strictly_sorted(r) && r.to_set() == matched_paths(listings, pattern_lower)
}

/// Finds the entries of the listings whose name matches `pattern`: those whose
/// lower-cased name holds the lower-cased pattern, and those marked similar.
/// Each directory is filtered on its own, then the results are merged.
pub fn find_executables(listings: &Vec<Vec<Candidate>>, pattern: &str) -> (r: Vec<String>)
    ensures
        is_scan_result(listings@, lower_of(pattern@), paths_view(r@)),
{
    let pattern_lower = to_lower(pattern);
    let ghost pl = pattern_lower@;
    let mut locals: Vec<Vec<String>> = Vec::new();
    let n = listings.len();
    let mut d: usize = 0;
    while d < n
        invariant
            n == listings@.len(),
            d <= n,
            pl == pattern_lower@,
            locals@.len() == d,
            forall|e: int| 0 <= e < d ==> paths_view(#[trigger] locals@[e]@) == local_matches(listings@[e]@, pl),
        decreases n - d,
    {
        let local = scan_directory(&listings[d], pattern_lower.as_str());
        locals.push(local);
        d = d + 1;
    }
    let r = merge_matches(&locals);
    proof {
        let a = all_paths(locals@);
        let b = matched_paths(listings@, pl);
        assert forall|p: Seq<char>| a.contains(p) <==> b.contains(p) by {
            if a.contains(p) {
                let (e, m) = choose|e: int, m: int|
                    0 <= e < locals@.len() && 0 <= m < locals@[e]@.len() && #[trigger] locals@[e]@[m]@ == p;
                assert(paths_view(locals@[e]@)[m] == p);
                lemma_local_matches_member(listings@[e]@, pl, p);
                let k = choose|k: int|
                    0 <= k < listings@[e]@.len() && #[trigger] listings@[e]@[k].path@ == p && entry_matches(
                        listings@[e]@[k].name@,
                        pl,
                        listings@[e]@[k].similar,
                    );
                assert(b.contains(p));
            }
            if b.contains(p) {
                let (e, k) = choose|e: int, k: int|
                    0 <= e < listings@.len() && 0 <= k < listings@[e]@.len() && #[trigger] listings@[e]@[k].path@
                        == p && entry_matches(
                        listings@[e]@[k].name@,
                        pl,
                        listings@[e]@[k].similar,
                    );
                lemma_local_matches_member(listings@[e]@, pl, p);
                let v = paths_view(locals@[e]@);
                assert(v.contains(p));
                let m = choose|m: int| 0 <= m < v.len() && v[m] == p;
                assert(locals@[e]@[m]@ == p);
                assert(a.contains(p));
            }
        }
        assert(a =~= b);
    }
    r
}

/// A scan is deterministic: two results for listings with the same matching
/// paths are identical, element for element and in the same order, whatever
/// order the directories were listed or scanned in.
pub proof fn lemma_scan_deterministic(
    l1: Seq<Vec<Candidate>>,
    l2: Seq<Vec<Candidate>>,
    pattern_lower: Seq<char>,
    r1: Seq<Seq<char>>,
    r2: Seq<Seq<char>>,
)
    requires
        matched_paths(l1, pattern_lower) == matched_paths(l2, pattern_lower),
        is_scan_result(l1, pattern_lower, r1),
        is_scan_result(l2, pattern_lower, r2),
    ensures
        r1 == r2,
{
    lemma_sorted_unique(r1, r2);
}

/// A scan result holds no path twice.
pub proof fn lemma_scan_no_duplicates(
    listings: Seq<Vec<Candidate>>,
    pattern_lower: Seq<char>,
    r: Seq<Seq<char>>,
)
    requires
        is_scan_result(listings, pattern_lower, r),
    ensures
        r.no_duplicates(),
{
    assert forall|i: int, j: int| 0 <= i < r.len() && 0 <= j < r.len() && i != j implies r[i]
        != r[j] by {
        if i < j {
            assert(seq_lt(r[i], r[j]));
        } else {
            assert(seq_lt(r[j], r[i]));
        }
        lemma_lt_irreflexive(r[i]);
    }
}

/// An entry whose lower-cased name holds the lower-cased pattern is in every
/// scan result, whatever its similarity.
pub proof fn lemma_substring_included(
    listings: Seq<Vec<Candidate>>,
    pattern_lower: Seq<char>,
    r: Seq<Seq<char>>,
    d: int,
    k: int,
)
    requires
        is_scan_result(listings, pattern_lower, r),
        0 <= d < listings.len(),
        0 <= k < listings[d]@.len(),
        contains_seq(lower_of(listings[d]@[k].name@), pattern_lower),
    ensures
        r.contains(listings[d]@[k].path@),
{
    assert(matched_paths(listings, pattern_lower).contains(listings[d]@[k].path@));
    assert(r.to_set().contains(listings[d]@[k].path@));
}

/// An entry whose lower-cased name does not hold the lower-cased pattern is in
/// a scan result exactly when it was found similar, given that entries with the
/// same path carry the same name and verdict (as a directory listed twice does).
pub proof fn lemma_similarity_decides(
    listings: Seq<Vec<Candidate>>,
    pattern_lower: Seq<char>,
    r: Seq<Seq<char>>,
    d: int,
    k: int,
)
    requires
        is_scan_result(listings, pattern_lower, r),
        0 <= d < listings.len(),
        0 <= k < listings[d]@.len(),
        !contains_seq(lower_of(listings[d]@[k].name@), pattern_lower),
        forall|e: int, m: int|
            0 <= e < listings.len() && 0 <= m < listings[e]@.len() && #[trigger] listings[e]@[m].path@
                == listings[d]@[k].path@ ==> listings[e]@[m].name@ == listings[d]@[k].name@
                && listings[e]@[m].similar == listings[d]@[k].similar,
    ensures
        r.contains(listings[d]@[k].path@) == listings[d]@[k].similar,
{
    let p = listings[d]@[k].path@;
    if listings[d]@[k].similar {
        assert(matched_paths(listings, pattern_lower).contains(p));
        assert(r.to_set().contains(p));
    }
    if r.contains(p) {
        assert(r.to_set().contains(p));
        assert(matched_paths(listings, pattern_lower).contains(p));
        let (e, m) = choose|e: int, m: int|
            0 <= e < listings.len() && 0 <= m < listings[e]@.len() && #[trigger] listings[e]@[m].path@
                == p && entry_matches(listings[e]@[m].name@, pattern_lower, listings[e]@[m].similar);
        assert(listings[e]@[m].name@ == listings[d]@[k].name@);
    }
}

} // verus!
