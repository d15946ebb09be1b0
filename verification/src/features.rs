//! Cargo feature analysis: what each feature enables directly and
//! transitively, which optional dependencies it pulls in, and which features
//! enable it.

use vstd::prelude::*;
use crate::order::{contains_text, copy_strings, insert_sorted_unique, key_view, key_views, sort_by_keys, sort_texts, stably_sorted, strictly_sorted, strs, text_key, SortKey, sorts};
use crate::render::opt_view;
use crate::text::{append_chars, chars_eq, chars_of, copy_range, has_prefix, string_of};

verus! {

/// A feature table: each feature's name and the entries it lists
/// (`"dep:x"`, `"x/feat"`, `"x?/feat"` or another feature's name). Like a
/// map, it holds each name once: the functions that read one as a map ask
/// for `names_unique`.
pub type FeatureTable = Vec<(String, Vec<String>)>;

/// A feature table as text: each feature's name and its entries.
pub type TableView = Seq<(Seq<char>, Seq<Seq<char>>)>;

/// The view of a feature table.
pub open spec fn table_view(fs: Seq<(String, Vec<String>)>) -> TableView {
    Seq::new(fs.len(), |i: int| (fs[i].0@, strs(fs[i].1@)))
}

/// The name of the feature at position `i`.
pub open spec fn fname(fs: TableView, i: int) -> Seq<char> {
    fs[i].0
}

/// The entries of the feature at position `i`.
pub open spec fn fentries(fs: TableView, i: int) -> Seq<Seq<char>> {
    fs[i].1
}

/// Position of the first feature named `k` at or after `i`.
pub open spec fn fpos_from(fs: TableView, k: Seq<char>, i: nat) -> Option<nat>
    decreases fs.len() - i,
{
    if i >= fs.len() {
        None
    } else if fname(fs, i as int) == k {
        Some(i)
    } else {
        fpos_from(fs, k, i + 1)
    }
}

/// Position of the feature named `k`.
pub open spec fn fpos(fs: TableView, k: Seq<char>) -> Option<nat> {
    fpos_from(fs, k, 0)
}

proof fn lemma_fpos_from(fs: TableView, k: Seq<char>, i: nat)
    ensures
        fpos_from(fs, k, i) matches Some(p) ==> i <= p < fs.len() && fname(fs, p as int) == k,
        fpos_from(fs, k, i) is None ==> forall|j: int| i <= j < fs.len() ==> fname(fs, j) != k,
    decreases fs.len() - i,
{
    if i < fs.len() && fname(fs, i as int) != k {
        lemma_fpos_from(fs, k, i + 1);
    }
}

/// Position of the feature named `k`, if any.
pub fn feature_position(fs: &FeatureTable, k: &str) -> (r: Option<usize>)
    ensures
        (match r {
            Some(p) => Some(p as nat),
            None => None,
        }) == fpos(table_view(fs@), k@),
        r matches Some(p) ==> p < fs@.len() && fname(table_view(fs@), p as int) == k@,
{
    let kv = chars_of(k);
    let ghost t = table_view(fs@);
    let mut i: usize = 0;
    while i < fs.len()
        invariant
            i <= fs@.len(),
            kv@ == k@,
            t == table_view(fs@),
            fpos(t, k@) == fpos_from(t, k@, i as nat),
        decreases fs@.len() - i,
    {
        let name = chars_of(fs[i].0.as_str());
        if chars_eq(&name, &kv) {
            return Some(i);
        }
        i += 1;
    }
    None
}

/// The feature at `b` is enabled by an entry of the feature at `a` (an
/// entry naming it, whose first feature of that name is `b`).
pub open spec fn fedge(fs: TableView, a: int, b: int) -> bool {
    &&& 0 <= a < fs.len()
    &&& 0 <= b < fs.len()
    &&& fentries(fs, a).contains(fname(fs, b))
    &&& fpos(fs, fname(fs, b)) == Some(b as nat)
}

/// A chain of feature positions, each enabling the next.
pub open spec fn fpath(fs: TableView, path: Seq<int>) -> bool {
    &&& path.len() > 0
    &&& forall|i: int| 0 <= i < path.len() ==> 0 <= #[trigger] path[i] < fs.len()
    &&& forall|i: int| 0 <= i < path.len() - 1 ==> fedge(fs, #[trigger] path[i], path[i + 1])
}

/// The feature at `p` is reached from the feature named `f`.
pub open spec fn freach(fs: TableView, f: Seq<char>, p: int) -> bool {
    exists|path: Seq<int>|
        fpath(fs, path) && fpos(fs, f) == Some(path[0] as nat) && #[trigger] path.last() == p
}

/// The entries of every feature that the feature named `f` reaches, itself
/// included.
pub open spec fn reached_entries(fs: TableView, f: Seq<char>) -> Set<Seq<char>> {
    Set::new(|e: Seq<char>| exists|p: int| freach(fs, f, p) && #[trigger] fentries(fs, p).contains(e))
}

/// Everything the feature named `f` enables, directly or transitively,
/// without `f` itself.
pub open spec fn feature_closure_set(fs: TableView, f: Seq<char>) -> Set<Seq<char>> {
    Set::new(|e: Seq<char>| e != f && reached_entries(fs, f).contains(e))
}

/// Number of `true`s in `s`.
pub open spec fn count_true(s: Seq<bool>) -> nat
    decreases s.len(),
{
    if s.len() == 0 {
        0
    } else {
        count_true(s.drop_last()) + if s.last() {
            1nat
        } else {
            0nat
        }
    }
}

proof fn lemma_count_true_bound(s: Seq<bool>)
    ensures
        count_true(s) <= s.len(),
    decreases s.len(),
{
    if s.len() > 0 {
        lemma_count_true_bound(s.drop_last());
    }
}

proof fn lemma_count_true_set(s: Seq<bool>, i: int)
    requires
        0 <= i < s.len(),
        !s[i],
    ensures
        count_true(s.update(i, true)) == count_true(s) + 1,
    decreases s.len(),
{
    if i == s.len() - 1 {
        assert(s.update(i, true).drop_last() =~= s.drop_last());
    } else {
        lemma_count_true_set(s.drop_last(), i);
        assert(s.update(i, true).drop_last() =~= s.drop_last().update(i, true));
    }
}

/// A visited set closed under the enabling edges, holding the start, holds
/// every position reached from the start.
proof fn lemma_closed_holds_reach(
    fs: TableView,
    f: Seq<char>,
    visited: Seq<bool>,
    p: int,
)
    requires
        visited.len() == fs.len(),
        fpos(fs, f) matches Some(s) ==> visited[s as int],
        forall|a: int, b: int| 0 <= a < fs.len() && visited[a] && #[trigger] fedge(fs, a, b) ==> visited[b],
        freach(fs, f, p),
    ensures
        visited[p],
{
    let path = choose|path: Seq<int>| fpath(fs, path) && fpos(fs, f) == Some(path[0] as nat) && #[trigger] path.last() == p;
    assert forall|i: int| 0 <= i < path.len() implies visited[#[trigger] path[i]] by {
        lemma_path_visited(fs, visited, path, i);
    }
}

proof fn lemma_path_visited(fs: TableView, visited: Seq<bool>, path: Seq<int>, i: int)
    requires
        visited.len() == fs.len(),
        fpath(fs, path),
        visited[path[0]],
        forall|a: int, b: int| 0 <= a < fs.len() && visited[a] && #[trigger] fedge(fs, a, b) ==> visited[b],
        0 <= i < path.len(),
    ensures
        visited[path[i]],
    decreases i,
{
    if i > 0 {
        lemma_path_visited(fs, visited, path, i - 1);
        assert(fedge(fs, path[i - 1], path[i]));
    }
}

/// Extending a chain by an edge.
proof fn lemma_reach_step(fs: TableView, f: Seq<char>, a: int, b: int)
    requires
        freach(fs, f, a),
        fedge(fs, a, b),
    ensures
        freach(fs, f, b),
{
    let path = choose|path: Seq<int>| fpath(fs, path) && fpos(fs, f) == Some(path[0] as nat) && #[trigger] path.last() == a;
    let np = path.push(b);
    assert(np.last() == b);
    assert(np[0] == path[0]);
    assert forall|i: int| 0 <= i < np.len() - 1 implies fedge(fs, #[trigger] np[i], np[i + 1]) by {
        if i < path.len() - 1 {
            assert(np[i] == path[i] && np[i + 1] == path[i + 1]);
        } else {
            assert(np[i] == a);
        }
    }
    assert(fpath(fs, np));
}

proof fn lemma_count_true_zero(s: Seq<bool>)
    requires
        forall|i: int| 0 <= i < s.len() ==> !s[i],
    ensures
        count_true(s) == 0,
    decreases s.len(),
{
    if s.len() > 0 {
        lemma_count_true_zero(s.drop_last());
    }
}

/// Flags marking exactly the features reached from the feature named `f`.
fn reach_flags(fs: &FeatureTable, f: &str) -> (visited: Vec<bool>)
    ensures
        visited@.len() == fs@.len(),
        forall|p: int| 0 <= p < fs@.len() ==> (visited@[p] <==> freach(table_view(fs@), f@, p)),
{
    let ghost t = table_view(fs@);
    let n = fs.len();
    let mut visited: Vec<bool> = Vec::new();
    for k in 0..n
        invariant
            visited@.len() == k,
            forall|j: int| 0 <= j < k ==> !visited@[j],
    {
        visited.push(false);
    }
    proof {
        lemma_count_true_zero(visited@);
    }
    let start = feature_position(fs, f);
    if let Some(s) = start {
        proof {
            lemma_count_true_set(visited@, s as int);
            let path = seq![s as int];
            assert(path.last() == s as int);
            assert(fpath(t, path));
            assert(freach(t, f@, s as int));
        }
        visited.set(s, true);
    }
    proof {
        lemma_count_true_bound(visited@);
    }
    loop
        invariant
            t == table_view(fs@),
            n == t.len(),
            visited@.len() == n,
            count_true(visited@) <= n,
            forall|p: int| 0 <= p < n && #[trigger] visited@[p] ==> freach(t, f@, p),
            fpos(t, f@) matches Some(s) ==> visited@[s as int],
        ensures
            visited@.len() == n,
            forall|p: int| 0 <= p < n && #[trigger] visited@[p] ==> freach(t, f@, p),
            fpos(t, f@) matches Some(s) ==> visited@[s as int],
            forall|a: int, b: int| 0 <= a < n && visited@[a] && #[trigger] fedge(t, a, b) ==> visited@[b],
        decreases n - count_true(visited@),
    {
        let ghost before = visited@;
        let mut changed = false;
        let mut a: usize = 0;
        while a < n
            invariant
                t == table_view(fs@),
                n == t.len(),
                a <= n,
                visited@.len() == n,
                before.len() == n,
                count_true(visited@) <= n,
                forall|p: int| 0 <= p < n && #[trigger] visited@[p] ==> freach(t, f@, p),
                fpos(t, f@) matches Some(s) ==> visited@[s as int],
                changed ==> count_true(visited@) > count_true(before),
                !changed ==> visited@ == before,
                !changed ==> forall|x: int, b: int|
                    0 <= x < a && visited@[x] && #[trigger] fedge(t, x, b) ==> visited@[b],
            decreases n - a,
        {
            if visited[a] {
                let entries = &fs[a].1;
                let mut j: usize = 0;
                while j < entries.len()
                    invariant
                        t == table_view(fs@),
                        n == t.len(),
                        a < n,
                        j <= entries@.len(),
                        strs(entries@) == fentries(t, a as int),
                        visited@.len() == n,
                        visited@[a as int],
                        before.len() == n,
                        count_true(visited@) <= n,
                        forall|p: int| 0 <= p < n && #[trigger] visited@[p] ==> freach(t, f@, p),
                        fpos(t, f@) matches Some(s) ==> visited@[s as int],
                        changed ==> count_true(visited@) > count_true(before),
                        !changed ==> visited@ == before,
                        !changed ==> forall|x: int, b: int|
                            0 <= x < a && visited@[x] && #[trigger] fedge(t, x, b) ==> visited@[b],
                        !changed ==> forall|b: int|
                            #[trigger] fedge(t, a as int, b) && strs(entries@).take(j as int).contains(fname(t, b))
                                ==> visited@[b],
                    decreases entries@.len() - j,
                {
                    let ghost ej = entries@[j as int]@;
                    assert(strs(entries@)[j as int] == ej);
                    match feature_position(fs, entries[j].as_str()) {
                        Some(q) => {
                            if !visited[q] {
                                proof {
                                    assert(fentries(t, a as int).contains(fname(t, q as int)));
                                    assert(fedge(t, a as int, q as int));
                                    lemma_reach_step(t, f@, a as int, q as int);
                                    lemma_count_true_set(visited@, q as int);
                                    lemma_count_true_bound(visited@.update(q as int, true));
                                }
                                visited.set(q, true);
                                changed = true;
                            }
                        },
                        None => {},
                    }
                    proof {
                        if !changed {
                            assert forall|b: int|
                                #[trigger] fedge(t, a as int, b) && strs(entries@).take(j + 1).contains(fname(t, b))
                                    implies visited@[b] by {
                                let k = choose|k: int| 0 <= k < j + 1 && #[trigger] strs(entries@).take(j + 1)[k] == fname(t, b);
                                if k < j {
                                    assert(strs(entries@).take(j as int)[k] == fname(t, b));
                                } else {
                                    assert(ej == fname(t, b));
                                }
                            }
                        }
                    }
                    j += 1;
                }
                proof {
                    assert(strs(entries@).take(entries@.len() as int) =~= strs(entries@));
                }
            }
            a += 1;
        }
        if !changed {
            break;
        }
    }
    proof {
        assert forall|p: int| 0 <= p < n implies (visited@[p] <==> freach(t, f@, p)) by {
            if freach(t, f@, p) {
                lemma_closed_holds_reach(t, f@, visited@, p);
            }
        }
    }
    visited
}

/// The entries of the flagged features, in table order.
pub open spec fn flagged_entries(t: TableView, vis: Seq<bool>, p: int) -> Seq<Seq<char>>
    decreases p,
{
    if p <= 0 {
        seq![]
    } else {
        flagged_entries(t, vis, p - 1) + if vis[p - 1] {
            fentries(t, p - 1)
        } else {
            seq![]
        }
    }
}

proof fn lemma_flagged_entries(t: TableView, vis: Seq<bool>, p: int, x: Seq<char>)
    requires
        0 <= p <= t.len(),
        vis.len() == t.len(),
    ensures
        flagged_entries(t, vis, p).contains(x) <==> exists|q: int|
            0 <= q < p && vis[q] && #[trigger] fentries(t, q).contains(x),
    decreases p,
{
    if p > 0 {
        lemma_flagged_entries(t, vis, p - 1, x);
        let prev = flagged_entries(t, vis, p - 1);
        let last = if vis[p - 1] { fentries(t, p - 1) } else { seq![] };
        if flagged_entries(t, vis, p).contains(x) {
            let k = choose|k: int| 0 <= k < (prev + last).len() && #[trigger] (prev + last)[k] == x;
            if k < prev.len() {
                assert(prev[k] == x);
            } else {
                assert(last[k - prev.len()] == x);
                assert(fentries(t, p - 1).contains(x));
            }
        }
        if exists|q: int| 0 <= q < p && vis[q] && #[trigger] fentries(t, q).contains(x) {
            let q = choose|q: int| 0 <= q < p && vis[q] && #[trigger] fentries(t, q).contains(x);
            if q < p - 1 {
                let k = choose|k: int| 0 <= k < prev.len() && #[trigger] prev[k] == x;
                assert((prev + last)[k] == x);
            } else {
                let k = choose|k: int| 0 <= k < last.len() && #[trigger] last[k] == x;
                assert((prev + last)[prev.len() + k] == x);
            }
        }
    }
}

/// Collects, with repetitions, the entries of every feature reached from
/// `f`: its members are exactly those of `reached_entries`.
fn closure_entries(fs: &FeatureTable, f: &str) -> (out: Vec<String>)
    ensures
        forall|e: Seq<char>| reached_entries(table_view(fs@), f@).contains(e) <==> strs(out@).contains(e),
{
    let ghost t = table_view(fs@);
    let visited = reach_flags(fs, f);
    let mut out: Vec<String> = Vec::new();
    let n = fs.len();
    for p in 0..n
        invariant
            t == table_view(fs@),
            n == t.len(),
            visited@.len() == n,
            strs(out@) == flagged_entries(t, visited@, p as int),
    {
        if visited[p] {
            let entries = &fs[p].1;
            let ghost base = strs(out@);
            for j in 0..entries.len()
                invariant
                    t == table_view(fs@),
                    p < n,
                    strs(entries@) == fentries(t, p as int),
                    strs(out@) == base + strs(entries@).take(j as int),
            {
                let s = String::from_str(entries[j].as_str());
                let ghost prev = out@;
                out.push(s);
                assert(strs(out@) =~= strs(prev).push(s@));
                assert(strs(entries@).take(j + 1) =~= strs(entries@).take(j as int).push(s@));
            }
            assert(strs(entries@).take(entries@.len() as int) =~= strs(entries@));
        }
        assert(strs(out@) =~= flagged_entries(t, visited@, p + 1));
    }
    proof {
        assert forall|e: Seq<char>| reached_entries(t, f@).contains(e) <==> strs(out@).contains(e) by {
            lemma_flagged_entries(t, visited@, n as int, e);
        }
    }
    out
}

/// Everything the feature named `feature` enables, directly or through
/// other features, once each and in text order, without the feature itself.
pub fn feature_closure(feature: &str, features: &FeatureTable) -> (out: Vec<String>)
    requires
        names_unique(table_view(features@)),
    ensures
        strictly_sorted(strs(out@)),
        forall|e: Seq<char>| strs(out@).contains(e) <==> feature_closure_set(table_view(features@), feature@).contains(e),
{
    let all = closure_entries(features, feature);
    let fc = chars_of(feature);
    let mut out: Vec<String> = Vec::new();
    for k in 0..all.len()
        invariant
            fc@ == feature@,
            strictly_sorted(strs(out@)),
            forall|e: Seq<char>| strs(out@).contains(e) <==> (e != feature@ && strs(all@).take(k as int).contains(e)),
    {
        let same = chars_eq(&chars_of(all[k].as_str()), &fc);
        if !same {
            let s = String::from_str(all[k].as_str());
            insert_sorted_unique(&mut out, s);
        }
        proof {
            let tk = strs(all@).take(k as int);
            let tk1 = strs(all@).take(k + 1);
            assert(tk1 =~= tk.push(all@[k as int]@));
            assert forall|e: Seq<char>| strs(out@).contains(e) <==> (e != feature@ && tk1.contains(e)) by {
                if tk1.contains(e) {
                    let j = choose|j: int| 0 <= j < tk1.len() && #[trigger] tk1[j] == e;
                    if j < k {
                        assert(tk[j] == e);
                    }
                }
                if tk.contains(e) {
                    let j = choose|j: int| 0 <= j < tk.len() && #[trigger] tk[j] == e;
                    assert(tk1[j] == e);
                }
                if e == all@[k as int]@ {
                    assert(tk1[k as int] == e);
                }
            }
        }
    }
    assert(strs(all@).take(all@.len() as int) =~= strs(all@));
    out
}

/// Number of occurrences of `x` in `s`.
pub open spec fn occurrences(s: Seq<Seq<char>>, x: Seq<char>) -> nat
    decreases s.len(),
{
    if s.len() == 0 {
        0
    } else {
        occurrences(s.drop_last(), x) + if s.last() == x {
            1nat
        } else {
            0nat
        }
    }
}

/// The names of the features among the first `a` whose entries name the
/// feature at `p`, once per naming entry, in table order.
pub open spec fn referrers_upto(t: TableView, p: int, a: int) -> Seq<Seq<char>>
    decreases a,
{
    if a <= 0 {
        seq![]
    } else {
        referrers_upto(t, p, a - 1) + Seq::new(occurrences(fentries(t, a - 1), fname(t, p)), |i: int| fname(t, a - 1))
    }
}

/// The features whose entries enable the feature at `p` (by its name).
pub open spec fn referrers(t: TableView, p: int) -> Seq<Seq<char>> {
    if fpos(t, fname(t, p)) == Some(p as nat) {
        referrers_upto(t, p, t.len() as int)
    } else {
        seq![]
    }
}

/// For each feature of the table (at the same position), the features that
/// enable it, sorted by name.
pub fn reverse_feature_edges(features: &FeatureTable) -> (out: Vec<Vec<String>>)
    requires
        names_unique(table_view(features@)),
    ensures
        out@.len() == features@.len(),
        forall|p: int| 0 <= p < out@.len() ==> stably_sorted(
            #[trigger] referrers(table_view(features@), p),
            |s: Seq<char>| text_key(s),
            strs(out@[p]@),
        ),
{
    let ghost t = table_view(features@);
    let n = features.len();
    let mut out: Vec<Vec<String>> = Vec::new();
    for p in 0..n
        invariant
            t == table_view(features@),
            n == t.len(),
            out@.len() == p,
            forall|q: int| 0 <= q < p ==> stably_sorted(
                #[trigger] referrers(t, q),
                |s: Seq<char>| text_key(s),
                strs(out@[q]@),
            ),
    {
        let mut list: Vec<String> = Vec::new();
        let name = chars_of(features[p].0.as_str());
        if feature_position(features, features[p].0.as_str()) == Some(p) {
            for a in 0..n
                invariant
                    t == table_view(features@),
                    n == t.len(),
                    p < n,
                    name@ == fname(t, p as int),
                    strs(list@) == referrers_upto(t, p as int, a as int),
            {
                let entries = &features[a].1;
                let ghost base = strs(list@);
                for j in 0..entries.len()
                    invariant
                        t == table_view(features@),
                        n == t.len(),
                        n == features@.len(),
                        p < n,
                        a < n,
                        name@ == fname(t, p as int),
                        strs(entries@) == fentries(t, a as int),
                        strs(list@) == base + Seq::new(
                            occurrences(strs(entries@).take(j as int), fname(t, p as int)),
                            |i: int| fname(t, a as int),
                        ),
                {
                    let e = chars_of(entries[j].as_str());
                    let ghost tj = strs(entries@).take(j as int);
                    let ghost x = fname(t, p as int);
                    let ghost c = occurrences(tj, x);
                    assert(strs(entries@).take(j + 1).drop_last() =~= tj);
                    assert(strs(entries@).take(j + 1).last() == e@);
                    if chars_eq(&e, &name) {
                        let s = String::from_str(features[a].0.as_str());
                        assert(s@ == fname(t, a as int));
                        let ghost prev = list@;
                        list.push(s);
                        assert(strs(list@) =~= strs(prev).push(s@));
                        assert(occurrences(strs(entries@).take(j + 1), x) == c + 1);
                        assert(Seq::new(c + 1, |i: int| fname(t, a as int)) =~= Seq::new(c, |i: int| fname(t, a as int)).push(fname(t, a as int)));
                    } else {
                        assert(occurrences(strs(entries@).take(j + 1), x) == c);
                    }
                    assert(strs(list@) =~= base + Seq::new(
                        occurrences(strs(entries@).take(j + 1), fname(t, p as int)),
                        |i: int| fname(t, a as int),
                    ));
                }
                assert(strs(entries@).take(entries@.len() as int) =~= strs(entries@));
            }
        } else {
            assert(strs(list@) =~= referrers(t, p as int));
        }
        let sorted = sort_texts(list);
        out.push(sorted);
        proof {
            assert forall|q: int| 0 <= q < p + 1 implies stably_sorted(
                #[trigger] referrers(t, q),
                |s: Seq<char>| text_key(s),
                strs(out@[q]@),
            ) by {
                if q == p {
                    assert(out@[q]@ == sorted@);
                }
            }
        }
    }
    out
}

/// Position of the first `c` in `s` at or after `i`.
pub open spec fn char_pos_from(s: Seq<char>, c: char, i: nat) -> Option<nat>
    decreases s.len() - i,
{
    if i >= s.len() {
        None
    } else if s[i as int] == c {
        Some(i)
    } else {
        char_pos_from(s, c, i + 1)
    }
}

/// `s` without its trailing `?`s.
pub open spec fn trim_question(s: Seq<char>) -> Seq<char>
    decreases s.len(),
{
    if s.len() > 0 && s.last() == '?' {
        trim_question(s.drop_last())
    } else {
        s
    }
}

/// The dependency a feature entry activates: `dep:x` names `x`, and
/// `x/feat` or `x?/feat` names `x`; a plain feature name names none.
pub open spec fn optional_dependency_spec(e: Seq<char>) -> Option<Seq<char>> {
    if has_prefix(e, seq!['d', 'e', 'p', ':']) {
        Some(e.skip(4))
    } else {
        match char_pos_from(e, '/', 0) {
            Some(k) => Some(trim_question(e.take(k as int))),
            None => None,
        }
    }
}

/// The dependency a feature entry activates, if any.
pub fn optional_dependency_name(entry: &str) -> (r: Option<String>)
    ensures
        opt_view(r) == optional_dependency_spec(entry@),
{
    let v = chars_of(entry);
    let n = v.len();
    if n >= 4 && v[0] == 'd' && v[1] == 'e' && v[2] == 'p' && v[3] == ':' {
        assert(v@.take(4) =~= seq!['d', 'e', 'p', ':']);
        let rest = copy_range(&v, 4, n);
        assert(rest@ =~= v@.skip(4));
        return Some(string_of(&rest));
    }
    proof {
        if has_prefix(v@, seq!['d', 'e', 'p', ':']) {
            assert(v@.take(4)[0] == 'd' && v@.take(4)[1] == 'e' && v@.take(4)[2] == 'p' && v@.take(4)[3] == ':');
        }
    }
    let mut k: usize = 0;
    while k < n && v[k] != '/'
        invariant
            k <= n,
            n == v@.len(),
            char_pos_from(v@, '/', 0) == char_pos_from(v@, '/', k as nat),
        decreases n - k,
    {
        k += 1;
    }
    if k == n {
        return None;
    }
    let mut end: usize = k;
    while end > 0 && v[end - 1] == '?'
        invariant
            end <= k < n,
            n == v@.len(),
            trim_question(v@.take(k as int)) == trim_question(v@.take(end as int)),
        decreases end,
    {
        assert(v@.take(end as int).drop_last() =~= v@.take(end - 1));
        end -= 1;
    }
    let head = copy_range(&v, 0, end);
    assert(head@ =~= v@.take(end as int));
    Some(string_of(&head))
}

/// `"dep:"`, the prefix of an entry naming an optional dependency.
pub open spec fn dep_prefix() -> Seq<char> {
    seq!['d', 'e', 'p', ':']
}

/// `"default"`, the feature that is on unless turned off.
pub open spec fn default_name() -> Seq<char> {
    seq!['d', 'e', 'f', 'a', 'u', 'l', 't']
}

/// An entry of some feature of `t` is `dep:d`: the dependency is named by
/// its own feature list and gets no implicit feature.
pub open spec fn suppressed(t: TableView, d: Seq<char>) -> bool {
    exists|p: int| 0 <= p < t.len() && #[trigger] fentries(t, p).contains(dep_prefix() + d)
}

/// The table with an implicit feature `d = ["dep:d"]` for each optional
/// dependency `d` that no feature names with `dep:` and that is not already
/// a feature.
pub open spec fn augment(t: TableView, deps: Seq<Seq<char>>) -> TableView
    decreases deps.len(),
{
    if deps.len() == 0 {
        t
    } else {
        let a = augment(t, deps.drop_last());
        let d = deps.last();
        if suppressed(t, d) || fpos(a, d) is Some {
            a
        } else {
            a.push((d, seq![dep_prefix() + d]))
        }
    }
}

/// No two features of the table have the same name, as in a map.
pub open spec fn names_unique(t: TableView) -> bool {
    forall|i: int, j: int| 0 <= i < j < t.len() ==> fname(t, i) != fname(t, j)
}

/// Adding the implicit features keeps names unique.
proof fn lemma_augment_unique(t: TableView, deps: Seq<Seq<char>>)
    requires
        names_unique(t),
    ensures
        names_unique(augment(t, deps)),
    decreases deps.len(),
{
    if deps.len() > 0 {
        lemma_augment_unique(t, deps.drop_last());
        let a = augment(t, deps.drop_last());
        let d = deps.last();
        if !(suppressed(t, d) || fpos(a, d) is Some) {
            lemma_fpos_from(a, d, 0);
            let b = a.push((d, seq![dep_prefix() + d]));
            assert forall|i: int, j: int| 0 <= i < j < b.len() implies fname(b, i) != fname(b, j) by {
                if j == a.len() {
                    assert(fname(b, i) == fname(a, i));
                } else {
                    assert(fname(b, i) == fname(a, i) && fname(b, j) == fname(a, j));
                }
            }
        }
    }
}

/// The dependencies named by a list of entries that are among `optional`,
/// in order.
pub open spec fn dependencies_of(s: Seq<Seq<char>>, optional: Seq<Seq<char>>) -> Seq<Seq<char>>
    decreases s.len(),
{
    if s.len() == 0 {
        seq![]
    } else {
        dependencies_of(s.drop_last(), optional) + match optional_dependency_spec(s.last()) {
            Some(d) => if optional.contains(d) {
                seq![d]
            } else {
                seq![]
            },
            None => seq![],
        }
    }
}

/// A feature is on by default: it is `default`, `default` lists it, or
/// `default` enables it transitively.
pub open spec fn on_by_default(t: TableView, name: Seq<char>) -> bool {
    ||| name == default_name()
    ||| (match fpos(t, default_name()) {
        Some(d) => fentries(t, d as int).contains(name),
        None => false,
    })
    ||| feature_closure_set(t, default_name()).contains(name)
}

/// A report on one feature.
pub struct Feature {
    pub name: String,
    /// Its entries, verbatim.
    pub enables: Vec<String>,
    /// Everything it enables directly or transitively, sorted, once each.
    pub transitive_enables: Vec<String>,
    /// The optional dependencies those entries activate.
    pub optional_dependencies: Vec<String>,
    /// The features whose entries name it.
    pub enabled_by: Vec<String>,
    pub enabled_by_default: bool,
    pub is_default_feature: bool,
}

/// `ft` reports on the feature at position `p` of `t`.
pub open spec fn feature_ok(t: TableView, optional: Seq<Seq<char>>, p: int, ft: Feature) -> bool {
    &&& ft.name@ == fname(t, p)
    &&& strs(ft.enables@) == fentries(t, p)
    &&& strictly_sorted(strs(ft.transitive_enables@))
    &&& forall|e: Seq<char>| strs(ft.transitive_enables@).contains(e) <==> feature_closure_set(t, fname(t, p)).contains(e)
    &&& strs(ft.optional_dependencies@) == dependencies_of(strs(ft.transitive_enables@), optional)
    &&& stably_sorted(referrers(t, p), |s: Seq<char>| text_key(s), strs(ft.enabled_by@))
    &&& ft.enabled_by_default == on_by_default(t, fname(t, p))
    &&& ft.is_default_feature == (fname(t, p) == default_name())
}

/// `out` reports on the features of `t`, the one at `perm[i]` in place `i`,
/// and `perm` orders them by name.
pub open spec fn reports(t: TableView, optional: Seq<Seq<char>>, perm: Seq<int>, out: Seq<Feature>) -> bool {
    &&& sorts(Seq::new(t.len(), |i: int| text_key(fname(t, i))), perm)
    &&& out.len() == perm.len()
    &&& forall|i: int| 0 <= i < perm.len() ==> #[trigger] feature_ok(t, optional, perm[i], out[i])
}

/// The dependencies named by a list of entries.
fn dependencies_in(entries: &Vec<String>, optional: &Vec<String>) -> (out: Vec<String>)
    ensures
        strs(out@) == dependencies_of(strs(entries@), strs(optional@)),
{
    let mut out: Vec<String> = Vec::new();
    for i in 0..entries.len()
        invariant
            strs(out@) == dependencies_of(strs(entries@).take(i as int), strs(optional@)),
    {
        let ghost prev = out@;
        assert(strs(entries@).take(i + 1).drop_last() =~= strs(entries@).take(i as int));
        match optional_dependency_name(entries[i].as_str()) {
            Some(d) => {
                if contains_text(optional, &chars_of(d.as_str())) {
                    out.push(d);
                    assert(strs(out@) =~= strs(prev) + seq![d@]);
                } else {
                    assert(strs(out@) =~= strs(prev) + seq![]);
                }
            },
            None => {
                assert(strs(out@) =~= strs(prev) + seq![]);
            },
        }
    }
    assert(strs(entries@).take(entries@.len() as int) =~= strs(entries@));
    out
}

/// Whether some entry of the first `n` features is `dep:d`.
fn is_suppressed(features: &FeatureTable, n: usize, d: &[char]) -> (r: bool)
    requires
        n <= features@.len(),
    ensures
        r == suppressed(table_view(features@).take(n as int), d@),
{
    let ghost t = table_view(features@).take(n as int);
    let mut target: Vec<char> = vec!['d', 'e', 'p', ':'];
    assert(target@ =~= dep_prefix());
    append_chars(&mut target, d);
    let ghost x = dep_prefix() + d@;
    for p in 0..n
        invariant
            n <= features@.len(),
            t == table_view(features@).take(n as int),
            target@ == x,
            x == dep_prefix() + d@,
            forall|q: int| 0 <= q < p ==> !(#[trigger] fentries(t, q)).contains(x),
    {
        let entries = &features[p].1;
        assert(strs(entries@) == fentries(t, p as int));
        if contains_text(entries, &target) {
            assert(fentries(t, p as int).contains(x));
            assert(t.len() == n);
            return true;
        }
    }
    false
}

/// The table with the implicit features of the optional dependencies.
fn augment_table(features: FeatureTable, optional_dependencies: &Vec<String>) -> (out: FeatureTable)
    ensures
        table_view(out@) == augment(table_view(features@), strs(optional_dependencies@)),
{
    let ghost t0 = table_view(features@);
    let n0 = features.len();
    let mut out = features;
    let ghost deps = strs(optional_dependencies@);
    for i in 0..optional_dependencies.len()
        invariant
            n0 == t0.len(),
            deps == strs(optional_dependencies@),
            n0 <= out@.len(),
            table_view(out@).take(n0 as int) == t0,
            table_view(out@) == augment(t0, deps.take(i as int)),
    {
        let d = chars_of(optional_dependencies[i].as_str());
        assert(deps.take(i + 1).drop_last() =~= deps.take(i as int));
        assert(deps.take(i + 1).last() == d@);
        let sup = is_suppressed(&out, n0, &d);
        let present = feature_position(&out, optional_dependencies[i].as_str());
        if !sup && present.is_none() {
            let mut entry: Vec<char> = vec!['d', 'e', 'p', ':'];
            assert(entry@ =~= dep_prefix());
            append_chars(&mut entry, &d);
            let mut entries: Vec<String> = Vec::new();
            entries.push(string_of(&entry));
            let ghost prev = out@;
            out.push((string_of(&d), entries));
            proof {
                assert(strs(entries@) =~= seq![dep_prefix() + d@]);
                assert(table_view(out@) =~= table_view(prev).push((d@, seq![dep_prefix() + d@])));
                assert(table_view(out@).take(n0 as int) =~= table_view(prev).take(n0 as int));
            }
        }
    }
    assert(deps.take(deps.len() as int) =~= deps);
    out
}

/// Reports on every feature of a crate, including the implicit features of
/// its optional dependencies, sorted by name.
pub fn inspect_feature_flags(features: FeatureTable, optional_dependencies: &Vec<String>) -> (out: Vec<Feature>)
    requires
        names_unique(table_view(features@)),
    ensures
        exists|perm: Seq<int>| #[trigger] reports(
            augment(table_view(features@), strs(optional_dependencies@)),
            strs(optional_dependencies@),
            perm,
            out@,
        ),
{
    let ghost t0 = table_view(features@);
    let aug = augment_table(features, optional_dependencies);
    let ghost t = table_view(aug@);
    proof {
        lemma_augment_unique(t0, strs(optional_dependencies@));
    }
    let n = aug.len();
    let dflt = "default";
    proof {
        reveal_strlit("default");
    }
    assert(dflt@ == default_name());
    let default_closure = feature_closure(dflt, &aug);
    let defaults: Vec<String> = match feature_position(&aug, dflt) {
        Some(d) => copy_strings(&aug[d].1),
        None => Vec::new(),
    };
    let reverse = reverse_feature_edges(&aug);
    let mut items: Vec<Feature> = Vec::new();
    let mut keys: Vec<SortKey> = Vec::new();
    for p in 0..n
        invariant
            t == table_view(aug@),
            n == t.len(),
            dflt@ == default_name(),
            reverse@.len() == n,
            forall|q: int| 0 <= q < n ==> stably_sorted(
                #[trigger] referrers(t, q),
                |s: Seq<char>| text_key(s),
                strs(reverse@[q]@),
            ),
            forall|e: Seq<char>| strs(default_closure@).contains(e) <==> feature_closure_set(t, default_name()).contains(e),
            strs(defaults@) == (match fpos(t, default_name()) {
                Some(d) => fentries(t, d as int),
                None => seq![],
            }),
            names_unique(t),
            items@.len() == p,
            keys@.len() == p,
            forall|q: int| 0 <= q < p ==> #[trigger] feature_ok(t, strs(optional_dependencies@), q, items@[q]),
            forall|q: int| 0 <= q < p ==> key_view(#[trigger] keys@[q]) == text_key(fname(t, q)),
    {
        let name = &aug[p].0;
        let name_chars = chars_of(name.as_str());
        let closure = feature_closure(name.as_str(), &aug);
        let deps = dependencies_in(&closure, optional_dependencies);
        let is_default = chars_eq(&name_chars, &chars_of(dflt));
        let by_default = is_default || contains_text(&defaults, &name_chars)
            || contains_text(&default_closure, &name_chars);
        proof {
            if fpos(t, default_name()) is None {
                assert(!strs(defaults@).contains(name_chars@));
            }
        }
        let ft = Feature {
            name: String::from_str(name.as_str()),
            enables: copy_strings(&aug[p].1),
            transitive_enables: closure,
            optional_dependencies: deps,
            enabled_by: copy_strings(&reverse[p]),
            enabled_by_default: by_default,
            is_default_feature: is_default,
        };
        assert(stably_sorted(referrers(t, p as int), |s: Seq<char>| text_key(s), strs(reverse@[p as int]@)));
        assert(ft.name@ == fname(t, p as int));
        assert(strs(ft.enables@) == fentries(t, p as int));
        assert(strs(ft.optional_dependencies@) == dependencies_of(strs(ft.transitive_enables@), strs(optional_dependencies@)));
        assert(stably_sorted(referrers(t, p as int), |s: Seq<char>| text_key(s), strs(ft.enabled_by@)));
        assert(ft.enabled_by_default == on_by_default(t, fname(t, p as int)));
        assert(ft.is_default_feature == (fname(t, p as int) == default_name()));
        assert(feature_ok(t, strs(optional_dependencies@), p as int, ft));
        items.push(ft);
        let k = SortKey { first: name_chars, second: Vec::new(), rank: 0 };
        assert(k.second@ =~= Seq::<char>::empty());
        keys.push(k);
    }
    let ghost ks = key_views(keys@);
    let ghost us = items@;
    let out = sort_by_keys(items, keys);
    proof {
        let kt = Seq::new(t.len(), |i: int| text_key(fname(t, i)));
        assert(ks =~= kt);
        let perm = choose|perm: Seq<int>| sorts(ks, perm) && out@ == Seq::new(perm.len(), |i: int| us[perm[i]]);
        assert forall|i: int| 0 <= i < perm.len() implies #[trigger] feature_ok(t, strs(optional_dependencies@), perm[i], out@[i]) by {
            assert(0 <= perm[i] < ks.len());
        }
        assert(reports(t, strs(optional_dependencies@), perm, out@));
    }
    out
}

/// A feature enables, among others, every entry it lists itself, except a
/// mention of its own name.
pub proof fn law_closure_holds_own_entries(t: TableView, f: Seq<char>, e: Seq<char>)
    requires
        fpos(t, f) is Some,
        fentries(t, fpos(t, f)->0 as int).contains(e),
        e != f,
    ensures
        feature_closure_set(t, f).contains(e),
{
    let p = fpos(t, f)->0 as int;
    lemma_fpos_from(t, f, 0);
    let path = seq![p];
    assert(path.last() == p);
    assert(fpath(t, path));
    assert(freach(t, f, p));
}

proof fn lemma_reach_concat(t: TableView, f: Seq<char>, g: Seq<char>, q: int, x: int)
    requires
        freach(t, f, q),
        fpos(t, g) == Some(q as nat),
        freach(t, g, x),
    ensures
        freach(t, f, x),
{
    let p1 = choose|path: Seq<int>| fpath(t, path) && fpos(t, f) == Some(path[0] as nat) && #[trigger] path.last() == q;
    let p2 = choose|path: Seq<int>| fpath(t, path) && fpos(t, g) == Some(path[0] as nat) && #[trigger] path.last() == x;
    let p = p1 + p2.skip(1);
    assert(p2[0] == q);
    assert forall|i: int| 0 <= i < p.len() implies 0 <= #[trigger] p[i] < t.len() by {
        if i >= p1.len() {
            assert(p[i] == p2[i - p1.len() + 1]);
        }
    }
    assert forall|i: int| 0 <= i < p.len() - 1 implies fedge(t, #[trigger] p[i], p[i + 1]) by {
        if i < p1.len() - 1 {
            assert(p[i] == p1[i] && p[i + 1] == p1[i + 1]);
        } else if i == p1.len() - 1 {
            assert(p[i] == q);
            assert(p[i + 1] == p2[1]);
            assert(fedge(t, p2[0], p2[1]));
        } else {
            assert(p[i] == p2[i - p1.len() + 1]);
            assert(p[i + 1] == p2[i - p1.len() + 2]);
            assert(fedge(t, p2[i - p1.len() + 1], p2[i - p1.len() + 1 + 1]));
        }
    }
    if p2.len() == 1 {
        assert(p.last() == p1.last());
        assert(x == q);
    } else {
        assert(p.last() == p2.last());
    }
    assert(p[0] == p1[0]);
    assert(fpath(t, p));
}

/// What a feature enables, it enables with everything that enables: when
/// `f` enables the feature `g`, all that `g` enables `f` enables too, but
/// for `f` itself.
pub proof fn law_closure_is_transitive(t: TableView, f: Seq<char>, g: Seq<char>, e: Seq<char>)
    requires
        fpos(t, g) is Some,
        feature_closure_set(t, f).contains(g),
        feature_closure_set(t, g).contains(e),
        e != f,
    ensures
        feature_closure_set(t, f).contains(e),
{
    let q = fpos(t, g)->0 as int;
    lemma_fpos_from(t, g, 0);
    let p = choose|p: int| freach(t, f, p) && #[trigger] fentries(t, p).contains(g);
    let path = choose|path: Seq<int>| fpath(t, path) && fpos(t, f) == Some(path[0] as nat) && #[trigger] path.last() == p;
    assert(0 <= p < t.len());
    assert(fname(t, q) == g);
    assert(fedge(t, p, q));
    lemma_reach_step(t, f, p, q);
    let x = choose|x: int| freach(t, g, x) && #[trigger] fentries(t, x).contains(e);
    lemma_reach_concat(t, f, g, q, x);
}

/// A feature is reported on by default exactly when it is `default` or
/// `default` enables it, directly or through other features.
pub proof fn law_on_by_default_is_default_closure(
    t: TableView,
    optional: Seq<Seq<char>>,
    perm: Seq<int>,
    out: Seq<Feature>,
)
    requires
        reports(t, optional, perm, out),
    ensures
        forall|i: int|
            0 <= i < out.len() ==> (#[trigger] out[i]).enabled_by_default == (out[i].name@ == "default"@
                || feature_closure_set(t, "default"@).contains(out[i].name@)),
{
    reveal_strlit("default");
    assert("default"@ =~= default_name());
    assert forall|i: int|
        0 <= i < out.len() implies (#[trigger] out[i]).enabled_by_default == (out[i].name@ == "default"@
            || feature_closure_set(t, "default"@).contains(out[i].name@)) by {
        assert(feature_ok(t, optional, perm[i], out[i]));
        let name = out[i].name@;
        if name != default_name() {
            if let Some(d) = fpos(t, default_name()) {
                if fentries(t, d as int).contains(name) {
                    law_closure_holds_own_entries(t, default_name(), name);
                }
            }
        }
    }
}

} // verus!
