//! Searching the rustdoc index by name and path.

use vstd::prelude::*;
use crate::lookup::{join_path, seg_views};
use crate::model::{find_path, kind_rank, kind_rank_spec, path_position, Crate, Item, ItemKind};
use crate::order::{lemma_stably_sorted_members, lemma_stably_sorted_unique, key_view, key_views, lemma_sorted_views, sort_by_keys, stably_sorted, KeyView, SortKey};
use crate::render::opt_view;
use crate::text::{chars_of, contains, contains_seq, join, to_lowercase, unicode_lowercase};

verus! {

/// An item that matched a search.
pub struct Match {
    pub id: u32,
    pub name: String,
    /// Canonical path joined with `::` (the item's name when it has none).
    pub path: String,
    pub kind: ItemKind,
}

/// Mathematical content of a match.
pub type MatchView = (u32, Seq<char>, Seq<char>, ItemKind);

/// The view of a match.
pub open spec fn match_view(m: Match) -> MatchView {
    (m.id, m.name@, m.path@, m.kind)
}

/// The views of matches.
pub open spec fn match_views(ms: Seq<Match>) -> Seq<MatchView> {
    Seq::new(ms.len(), |i: int| match_view(ms[i]))
}

/// Sort key of a match: path, then kind, then id.
pub open spec fn match_key(v: MatchView) -> KeyView {
    (v.2, seq![], (kind_rank_spec(v.3) * 0x1_0000_0000 + v.0) as u64)
}

/// The text shown for an item's path: its canonical path joined with `::`,
/// else its name.
pub open spec fn item_path_text(docs: Crate, item: Item) -> Option<Seq<char>> {
    match find_path(docs.paths@, item.id) {
        Some(p) => Some(join(seg_views(docs.paths@[p as int].path@), "::"@)),
        None => opt_view(item.name),
    }
}

/// The lowercased query.
pub open spec fn lowered_query(query: Option<Seq<char>>) -> Option<Seq<char>> {
    match query {
        Some(q) => Some(unicode_lowercase(q)),
        None => None,
    }
}

/// The match an item gives: it must have the filtered kind and a path text,
/// and its lowercased `"name path"` must contain `query` (already
/// lowercased).
pub open spec fn match_of(docs: Crate, item: Item, query: Option<Seq<char>>, kind: Option<ItemKind>) -> Option<
    MatchView,
> {
    if kind matches Some(f) && f != item.kind {
        None
    } else {
        match item_path_text(docs, item) {
            None => None,
            Some(path) => {
                let name = match opt_view(item.name) {
                    Some(n) => n,
                    None => seq![],
                };
                let hay = unicode_lowercase(name + " "@ + path);
                match query {
                    Some(q) => if contains_seq(hay, q) {
                        Some((item.id, name, path, item.kind))
                    } else {
                        None
                    },
                    None => Some((item.id, name, path, item.kind)),
                }
            },
        }
    }
}

/// The matches among the first `n` items of the index, in index order.
pub open spec fn matches_in(docs: Crate, query: Option<Seq<char>>, kind: Option<ItemKind>, n: nat) -> Seq<
    MatchView,
>
    decreases n,
{
    if n == 0 {
        seq![]
    } else {
        let prev = matches_in(docs, query, kind, (n - 1) as nat);
        match match_of(docs, docs.index@[n - 1], query, kind) {
            Some(m) => prev.push(m),
            None => prev,
        }
    }
}

/// At most `limit` of `s` (all for `None`).
pub open spec fn take_limit<V>(s: Seq<V>, limit: Option<usize>) -> Seq<V> {
    match limit {
        Some(l) => if l < s.len() {
            s.take(l as int)
        } else {
            s
        },
        None => s,
    }
}

/// The match the item at `pos` gives.
fn match_item(docs: &Crate, pos: usize, query: &Option<Vec<char>>, kind: Option<ItemKind>) -> (r: Option<Match>)
    requires
        pos < docs.index@.len(),
    ensures
        (match r {
            Some(m) => Some(match_view(m)),
            None => None,
        }) == match_of(
            *docs,
            docs.index@[pos as int],
            match query {
                Some(q) => Some(q@),
                None => None,
            },
            kind,
        ),
{
    let item = &docs.index[pos];
    if let Some(f) = kind {
        if f != item.kind {
            return None;
        }
    }
    let path = match path_position(docs, item.id) {
        Some(p) => join_path(&docs.paths[p].path),
        None => match &item.name {
            Some(n) => String::from_str(n.as_str()),
            None => return None,
        },
    };
    let name = match &item.name {
        Some(n) => String::from_str(n.as_str()),
        None => String::new(),
    };
    let mut hay = String::from_str(name.as_str());
    hay.append(" ");
    hay.append(path.as_str());
    proof {
        reveal_strlit(" ");
    }
    let lowered = to_lowercase(hay.as_str());
    let m = Match { id: item.id, name, path, kind: item.kind };
    match query {
        Some(q) => {
            let lv = chars_of(lowered.as_str());
            if contains(&lv, q) {
                Some(m)
            } else {
                None
            }
        },
        None => Some(m),
    }
}

/// Lists the items whose lowercased name and path contain the lowercased
/// query (all items for `None`), optionally of one kind, sorted by path,
/// then kind, then id, at most `limit` of them.
pub fn search(docs: &Crate, query: Option<&str>, kind_filter: Option<ItemKind>, limit: Option<usize>) -> (out:
    Vec<Match>)
    ensures
        exists|sorted: Seq<MatchView>|
            stably_sorted(
                matches_in(
                    *docs,
                    lowered_query(
                        match query {
                            Some(q) => Some(q@),
                            None => None,
                        },
                    ),
                    kind_filter,
                    docs.index@.len(),
                ),
                |v: MatchView| match_key(v),
                sorted,
            ) && match_views(out@) == take_limit(sorted, limit),
        searched(
            *docs,
            match query {
                Some(q) => Some(q@),
                None => None,
            },
            kind_filter,
            limit,
            match_views(out@),
        ),
{
    let ghost qv = lowered_query(
        match query {
            Some(q) => Some(q@),
            None => None,
        },
    );
    let lowered: Option<Vec<char>> = match query {
        Some(q) => {
            let l = to_lowercase(q);
            Some(chars_of(l.as_str()))
        },
        None => None,
    };
    let mut unsorted: Vec<Match> = Vec::new();
    for i in 0..docs.index.len()
        invariant
            qv == (match lowered {
                Some(l) => Some(l@),
                None => None,
            }),
            match_views(unsorted@) == matches_in(*docs, qv, kind_filter, i as nat),
    {
        let ghost prev = match_views(unsorted@);
        let r = match_item(docs, i, &lowered, kind_filter);
        if let Some(m) = r {
            unsorted.push(m);
            assert(match_views(unsorted@) =~= prev.push(match_view(m)));
        }
    }
    let mut keys: Vec<SortKey> = Vec::new();
    for i in 0..unsorted.len()
        invariant
            keys@.len() == i,
            forall|j: int|
                0 <= j < i ==> key_view(#[trigger] keys@[j]) == match_key(match_view(unsorted@[j])),
    {
        let rank = kind_rank(unsorted[i].kind) * 0x1_0000_0000 + unsorted[i].id as u64;
        let k = SortKey { first: chars_of(unsorted[i].path.as_str()), second: Vec::new(), rank };
        assert(k.second@ =~= Seq::<char>::empty());
        keys.push(k);
    }
    let ghost ks = key_views(keys@);
    let ghost us = unsorted@;
    let mut out = sort_by_keys(unsorted, keys);
    let ghost sorted = match_views(out@);
    proof {
        assert(ks =~= Seq::new(us.len(), |i: int| (|v: MatchView| match_key(v))((|r: Match| match_view(r))(us[i]))));
        lemma_sorted_views(us, out@, |r: Match| match_view(r), |v: MatchView| match_key(v), ks);
        assert(match_views(us) =~= Seq::new(us.len(), |i: int| (|r: Match| match_view(r))(us[i])));
        assert(match_views(out@) =~= Seq::new(out@.len(), |i: int| (|r: Match| match_view(r))(out@[i])));
    }
    if let Some(l) = limit {
        out.truncate(l);
    }
    assert(match_views(out@) =~= take_limit(sorted, limit));
    out
}

/// Lists the items matching `query`, as `search` does with a query and a
/// limit.
pub fn search_items(docs: &Crate, query: &str, kind_filter: Option<ItemKind>, limit: usize) -> (out: Vec<Match>)
    ensures
        exists|sorted: Seq<MatchView>|
            stably_sorted(
                matches_in(*docs, lowered_query(Some(query@)), kind_filter, docs.index@.len()),
                |v: MatchView| match_key(v),
                sorted,
            ) && match_views(out@) == take_limit(sorted, Some(limit)),
        searched(*docs, Some(query@), kind_filter, Some(limit), match_views(out@)),
{
    search(docs, Some(query), kind_filter, Some(limit))
}

/// How many items a search returns unless told otherwise.
pub fn default_limit() -> (r: usize)
    ensures
        r == 20,
{
    20
}

/// `search_items` finds what `search` finds for the same query, kind and
/// limit: the same items, field by field, in the same order. `items` is
/// what the contract of `search_items` allows, `found` what that of
/// `search` allows.
pub proof fn law_search_items_is_search(
    docs: Crate,
    query: Seq<char>,
    kind_filter: Option<ItemKind>,
    limit: usize,
    items: Seq<MatchView>,
    found: Seq<MatchView>,
)
    requires
        exists|sorted: Seq<MatchView>|
            stably_sorted(
                matches_in(docs, lowered_query(Some(query)), kind_filter, docs.index@.len()),
                |v: MatchView| match_key(v),
                sorted,
            ) && items == take_limit(sorted, Some(limit)),
        exists|sorted: Seq<MatchView>|
            stably_sorted(
                matches_in(docs, lowered_query(Some(query)), kind_filter, docs.index@.len()),
                |v: MatchView| match_key(v),
                sorted,
            ) && found == take_limit(sorted, Some(limit)),
    ensures
        items == found,
{
    let vs = matches_in(docs, lowered_query(Some(query)), kind_filter, docs.index@.len());
    let a = choose|sorted: Seq<MatchView>|
        stably_sorted(vs, |v: MatchView| match_key(v), sorted) && items == take_limit(sorted, Some(limit));
    let b = choose|sorted: Seq<MatchView>|
        stably_sorted(vs, |v: MatchView| match_key(v), sorted) && found == take_limit(sorted, Some(limit));
    lemma_stably_sorted_unique(vs, |v: MatchView| match_key(v), a, b);
}

/// What a search may return: the matches among all items, stably sorted by
/// `match_key`, cut to the limit (what the contracts of `search` and
/// `search_items` state).
pub open spec fn searched(
    docs: Crate,
    query: Option<Seq<char>>,
    kind: Option<ItemKind>,
    limit: Option<usize>,
    out: Seq<MatchView>,
) -> bool {
    exists|sorted: Seq<MatchView>|
        stably_sorted(
            matches_in(docs, lowered_query(query), kind, docs.index@.len()),
            |v: MatchView| match_key(v),
            sorted,
        ) && out == take_limit(sorted, limit)
}

proof fn lemma_matches_in_members(docs: Crate, q: Option<Seq<char>>, kind: Option<ItemKind>, n: nat)
    requires
        n <= docs.index@.len(),
    ensures
        forall|i: int|
            0 <= i < matches_in(docs, q, kind, n).len() ==> exists|j: int|
                0 <= j < n && match_of(docs, docs.index@[j], q, kind) == Some(
                    #[trigger] matches_in(docs, q, kind, n)[i],
                ),
        forall|j: int|
            0 <= j < n && match_of(docs, docs.index@[j], q, kind) is Some ==> matches_in(docs, q, kind, n).contains(
                match_of(docs, #[trigger] docs.index@[j], q, kind)->0,
            ),
    decreases n,
{
    if n > 0 {
        lemma_matches_in_members(docs, q, kind, (n - 1) as nat);
        let prev = matches_in(docs, q, kind, (n - 1) as nat);
        let cur = matches_in(docs, q, kind, n);
        assert forall|i: int| 0 <= i < cur.len() implies exists|j: int|
            0 <= j < n && match_of(docs, docs.index@[j], q, kind) == Some(#[trigger] cur[i]) by {
            if i < prev.len() {
                assert(cur[i] == prev[i]);
                let j = choose|j: int| 0 <= j < n - 1 && match_of(docs, docs.index@[j], q, kind) == Some(prev[i]);
            } else {
                assert(match_of(docs, docs.index@[n - 1], q, kind) == Some(cur[i]));
            }
        }
        assert forall|j: int|
            0 <= j < n && match_of(docs, docs.index@[j], q, kind) is Some implies cur.contains(
            match_of(docs, #[trigger] docs.index@[j], q, kind)->0,
        ) by {
            let m = match_of(docs, docs.index@[j], q, kind)->0;
            if j < n - 1 {
                let k = choose|k: int| 0 <= k < prev.len() && prev[k] == m;
                assert(cur[k] == m);
            } else {
                assert(cur[prev.len() as int] == m);
            }
        }
    }
}

/// Every item a search returns is a real match: with a kind filter it has
/// that kind, and its lowercased `"name path"` contains the lowercased
/// query.
pub proof fn law_search_results_match(
    docs: Crate,
    query: Option<Seq<char>>,
    kind: Option<ItemKind>,
    limit: Option<usize>,
    out: Seq<MatchView>,
)
    requires
        searched(docs, query, kind, limit, out),
    ensures
        forall|i: int| 0 <= i < out.len() ==> (kind matches Some(k) ==> (#[trigger] out[i]).3 == k),
        forall|i: int|
            0 <= i < out.len() ==> (query matches Some(q) ==> contains_seq(
                unicode_lowercase((#[trigger] out[i]).1 + " "@ + out[i].2),
                unicode_lowercase(q),
            )),
        limit matches Some(l) ==> out.len() <= l,
{
    let vs = matches_in(docs, lowered_query(query), kind, docs.index@.len());
    let sorted = choose|sorted: Seq<MatchView>|
        stably_sorted(vs, |v: MatchView| match_key(v), sorted) && out == take_limit(sorted, limit);
    lemma_stably_sorted_members(vs, |v: MatchView| match_key(v), sorted);
    lemma_matches_in_members(docs, lowered_query(query), kind, docs.index@.len());
    assert forall|i: int| 0 <= i < out.len() implies (kind matches Some(k) ==> (#[trigger] out[i]).3 == k) && (
    query matches Some(q) ==> contains_seq(unicode_lowercase(out[i].1 + " "@ + out[i].2), unicode_lowercase(q))) by {
        assert(out[i] == sorted[i]);
        assert(vs.contains(sorted[i]));
        let x = choose|x: int| 0 <= x < vs.len() && vs[x] == sorted[i];
        let j = choose|j: int|
            0 <= j < docs.index@.len() && match_of(docs, docs.index@[j], lowered_query(query), kind) == Some(vs[x]);
        let item = docs.index@[j];
        let path = item_path_text(docs, item)->0;
        let name = match opt_view(item.name) {
            Some(n) => n,
            None => seq![],
        };
        assert(out[i].1 == name && out[i].2 == path);
    }
}

/// A search without a limit returns every item that matches: each item of
/// the filtered kind (any kind without a filter) with a path text whose
/// lowercased `"name path"` contains the lowercased query.
pub proof fn law_search_finds_every_match(
    docs: Crate,
    query: Option<Seq<char>>,
    kind: Option<ItemKind>,
    out: Seq<MatchView>,
    j: int,
)
    requires
        searched(docs, query, kind, None, out),
        0 <= j < docs.index@.len(),
        kind matches Some(k) ==> docs.index@[j].kind == k,
        item_path_text(docs, docs.index@[j]) is Some,
        query matches Some(q) ==> contains_seq(
            unicode_lowercase(
                (match opt_view(docs.index@[j].name) {
                    Some(n) => n,
                    None => seq![],
                }) + " "@ + item_path_text(docs, docs.index@[j])->0,
            ),
            unicode_lowercase(q),
        ),
    ensures
        out.contains(
            (
                docs.index@[j].id,
                match opt_view(docs.index@[j].name) {
                    Some(n) => n,
                    None => seq![],
                },
                item_path_text(docs, docs.index@[j])->0,
                docs.index@[j].kind,
            ),
        ),
{
    let vs = matches_in(docs, lowered_query(query), kind, docs.index@.len());
    let sorted = choose|sorted: Seq<MatchView>|
        stably_sorted(vs, |v: MatchView| match_key(v), sorted) && out == take_limit(sorted, None);
    lemma_stably_sorted_members(vs, |v: MatchView| match_key(v), sorted);
    lemma_matches_in_members(docs, lowered_query(query), kind, docs.index@.len());
    let item = docs.index@[j];
    assert(match_of(docs, item, lowered_query(query), kind) is Some);
    let m = match_of(docs, item, lowered_query(query), kind)->0;
    assert(vs.contains(m));
    let x = choose|x: int| 0 <= x < vs.len() && vs[x] == m;
    assert(sorted.contains(vs[x]));
}

} // verus!
