//! A crate's examples, as its manifest lists them, with their sources cut
//! to a number of characters.

use vstd::prelude::*;
use crate::order::{lemma_sorts_covers, text_lt, copy_strings, key_view, key_views, sort_by_keys, sorts, strs, SortKey};
use crate::impls::str_view;
use crate::text::{chars_eq, chars_of, string_of, take_chars, truncate_chars};

verus! {

/// An example target of a manifest (`[[example]]`, or one found under
/// `examples/`).
pub struct ExampleTarget {
    pub name: Option<String>,
    /// Path relative to the crate root.
    pub path: Option<String>,
    pub required_features: Vec<String>,
}

/// An example of a crate.
pub struct Example {
    pub name: String,
    /// Path relative to the crate root.
    pub path: String,
    /// Features the example needs.
    pub required_features: Vec<String>,
    /// Its source, when asked for, cut to the asked-for length.
    pub content: Option<String>,
    /// The source was longer than that.
    pub content_truncated: bool,
}

/// The target is listed: it has a name and a path, and the name is the one
/// asked for, if any.
pub open spec fn listed(t: ExampleTarget, filter: Option<Seq<char>>) -> bool {
    &&& t.name is Some
    &&& t.path is Some
    &&& (filter matches Some(f) ==> t.name->0@ == f)
}

/// Positions of the listed targets among the first `n`, in order.
pub open spec fn listed_positions(ts: Seq<ExampleTarget>, filter: Option<Seq<char>>, n: int) -> Seq<int>
    decreases n,
{
    if n <= 0 {
        seq![]
    } else {
        listed_positions(ts, filter, n - 1) + if listed(ts[n - 1], filter) {
            seq![n - 1]
        } else {
            seq![]
        }
    }
}

fn filter_view(f: Option<&str>) -> (r: Option<Vec<char>>)
    ensures
        (match r {
            Some(v) => Some(v@),
            None => None,
        }) == (match f {
            Some(s) => Some(s@),
            None => None,
        }),
{
    match f {
        Some(s) => Some(chars_of(s)),
        None => None,
    }
}

/// Whether the target is listed.
fn is_listed(t: &ExampleTarget, filter: &Option<Vec<char>>) -> (r: bool)
    ensures
        r == listed(*t, match filter {
            Some(v) => Some(v@),
            None => None,
        }),
{
    match (&t.name, &t.path) {
        (Some(n), Some(_)) => match filter {
            Some(f) => chars_eq(&chars_of(n.as_str()), f),
            None => true,
        },
        _ => false,
    }
}

/// The positions of the targets whose sources are needed: the listed ones.
pub fn examples_to_read(targets: &Vec<ExampleTarget>, name_filter: Option<&str>) -> (r: Vec<usize>)
    ensures
        r@.len() == listed_positions(targets@, str_view(name_filter), targets@.len() as int).len(),
        forall|k: int| 0 <= k < r@.len() ==> r@[k] as int == #[trigger] listed_positions(targets@, str_view(name_filter), targets@.len() as int)[k],
{
    let f = filter_view(name_filter);
    let ghost fv = str_view(name_filter);
    let mut r: Vec<usize> = Vec::new();
    let mut i: usize = 0;
    while i < targets.len()
        invariant
            i <= targets@.len(),
            fv == str_view(name_filter),
            fv == (match f {
                Some(v) => Some(v@),
                None => None,
            }),
            r@.len() == listed_positions(targets@, fv, i as int).len(),
            forall|k: int| 0 <= k < r@.len() ==> r@[k] as int == #[trigger] listed_positions(targets@, fv, i as int)[k],
        decreases targets@.len() - i,
    {
        let ghost prev = listed_positions(targets@, fv, i as int);
        let ghost r0 = r@;
        assert(listed_positions(targets@, fv, i + 1) == prev + if listed(targets@[i as int], fv) {
            seq![i as int]
        } else {
            seq![]
        });
        if is_listed(&targets[i], &f) {
            r.push(i);
            assert forall|k: int| 0 <= k < r@.len() implies r@[k] as int == #[trigger] listed_positions(targets@, fv, i + 1)[k] by {
                if k < r0.len() {
                    assert(r@[k] == r0[k]);
                    assert(listed_positions(targets@, fv, i + 1)[k] == prev[k]);
                }
            }
        } else {
            assert(listed_positions(targets@, fv, i + 1) =~= prev);
        }
        i += 1;
    }
    r
}

/// `e` reports the target `t`, with `content` (its source, if read) cut to
/// `max_chars` characters.
pub open spec fn reports_example(t: ExampleTarget, content: Option<String>, include_content: bool, max_chars: usize, e: Example) -> bool {
    &&& e.name@ == t.name->0@
    &&& e.path@ == t.path->0@
    &&& strs(e.required_features@) == strs(t.required_features@)
    &&& if include_content {
        &&& e.content is Some
        &&& e.content->0@ == take_chars(content->0@, max_chars as nat)
        &&& e.content_truncated == (content->0@.len() > max_chars)
    } else {
        e.content is None && !e.content_truncated
    }
}

/// `out` reports the listed targets sorted by name: the one at
/// `ps[perm[k]]` in place `k`.
pub open spec fn lists_examples(
    ts: Seq<ExampleTarget>,
    contents: Seq<Option<String>>,
    ps: Seq<int>,
    include_content: bool,
    max_chars: usize,
    perm: Seq<int>,
    out: Seq<Example>,
) -> bool {
    &&& sorts(Seq::new(ps.len(), |i: int| (ts[ps[i]].name->0@, Seq::<char>::empty(), 0u64)), perm)
    &&& out.len() == perm.len()
    &&& forall|k: int| 0 <= k < out.len() ==> #[trigger] reports_example(ts[ps[perm[k]]], contents[ps[perm[k]]], include_content, max_chars, out[k])
}

/// The crate's examples, sorted by name: the listed targets, with their
/// sources (`contents`, by target position, read for the listed ones) when
/// asked for.
pub fn find_examples(
    targets: &Vec<ExampleTarget>,
    name_filter: Option<&str>,
    include_content: bool,
    contents: &Vec<Option<String>>,
    max_chars: usize,
) -> (out: Vec<Example>)
    requires
        contents@.len() == targets@.len(),
        include_content ==> forall|i: int| 0 <= i < targets@.len() && listed(targets@[i], str_view(name_filter)) ==> (#[trigger] contents@[i]) is Some,
    ensures
        exists|perm: Seq<int>| #[trigger] lists_examples(
            targets@,
            contents@,
            listed_positions(targets@, str_view(name_filter), targets@.len() as int),
            include_content,
            max_chars,
            perm,
            out@,
        ),
{
    let ghost fv = str_view(name_filter);
    let ghost ps = listed_positions(targets@, fv, targets@.len() as int);
    let kept = examples_to_read(targets, name_filter);
    let mut items: Vec<Example> = Vec::new();
    let mut keys: Vec<SortKey> = Vec::new();
    proof {
        assert forall|k: int| 0 <= k < ps.len() implies 0 <= #[trigger] ps[k] < targets@.len() && listed(targets@[ps[k]], fv) by {
            lemma_listed_positions(targets@, fv, targets@.len() as int, k);
        }
    }
    for k in 0..kept.len()
        invariant
            kept@.len() == ps.len(),
            forall|j: int| 0 <= j < kept@.len() ==> kept@[j] as int == #[trigger] ps[j],
            forall|j: int| 0 <= j < ps.len() ==> 0 <= #[trigger] ps[j] < targets@.len() && listed(targets@[ps[j]], fv),
            contents@.len() == targets@.len(),
            include_content ==> forall|i: int| 0 <= i < targets@.len() && listed(targets@[i], fv) ==> (#[trigger] contents@[i]) is Some,
            items@.len() == k,
            keys@.len() == k,
            forall|j: int| 0 <= j < k ==> #[trigger] reports_example(targets@[ps[j]], contents@[ps[j]], include_content, max_chars, items@[j]),
            forall|j: int| 0 <= j < k ==> key_view(#[trigger] keys@[j]) == (targets@[ps[j]].name->0@, Seq::<char>::empty(), 0u64),
    {
        let i = kept[k];
        assert(i as int == ps[k as int]);
        let t = &targets[i];
        let name = match &t.name {
            Some(n) => String::from_str(n.as_str()),
            None => String::new(),
        };
        let path = match &t.path {
            Some(p) => String::from_str(p.as_str()),
            None => String::new(),
        };
        let (content, truncated) = if include_content {
            match &contents[i] {
                Some(c) => {
                    let (cut, tr) = truncate_chars(&chars_of(c.as_str()), max_chars);
                    (Some(string_of(&cut)), tr)
                },
                None => (None, false),
            }
        } else {
            (None, false)
        };
        let key = SortKey { first: chars_of(name.as_str()), second: Vec::new(), rank: 0 };
        assert(key.second@ =~= Seq::<char>::empty());
        let e = Example { name, path, required_features: copy_strings(&t.required_features), content, content_truncated: truncated };
        items.push(e);
        keys.push(key);
    }
    let ghost ks = key_views(keys@);
    let ghost us = items@;
    let out = sort_by_keys(items, keys);
    proof {
        let perm = choose|p: Seq<int>| sorts(ks, p) && out@ == Seq::new(p.len(), |i: int| us[p[i]]);
        assert(ks =~= Seq::new(ps.len(), |i: int| (targets@[ps[i]].name->0@, Seq::<char>::empty(), 0u64)));
        assert forall|k: int| 0 <= k < out@.len() implies #[trigger] reports_example(targets@[ps[perm[k]]], contents@[ps[perm[k]]], include_content, max_chars, out@[k]) by {
            assert(0 <= perm[k] < ks.len());
        }
        assert(lists_examples(targets@, contents@, ps, include_content, max_chars, perm, out@));
    }
    out
}

proof fn lemma_listed_positions(ts: Seq<ExampleTarget>, filter: Option<Seq<char>>, n: int, k: int)
    requires
        0 <= n <= ts.len(),
        0 <= k < listed_positions(ts, filter, n).len(),
    ensures
        0 <= listed_positions(ts, filter, n)[k] < n,
        listed(ts[listed_positions(ts, filter, n)[k]], filter),
    decreases n,
{
    if n > 0 {
        let prev = listed_positions(ts, filter, n - 1);
        if k < prev.len() {
            lemma_listed_positions(ts, filter, n - 1, k);
            assert(listed_positions(ts, filter, n)[k] == prev[k]);
        }
    }
}

/// How many characters of an example's source are returned unless told otherwise.
pub fn default_max_chars() -> (r: usize)
    ensures
        r == 20000,
{
    20000
}

proof fn lemma_listed_positions_all(ts: Seq<ExampleTarget>, filter: Option<Seq<char>>, n: int)
    requires
        0 <= n <= ts.len(),
    ensures
        forall|k: int|
            0 <= k < listed_positions(ts, filter, n).len() ==> 0 <= #[trigger] listed_positions(ts, filter, n)[k] < n
                && listed(ts[listed_positions(ts, filter, n)[k]], filter),
        forall|j: int| 0 <= j < n && listed(ts[j], filter) ==> #[trigger] listed_positions(ts, filter, n).contains(j),
    decreases n,
{
    if n > 0 {
        lemma_listed_positions_all(ts, filter, n - 1);
        let prev = listed_positions(ts, filter, n - 1);
        let cur = listed_positions(ts, filter, n);
        assert forall|k: int| 0 <= k < cur.len() implies 0 <= #[trigger] cur[k] < n && listed(ts[cur[k]], filter) by {
            if k < prev.len() {
                assert(cur[k] == prev[k]);
            }
        }
        assert forall|j: int| 0 <= j < n && listed(ts[j], filter) implies #[trigger] cur.contains(j) by {
            if j < n - 1 {
                assert(prev.contains(j));
                let k = choose|k: int| 0 <= k < prev.len() && prev[k] == j;
                assert(cur[k] == j);
            } else {
                assert(cur[prev.len() as int] == j);
            }
        }
    }
}

/// The example `e` reports the target at `j`: a target with a name and a
/// path, the name asked for if any, and `e` has that name and path.
pub open spec fn example_from(ts: Seq<ExampleTarget>, filter: Option<Seq<char>>, e: Example, j: int) -> bool {
    &&& 0 <= j < ts.len()
    &&& ts[j].name is Some
    &&& ts[j].path is Some
    &&& e.name@ == ts[j].name->0@
    &&& e.path@ == ts[j].path->0@
    &&& (filter matches Some(f) ==> e.name@ == f)
}

/// The example reports some target, as `example_from` says.
pub open spec fn from_some_target(ts: Seq<ExampleTarget>, filter: Option<Seq<char>>, e: Example) -> bool {
    exists|j: int| #[trigger] example_from(ts, filter, e, j)
}

/// The target at `j` is among the examples.
pub open spec fn target_reported(ts: Seq<ExampleTarget>, out: Seq<Example>, j: int) -> bool {
    exists|k: int| 0 <= k < out.len() && #[trigger] out[k].name@ == ts[j].name->0@ && out[k].path@ == ts[j].path->0@
}

/// Every example found is a target with a name and a path (the one asked
/// for, if any); every such target is found; and the examples come in
/// order of their names.
pub proof fn law_examples_found(
    ts: Seq<ExampleTarget>,
    contents: Seq<Option<String>>,
    filter: Option<Seq<char>>,
    include_content: bool,
    max_chars: usize,
    perm: Seq<int>,
    out: Seq<Example>,
)
    requires
        lists_examples(ts, contents, listed_positions(ts, filter, ts.len() as int), include_content, max_chars, perm, out),
    ensures
        forall|k: int| 0 <= k < out.len() ==> from_some_target(ts, filter, #[trigger] out[k]),
        forall|j: int|
            0 <= j < ts.len() && ts[j].name is Some && ts[j].path is Some && (filter matches Some(f) ==> ts[j].name->0@
                == f) ==> #[trigger] target_reported(ts, out, j),
        forall|k: int, l: int| 0 <= k < l < out.len() ==> !text_lt(#[trigger] out[l].name@, #[trigger] out[k].name@),
{
    let ps = listed_positions(ts, filter, ts.len() as int);
    lemma_listed_positions_all(ts, filter, ts.len() as int);
    let ks = Seq::new(ps.len(), |i: int| (ts[ps[i]].name->0@, Seq::<char>::empty(), 0u64));
    assert forall|k: int| 0 <= k < out.len() implies from_some_target(ts, filter, #[trigger] out[k]) by {
        let j = ps[perm[k]];
        assert(reports_example(ts[j], contents[j], include_content, max_chars, out[k]));
        assert(example_from(ts, filter, out[k], j));
    }
    assert forall|j: int|
        0 <= j < ts.len() && ts[j].name is Some && ts[j].path is Some && (filter matches Some(f) ==> ts[j].name->0@ == f)
            implies #[trigger] target_reported(ts, out, j) by {
        assert(listed(ts[j], filter));
        assert(ps.contains(j));
        let x = choose|x: int| 0 <= x < ps.len() && ps[x] == j;
        lemma_sorts_covers(ks, perm, x);
        let k = choose|k: int| 0 <= k < perm.len() && perm[k] == x;
        assert(reports_example(ts[ps[perm[k]]], contents[ps[perm[k]]], include_content, max_chars, out[k]));
        assert(out[k].name@ == ts[j].name->0@);
    }
    assert forall|k: int, l: int| 0 <= k < l < out.len() implies !text_lt(#[trigger] out[l].name@, #[trigger] out[k].name@) by {
        assert(crate::order::entry_lt(ks, perm[k], perm[l]));
        assert(reports_example(ts[ps[perm[k]]], contents[ps[perm[k]]], include_content, max_chars, out[k]));
        assert(reports_example(ts[ps[perm[l]]], contents[ps[perm[l]]], include_content, max_chars, out[l]));
        let a = ks[perm[k]];
        let b = ks[perm[l]];
        crate::order::lemma_key_lt_total(a, b);
        crate::order::lemma_key_lt_total(b, a);
        if text_lt(b.0, a.0) {
            if crate::order::key_lt(a, b) {
                crate::order::lemma_key_lt_trans(a, b, a);
            }
            if a == b {
                crate::order::lemma_text_lt_irrefl(a.0);
            }
        }
    }
}

} // verus!
