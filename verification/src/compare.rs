//! What changed between two versions of a crate: public items added,
//! removed or changed, and features and dependencies whose description
//! changed.

use vstd::prelude::*;
use crate::deps::{kind_name, kind_text, Dependency};
use crate::lookup::{join_path, seg_views};
use crate::model::{find_path, path_position, Crate, Inner, ItemKind};
use crate::order::{insert_sorted_unique, strictly_sorted, strs, text_lt};
use crate::render::{item_signature, opt_view, render_item_signature};
use crate::text::{append_chars, chars_eq, chars_of, join, string_of};

verus! {

/// Values by key: each key with the JSON text of its value. Like a map, it
/// holds each key once (`keys_unique`).
pub type Keyed = Vec<(String, String)>;

/// No two entries have the same key, as in a map.
pub open spec fn keys_unique(m: Seq<(String, String)>) -> bool {
    forall|i: int, j: int| 0 <= i < j < m.len() ==> m[i].0@ != m[j].0@
}

/// Position of the first entry with key `k` at or after `i`.
pub open spec fn kv_pos_from(m: Seq<(String, String)>, k: Seq<char>, i: nat) -> Option<nat>
    decreases m.len() - i,
{
    if i >= m.len() {
        None
    } else if m[i as int].0@ == k {
        Some(i)
    } else {
        kv_pos_from(m, k, i + 1)
    }
}

/// The value of key `k`.
pub open spec fn kv_lookup(m: Seq<(String, String)>, k: Seq<char>) -> Option<Seq<char>> {
    match kv_pos_from(m, k, 0) {
        Some(p) => Some(m[p as int].1@),
        None => None,
    }
}

proof fn lemma_kv_pos_from(m: Seq<(String, String)>, k: Seq<char>, i: nat)
    ensures
        kv_pos_from(m, k, i) matches Some(p) ==> i <= p < m.len() && m[p as int].0@ == k,
        kv_pos_from(m, k, i) is None ==> forall|j: int| i <= j < m.len() ==> m[j].0@ != k,
    decreases m.len() - i,
{
    if i < m.len() && m[i as int].0@ != k {
        lemma_kv_pos_from(m, k, i + 1);
    }
}

/// Position of key `k` in `m`.
fn kv_position(m: &Keyed, k: &[char]) -> (r: Option<usize>)
    ensures
        (match r {
            Some(p) => Some(p as nat),
            None => None,
        }) == kv_pos_from(m@, k@, 0),
        r matches Some(p) ==> p < m@.len(),
{
    let mut i: usize = 0;
    while i < m.len()
        invariant
            i <= m@.len(),
            kv_pos_from(m@, k@, 0) == kv_pos_from(m@, k@, i as nat),
        decreases m@.len() - i,
    {
        let c = chars_of(m[i].0.as_str());
        if chars_eq(&c, k) {
            return Some(i);
        }
        i += 1;
    }
    None
}

/// A value that differs between the two versions; absent on the side that
/// lacks the key.
pub struct ValueChange {
    pub key: String,
    pub before: Option<String>,
    pub after: Option<String>,
}

/// The keys of a list of changes.
pub open spec fn change_keys(out: Seq<ValueChange>) -> Seq<Seq<char>> {
    Seq::new(out.len(), |i: int| out[i].key@)
}

/// `out` lists, in key order, every key whose value differs between
/// `before` and `after`, with both values.
pub open spec fn value_changes(before: Seq<(String, String)>, after: Seq<(String, String)>, out: Seq<ValueChange>) -> bool {
    &&& strictly_sorted(change_keys(out))
    &&& forall|i: int| 0 <= i < out.len() ==> {
        &&& opt_view(#[trigger] out[i].before) == kv_lookup(before, out[i].key@)
        &&& opt_view(out[i].after) == kv_lookup(after, out[i].key@)
        &&& kv_lookup(before, out[i].key@) != kv_lookup(after, out[i].key@)
    }
    &&& forall|k: Seq<char>| #[trigger] kv_lookup(before, k) != kv_lookup(after, k) ==> change_keys(out).contains(k)
}

/// Some entry among the first `n` of `m` has key `k`.
pub open spec fn key_in(m: Seq<(String, String)>, n: int, k: Seq<char>) -> bool {
    exists|j: int| 0 <= j < n && #[trigger] m[j].0@ == k
}

/// Adds the keys of `m` to a sorted list of keys.
fn sorted_keys(m: &Keyed, into: &mut Vec<String>)
    requires
        strictly_sorted(strs(old(into)@)),
    ensures
        strictly_sorted(strs(final(into)@)),
        forall|k: Seq<char>| #[trigger] strs(final(into)@).contains(k) <==> (strs(old(into)@).contains(k) || key_in(m@, m@.len() as int, k)),
{
    let ghost start = strs(into@);
    let mut i: usize = 0;
    while i < m.len()
        invariant
            i <= m@.len(),
            strictly_sorted(strs(into@)),
            forall|k: Seq<char>| #[trigger] strs(into@).contains(k) <==> (start.contains(k) || key_in(m@, i as int, k)),
        decreases m@.len() - i,
    {
        let ghost before = strs(into@);
        let s = String::from_str(m[i].0.as_str());
        let ghost sv = s@;
        assert(sv == m@[i as int].0@);
        insert_sorted_unique(into, s);
        assert forall|k: Seq<char>| #[trigger] strs(into@).contains(k) <==> (start.contains(k) || key_in(m@, i + 1, k)) by {
            assert(strs(into@).contains(k) <==> (before.contains(k) || k == sv));
            assert(before.contains(k) <==> (start.contains(k) || key_in(m@, i as int, k)));
            if key_in(m@, i + 1, k) {
                let j = choose|j: int| 0 <= j < i + 1 && #[trigger] m@[j].0@ == k;
                if j < i {
                    assert(key_in(m@, i as int, k));
                }
            }
            if key_in(m@, i as int, k) {
                let j = choose|j: int| 0 <= j < i && #[trigger] m@[j].0@ == k;
                assert(key_in(m@, i + 1, k));
            }
            if k == sv {
                assert(m@[i as int].0@ == k);
                assert(key_in(m@, i + 1, k));
            }
        }
        i += 1;
    }
}

fn copy_opt_value(m: &Keyed, p: Option<usize>) -> (r: Option<String>)
    requires
        p matches Some(q) ==> q < m@.len(),
    ensures
        opt_view(r) == (match p {
            Some(q) => Some(m@[q as int].1@),
            None => None,
        }),
{
    match p {
        Some(q) => Some(String::from_str(m[q].1.as_str())),
        None => None,
    }
}

/// The values that differ between two versions, by key.
pub fn compare_values(before: &Keyed, after: &Keyed) -> (out: Vec<ValueChange>)
    requires
        keys_unique(before@),
        keys_unique(after@),
    ensures
        value_changes(before@, after@, out@),
{
    let mut keys: Vec<String> = Vec::new();
    assert(strs(keys@) =~= seq![]);
    sorted_keys(before, &mut keys);
    sorted_keys(after, &mut keys);
    let mut out: Vec<ValueChange> = Vec::new();
    let mut i: usize = 0;
    while i < keys.len()
        invariant
            i <= keys@.len(),
            strictly_sorted(strs(keys@)),
            forall|k: Seq<char>| #[trigger] strs(keys@).contains(k) <==> (key_in(before@, before@.len() as int, k) || key_in(after@, after@.len() as int, k)),
            strictly_sorted(change_keys(out@)),
            forall|j: int| 0 <= j < out@.len() ==> {
                &&& opt_view(#[trigger] out@[j].before) == kv_lookup(before@, out@[j].key@)
                &&& opt_view(out@[j].after) == kv_lookup(after@, out@[j].key@)
                &&& kv_lookup(before@, out@[j].key@) != kv_lookup(after@, out@[j].key@)
            },
            forall|j: int| 0 <= j < out@.len() ==> exists|x: int| 0 <= x < i && #[trigger] change_keys(out@)[j] == strs(keys@)[x],
            forall|x: int| 0 <= x < i && kv_lookup(before@, #[trigger] strs(keys@)[x]) != kv_lookup(after@, strs(keys@)[x])
                ==> change_keys(out@).contains(strs(keys@)[x]),
        decreases keys@.len() - i,
    {
        let k = chars_of(keys[i].as_str());
        let ghost kv = k@;
        assert(strs(keys@)[i as int] == kv);
        let bp = kv_position(before, &k);
        let ap = kv_position(after, &k);
        let differ = match (bp, ap) {
            (None, None) => false,
            (Some(x), Some(y)) => !chars_eq(&chars_of(before[x].1.as_str()), &chars_of(after[y].1.as_str())),
            _ => true,
        };
        assert(differ == (kv_lookup(before@, kv) != kv_lookup(after@, kv)));
        if differ {
            let c = ValueChange {
                key: String::from_str(keys[i].as_str()),
                before: copy_opt_value(before, bp),
                after: copy_opt_value(after, ap),
            };
            let ghost prev = out@;
            out.push(c);
            proof {
                assert(change_keys(out@) =~= change_keys(prev).push(kv));
                assert forall|a: int, b: int| 0 <= a < b < change_keys(out@).len() implies text_lt(
                    #[trigger] change_keys(out@)[a],
                    #[trigger] change_keys(out@)[b],
                ) by {
                    if b == prev.len() {
                        let x = choose|x: int| 0 <= x < i && #[trigger] change_keys(prev)[a] == strs(keys@)[x];
                        assert(text_lt(strs(keys@)[x], strs(keys@)[i as int]));
                    } else {
                        assert(change_keys(out@)[a] == change_keys(prev)[a]);
                        assert(change_keys(out@)[b] == change_keys(prev)[b]);
                    }
                }
                assert forall|j: int| 0 <= j < out@.len() implies exists|x: int|
                    0 <= x < i + 1 && #[trigger] change_keys(out@)[j] == strs(keys@)[x] by {
                    if j < prev.len() {
                        let x = choose|x: int| 0 <= x < i && #[trigger] change_keys(prev)[j] == strs(keys@)[x];
                        assert(change_keys(out@)[j] == strs(keys@)[x]);
                    } else {
                        assert(change_keys(out@)[j] == strs(keys@)[i as int]);
                    }
                }
                assert forall|x: int| 0 <= x < i + 1 && kv_lookup(before@, #[trigger] strs(keys@)[x]) != kv_lookup(after@, strs(keys@)[x])
                    implies change_keys(out@).contains(strs(keys@)[x]) by {
                    if x < i {
                        let j = choose|j: int| 0 <= j < change_keys(prev).len() && change_keys(prev)[j] == strs(keys@)[x];
                        assert(change_keys(out@)[j] == strs(keys@)[x]);
                    } else {
                        assert(change_keys(out@)[prev.len() as int] == kv);
                    }
                }
            }
        }
        i += 1;
    }
    proof {
        assert forall|k: Seq<char>| #[trigger] kv_lookup(before@, k) != kv_lookup(after@, k) implies change_keys(out@).contains(k) by {
            lemma_kv_pos_from(before@, k, 0);
            lemma_kv_pos_from(after@, k, 0);
            if kv_pos_from(before@, k, 0) is Some {
                let p = kv_pos_from(before@, k, 0)->0;
                assert(before@[p as int].0@ == k);
                assert(key_in(before@, before@.len() as int, k));
            } else if kv_pos_from(after@, k, 0) is Some {
                let p = kv_pos_from(after@, k, 0)->0;
                assert(after@[p as int].0@ == k);
                assert(key_in(after@, after@.len() as int, k));
            }
            assert(strs(keys@).contains(k));
            let x = choose|x: int| 0 <= x < strs(keys@).len() && strs(keys@)[x] == k;
            assert(kv_lookup(before@, strs(keys@)[x]) != kv_lookup(after@, strs(keys@)[x]));
        }
    }
    out
}

proof fn lemma_kv_lookup_at(m: Seq<(String, String)>, j: int)
    requires
        keys_unique(m),
        0 <= j < m.len(),
    ensures
        kv_lookup(m, m[j].0@) == Some(m[j].1@),
{
    lemma_kv_pos_from(m, m[j].0@, 0);
    let p = kv_pos_from(m, m[j].0@, 0);
    if let Some(q) = p {
        if q as int != j {
            if (q as int) < j {
                assert(m[q as int].0@ != m[j].0@);
            } else {
                assert(m[j].0@ != m[q as int].0@);
            }
        }
    }
}

proof fn lemma_kv_lookup_absent(m: Seq<(String, String)>, k: Seq<char>)
    requires
        forall|j: int| 0 <= j < m.len() ==> #[trigger] m[j].0@ != k,
    ensures
        kv_lookup(m, k) is None,
{
    lemma_kv_pos_from(m, k, 0);
}

/// How entries show in a comparison of two maps: a key only in the later one
/// is reported with no earlier value and its later value; a key only in the
/// earlier one with its earlier value and no later one; a key in both with
/// different values with both; a key in both with the same value is not
/// reported.
pub proof fn law_value_changes_entries(
    before: Seq<(String, String)>,
    after: Seq<(String, String)>,
    out: Seq<ValueChange>,
    k: Seq<char>,
)
    requires
        keys_unique(before),
        keys_unique(after),
        value_changes(before, after, out),
    ensures
        (forall|j: int| 0 <= j < before.len() ==> #[trigger] before[j].0@ != k) ==> forall|j: int|
            0 <= j < after.len() && #[trigger] after[j].0@ == k ==> exists|i: int|
                0 <= i < out.len() && #[trigger] out[i].key@ == k && out[i].before is None && opt_view(out[i].after)
                    == Some(after[j].1@),
        (forall|j: int| 0 <= j < after.len() ==> #[trigger] after[j].0@ != k) ==> forall|j: int|
            0 <= j < before.len() && #[trigger] before[j].0@ == k ==> exists|i: int|
                0 <= i < out.len() && #[trigger] out[i].key@ == k && opt_view(out[i].before) == Some(before[j].1@)
                    && out[i].after is None,
        forall|a: int, b: int|
            0 <= a < before.len() && 0 <= b < after.len() && #[trigger] before[a].0@ == k && #[trigger] after[b].0@
                == k && before[a].1@ != after[b].1@ ==> exists|i: int|
                0 <= i < out.len() && #[trigger] out[i].key@ == k && opt_view(out[i].before) == Some(before[a].1@)
                    && opt_view(out[i].after) == Some(after[b].1@),
        forall|a: int, b: int|
            0 <= a < before.len() && 0 <= b < after.len() && #[trigger] before[a].0@ == k && #[trigger] after[b].0@
                == k && before[a].1@ == after[b].1@ ==> !change_keys(out).contains(k),
{
    assert forall|a: int, b: int|
        0 <= a < before.len() && 0 <= b < after.len() && #[trigger] before[a].0@ == k && #[trigger] after[b].0@ == k
            && before[a].1@ == after[b].1@ implies !change_keys(out).contains(k) by {
        lemma_kv_lookup_at(before, a);
        lemma_kv_lookup_at(after, b);
        if change_keys(out).contains(k) {
            let i = choose|i: int| 0 <= i < change_keys(out).len() && change_keys(out)[i] == k;
            assert(out[i].key@ == k);
            assert(opt_view(out[i].before) == kv_lookup(before, out[i].key@));
            assert(kv_lookup(before, k) != kv_lookup(after, k));
        }
    }
    assert forall|a: int, b: int|
        0 <= a < before.len() && 0 <= b < after.len() && #[trigger] before[a].0@ == k && #[trigger] after[b].0@ == k
            && before[a].1@ != after[b].1@ implies exists|i: int|
        0 <= i < out.len() && #[trigger] out[i].key@ == k && opt_view(out[i].before) == Some(before[a].1@) && opt_view(
            out[i].after,
        ) == Some(after[b].1@) by {
        lemma_kv_lookup_at(before, a);
        lemma_kv_lookup_at(after, b);
        assert(kv_lookup(before, k) != kv_lookup(after, k));
        assert(change_keys(out).contains(k));
        let i = choose|i: int| 0 <= i < change_keys(out).len() && change_keys(out)[i] == k;
        assert(out[i].key@ == k);
        assert(opt_view(out[i].before) == kv_lookup(before, out[i].key@));
    }
    if forall|j: int| 0 <= j < before.len() ==> #[trigger] before[j].0@ != k {
        lemma_kv_lookup_absent(before, k);
        assert forall|j: int| 0 <= j < after.len() && #[trigger] after[j].0@ == k implies exists|i: int|
            0 <= i < out.len() && #[trigger] out[i].key@ == k && out[i].before is None && opt_view(out[i].after) == Some(
                after[j].1@,
            ) by {
            lemma_kv_lookup_at(after, j);
            assert(change_keys(out).contains(k));
            let i = choose|i: int| 0 <= i < change_keys(out).len() && change_keys(out)[i] == k;
            assert(out[i].key@ == k);
            assert(opt_view(out[i].before) == kv_lookup(before, out[i].key@));
        }
    }
    if forall|j: int| 0 <= j < after.len() ==> #[trigger] after[j].0@ != k {
        lemma_kv_lookup_absent(after, k);
        assert forall|j: int| 0 <= j < before.len() && #[trigger] before[j].0@ == k implies exists|i: int|
            0 <= i < out.len() && #[trigger] out[i].key@ == k && opt_view(out[i].before) == Some(before[j].1@)
                && out[i].after is None by {
            lemma_kv_lookup_at(before, j);
            assert(change_keys(out).contains(k));
            let i = choose|i: int| 0 <= i < change_keys(out).len() && change_keys(out)[i] == k;
            assert(out[i].key@ == k);
            assert(opt_view(out[i].before) == kv_lookup(before, out[i].key@));
        }
    }
}

/// Two versions with the same values have no changes.
pub proof fn law_equal_values_have_no_changes(m: Seq<(String, String)>, out: Seq<ValueChange>)
    requires
        value_changes(m, m, out),
    ensures
        out.len() == 0,
{
    if out.len() > 0 {
        assert(opt_view(out[0].before) == kv_lookup(m, out[0].key@));
    }
}

/// The key of a dependency in a comparison: name, kind and target cfg,
/// joined by `:`.
pub open spec fn dependency_key_spec(name: Seq<char>, kind: crate::deps::DependencyKind, target: Option<Seq<char>>) -> Seq<char> {
    name + seq![':'] + kind_text(kind) + seq![':'] + match target {
        Some(t) => t,
        None => seq![],
    }
}

/// The key of a dependency in a comparison.
pub fn dependency_key(dependency: &Dependency) -> (r: String)
    ensures
        r@ == dependency_key_spec(dependency.name@, dependency.kind, opt_view(dependency.target)),
{
    let mut v = chars_of(dependency.name.as_str());
    v.push(':');
    append_chars(&mut v, &kind_name(dependency.kind));
    v.push(':');
    match &dependency.target {
        Some(t) => append_chars(&mut v, &chars_of(t.as_str())),
        None => {},
    }
    let r = string_of(&v);
    assert(r@ =~= dependency_key_spec(dependency.name@, dependency.kind, opt_view(dependency.target)));
    r
}

/// A public item of one version.
pub struct ApiItem {
    /// Its canonical path, joined with `::`.
    pub path: String,
    pub kind: ItemKind,
    pub signature: Option<String>,
}

/// The text of an item: path, kind and signature.
pub type ApiItemView = (Seq<char>, ItemKind, Option<Seq<char>>);

pub open spec fn api_item_view(a: ApiItem) -> ApiItemView {
    (a.path@, a.kind, opt_view(a.signature))
}

/// A copy of an item.
pub fn api_item(item: &ApiItem) -> (r: ApiItem)
    ensures
        api_item_view(r) == api_item_view(*item),
{
    ApiItem {
        path: String::from_str(item.path.as_str()),
        kind: item.kind,
        signature: match &item.signature {
            Some(s) => Some(String::from_str(s.as_str())),
            None => None,
        },
    }
}

/// An item of one version with its full description as JSON text, which
/// decides whether it changed.
pub struct ApiSnapshot {
    pub item: ApiItem,
    pub structured: String,
}

/// The text of a snapshot.
pub type SnapView = (ApiItemView, Seq<char>);

pub open spec fn snap_view(s: ApiSnapshot) -> SnapView {
    (api_item_view(s.item), s.structured@)
}

pub open spec fn snap_views(s: Seq<ApiSnapshot>) -> Seq<SnapView> {
    Seq::new(s.len(), |i: int| snap_view(s[i]))
}

/// The snapshot of the item at position `i` of the index, described by
/// `structured`: only items of this crate with a known path, and no imports.
pub open spec fn snapshot_of(docs: Crate, i: int, structured: Seq<char>) -> Option<SnapView> {
    let item = docs.index@[i];
    if item.crate_id == 0 && !(item.inner is Use) {
        match find_path(docs.paths@, item.id) {
            Some(pp) => Some((
                (
                    join(seg_views(docs.paths@[pp as int].path@), seq![':', ':']),
                    item.kind,
                    item_signature(opt_view(item.name), item.kind, item.inner),
                ),
                structured,
            )),
            None => None,
        }
    } else {
        None
    }
}

/// The snapshots of the first `n` items of the index, in index order.
pub open spec fn snapshots(docs: Crate, structured: Seq<String>, n: int) -> Seq<SnapView>
    decreases n,
{
    if n <= 0 {
        seq![]
    } else {
        snapshots(docs, structured, n - 1) + match snapshot_of(docs, n - 1, structured[n - 1]@) {
            Some(s) => seq![s],
            None => seq![],
        }
    }
}

/// The public surface of one version: each item of this crate with a path,
/// and the JSON text of its description (the entry of `structured` at the
/// item's position in the index).
pub fn api_snapshot(docs: &Crate, structured: &Vec<String>) -> (out: Vec<ApiSnapshot>)
    requires
        structured@.len() == docs.index@.len(),
    ensures
        snap_views(out@) == snapshots(*docs, structured@, docs.index@.len() as int),
{
    let mut out: Vec<ApiSnapshot> = Vec::new();
    let mut i: usize = 0;
    while i < docs.index.len()
        invariant
            i <= docs.index@.len(),
            structured@.len() == docs.index@.len(),
            snap_views(out@) == snapshots(*docs, structured@, i as int),
        decreases docs.index@.len() - i,
    {
        let item = &docs.index[i];
        let ghost prev = out@;
        let is_use = match &item.inner {
            Inner::Use { .. } => true,
            _ => false,
        };
        if item.crate_id == 0 && !is_use {
            match path_position(docs, item.id) {
                Some(pp) => {
                    let path = join_path(docs.paths[pp].path.as_slice());
                    proof {
                        reveal_strlit("::");
                        assert("::"@ =~= seq![':', ':']);
                    }
                    let snap = ApiSnapshot {
                        item: ApiItem { path, kind: item.kind, signature: render_item_signature(item) },
                        structured: String::from_str(structured[i].as_str()),
                    };
                    out.push(snap);
                    assert(snap_views(out@) =~= snap_views(prev).push(snap_view(snap)));
                    assert(snapshot_of(*docs, i as int, structured@[i as int]@) == Some(snap_view(snap)));
                },
                None => {},
            }
        }
        assert(snap_views(out@) =~= snapshots(*docs, structured@, i + 1));
        i += 1;
    }
    out
}

/// The path of a snapshot.
pub open spec fn snap_path(x: SnapView) -> Seq<char> {
    let (item, _) = x;
    item.0
}

/// The signature of a snapshot.
pub open spec fn snap_sig(x: SnapView) -> Option<Seq<char>> {
    let (item, _) = x;
    item.2
}

/// The description of a snapshot.
pub open spec fn snap_desc(x: SnapView) -> Seq<char> {
    x.1
}

/// Position of the first snapshot with path `p` at or after `i`.
pub open spec fn snap_pos_from(s: Seq<SnapView>, p: Seq<char>, i: nat) -> Option<nat>
    decreases s.len() - i,
{
    if i >= s.len() {
        None
    } else if snap_path(s[i as int]) == p {
        Some(i)
    } else {
        snap_pos_from(s, p, i + 1)
    }
}

/// The snapshot of path `p` (its first occurrence).
pub open spec fn snap_lookup(s: Seq<SnapView>, p: Seq<char>) -> Option<SnapView> {
    match snap_pos_from(s, p, 0) {
        Some(i) => Some(s[i as int]),
        None => None,
    }
}

proof fn lemma_snap_pos_from(s: Seq<SnapView>, p: Seq<char>, i: nat)
    ensures
        snap_pos_from(s, p, i) matches Some(j) ==> i <= j < s.len() && snap_path(s[j as int]) == p,
        snap_pos_from(s, p, i) is None ==> forall|j: int| i <= j < s.len() ==> snap_path(s[j]) != p,
    decreases s.len() - i,
{
    if i < s.len() && snap_path(s[i as int]) != p {
        lemma_snap_pos_from(s, p, i + 1);
    }
}

/// Position of path `p` among the snapshots.
fn snap_position(s: &Vec<ApiSnapshot>, p: &[char]) -> (r: Option<usize>)
    ensures
        (match r {
            Some(q) => Some(q as nat),
            None => None,
        }) == snap_pos_from(snap_views(s@), p@, 0),
        r matches Some(q) ==> q < s@.len(),
{
    let ghost sv = snap_views(s@);
    let mut i: usize = 0;
    while i < s.len()
        invariant
            i <= s@.len(),
            sv == snap_views(s@),
            snap_pos_from(sv, p@, 0) == snap_pos_from(sv, p@, i as nat),
        decreases s@.len() - i,
    {
        let c = chars_of(s[i].item.path.as_str());
        if chars_eq(&c, p) {
            return Some(i);
        }
        i += 1;
    }
    None
}

/// Some snapshot among the first `n` has path `p`.
pub open spec fn path_in(s: Seq<SnapView>, n: int, p: Seq<char>) -> bool {
    exists|j: int| 0 <= j < n && #[trigger] snap_path(s[j]) == p
}

/// The paths of the snapshots, sorted, once each.
fn sorted_paths(s: &Vec<ApiSnapshot>) -> (out: Vec<String>)
    ensures
        strictly_sorted(strs(out@)),
        forall|p: Seq<char>| #[trigger] strs(out@).contains(p) <==> path_in(snap_views(s@), s@.len() as int, p),
{
    let ghost sv = snap_views(s@);
    let mut out: Vec<String> = Vec::new();
    assert(strs(out@) =~= seq![]);
    let mut i: usize = 0;
    while i < s.len()
        invariant
            i <= s@.len(),
            sv == snap_views(s@),
            strictly_sorted(strs(out@)),
            forall|p: Seq<char>| #[trigger] strs(out@).contains(p) <==> path_in(sv, i as int, p),
        decreases s@.len() - i,
    {
        let ghost before = strs(out@);
        let t = String::from_str(s[i].item.path.as_str());
        let ghost tv = t@;
        assert(tv == snap_path(sv[i as int]));
        insert_sorted_unique(&mut out, t);
        assert forall|p: Seq<char>| #[trigger] strs(out@).contains(p) <==> path_in(sv, i + 1, p) by {
            assert(strs(out@).contains(p) <==> (before.contains(p) || p == tv));
            assert(before.contains(p) <==> path_in(sv, i as int, p));
            if path_in(sv, i + 1, p) {
                let j = choose|j: int| 0 <= j < i + 1 && #[trigger] snap_path(sv[j]) == p;
                if j < i {
                    assert(path_in(sv, i as int, p));
                }
            }
            if path_in(sv, i as int, p) {
                let j = choose|j: int| 0 <= j < i && #[trigger] snap_path(sv[j]) == p;
                assert(path_in(sv, i + 1, p));
            }
            if p == tv {
                assert(snap_path(sv[i as int]) == p);
                assert(path_in(sv, i + 1, p));
            }
        }
        i += 1;
    }
    out
}

proof fn lemma_path_in_lookup(s: Seq<SnapView>, p: Seq<char>)
    ensures
        path_in(s, s.len() as int, p) <==> snap_lookup(s, p) is Some,
        snap_lookup(s, p) matches Some(x) ==> snap_path(x) == p,
{
    lemma_snap_pos_from(s, p, 0);
    if path_in(s, s.len() as int, p) {
        let j = choose|j: int| 0 <= j < s.len() && #[trigger] snap_path(s[j]) == p;
    }
    if snap_pos_from(s, p, 0) is Some {
        let j = snap_pos_from(s, p, 0)->0;
        assert(snap_path(s[j as int]) == p);
    }
}

/// The paths of a list of items.
pub open spec fn item_paths(items: Seq<ApiItem>) -> Seq<Seq<char>> {
    Seq::new(items.len(), |i: int| items[i].path@)
}

/// `out` lists, by path, the items of `from` whose path `other` lacks, each
/// as `from` describes it.
pub open spec fn only_in(from: Seq<SnapView>, other: Seq<SnapView>, out: Seq<ApiItem>) -> bool {
    &&& strictly_sorted(item_paths(out))
    &&& forall|i: int| 0 <= i < out.len() ==> {
        &&& snap_lookup(from, #[trigger] out[i].path@) matches Some(x) && x.0 == api_item_view(out[i])
        &&& snap_lookup(other, out[i].path@) is None
    }
    &&& forall|p: Seq<char>| #[trigger] snap_lookup(from, p) is Some && snap_lookup(other, p) is None
        ==> item_paths(out).contains(p)
}

/// The items of `from` whose path `other` lacks, by path.
fn items_only_in(from: &Vec<ApiSnapshot>, other: &Vec<ApiSnapshot>) -> (out: Vec<ApiItem>)
    ensures
        only_in(snap_views(from@), snap_views(other@), out@),
{
    let ghost fv = snap_views(from@);
    let ghost ov = snap_views(other@);
    let paths = sorted_paths(from);
    let mut out: Vec<ApiItem> = Vec::new();
    let mut i: usize = 0;
    while i < paths.len()
        invariant
            i <= paths@.len(),
            fv == snap_views(from@),
            ov == snap_views(other@),
            strictly_sorted(strs(paths@)),
            forall|p: Seq<char>| #[trigger] strs(paths@).contains(p) <==> path_in(fv, from@.len() as int, p),
            strictly_sorted(item_paths(out@)),
            forall|j: int| 0 <= j < out@.len() ==> {
                &&& snap_lookup(fv, #[trigger] out@[j].path@) matches Some(x) && x.0 == api_item_view(out@[j])
                &&& snap_lookup(ov, out@[j].path@) is None
            },
            forall|j: int| 0 <= j < out@.len() ==> exists|x: int| 0 <= x < i && #[trigger] item_paths(out@)[j] == strs(paths@)[x],
            forall|x: int| 0 <= x < i && #[trigger] snap_lookup(ov, strs(paths@)[x]) is None
                ==> item_paths(out@).contains(strs(paths@)[x]),
        decreases paths@.len() - i,
    {
        let p = chars_of(paths[i].as_str());
        let ghost pv = p@;
        assert(strs(paths@)[i as int] == pv);
        assert(strs(paths@).contains(pv));
        proof {
            lemma_path_in_lookup(fv, pv);
        }
        let fp = snap_position(from, &p);
        let op = snap_position(other, &p);
        if op.is_none() {
            let q = fp.unwrap();
            let item = api_item(&from[q].item);
            let ghost prev = out@;
            out.push(item);
            proof {
                assert(item_paths(out@) =~= item_paths(prev).push(pv));
                assert forall|a: int, b: int| 0 <= a < b < item_paths(out@).len() implies text_lt(
                    #[trigger] item_paths(out@)[a],
                    #[trigger] item_paths(out@)[b],
                ) by {
                    if b == prev.len() {
                        let x = choose|x: int| 0 <= x < i && #[trigger] item_paths(prev)[a] == strs(paths@)[x];
                        assert(text_lt(strs(paths@)[x], strs(paths@)[i as int]));
                    } else {
                        assert(item_paths(out@)[a] == item_paths(prev)[a]);
                        assert(item_paths(out@)[b] == item_paths(prev)[b]);
                    }
                }
                assert forall|j: int| 0 <= j < out@.len() implies exists|x: int|
                    0 <= x < i + 1 && #[trigger] item_paths(out@)[j] == strs(paths@)[x] by {
                    if j < prev.len() {
                        let x = choose|x: int| 0 <= x < i && #[trigger] item_paths(prev)[j] == strs(paths@)[x];
                        assert(item_paths(out@)[j] == strs(paths@)[x]);
                    } else {
                        assert(item_paths(out@)[j] == strs(paths@)[i as int]);
                    }
                }
                assert forall|x: int| 0 <= x < i + 1 && #[trigger] snap_lookup(ov, strs(paths@)[x]) is None
                    implies item_paths(out@).contains(strs(paths@)[x]) by {
                    if x < i {
                        let j = choose|j: int| 0 <= j < item_paths(prev).len() && item_paths(prev)[j] == strs(paths@)[x];
                        assert(item_paths(out@)[j] == strs(paths@)[x]);
                    } else {
                        assert(item_paths(out@)[prev.len() as int] == pv);
                    }
                }
                assert forall|j: int| 0 <= j < out@.len() implies {
                    &&& snap_lookup(fv, #[trigger] out@[j].path@) matches Some(x) && x.0 == api_item_view(out@[j])
                    &&& snap_lookup(ov, out@[j].path@) is None
                } by {
                    if j < prev.len() {
                        assert(out@[j] == prev[j]);
                    }
                }
            }
        }
        i += 1;
    }
    proof {
        assert forall|p: Seq<char>| #[trigger] snap_lookup(fv, p) is Some && snap_lookup(ov, p) is None
            implies item_paths(out@).contains(p) by {
            lemma_path_in_lookup(fv, p);
            assert(strs(paths@).contains(p));
            let x = choose|x: int| 0 <= x < strs(paths@).len() && strs(paths@)[x] == p;
            assert(snap_lookup(ov, strs(paths@)[x]) is None);
        }
    }
    out
}

/// An item of both versions whose description changed, with its signature
/// in each.
pub struct SignatureChange {
    pub path: String,
    pub before: Option<String>,
    pub after: Option<String>,
}

pub open spec fn change_paths(out: Seq<SignatureChange>) -> Seq<Seq<char>> {
    Seq::new(out.len(), |i: int| out[i].path@)
}

/// Both versions have an item at `p`, described differently.
pub open spec fn changed_at(before: Seq<SnapView>, after: Seq<SnapView>, p: Seq<char>) -> bool {
    &&& snap_lookup(before, p) is Some
    &&& snap_lookup(after, p) is Some
    &&& snap_desc(snap_lookup(before, p)->0) != snap_desc(snap_lookup(after, p)->0)
}

/// `out` lists, by path, the items whose description changed, with their
/// signatures before and after.
pub open spec fn signature_changes(before: Seq<SnapView>, after: Seq<SnapView>, out: Seq<SignatureChange>) -> bool {
    &&& strictly_sorted(change_paths(out))
    &&& forall|i: int| 0 <= i < out.len() ==> {
        &&& changed_at(before, after, #[trigger] out[i].path@)
        &&& opt_view(out[i].before) == snap_sig(snap_lookup(before, out[i].path@)->0)
        &&& opt_view(out[i].after) == snap_sig(snap_lookup(after, out[i].path@)->0)
    }
    &&& forall|p: Seq<char>| #[trigger] changed_at(before, after, p) ==> change_paths(out).contains(p)
}

fn copy_opt(s: &Option<String>) -> (r: Option<String>)
    ensures
        opt_view(r) == opt_view(*s),
{
    match s {
        Some(t) => Some(String::from_str(t.as_str())),
        None => None,
    }
}

/// The items of both versions whose description changed, by path.
fn changed_signatures(before: &Vec<ApiSnapshot>, after: &Vec<ApiSnapshot>) -> (out: Vec<SignatureChange>)
    ensures
        signature_changes(snap_views(before@), snap_views(after@), out@),
{
    let ghost bv = snap_views(before@);
    let ghost av = snap_views(after@);
    let paths = sorted_paths(before);
    let mut out: Vec<SignatureChange> = Vec::new();
    let mut i: usize = 0;
    while i < paths.len()
        invariant
            i <= paths@.len(),
            bv == snap_views(before@),
            av == snap_views(after@),
            strictly_sorted(strs(paths@)),
            forall|p: Seq<char>| #[trigger] strs(paths@).contains(p) <==> path_in(bv, before@.len() as int, p),
            strictly_sorted(change_paths(out@)),
            forall|j: int| 0 <= j < out@.len() ==> {
                &&& changed_at(bv, av, #[trigger] out@[j].path@)
                &&& opt_view(out@[j].before) == snap_sig(snap_lookup(bv, out@[j].path@)->0)
                &&& opt_view(out@[j].after) == snap_sig(snap_lookup(av, out@[j].path@)->0)
            },
            forall|j: int| 0 <= j < out@.len() ==> exists|x: int| 0 <= x < i && #[trigger] change_paths(out@)[j] == strs(paths@)[x],
            forall|x: int| 0 <= x < i && #[trigger] changed_at(bv, av, strs(paths@)[x])
                ==> change_paths(out@).contains(strs(paths@)[x]),
        decreases paths@.len() - i,
    {
        let p = chars_of(paths[i].as_str());
        let ghost pv = p@;
        assert(strs(paths@)[i as int] == pv);
        assert(strs(paths@).contains(pv));
        proof {
            lemma_path_in_lookup(bv, pv);
        }
        let bp = snap_position(before, &p);
        let ap = snap_position(after, &p);
        if let Some(y) = ap {
            let x = bp.unwrap();
            let differ = !chars_eq(&chars_of(before[x].structured.as_str()), &chars_of(after[y].structured.as_str()));
            assert(differ == changed_at(bv, av, pv));
            if differ {
                let c = SignatureChange {
                    path: String::from_str(paths[i].as_str()),
                    before: copy_opt(&before[x].item.signature),
                    after: copy_opt(&after[y].item.signature),
                };
                let ghost prev = out@;
                out.push(c);
                proof {
                    assert(change_paths(out@) =~= change_paths(prev).push(pv));
                    assert forall|a: int, b: int| 0 <= a < b < change_paths(out@).len() implies text_lt(
                        #[trigger] change_paths(out@)[a],
                        #[trigger] change_paths(out@)[b],
                    ) by {
                        if b == prev.len() {
                            let x = choose|x: int| 0 <= x < i && #[trigger] change_paths(prev)[a] == strs(paths@)[x];
                            assert(text_lt(strs(paths@)[x], strs(paths@)[i as int]));
                        } else {
                            assert(change_paths(out@)[a] == change_paths(prev)[a]);
                            assert(change_paths(out@)[b] == change_paths(prev)[b]);
                        }
                    }
                    assert forall|j: int| 0 <= j < out@.len() implies exists|x: int|
                        0 <= x < i + 1 && #[trigger] change_paths(out@)[j] == strs(paths@)[x] by {
                        if j < prev.len() {
                            let x = choose|x: int| 0 <= x < i && #[trigger] change_paths(prev)[j] == strs(paths@)[x];
                            assert(change_paths(out@)[j] == strs(paths@)[x]);
                        } else {
                            assert(change_paths(out@)[j] == strs(paths@)[i as int]);
                        }
                    }
                    assert forall|x: int| 0 <= x < i + 1 && #[trigger] changed_at(bv, av, strs(paths@)[x])
                        implies change_paths(out@).contains(strs(paths@)[x]) by {
                        if x < i {
                            let j = choose|j: int| 0 <= j < change_paths(prev).len() && change_paths(prev)[j] == strs(paths@)[x];
                            assert(change_paths(out@)[j] == strs(paths@)[x]);
                        } else {
                            assert(change_paths(out@)[prev.len() as int] == pv);
                        }
                    }
                    assert forall|j: int| 0 <= j < out@.len() implies {
                        &&& changed_at(bv, av, #[trigger] out@[j].path@)
                        &&& opt_view(out@[j].before) == snap_sig(snap_lookup(bv, out@[j].path@)->0)
                        &&& opt_view(out@[j].after) == snap_sig(snap_lookup(av, out@[j].path@)->0)
                    } by {
                        if j < prev.len() {
                            assert(out@[j] == prev[j]);
                        }
                    }
                }
            }
        } else {
            assert(!changed_at(bv, av, pv));
        }
        i += 1;
    }
    proof {
        assert forall|p: Seq<char>| #[trigger] changed_at(bv, av, p) implies change_paths(out@).contains(p) by {
            lemma_path_in_lookup(bv, p);
            assert(strs(paths@).contains(p));
            let x = choose|x: int| 0 <= x < strs(paths@).len() && strs(paths@)[x] == p;
            assert(changed_at(bv, av, strs(paths@)[x]));
        }
    }
    out
}

/// What changed from one version to the next. Values of features and
/// dependencies are JSON texts.
pub struct VersionComparison {
    pub items_added: Vec<ApiItem>,
    pub items_removed: Vec<ApiItem>,
    pub signatures_changed: Vec<SignatureChange>,
    pub features_changed: Vec<ValueChange>,
    pub dependencies_changed: Vec<ValueChange>,
    pub msrv_before: Option<String>,
    pub msrv_after: Option<String>,
}

/// `c` compares the two versions described by the arguments.
pub open spec fn compares(
    before: Seq<SnapView>,
    after: Seq<SnapView>,
    features_before: Seq<(String, String)>,
    features_after: Seq<(String, String)>,
    deps_before: Seq<(String, String)>,
    deps_after: Seq<(String, String)>,
    msrv_before: Option<Seq<char>>,
    msrv_after: Option<Seq<char>>,
    c: VersionComparison,
) -> bool {
    &&& only_in(after, before, c.items_added@)
    &&& only_in(before, after, c.items_removed@)
    &&& signature_changes(before, after, c.signatures_changed@)
    &&& value_changes(features_before, features_after, c.features_changed@)
    &&& value_changes(deps_before, deps_after, c.dependencies_changed@)
    &&& opt_view(c.msrv_before) == msrv_before
    &&& opt_view(c.msrv_after) == msrv_after
}

/// Compares two versions: their public items (snapshots), features and
/// dependencies (keyed JSON texts) and minimum Rust versions.
pub fn compare_versions(
    before: &Vec<ApiSnapshot>,
    after: &Vec<ApiSnapshot>,
    features_before: &Keyed,
    features_after: &Keyed,
    deps_before: &Keyed,
    deps_after: &Keyed,
    msrv_before: Option<String>,
    msrv_after: Option<String>,
) -> (c: VersionComparison)
    requires
        keys_unique(features_before@),
        keys_unique(features_after@),
        keys_unique(deps_before@),
        keys_unique(deps_after@),
    ensures
        compares(
            snap_views(before@),
            snap_views(after@),
            features_before@,
            features_after@,
            deps_before@,
            deps_after@,
            opt_view(msrv_before),
            opt_view(msrv_after),
            c,
        ),
{
    VersionComparison {
        items_added: items_only_in(after, before),
        items_removed: items_only_in(before, after),
        signatures_changed: changed_signatures(before, after),
        features_changed: compare_values(features_before, features_after),
        dependencies_changed: compare_values(deps_before, deps_after),
        msrv_before,
        msrv_after,
    }
}

/// Comparing a version with itself finds no change.
pub proof fn law_identical_versions_have_no_changes(
    s: Seq<SnapView>,
    features: Seq<(String, String)>,
    deps: Seq<(String, String)>,
    msrv: Option<Seq<char>>,
    c: VersionComparison,
)
    requires
        compares(s, s, features, features, deps, deps, msrv, msrv, c),
    ensures
        c.items_added@.len() == 0,
        c.items_removed@.len() == 0,
        c.signatures_changed@.len() == 0,
        c.features_changed@.len() == 0,
        c.dependencies_changed@.len() == 0,
        opt_view(c.msrv_before) == opt_view(c.msrv_after),
{
    if c.items_added@.len() > 0 {
        assert(snap_lookup(s, c.items_added@[0].path@) is None);
    }
    if c.items_removed@.len() > 0 {
        assert(snap_lookup(s, c.items_removed@[0].path@) is None);
    }
    if c.signatures_changed@.len() > 0 {
        assert(changed_at(s, s, c.signatures_changed@[0].path@));
    }
    law_equal_values_have_no_changes(features, c.features_changed@);
    law_equal_values_have_no_changes(deps, c.dependencies_changed@);
}

} // verus!
