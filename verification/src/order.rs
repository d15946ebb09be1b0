//! Ordering of text the way `String`'s `Ord` orders it, and a stable sort
//! of values by keys made of two texts and a number.

use vstd::prelude::*;
use crate::text::{chars_eq, chars_of};

verus! {

/// Strict lexicographic order on characters by code point, which is the
/// order `str`'s `Ord` gives (UTF-8 preserves code-point order bytewise).
pub open spec fn text_lt(x: Seq<char>, y: Seq<char>) -> bool
    decreases x.len(),
{
    if x.len() == 0 {
        y.len() > 0
    } else if y.len() == 0 {
        false
    } else if x[0] != y[0] {
        x[0] < y[0]
    } else {
        text_lt(x.drop_first(), y.drop_first())
    }
}

/// `text_lt` is irreflexive.
pub proof fn lemma_text_lt_irrefl(x: Seq<char>)
    ensures
        !text_lt(x, x),
    decreases x.len(),
{
    if x.len() > 0 {
        lemma_text_lt_irrefl(x.drop_first());
    }
}

/// `text_lt` is transitive.
pub proof fn lemma_text_lt_trans(x: Seq<char>, y: Seq<char>, z: Seq<char>)
    requires
        text_lt(x, y),
        text_lt(y, z),
    ensures
        text_lt(x, z),
    decreases x.len(),
{
    if x.len() > 0 && y.len() > 0 && z.len() > 0 {
        if x[0] == y[0] && y[0] == z[0] {
            lemma_text_lt_trans(x.drop_first(), y.drop_first(), z.drop_first());
        }
    }
}

/// `text_lt` is total on distinct texts.
pub proof fn lemma_text_lt_total(x: Seq<char>, y: Seq<char>)
    ensures
        x == y || text_lt(x, y) || text_lt(y, x),
    decreases x.len(),
{
    if x.len() > 0 && y.len() > 0 {
        if x[0] == y[0] {
            lemma_text_lt_total(x.drop_first(), y.drop_first());
            if x.drop_first() == y.drop_first() {
                assert(x =~= seq![x[0]] + x.drop_first());
                assert(y =~= seq![y[0]] + y.drop_first());
            }
        }
    } else if x.len() == 0 && y.len() == 0 {
        assert(x =~= y);
    }
}

/// Whether `v[lo..]` orders strictly before `w`.
pub fn text_less(v: &[char], w: &[char]) -> (r: bool)
    ensures
        r == text_lt(v@, w@),
{
    let mut i: usize = 0;
    assert(v@.skip(0) =~= v@);
    assert(w@.skip(0) =~= w@);
    while i < v.len() && i < w.len()
        invariant
            i <= v@.len() && i <= w@.len(),
            forall|j: int| 0 <= j < i ==> v@[j] == w@[j],
            text_lt(v@, w@) == text_lt(v@.skip(i as int), w@.skip(i as int)),
        decreases v@.len() - i,
    {
        if v[i] != w[i] {
            return v[i] < w[i];
        }
        assert(v@.skip(i as int).drop_first() =~= v@.skip(i + 1));
        assert(w@.skip(i as int).drop_first() =~= w@.skip(i + 1));
        i += 1;
    }
    i == v.len() && i < w.len()
}

/// A sort key: two texts and a rank, compared in that order.
pub struct SortKey {
    pub first: Vec<char>,
    pub second: Vec<char>,
    pub rank: u64,
}

/// The mathematical content of a sort key.
pub type KeyView = (Seq<char>, Seq<char>, u64);

/// The view of a sort key.
pub open spec fn key_view(k: SortKey) -> KeyView {
    (k.first@, k.second@, k.rank)
}

/// The views of a sequence of sort keys.
pub open spec fn key_views(ks: Seq<SortKey>) -> Seq<KeyView> {
    Seq::new(ks.len(), |i: int| key_view(ks[i]))
}

/// Strict order on keys: by first text, then second text, then rank.
pub open spec fn key_lt(a: KeyView, b: KeyView) -> bool {
    ||| text_lt(a.0, b.0)
    ||| a.0 == b.0 && text_lt(a.1, b.1)
    ||| a.0 == b.0 && a.1 == b.1 && a.2 < b.2
}

/// Position `i` sorts before position `j`: smaller key, or equal keys and an
/// earlier position (which makes the sort stable).
pub open spec fn entry_lt(ks: Seq<KeyView>, i: int, j: int) -> bool {
    key_lt(ks[i], ks[j]) || (ks[i] == ks[j] && i < j)
}

/// `p` lists every position of `ks` once, ordered by `entry_lt`: it is the
/// stable sort of the positions by key.
pub open spec fn sorts(ks: Seq<KeyView>, p: Seq<int>) -> bool {
    &&& p.len() == ks.len()
    &&& forall|i: int| 0 <= i < p.len() ==> 0 <= #[trigger] p[i] < ks.len()
    &&& forall|i: int, j: int| 0 <= i < j < p.len() ==> #[trigger] p[i] != #[trigger] p[j]
    &&& forall|i: int, j: int|
        0 <= i < j < p.len() ==> entry_lt(ks, #[trigger] p[i], #[trigger] p[j])
}

/// `key_lt` is transitive.
pub proof fn lemma_key_lt_trans(a: KeyView, b: KeyView, c: KeyView)
    requires
        key_lt(a, b),
        key_lt(b, c),
    ensures
        key_lt(a, c),
{
    if text_lt(a.0, b.0) && text_lt(b.0, c.0) {
        lemma_text_lt_trans(a.0, b.0, c.0);
    }
    if a.0 == b.0 && b.0 == c.0 && text_lt(a.1, b.1) && text_lt(b.1, c.1) {
        lemma_text_lt_trans(a.1, b.1, c.1);
    }
}

/// `key_lt` is total on distinct keys and irreflexive.
pub proof fn lemma_key_lt_total(a: KeyView, b: KeyView)
    ensures
        a == b || key_lt(a, b) || key_lt(b, a),
        !key_lt(a, a),
{
    lemma_text_lt_total(a.0, b.0);
    lemma_text_lt_total(a.1, b.1);
    lemma_text_lt_irrefl(a.0);
    lemma_text_lt_irrefl(a.1);
}

/// Whether key `a` orders strictly before key `b`.
pub fn key_less(a: &SortKey, b: &SortKey) -> (r: bool)
    ensures
        r == key_lt(key_view(*a), key_view(*b)),
{
    if text_less(&a.first, &b.first) {
        return true;
    }
    if !crate::text::chars_eq(&a.first, &b.first) {
        return false;
    }
    if text_less(&a.second, &b.second) {
        return true;
    }
    if !crate::text::chars_eq(&a.second, &b.second) {
        return false;
    }
    a.rank < b.rank
}

/// Sorts `items` stably by `keys` (the key at each position belongs to the
/// item at that position).
pub fn sort_by_keys<T>(items: Vec<T>, keys: Vec<SortKey>) -> (out: Vec<T>)
    requires
        items@.len() == keys@.len(),
    ensures
        exists|p: Seq<int>|
            sorts(key_views(keys@), p) && out@ == Seq::new(p.len(), |i: int| items@[p[i]]),
{
    let ghost ks = key_views(keys@);
    let ghost all = items@;
    let ghost n = items@.len();
    let mut items = items;
    let mut keys = keys;
    let mut out: Vec<T> = Vec::new();
    let mut out_keys: Vec<SortKey> = Vec::new();
    let ghost mut q: Seq<int> = seq![];
    while items.len() > 0
        invariant
            items@.len() == keys@.len(),
            items@ == all.take(items@.len() as int),
            key_views(keys@) == ks.take(items@.len() as int),
            ks.len() == n,
            all.len() == n,
            items@.len() <= n,
            q.len() == out@.len(),
            out_keys@.len() == out@.len(),
            q.len() + items@.len() == n,
            forall|i: int| 0 <= i < q.len() ==> items@.len() <= #[trigger] q[i] < n,
            forall|i: int| 0 <= i < q.len() ==> out@[i] == all[#[trigger] q[i]],
            forall|i: int| 0 <= i < q.len() ==> key_view(#[trigger] out_keys@[i]) == ks[q[i]],
            forall|i: int, j: int| 0 <= i < j < q.len() ==> #[trigger] q[i] != #[trigger] q[j],
            forall|i: int, j: int|
                0 <= i < j < q.len() ==> entry_lt(ks, #[trigger] q[i], #[trigger] q[j]),
        decreases items@.len(),
    {
        let ghost t = (items@.len() - 1) as int;
        let ghost old_keys = keys@;
        let ghost old_items = items@;
        let item = items.pop().unwrap();
        let key = keys.pop().unwrap();
        assert(key == old_keys[t]);
        assert(key_views(old_keys)[t] == key_view(key));
        assert(key_view(key) == ks[t]);
        assert(item == old_items[t]);
        assert(item == all[t]);
        assert(key_views(keys@) =~= ks.take(items@.len() as int)) by {
            assert(key_views(keys@) =~= key_views(old_keys).take(t));
        }
        assert(items@ =~= all.take(items@.len() as int));
        let mut pos: usize = 0;
        while pos < out_keys.len() && key_less(&out_keys[pos], &key)
            invariant
                pos <= out_keys@.len(),
                out_keys@.len() == q.len(),
                key_view(key) == ks[t],
                forall|i: int| 0 <= i < q.len() ==> key_view(#[trigger] out_keys@[i]) == ks[q[i]],
                forall|i: int| 0 <= i < pos ==> key_lt(ks[#[trigger] q[i]], ks[t]),
            decreases out_keys@.len() - pos,
        {
            pos += 1;
        }
        let ghost old_q = q;
        proof {
            if pos < q.len() {
                assert(!key_lt(ks[q[pos as int]], ks[t]));
            }
            q = q.insert(pos as int, t);
            assert forall|i: int, j: int| 0 <= i < j < q.len() implies entry_lt(
                ks,
                #[trigger] q[i],
                #[trigger] q[j],
            ) by {
                if j < pos {
                    assert(q[i] == old_q[i] && q[j] == old_q[j]);
                } else if j == pos {
                    assert(q[i] == old_q[i]);
                    assert(key_lt(ks[old_q[i]], ks[t]));
                } else if i == pos {
                    let qj = old_q[j - 1];
                    assert(q[j] == qj);
                    let qp = old_q[pos as int];
                    lemma_key_lt_total(ks[qp], ks[t]);
                    if pos as int == j - 1 {
                    } else {
                        assert(entry_lt(ks, old_q[pos as int], old_q[j - 1]));
                        if key_lt(ks[t], ks[qp]) && key_lt(ks[qp], ks[qj]) {
                            lemma_key_lt_trans(ks[t], ks[qp], ks[qj]);
                        }
                    }
                } else if i < pos {
                    assert(q[i] == old_q[i] && q[j] == old_q[j - 1]);
                } else {
                    assert(q[i] == old_q[i - 1] && q[j] == old_q[j - 1]);
                }
            }
            assert forall|i: int, j: int| 0 <= i < j < q.len() implies #[trigger] q[i]
                != #[trigger] q[j] by {
                if i == pos {
                    assert(q[j] == old_q[j - 1]);
                } else if j == pos {
                    assert(q[i] == old_q[i]);
                } else if i < pos && j < pos {
                    assert(q[i] == old_q[i] && q[j] == old_q[j]);
                } else if i < pos {
                    assert(q[i] == old_q[i] && q[j] == old_q[j - 1]);
                } else {
                    assert(q[i] == old_q[i - 1] && q[j] == old_q[j - 1]);
                }
            }
        }
        out.insert(pos, item);
        out_keys.insert(pos, key);
        assert forall|i: int| 0 <= i < q.len() implies out@[i] == all[#[trigger] q[i]] by {
            if i < pos {
                assert(q[i] == old_q[i]);
            } else if i > pos {
                assert(q[i] == old_q[i - 1]);
            }
        }
        assert forall|i: int| 0 <= i < q.len() implies key_view(#[trigger] out_keys@[i])
            == ks[q[i]] by {
            if i < pos {
                assert(q[i] == old_q[i]);
            } else if i > pos {
                assert(q[i] == old_q[i - 1]);
            }
        }
        assert forall|i: int| 0 <= i < q.len() implies items@.len() <= #[trigger] q[i] < n by {
            if i < pos {
                assert(q[i] == old_q[i]);
            } else if i > pos {
                assert(q[i] == old_q[i - 1]);
            }
        }
    }
    assert(sorts(ks, q));
    assert(out@ =~= Seq::new(q.len(), |i: int| all[q[i]]));
    out
}

/// `out` is `vs` stably sorted by `key`.
pub open spec fn stably_sorted<V>(vs: Seq<V>, key: spec_fn(V) -> KeyView, out: Seq<V>) -> bool {
    exists|p: Seq<int>|
        sorts(Seq::new(vs.len(), |i: int| key(vs[i])), p) && out == Seq::new(p.len(), |i: int| vs[p[i]])
}

/// A stable sort of positions holds every position.
pub proof fn lemma_sorts_covers(ks: Seq<KeyView>, p: Seq<int>, x: int)
    requires
        sorts(ks, p),
        0 <= x < ks.len(),
    ensures
        p.contains(x),
{
    assert(p.no_duplicates()) by {
        assert forall|i: int, j: int| 0 <= i < p.len() && 0 <= j < p.len() && i != j implies p[i] != p[j] by {
            if i < j {
                assert(p[i] != p[j]);
            } else {
                assert(p[j] != p[i]);
            }
        }
    }
    p.unique_seq_to_set();
    let r = vstd::set_lib::set_int_range(0, ks.len() as int);
    vstd::set_lib::lemma_int_range(0, ks.len() as int);
    assert(p.to_set().subset_of(r)) by {
        assert forall|y: int| p.to_set().contains(y) implies r.contains(y) by {
            let k = choose|k: int| 0 <= k < p.len() && p[k] == y;
            assert(0 <= p[k] < ks.len());
        }
    }
    vstd::set_lib::lemma_len_subset(p.to_set(), r);
    vstd::set_lib::lemma_subset_equality(p.to_set(), r);
    assert(r.contains(x));
    assert(p.to_set().contains(x));
}

/// `entry_lt` never holds both ways.
proof fn lemma_entry_lt_asym(ks: Seq<KeyView>, a: int, b: int)
    requires
        entry_lt(ks, a, b),
    ensures
        !entry_lt(ks, b, a),
{
    lemma_key_lt_total(ks[a], ks[b]);
    lemma_key_lt_total(ks[b], ks[a]);
    if key_lt(ks[a], ks[b]) && key_lt(ks[b], ks[a]) {
        lemma_key_lt_trans(ks[a], ks[b], ks[a]);
    }
}

proof fn lemma_sorts_prefix(ks: Seq<KeyView>, p: Seq<int>, q: Seq<int>, n: int)
    requires
        sorts(ks, p),
        sorts(ks, q),
        0 <= n <= p.len(),
    ensures
        forall|k: int| 0 <= k < n ==> p[k] == q[k],
    decreases n,
{
    if n > 0 {
        lemma_sorts_prefix(ks, p, q, n - 1);
        let i = n - 1;
        let a = p[i];
        let b = q[i];
        if a != b {
            lemma_sorts_covers(ks, q, a);
            lemma_sorts_covers(ks, p, b);
            let j = choose|j: int| 0 <= j < q.len() && q[j] == a;
            let m = choose|m: int| 0 <= m < p.len() && p[m] == b;
            if j < i {
                assert(q[j] == p[j]);
                assert(p[j] != p[i]);
            }
            if m < i {
                assert(p[m] == q[m]);
                assert(q[m] != q[i]);
            }
            assert(j > i && m > i);
            assert(entry_lt(ks, q[i], q[j]));
            assert(entry_lt(ks, p[i], p[m]));
            lemma_entry_lt_asym(ks, a, b);
        }
    }
}

/// There is one stable sort of given keys.
pub proof fn lemma_sorts_unique(ks: Seq<KeyView>, p: Seq<int>, q: Seq<int>)
    requires
        sorts(ks, p),
        sorts(ks, q),
    ensures
        p == q,
{
    lemma_sorts_prefix(ks, p, q, p.len() as int);
    assert(p =~= q);
}

/// There is one stable sort of given values.
pub proof fn lemma_stably_sorted_unique<V>(vs: Seq<V>, key: spec_fn(V) -> KeyView, a: Seq<V>, b: Seq<V>)
    requires
        stably_sorted(vs, key, a),
        stably_sorted(vs, key, b),
    ensures
        a == b,
{
    let ks = Seq::new(vs.len(), |i: int| key(vs[i]));
    let p = choose|p: Seq<int>| sorts(ks, p) && a == Seq::new(p.len(), |i: int| vs[p[i]]);
    let q = choose|q: Seq<int>| sorts(ks, q) && b == Seq::new(q.len(), |i: int| vs[q[i]]);
    lemma_sorts_unique(ks, p, q);
}

/// A stable sort holds the values it sorts and nothing else.
pub proof fn lemma_stably_sorted_members<V>(vs: Seq<V>, key: spec_fn(V) -> KeyView, out: Seq<V>)
    requires
        stably_sorted(vs, key, out),
    ensures
        out.len() == vs.len(),
        forall|i: int| 0 <= i < out.len() ==> vs.contains(#[trigger] out[i]),
        forall|j: int| 0 <= j < vs.len() ==> out.contains(#[trigger] vs[j]),
{
    let ks = Seq::new(vs.len(), |i: int| key(vs[i]));
    let p = choose|p: Seq<int>| sorts(ks, p) && out == Seq::new(p.len(), |i: int| vs[p[i]]);
    assert forall|i: int| 0 <= i < out.len() implies vs.contains(#[trigger] out[i]) by {
        assert(0 <= p[i] < vs.len());
        assert(vs[p[i]] == out[i]);
    }
    assert forall|j: int| 0 <= j < vs.len() implies out.contains(#[trigger] vs[j]) by {
        lemma_sorts_covers(ks, p, j);
        let k = choose|k: int| 0 <= k < p.len() && p[k] == j;
        assert(out[k] == vs[j]);
    }
}

/// A sort of values carries over to their views.
pub proof fn lemma_sorted_views<T, V>(
    items: Seq<T>,
    out: Seq<T>,
    view: spec_fn(T) -> V,
    key: spec_fn(V) -> KeyView,
    ks: Seq<KeyView>,
)
    requires
        ks == Seq::new(items.len(), |i: int| key(view(items[i]))),
        exists|p: Seq<int>| sorts(ks, p) && out == Seq::new(p.len(), |i: int| items[p[i]]),
    ensures
        stably_sorted(
            Seq::new(items.len(), |i: int| view(items[i])),
            key,
            Seq::new(out.len(), |i: int| view(out[i])),
        ),
{
    let p = choose|p: Seq<int>| sorts(ks, p) && out == Seq::new(p.len(), |i: int| items[p[i]]);
    let vs = Seq::new(items.len(), |i: int| view(items[i]));
    assert(Seq::new(vs.len(), |i: int| key(vs[i])) =~= ks);
    assert forall|i: int| 0 <= i < p.len() implies Seq::new(out.len(), |i: int| view(out[i]))[i]
        == vs[p[i]] by {
        assert(0 <= p[i] < ks.len());
    }
    assert(Seq::new(out.len(), |i: int| view(out[i])) =~= Seq::new(p.len(), |i: int| vs[p[i]]));
}

/// The texts of a list of strings.
pub open spec fn strs(v: Seq<String>) -> Seq<Seq<char>> {
    Seq::new(v.len(), |i: int| v[i]@)
}

/// `s` is in strictly increasing text order.
pub open spec fn strictly_sorted(s: Seq<Seq<char>>) -> bool {
    forall|i: int, j: int| 0 <= i < j < s.len() ==> text_lt(#[trigger] s[i], #[trigger] s[j])
}

/// Inserts `s` into a strictly sorted list of texts unless it is there.
pub fn insert_sorted_unique(out: &mut Vec<String>, s: String)
    requires
        strictly_sorted(strs(old(out)@)),
    ensures
        strictly_sorted(strs(final(out)@)),
        forall|x: Seq<char>| strs(final(out)@).contains(x) <==> (strs(old(out)@).contains(x) || x == s@),
{
    let sv = chars_of(s.as_str());
    let ghost olds = strs(out@);
    let mut i: usize = 0;
    while i < out.len()
        invariant_except_break
            i <= out@.len(),
            olds == strs(out@),
            sv@ == s@,
            forall|k: int| 0 <= k < i ==> text_lt(#[trigger] olds[k], s@),
        ensures
            i <= out@.len(),
            olds == strs(out@),
            sv@ == s@,
            forall|k: int| 0 <= k < i ==> text_lt(#[trigger] olds[k], s@),
            i < out@.len() ==> !text_lt(olds[i as int], s@),
        decreases out@.len() - i,
    {
        let c = chars_of(out[i].as_str());
        assert(olds[i as int] == c@);
        if !text_less(&c, &sv) {
            break;
        }
        i += 1;
    }
    if i < out.len() {
        let c = chars_of(out[i].as_str());
        if chars_eq(&c, &sv) {
            assert(olds[i as int] == s@);
            return;
        }
        proof {
            lemma_text_lt_total(olds[i as int], s@);
        }
    }
    let ghost sview = s@;
    out.insert(i, s);
    proof {
        let news = strs(out@);
        assert(news =~= olds.insert(i as int, sview));
        assert forall|a: int, b: int| 0 <= a < b < news.len() implies text_lt(#[trigger] news[a], #[trigger] news[b]) by {
            if b < i {
                assert(news[a] == olds[a] && news[b] == olds[b]);
            } else if b == i {
                assert(news[a] == olds[a]);
            } else if a == i {
                assert(news[b] == olds[b - 1]);
                if b - 1 > i {
                    assert(text_lt(olds[i as int], olds[b - 1]));
                    lemma_text_lt_trans(sview, olds[i as int], olds[b - 1]);
                }
            } else if a < i {
                assert(news[a] == olds[a] && news[b] == olds[b - 1]);
                if b - 1 >= i {
                    lemma_text_lt_trans(olds[a], sview, olds[i as int]);
                    if b - 1 > i {
                        assert(text_lt(olds[i as int], olds[b - 1]));
                        lemma_text_lt_trans(olds[a], olds[i as int], olds[b - 1]);
                    }
                }
            } else {
                assert(news[a] == olds[a - 1] && news[b] == olds[b - 1]);
            }
        }
        assert forall|x: Seq<char>| news.contains(x) <==> (olds.contains(x) || x == sview) by {
            if news.contains(x) {
                let k = choose|k: int| 0 <= k < news.len() && #[trigger] news[k] == x;
                if k < i {
                    assert(olds[k] == x);
                } else if k > i {
                    assert(olds[k - 1] == x);
                }
            }
            if olds.contains(x) {
                let k = choose|k: int| 0 <= k < olds.len() && #[trigger] olds[k] == x;
                if k < i {
                    assert(news[k] == x);
                } else {
                    assert(news[k + 1] == x);
                }
            }
            if x == sview {
                assert(news[i as int] == x);
            }
        }
    }
}

/// Sort key of a text: the text itself.
pub open spec fn text_key(s: Seq<char>) -> KeyView {
    (s, Seq::empty(), 0u64)
}

/// Sorts texts into `String`'s order.
pub fn sort_texts(v: Vec<String>) -> (out: Vec<String>)
    ensures
        stably_sorted(strs(v@), |s: Seq<char>| text_key(s), strs(out@)),
{
    let mut keys: Vec<SortKey> = Vec::new();
    for i in 0..v.len()
        invariant
            keys@.len() == i,
            forall|j: int| 0 <= j < i ==> key_view(#[trigger] keys@[j]) == text_key(v@[j]@),
    {
        let k = SortKey { first: chars_of(v[i].as_str()), second: Vec::new(), rank: 0 };
        assert(k.second@ =~= Seq::<char>::empty());
        keys.push(k);
    }
    let ghost ks = key_views(keys@);
    let ghost us = v@;
    let out = sort_by_keys(v, keys);
    proof {
        assert(ks =~= Seq::new(us.len(), |i: int| (|s: Seq<char>| text_key(s))((|r: String| r@)(us[i]))));
        lemma_sorted_views(us, out@, |r: String| r@, |s: Seq<char>| text_key(s), ks);
        assert(strs(us) =~= Seq::new(us.len(), |i: int| (|r: String| r@)(us[i])));
        assert(strs(out@) =~= Seq::new(out@.len(), |i: int| (|r: String| r@)(out@[i])));
    }
    out
}

/// A copy of a list of strings.
pub fn copy_strings(v: &Vec<String>) -> (out: Vec<String>)
    ensures
        strs(out@) == strs(v@),
{
    let mut out: Vec<String> = Vec::new();
    for i in 0..v.len()
        invariant
            strs(out@) == strs(v@).take(i as int),
    {
        let s = String::from_str(v[i].as_str());
        let ghost prev = out@;
        out.push(s);
        assert(strs(out@) =~= strs(prev).push(s@));
        assert(strs(v@).take(i + 1) =~= strs(v@).take(i as int).push(v@[i as int]@));
    }
    assert(strs(v@).take(v@.len() as int) =~= strs(v@));
    out
}

/// Whether `x` is among the texts of `v`.
pub fn contains_text(v: &Vec<String>, x: &[char]) -> (r: bool)
    ensures
        r == strs(v@).contains(x@),
{
    for i in 0..v.len()
        invariant
            forall|k: int| 0 <= k < i ==> strs(v@)[k] != x@,
    {
        let c = chars_of(v[i].as_str());
        if chars_eq(&c, x) {
            assert(strs(v@)[i as int] == x@);
            return true;
        }
    }
    false
}

} // verus!
