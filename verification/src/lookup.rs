//! Finding items by path: the canonical path first, then a walk from the
//! crate root through modules and `pub use` re-exports.

use vstd::prelude::*;
use crate::code_blocks::{code_blocks_from, extract_rust_code_blocks};
use crate::model::{
    find_item, find_path, item_position, path_position, Crate, Inner, Item, ItemKind, PathSummary,
};
use crate::render::opt_view;
use crate::text::{chars_eq, chars_of, join, join_chars, lines, string_of, views};

verus! {

/// The texts of a path's segments.
pub open spec fn seg_views(p: Seq<String>) -> Seq<Seq<char>> {
    Seq::new(p.len(), |i: int| p[i]@)
}

/// Follows `use` items from `id` for at most `fuel` steps; the position of
/// the first item that is not a `use`. `None` when an item is missing, a
/// `use` has no target, or the chain is longer than the fuel.
pub open spec fn chase(index: Seq<Item>, id: u32, fuel: nat) -> Option<nat>
    decreases fuel,
{
    if fuel == 0 {
        None
    } else {
        match find_item(index, id) {
            None => None,
            Some(p) => match index[p as int].inner {
                Inner::Use { target, .. } => match target {
                    None => None,
                    Some(t) => chase(index, t, (fuel - 1) as nat),
                },
                _ => Some(p),
            },
        }
    }
}

/// Longest `use` chain followed.
pub open spec fn chase_limit() -> nat {
    32
}

/// The name an item of a module is reached by: a `use` by the name it
/// binds, any other item by its own name.
pub open spec fn child_name(item: Item) -> Option<Seq<char>> {
    match item.inner {
        Inner::Use { name, .. } => Some(name@),
        _ => opt_view(item.name),
    }
}

/// Scans a module's children from `j` for one named `seg` and follows it
/// through `use`s; `None` when a child is missing from the index, none has
/// that name, or its chain fails.
pub open spec fn child_step(index: Seq<Item>, items: Seq<u32>, j: nat, seg: Seq<char>) -> Option<
    nat,
>
    decreases items.len() - j,
{
    if j >= items.len() {
        None
    } else {
        match find_item(index, items[j as int]) {
            None => None,
            Some(c) => if child_name(index[c as int]) == Some(seg) {
                chase(index, items[j as int], chase_limit())
            } else {
                child_step(index, items, j + 1, seg)
            },
        }
    }
}

/// Walks `segs` down from the item at position `cur`.
pub open spec fn walk(index: Seq<Item>, cur: nat, segs: Seq<Seq<char>>) -> Option<nat>
    decreases segs.len(),
{
    if segs.len() == 0 {
        Some(cur)
    } else if cur >= index.len() {
        None
    } else {
        match index[cur as int].inner {
            Inner::Module { items } => match child_step(index, items@, 0, segs[0]) {
                None => None,
                Some(n) => walk(index, n, segs.drop_first()),
            },
            _ => None,
        }
    }
}

/// First segment of the crate root's canonical path: the crate's name.
pub open spec fn crate_name(docs: Crate) -> Option<Seq<char>> {
    match find_path(docs.paths@, docs.root) {
        None => None,
        Some(p) => if docs.paths@[p as int].path@.len() > 0 {
            Some(docs.paths@[p as int].path@[0]@)
        } else {
            None
        },
    }
}

/// A walk can start: there is a segment to drop or none needs dropping.
pub open spec fn walk_ok(docs: Crate, path: Seq<Seq<char>>) -> bool {
    path.len() > 0 || crate_name(docs) is Some
}

/// Resolves `path` by walking from the crate root; a leading crate name is
/// skipped.
pub open spec fn walk_from_root_spec(docs: Crate, path: Seq<Seq<char>>) -> Option<nat> {
    let first: Option<Seq<char>> = if path.len() > 0 {
        Some(path[0])
    } else {
        None
    };
    let segs = if first == crate_name(docs) {
        path.drop_first()
    } else {
        path
    };
    match chase(docs.index@, docs.root, chase_limit()) {
        None => None,
        Some(r) => walk(docs.index@, r, segs),
    }
}

/// Position of the first path entry whose path is `path`.
pub open spec fn first_path_match(paths: Seq<PathSummary>, path: Seq<Seq<char>>, i: nat) -> Option<
    nat,
>
    decreases paths.len() - i,
{
    if i >= paths.len() {
        None
    } else if seg_views(paths[i as int].path@) == path {
        Some(i)
    } else {
        first_path_match(paths, path, i + 1)
    }
}

/// Resolves a path to an item position: the item whose canonical path it is
/// (when that item is in the index), else the item a walk from the root
/// reaches.
pub open spec fn resolve_spec(docs: Crate, path: Seq<Seq<char>>) -> Option<nat> {
    match first_path_match(docs.paths@, path, 0) {
        Some(pp) => match find_item(docs.index@, docs.paths@[pp as int].id) {
            Some(ip) => Some(ip),
            None => walk_from_root_spec(docs, path),
        },
        None => walk_from_root_spec(docs, path),
    }
}

/// Whether two paths have the same segments.
pub fn segments_eq(a: &Vec<String>, b: &[String]) -> (r: bool)
    ensures
        r == (seg_views(a@) == seg_views(b@)),
{
    if a.len() != b.len() {
        assert(seg_views(a@).len() != seg_views(b@).len());
        return false;
    }
    for i in 0..a.len()
        invariant
            a@.len() == b@.len(),
            forall|j: int| 0 <= j < i ==> a@[j]@ == b@[j]@,
    {
        let ca = chars_of(a[i].as_str());
        let cb = chars_of(b[i].as_str());
        if !chars_eq(&ca, &cb) {
            assert(seg_views(a@)[i as int] != seg_views(b@)[i as int]);
            return false;
        }
    }
    assert(seg_views(a@) =~= seg_views(b@));
    true
}

/// Whether two strings are equal.
pub fn str_eq(a: &str, b: &str) -> (r: bool)
    ensures
        r == (a@ == b@),
{
    let ca = chars_of(a);
    let cb = chars_of(b);
    chars_eq(&ca, &cb)
}

/// Follows `use` items from `start` (at most 32 of them) to the item they
/// lead to.
pub fn chase_use_chain(docs: &Crate, start: u32) -> (r: Option<usize>)
    ensures
        (match r {
            Some(p) => Some(p as nat),
            None => None,
        }) == chase(docs.index@, start, chase_limit()),
        r matches Some(p) ==> p < docs.index@.len(),
{
    let mut id = start;
    let mut k: usize = 0;
    while k < 32
        invariant
            k <= 32,
            chase(docs.index@, start, chase_limit()) == chase(docs.index@, id, (32 - k) as nat),
        decreases 32 - k,
    {
        let p = match item_position(docs, id) {
            Some(p) => p,
            None => return None,
        };
        match &docs.index[p].inner {
            Inner::Use { target, .. } => match target {
                Some(t) => {
                    id = *t;
                },
                None => return None,
            },
            _ => return Some(p),
        }
        k += 1;
    }
    None
}

/// The name a module child is reached by.
fn child_name_of(item: &Item) -> (r: Option<&String>)
    ensures
        (match r {
            Some(s) => Some(s@),
            None => None,
        }) == child_name(*item),
{
    match &item.inner {
        Inner::Use { name, .. } => Some(name),
        _ => match &item.name {
            Some(n) => Some(n),
            None => None,
        },
    }
}

/// The child of a module named `seg`, followed through `use`s.
fn find_child(docs: &Crate, items: &Vec<u32>, seg: &String) -> (r: Option<usize>)
    ensures
        (match r {
            Some(p) => Some(p as nat),
            None => None,
        }) == child_step(docs.index@, items@, 0, seg@),
        r matches Some(p) ==> p < docs.index@.len(),
{
    let mut j: usize = 0;
    while j < items.len()
        invariant
            j <= items@.len(),
            child_step(docs.index@, items@, 0, seg@) == child_step(docs.index@, items@, j as nat, seg@),
        decreases items@.len() - j,
    {
        let c = match item_position(docs, items[j]) {
            Some(c) => c,
            None => return None,
        };
        let matches = match child_name_of(&docs.index[c]) {
            Some(n) => str_eq(n.as_str(), seg.as_str()),
            None => false,
        };
        if matches {
            return chase_use_chain(docs, items[j]);
        }
        j += 1;
    }
    None
}

/// The crate's name, from its root's canonical path.
fn root_name(docs: &Crate) -> (r: Option<&String>)
    ensures
        (match r {
            Some(s) => Some(s@),
            None => None,
        }) == crate_name(*docs),
{
    match path_position(docs, docs.root) {
        None => None,
        Some(p) => {
            if docs.paths[p].path.len() > 0 {
                Some(&docs.paths[p].path[0])
            } else {
                None
            }
        },
    }
}

/// Resolves `path` by walking modules from the crate root, following
/// `pub use` re-exports; a leading crate name is skipped.
pub fn walk_from_root(docs: &Crate, path: &[String]) -> (r: Option<usize>)
    requires
        walk_ok(*docs, seg_views(path@)),
    ensures
        (match r {
            Some(p) => Some(p as nat),
            None => None,
        }) == walk_from_root_spec(*docs, seg_views(path@)),
        r matches Some(p) ==> p < docs.index@.len(),
{
    let ghost pv = seg_views(path@);
    let skip_first = match (path.len() > 0, root_name(docs)) {
        (true, Some(n)) => str_eq(path[0].as_str(), n.as_str()),
        (false, None) => true,
        _ => false,
    };
    let start: usize = if skip_first {
        1
    } else {
        0
    };
    let ghost first: Option<Seq<char>> = if pv.len() > 0 {
        Some(pv[0])
    } else {
        None
    };
    assert(skip_first == (first == crate_name(*docs)));
    let ghost segs = if skip_first {
        pv.drop_first()
    } else {
        pv
    };
    assert(start <= path@.len());
    assert(segs =~= pv.skip(start as int));
    let mut current = match chase_use_chain(docs, docs.root) {
        Some(p) => p,
        None => return None,
    };
    let mut i = start;
    while i < path.len()
        invariant
            start <= i <= path@.len(),
            pv == seg_views(path@),
            current < docs.index@.len(),
            walk_from_root_spec(*docs, pv) == walk(docs.index@, current as nat, pv.skip(i as int)),
        decreases path@.len() - i,
    {
        let ghost rest = pv.skip(i as int);
        assert(rest[0] == path@[i as int]@);
        assert(rest.drop_first() =~= pv.skip(i + 1));
        let next = match &docs.index[current].inner {
            Inner::Module { items } => find_child(docs, items, &path[i]),
            _ => None,
        };
        current = match next {
            Some(n) => n,
            None => return None,
        };
        i += 1;
    }
    assert(pv.skip(i as int) =~= Seq::<Seq<char>>::empty());
    Some(current)
}

/// Resolves a path to an item: by canonical path, else by walking from the
/// crate root through re-exports.
pub fn resolve_item(docs: &Crate, path: &[String]) -> (r: Option<usize>)
    requires
        walk_ok(*docs, seg_views(path@)),
    ensures
        (match r {
            Some(p) => Some(p as nat),
            None => None,
        }) == resolve_spec(*docs, seg_views(path@)),
        r matches Some(p) ==> p < docs.index@.len(),
{
    let ghost pv = seg_views(path@);
    let mut i: usize = 0;
    while i < docs.paths.len()
        invariant
            i <= docs.paths@.len(),
            pv == seg_views(path@),
            walk_ok(*docs, pv),
            first_path_match(docs.paths@, pv, 0) == first_path_match(docs.paths@, pv, i as nat),
        decreases docs.paths@.len() - i,
    {
        if segments_eq(&docs.paths[i].path, path) {
            if let Some(ip) = item_position(docs, docs.paths[i].id) {
                return Some(ip);
            }
            return walk_from_root(docs, path);
        }
        i += 1;
    }
    walk_from_root(docs, path)
}

/// How much of an item `get_item` reports.
#[derive(Clone, Copy, Debug, PartialEq, Eq, Structural)]
pub enum Verbosity {
    /// Shape only: no docs, no examples.
    Signature,
    /// Shape, doc string and the Rust examples in it.
    Full,
}

impl Default for Verbosity {
    fn default() -> (v: Self)
        ensures
            v == Verbosity::Full,
    {
        Verbosity::Full
    }
}

/// What `get_item` reports about an item; the structured signature is
/// attached by id by the caller that holds rustdoc's own data.
pub struct ItemRecord {
    pub id: u32,
    pub name: Option<String>,
    /// The canonical path, which may differ from the one asked for.
    pub path: String,
    pub kind: ItemKind,
    /// The doc string, at `Full` verbosity.
    pub docs: Option<String>,
    /// The Rust code blocks of the doc string, at `Full` verbosity.
    pub examples: Vec<String>,
}

/// The canonical path of the item with id `id` joined with `::`, or the
/// requested path when the item has none.
pub open spec fn record_path(docs: Crate, id: u32, path: Seq<Seq<char>>) -> Seq<char> {
    match find_path(docs.paths@, id) {
        Some(pp) => join(seg_views(docs.paths@[pp as int].path@), "::"@),
        None => join(path, "::"@),
    }
}

/// Joins path segments with `::`.
pub fn join_path(p: &[String]) -> (r: String)
    ensures
        r@ == join(seg_views(p@), "::"@),
{
    let mut parts: Vec<Vec<char>> = Vec::new();
    for i in 0..p.len()
        invariant
            views(parts@) == seg_views(p@).take(i as int),
    {
        let c = chars_of(p[i].as_str());
        let ghost prev = views(parts@);
        parts.push(c);
        assert(views(parts@) =~= prev.push(c@));
        assert(seg_views(p@).take(i + 1) =~= seg_views(p@).take(i as int).push(p@[i as int]@));
    }
    assert(seg_views(p@).take(p@.len() as int) =~= seg_views(p@));
    let sep = chars_of("::");
    string_of(&join_chars(&parts, &sep))
}

/// Looks up an item by path (canonical or re-export) and reports it: its
/// canonical path, kind and, at `Full` verbosity, its docs and examples.
pub fn get_item(docs: &Crate, path: &[String], verbosity: Verbosity) -> (r: Option<ItemRecord>)
    requires
        walk_ok(*docs, seg_views(path@)),
    ensures
        (r is Some) == (resolve_spec(*docs, seg_views(path@)) is Some),
        r matches Some(rec) ==> {
            let p = resolve_spec(*docs, seg_views(path@)).unwrap();
            let item = docs.index@[p as int];
            let full = verbosity == Verbosity::Full && item.docs is Some;
            &&& rec.id == item.id
            &&& opt_view(rec.name) == opt_view(item.name)
            &&& rec.path@ == record_path(*docs, item.id, seg_views(path@))
            &&& rec.kind == item.kind
            &&& opt_view(rec.docs) == (if full {
                opt_view(item.docs)
            } else {
                None
            })
            &&& rec.examples@.len() == (if full {
                code_blocks_from(lines(item.docs->0@), 0).len()
            } else {
                0
            })
            &&& forall|i: int|
                0 <= i < rec.examples@.len() ==> #[trigger] rec.examples@[i]@ == code_blocks_from(
                    lines(item.docs->0@),
                    0,
                )[i]
        },
{
    let p = match resolve_item(docs, path) {
        Some(p) => p,
        None => return None,
    };
    let item = &docs.index[p];
    let canonical = match path_position(docs, item.id) {
        Some(pp) => join_path(&docs.paths[pp].path),
        None => join_path(path),
    };
    let name = match &item.name {
        Some(n) => Some(String::from_str(n.as_str())),
        None => None,
    };
    let mut record = ItemRecord {
        id: item.id,
        name,
        path: canonical,
        kind: item.kind,
        docs: None,
        examples: Vec::new(),
    };
    if verbosity == Verbosity::Full {
        if let Some(d) = &item.docs {
            record.examples = extract_rust_code_blocks(d.as_str());
            record.docs = Some(String::from_str(d.as_str()));
        }
    }
    Some(record)
}

/// Position of the first `::` in `s` at or after `i`.
pub open spec fn first_sep(s: Seq<char>, i: nat) -> Option<nat>
    decreases s.len() - i,
{
    if i + 1 >= s.len() {
        None
    } else if s[i as int] == ':' && s[i + 1int] == ':' {
        Some(i)
    } else {
        first_sep(s, i + 1)
    }
}

/// `s.split("::")`: the pieces between successive `::`, scanning from the
/// left.
pub open spec fn split_path_spec(s: Seq<char>) -> Seq<Seq<char>>
    decreases s.len(),
{
    match first_sep(s, 0) {
        Some(k) => {
            if k + 2 <= s.len() {
                seq![s.take(k as int)] + split_path_spec(s.skip(k + 2int))
            } else {
                seq![s]
            }
        },
        None => seq![s],
    }
}

proof fn lemma_first_sep(s: Seq<char>, i: nat)
    ensures
        first_sep(s, i) matches Some(k) ==> i <= k && k + 2 <= s.len() && s[k as int] == ':' && s[k + 1int] == ':',
        first_sep(s, i) is None ==> forall|j: int| i <= j && j + 1 < s.len() ==> !(#[trigger] s[j] == ':' && s[j + 1] == ':'),
    decreases s.len() - i,
{
    if i + 1 < s.len() && !(s[i as int] == ':' && s[i + 1int] == ':') {
        lemma_first_sep(s, i + 1);
    }
}

proof fn lemma_first_sep_shift(s: Seq<char>, a: nat, i: nat)
    requires
        a <= s.len(),
    ensures
        first_sep(s.skip(a as int), i) == (match first_sep(s, a + i) {
            Some(k) => Some((k - a) as nat),
            None => None,
        }),
    decreases s.len() - a - i,
{
    let t = s.skip(a as int);
    if i + 1 < t.len() {
        assert(t[i as int] == s[a + i as int]);
        assert(t[i + 1int] == s[a + i + 1int]);
        if !(t[i as int] == ':' && t[i + 1int] == ':') {
            lemma_first_sep_shift(s, a, i + 1);
        }
    }
}

/// Splits a path at each `::`, as `str::split("::")` does.
pub fn split_path(path: &str) -> (r: Vec<String>)
    ensures
        crate::order::strs(r@) == split_path_spec(path@),
{
    let v = chars_of(path);
    let n = v.len();
    let mut out: Vec<String> = Vec::new();
    let mut start: usize = 0;
    let mut i: usize = 0;
    let ghost acc: Seq<Seq<char>> = seq![];
    proof {
        assert(v@.skip(0) =~= v@);
    }
    while n > 0 && i < n - 1
        invariant
            n == v@.len(),
            v@ == path@,
            start <= i <= n,
            crate::order::strs(out@) + split_path_spec(v@.skip(start as int)) == split_path_spec(v@),
            first_sep(v@, start as nat) == first_sep(v@, i as nat),
        decreases n - i,
    {
        if v[i] == ':' && v[i + 1] == ':' {
            proof {
                let rest = v@.skip(start as int);
                lemma_first_sep_shift(v@, start as nat, 0);
                assert(first_sep(rest, 0) == Some((i - start) as nat));
                assert(rest.take(i - start) =~= v@.subrange(start as int, i as int));
                assert(rest.skip(i - start + 2) =~= v@.skip(i + 2));
            }
            let piece = crate::text::copy_range(&v, start, i);
            let ghost prev = crate::order::strs(out@);
            out.push(crate::text::string_of(&piece));
            assert(crate::order::strs(out@) =~= prev.push(piece@));
            assert(prev.push(piece@) + split_path_spec(v@.skip(i + 2)) =~= prev + (seq![piece@] + split_path_spec(v@.skip(i + 2))));
            start = i + 2;
            i = i + 2;
        } else {
            i += 1;
        }
    }
    proof {
        let rest = v@.skip(start as int);
        lemma_first_sep_shift(v@, start as nat, 0);
        lemma_first_sep(v@, i as nat);
        if i + 1 >= n {
            assert(first_sep(v@, i as nat) is None);
        }
        assert(first_sep(rest, 0) is None);
        assert(split_path_spec(rest) == seq![rest]);
    }
    let piece = crate::text::copy_range(&v, start, n);
    assert(piece@ =~= v@.skip(start as int));
    let ghost prev = crate::order::strs(out@);
    out.push(crate::text::string_of(&piece));
    assert(crate::order::strs(out@) =~= prev.push(piece@));
    assert(prev + seq![piece@] =~= prev.push(piece@));
    out
}

proof fn lemma_join_cons(a: Seq<char>, rest: Seq<Seq<char>>, sep: Seq<char>)
    requires
        rest.len() > 0,
    ensures
        join(seq![a] + rest, sep) == a + sep + join(rest, sep),
    decreases rest.len(),
{
    let whole = seq![a] + rest;
    assert(whole.len() >= 2);
    assert(join(whole, sep) == join(whole.drop_last(), sep) + sep + whole.last());
    if rest.len() == 1 {
        assert(whole.drop_last() =~= seq![a]);
        assert(join(seq![a], sep) == a);
        assert(whole.last() == rest[0]);
        assert(join(rest, sep) == rest[0]);
    } else {
        lemma_join_cons(a, rest.drop_last(), sep);
        assert(whole.drop_last() =~= seq![a] + rest.drop_last());
        assert(whole.last() == rest.last());
        assert(join(rest, sep) == join(rest.drop_last(), sep) + sep + rest.last());
        assert(a + sep + join(rest.drop_last(), sep) + sep + rest.last() =~= a + sep + (join(rest.drop_last(), sep) + sep + rest.last()));
    }
}

proof fn lemma_split_nonempty(s: Seq<char>)
    ensures
        split_path_spec(s).len() > 0,
    decreases s.len(),
{
    if let Some(k) = first_sep(s, 0) {
        if k + 2 <= s.len() {
            lemma_split_nonempty(s.skip(k + 2int));
        }
    }
}

/// Joining the pieces of a split path with `::` gives the path back.
pub proof fn law_split_then_join(s: Seq<char>)
    ensures
        join(split_path_spec(s), seq![':', ':']) == s,
    decreases s.len(),
{
    lemma_first_sep(s, 0);
    match first_sep(s, 0) {
        Some(k) => {
            if k + 2 <= s.len() {
                let rest = s.skip(k + 2int);
                law_split_then_join(rest);
                lemma_split_nonempty(rest);
                lemma_join_cons(s.take(k as int), split_path_spec(rest), seq![':', ':']);
                assert(s.take(k as int) + seq![':', ':'] + rest =~= s);
            }
        },
        None => {},
    }
}

} // verus!
