//! Listings over the rustdoc index: a module's children, a type's trait
//! impls and methods, a trait's implementors.

use vstd::prelude::*;
use crate::lookup::{chase, chase_limit, join_path, seg_views};
use crate::markdown::{summary_of, summary_spec};
use crate::model::{crate_position, find_crate, find_item, find_path, item_position, path_position, Crate, Inner, Item, ItemKind, kind_rank, kind_rank_spec};
use crate::order::{key_view, key_views, lemma_sorted_views, sort_by_keys, stably_sorted, KeyView, SortKey};
use crate::render::opt_view;
use crate::text::{chars_of, copy_range, join, string_of};

verus! {

/// Where a re-exported item comes from: the external crate (none for this
/// crate) and its version when its docs live on docs.rs.
pub struct Reexport {
    pub source_crate: Option<String>,
    pub source_version: Option<String>,
}

/// A child of a module.
pub struct Entry {
    pub name: String,
    pub kind: ItemKind,
    /// First paragraph of the docs.
    pub summary: Option<String>,
    pub deprecated: bool,
    /// Set for a non-glob `pub use`.
    pub reexport: Option<Reexport>,
}

/// A glob re-export of another crate's module (`pub use other::*`).
pub struct UnexpandedExternalGlob {
    /// Path of the module that holds the glob.
    pub prefix: String,
    pub source_crate: String,
    pub source_version: Option<String>,
}

/// A module listing.
pub struct Listing {
    pub entries: Vec<Entry>,
    pub unexpanded_external_globs: Vec<UnexpandedExternalGlob>,
}

/// Mathematical content of a re-export attribution.
pub type ReexportView = (Option<Seq<char>>, Option<Seq<char>>);

/// Mathematical content of a module entry.
pub type EntryView = (Seq<char>, ItemKind, Option<Seq<char>>, bool, Option<ReexportView>);

/// The view of a re-export attribution.
pub open spec fn reexport_view(r: Reexport) -> ReexportView {
    (opt_view(r.source_crate), opt_view(r.source_version))
}

/// The view of a module entry.
pub open spec fn entry_view(e: Entry) -> EntryView {
    (
        e.name@,
        e.kind,
        opt_view(e.summary),
        e.deprecated,
        match e.reexport {
            Some(r) => Some(reexport_view(r)),
            None => None,
        },
    )
}

/// The version in a docs.rs URL: its last non-empty `/`-separated segment,
/// when that starts with an ASCII digit (`https://docs.rs/axum-core/0.5.2/`
/// gives `0.5.2`).
pub open spec fn docs_rs_version(url: Seq<char>) -> Option<Seq<char>> {
    let end = trailing_slashes_end(url, url.len());
    let start = segment_start(url, end);
    if start < end && '0' <= url[start as int] && url[start as int] <= '9' {
        Some(url.subrange(start as int, end as int))
    } else {
        None
    }
}

/// End of `url[..i]` once trailing `/`s are dropped.
pub open spec fn trailing_slashes_end(url: Seq<char>, i: nat) -> nat
    decreases i,
{
    if i == 0 || i > url.len() {
        i
    } else if url[i - 1] == '/' {
        trailing_slashes_end(url, (i - 1) as nat)
    } else {
        i
    }
}

/// Start of the segment that ends at `i`: just after the last `/` before it.
pub open spec fn segment_start(url: Seq<char>, i: nat) -> nat
    decreases i,
{
    if i == 0 || i > url.len() {
        0
    } else if url[i - 1] == '/' {
        i
    } else {
        segment_start(url, (i - 1) as nat)
    }
}

/// Reads the crate version out of a docs.rs URL.
pub fn parse_version_from_docs_rs_url(url: &str) -> (r: Option<String>)
    ensures
        opt_view(r) == docs_rs_version(url@),
{
    let v = chars_of(url);
    let mut end = v.len();
    while end > 0 && v[end - 1] == '/'
        invariant
            end <= v@.len(),
            trailing_slashes_end(v@, v@.len()) == trailing_slashes_end(v@, end as nat),
        decreases end,
    {
        end -= 1;
    }
    let mut start = end;
    while start > 0 && v[start - 1] != '/'
        invariant
            start <= end <= v@.len(),
            segment_start(v@, end as nat) == segment_start(v@, start as nat),
        decreases start,
    {
        start -= 1;
    }
    if start < end && '0' <= v[start] && v[start] <= '9' {
        Some(string_of(&copy_range(&v, start, end)))
    } else {
        None
    }
}

/// The version of an external crate, from its docs URL.
pub open spec fn crate_version_of(docs: Crate, crate_pos: nat) -> Option<Seq<char>> {
    match docs.external_crates@[crate_pos as int].html_root_url {
        Some(u) => docs_rs_version(u@),
        None => None,
    }
}

/// Where an item of the index comes from: nothing for this crate's items,
/// else the external crate it belongs to.
pub open spec fn reexport_spec(docs: Crate, item: Item) -> ReexportView {
    if item.crate_id == 0 {
        (None, None)
    } else {
        match find_crate(docs.external_crates@, item.crate_id) {
            None => (None, None),
            Some(c) => (Some(docs.external_crates@[c as int].name@), crate_version_of(docs, c)),
        }
    }
}

/// The attribution of an external crate's entry.
fn crate_reexport(docs: &Crate, c: Option<usize>) -> (r: Reexport)
    requires
        c matches Some(p) ==> p < docs.external_crates@.len(),
    ensures
        reexport_view(r) == (match c {
            None => (None, None),
            Some(p) => (
                Some(docs.external_crates@[p as int].name@),
                crate_version_of(*docs, p as nat),
            ),
        }),
{
    match c {
        None => Reexport { source_crate: None, source_version: None },
        Some(p) => {
            let ext = &docs.external_crates[p];
            let version = match &ext.html_root_url {
                Some(u) => parse_version_from_docs_rs_url(u.as_str()),
                None => None,
            };
            Reexport { source_crate: Some(String::from_str(ext.name.as_str())), source_version: version }
        },
    }
}

/// Where a resolved item comes from.
pub fn reexport_info(docs: &Crate, item: &Item) -> (r: Reexport)
    ensures
        reexport_view(r) == reexport_spec(*docs, *item),
{
    if item.crate_id == 0 {
        Reexport { source_crate: None, source_version: None }
    } else {
        let c = crate_position(docs, item.crate_id);
        crate_reexport(docs, c)
    }
}

/// The item a module child stands for: itself, or for a `use` the item its
/// chain of `use`s leads to.
pub open spec fn through_uses(docs: Crate, pos: nat) -> Option<nat> {
    match docs.index@[pos as int].inner {
        Inner::Use { target, .. } => match target {
            Some(t) => chase(docs.index@, t, chase_limit()),
            None => None,
        },
        _ => Some(pos),
    }
}

/// Follows an item through `use`s to the item it stands for.
pub fn resolve_through_uses(docs: &Crate, pos: usize) -> (r: Option<usize>)
    requires
        pos < docs.index@.len(),
    ensures
        (match r {
            Some(p) => Some(p as nat),
            None => None,
        }) == through_uses(*docs, pos as nat),
        r matches Some(p) ==> p < docs.index@.len(),
{
    match &docs.index[pos].inner {
        Inner::Use { target, .. } => match target {
            Some(t) => crate::lookup::chase_use_chain(docs, *t),
            None => None,
        },
        _ => Some(pos),
    }
}

/// The entry a module child gives: a non-glob `use` is listed under the
/// name it binds with the kind, docs and origin of what it leads to (for a
/// target outside the index, with the kind of its path entry and its
/// external crate); a glob gives none; any other named item is listed as
/// itself.
pub open spec fn entry_spec(docs: Crate, pos: nat) -> Option<EntryView> {
    let child = docs.index@[pos as int];
    match child.inner {
        Inner::Use { name, target, is_glob } => if is_glob {
            None
        } else {
            match target {
                None => None,
                Some(t) => match find_item(docs.index@, t) {
                    Some(_) => match through_uses(docs, find_item(docs.index@, t)->0) {
                        None => None,
                        Some(r) => {
                            let res = docs.index@[r as int];
                            Some(
                                (
                                    name@,
                                    res.kind,
                                    summary_spec(opt_view(res.docs)),
                                    res.deprecated,
                                    Some(reexport_spec(docs, res)),
                                ),
                            )
                        },
                    },
                    None => match find_path(docs.paths@, t) {
                        None => None,
                        Some(sp) => {
                            let s = docs.paths@[sp as int];
                            let rx: ReexportView = match find_crate(docs.external_crates@, s.crate_id) {
                                None => (None, None),
                                Some(c) => (
                                    Some(docs.external_crates@[c as int].name@),
                                    crate_version_of(docs, c),
                                ),
                            };
                            Some((name@, s.kind, None, false, Some(rx)))
                        },
                    },
                },
            }
        },
        _ => match child.name {
            None => None,
            Some(n) => Some((n@, child.kind, summary_spec(opt_view(child.docs)), child.deprecated, None)),
        },
    }
}

/// A string's copy.
fn copy_string(s: &String) -> (r: String)
    ensures
        r@ == s@,
{
    String::from_str(s.as_str())
}

/// The summary of an item's docs.
fn item_summary(item: &Item) -> (r: Option<String>)
    ensures
        opt_view(r) == summary_spec(opt_view(item.docs)),
{
    match &item.docs {
        Some(d) => summary_of(Some(d.as_str())),
        None => summary_of(None),
    }
}

/// The entry a module child gives, if any.
pub fn entry_from_child(docs: &Crate, pos: usize) -> (r: Option<Entry>)
    requires
        pos < docs.index@.len(),
    ensures
        (match r {
            Some(e) => Some(entry_view(e)),
            None => None,
        }) == entry_spec(*docs, pos as nat),
{
    let child = &docs.index[pos];
    match &child.inner {
        Inner::Use { name, target, is_glob } => {
            if *is_glob {
                return None;
            }
            let t = match target {
                Some(t) => *t,
                None => return None,
            };
            match item_position(docs, t) {
                Some(tp) => {
                    let r = match resolve_through_uses(docs, tp) {
                        Some(r) => r,
                        None => return None,
                    };
                    let res = &docs.index[r];
                    let e = Entry {
                        name: copy_string(name),
                        kind: res.kind,
                        summary: item_summary(res),
                        deprecated: res.deprecated,
                        reexport: Some(reexport_info(docs, res)),
                    };
                    Some(e)
                },
                None => {
                    let sp = match path_position(docs, t) {
                        Some(sp) => sp,
                        None => return None,
                    };
                    let s = &docs.paths[sp];
                    let c = crate_position(docs, s.crate_id);
                    let rx = crate_reexport(docs, c);
                    Some(Entry { name: copy_string(name), kind: s.kind, summary: None, deprecated: false, reexport: Some(rx) })
                },
            }
        },
        _ => match &child.name {
            None => None,
            Some(n) => Some(
                Entry {
                    name: copy_string(n),
                    kind: child.kind,
                    summary: item_summary(child),
                    deprecated: child.deprecated,
                    reexport: None,
                },
            ),
        },
    }
}

/// The entries of the first `n` children, in order.
pub open spec fn child_entries(docs: Crate, items: Seq<u32>, n: nat) -> Seq<EntryView>
    decreases n,
{
    if n == 0 {
        seq![]
    } else {
        let prev = child_entries(docs, items, (n - 1) as nat);
        match find_item(docs.index@, items[n - 1]) {
            None => prev,
            Some(c) => match entry_spec(docs, c) {
                Some(e) => prev.push(e),
                None => prev,
            },
        }
    }
}

/// The sort key of an entry: name, then kind.
pub open spec fn entry_key(e: EntryView) -> KeyView {
    (e.0, seq![], kind_rank_spec(e.1))
}

/// The views of a sequence of entries.
pub open spec fn entry_views(es: Seq<Entry>) -> Seq<EntryView> {
    Seq::new(es.len(), |i: int| entry_view(es[i]))
}

/// The sort key of an entry.
fn entry_sort_key(e: &Entry) -> (k: SortKey)
    ensures
        key_view(k) == entry_key(entry_view(*e)),
{
    let k = SortKey { first: chars_of(e.name.as_str()), second: Vec::new(), rank: kind_rank(e.kind) };
    assert(k.second@ =~= Seq::<char>::empty());
    k
}

/// Sorts entries by name, then kind, stably.
fn sort_entries(es: Vec<Entry>) -> (out: Vec<Entry>)
    ensures
        stably_sorted(entry_views(es@), |e: EntryView| entry_key(e), entry_views(out@)),
{
    let mut keys: Vec<SortKey> = Vec::new();
    for i in 0..es.len()
        invariant
            keys@.len() == i,
            forall|j: int| 0 <= j < i ==> key_view(#[trigger] keys@[j]) == entry_key(entry_view(es@[j])),
    {
        keys.push(entry_sort_key(&es[i]));
    }
    let ghost ks = key_views(keys@);
    let ghost es_v = es@;
    let out = sort_by_keys(es, keys);
    proof {
        assert(ks =~= Seq::new(es_v.len(), |i: int| (|e: EntryView| entry_key(e))((|e: Entry| entry_view(e))(es_v[i]))));
        lemma_sorted_views(es_v, out@, |e: Entry| entry_view(e), |e: EntryView| entry_key(e), ks);
        assert(entry_views(es_v) =~= Seq::new(es_v.len(), |i: int| (|e: Entry| entry_view(e))(es_v[i])));
        assert(entry_views(out@) =~= Seq::new(out@.len(), |i: int| (|e: Entry| entry_view(e))(out@[i])));
    }
    out
}

/// The entries of a module's children, in child order.
fn module_entries(docs: &Crate, items: &Vec<u32>) -> (out: Vec<Entry>)
    ensures
        entry_views(out@) == child_entries(*docs, items@, items@.len()),
{
    let mut out: Vec<Entry> = Vec::new();
    for i in 0..items.len()
        invariant
            entry_views(out@) == child_entries(*docs, items@, i as nat),
    {
        let ghost prev = entry_views(out@);
        if let Some(c) = item_position(docs, items[i]) {
            if let Some(e) = entry_from_child(docs, c) {
                out.push(e);
                assert(entry_views(out@) =~= prev.push(entry_view(e)));
            }
        }
    }
    out
}

/// Mathematical content of an external glob re-export.
pub type GlobView = (Seq<char>, Seq<char>, Option<Seq<char>>);

/// The view of an external glob re-export.
pub open spec fn glob_view(g: UnexpandedExternalGlob) -> GlobView {
    (g.prefix@, g.source_crate@, opt_view(g.source_version))
}

/// The views of external glob re-exports.
pub open spec fn glob_views(gs: Seq<UnexpandedExternalGlob>) -> Seq<GlobView> {
    Seq::new(gs.len(), |i: int| glob_view(gs[i]))
}

/// The external glob re-export a module child is, if it is one: a glob
/// `use` whose target is outside the index but has a path entry in a known
/// external crate.
pub open spec fn glob_of(docs: Crate, id: u32, prefix: Seq<char>) -> Option<GlobView> {
    match find_item(docs.index@, id) {
        None => None,
        Some(c) => match docs.index@[c as int].inner {
            Inner::Use { target, is_glob, .. } => if !is_glob {
                None
            } else {
                match target {
                    None => None,
                    Some(t) => if find_item(docs.index@, t) is Some {
                        None
                    } else {
                        match find_path(docs.paths@, t) {
                            None => None,
                            Some(sp) => match find_crate(
                                docs.external_crates@,
                                docs.paths@[sp as int].crate_id,
                            ) {
                                None => None,
                                Some(e) => Some(
                                    (
                                        prefix,
                                        docs.external_crates@[e as int].name@,
                                        crate_version_of(docs, e),
                                    ),
                                ),
                            },
                        }
                    },
                }
            },
            _ => None,
        },
    }
}

/// The external glob re-exports among the first `n` children, in order.
pub open spec fn globs_in(docs: Crate, items: Seq<u32>, prefix: Seq<char>, n: nat) -> Seq<GlobView>
    decreases n,
{
    if n == 0 {
        seq![]
    } else {
        let prev = globs_in(docs, items, prefix, (n - 1) as nat);
        match glob_of(docs, items[n - 1], prefix) {
            Some(g) => prev.push(g),
            None => prev,
        }
    }
}

/// The external glob re-export a child is, if any.
fn glob_of_child(docs: &Crate, id: u32, prefix: &String) -> (r: Option<UnexpandedExternalGlob>)
    ensures
        (match r {
            Some(g) => Some(glob_view(g)),
            None => None,
        }) == glob_of(*docs, id, prefix@),
{
    let c = match item_position(docs, id) {
        Some(c) => c,
        None => return None,
    };
    match &docs.index[c].inner {
        Inner::Use { target, is_glob, .. } => {
            if !*is_glob {
                return None;
            }
            let t = match target {
                Some(t) => *t,
                None => return None,
            };
            if item_position(docs, t).is_some() {
                return None;
            }
            let sp = match path_position(docs, t) {
                Some(sp) => sp,
                None => return None,
            };
            let e = match crate_position(docs, docs.paths[sp].crate_id) {
                Some(e) => e,
                None => return None,
            };
            let rx = crate_reexport(docs, Some(e));
            let source_crate = copy_string(&docs.external_crates[e].name);
            Some(UnexpandedExternalGlob { prefix: copy_string(prefix), source_crate, source_version: rx.source_version })
        },
        _ => None,
    }
}

/// The external glob re-exports among a module's children, in order.
pub fn external_globs_in(docs: &Crate, module_items: &Vec<u32>, prefix: &String) -> (out: Vec<
    UnexpandedExternalGlob,
>)
    ensures
        glob_views(out@) == globs_in(*docs, module_items@, prefix@, module_items@.len()),
{
    let mut out: Vec<UnexpandedExternalGlob> = Vec::new();
    for i in 0..module_items.len()
        invariant
            glob_views(out@) == globs_in(*docs, module_items@, prefix@, i as nat),
    {
        let ghost prev = glob_views(out@);
        if let Some(g) = glob_of_child(docs, module_items[i], prefix) {
            out.push(g);
            assert(glob_views(out@) =~= prev.push(glob_view(g)));
        }
    }
    out
}

/// First path entry at or after `i` that is a module at `path`.
pub open spec fn first_module_path(paths: Seq<crate::model::PathSummary>, path: Seq<Seq<char>>, i: nat) -> Option<nat>
    decreases paths.len() - i,
{
    if i >= paths.len() {
        None
    } else if seg_views(paths[i as int].path@) == path && paths[i as int].kind == ItemKind::Module {
        Some(i)
    } else {
        first_module_path(paths, path, i + 1)
    }
}

/// The module to list and its path: the crate root for `None`, else the
/// module whose canonical path is `path`.
pub open spec fn resolve_module_spec(docs: Crate, path: Option<Seq<Seq<char>>>) -> Option<(u32, Seq<char>)> {
    match path {
        None => match find_path(docs.paths@, docs.root) {
            None => None,
            Some(p) => Some((docs.root, join(seg_views(docs.paths@[p as int].path@), "::"@))),
        },
        Some(pv) => match first_module_path(docs.paths@, pv, 0) {
            None => None,
            Some(i) => Some((docs.paths@[i as int].id, join(seg_views(docs.paths@[i as int].path@), "::"@))),
        },
    }
}

/// The view of an optional path.
pub open spec fn opt_path(path: Option<&[String]>) -> Option<Seq<Seq<char>>> {
    match path {
        Some(p) => Some(seg_views(p@)),
        None => None,
    }
}

/// Finds the module to list.
pub fn resolve_module(docs: &Crate, path: Option<&[String]>) -> (r: Option<(u32, String)>)
    ensures
        (match r {
            Some((id, s)) => Some((id, s@)),
            None => None,
        }) == resolve_module_spec(*docs, opt_path(path)),
{
    match path {
        None => {
            let p = match path_position(docs, docs.root) {
                Some(p) => p,
                None => return None,
            };
            Some((docs.root, join_path(&docs.paths[p].path)))
        },
        Some(pv) => {
            let mut i: usize = 0;
            while i < docs.paths.len()
                invariant
                    i <= docs.paths@.len(),
                    opt_path(path) == Some(seg_views(pv@)),
                    first_module_path(docs.paths@, seg_views(pv@), 0) == first_module_path(
                        docs.paths@,
                        seg_views(pv@),
                        i as nat,
                    ),
                decreases docs.paths@.len() - i,
            {
                if docs.paths[i].kind == ItemKind::Module && crate::lookup::segments_eq(&docs.paths[i].path, pv) {
                    return Some((docs.paths[i].id, join_path(&docs.paths[i].path)));
                }
                i += 1;
            }
            None
        },
    }
}

/// The children and path of the module to list, when it exists in the
/// index as a module.
pub open spec fn module_items(docs: Crate, path: Option<Seq<Seq<char>>>) -> Option<(Seq<u32>, Seq<char>)> {
    match resolve_module_spec(docs, path) {
        None => None,
        Some((id, prefix)) => match find_item(docs.index@, id) {
            None => None,
            Some(p) => match docs.index@[p as int].inner {
                Inner::Module { items } => Some((items@, prefix)),
                _ => None,
            },
        },
    }
}

/// Lists a module's children (the crate root for `None`): one entry per
/// named child and per non-glob re-export, sorted by name then kind, and
/// the external glob re-exports. `None` when no module is at `path`.
pub fn list_module(docs: &Crate, path: Option<&[String]>) -> (r: Option<Listing>)
    ensures
        (r is Some) == (module_items(*docs, opt_path(path)) is Some),
        r matches Some(l) ==> {
            let (items, prefix) = module_items(*docs, opt_path(path)).unwrap();
            &&& stably_sorted(
                child_entries(*docs, items, items.len()),
                |e: EntryView| entry_key(e),
                entry_views(l.entries@),
            )
            &&& glob_views(l.unexpanded_external_globs@) == globs_in(*docs, items, prefix, items.len())
        },
{
    let (module_id, prefix) = match resolve_module(docs, path) {
        Some(x) => x,
        None => return None,
    };
    let p = match item_position(docs, module_id) {
        Some(p) => p,
        None => return None,
    };
    match &docs.index[p].inner {
        Inner::Module { items } => {
            let unsorted = module_entries(docs, items);
            let entries = sort_entries(unsorted);
            let unexpanded_external_globs = external_globs_in(docs, items, &prefix);
            Some(Listing { entries, unexpanded_external_globs })
        },
        _ => None,
    }
}

proof fn lemma_trailing_end(url: Seq<char>, i: nat, j: nat)
    requires
        j <= i <= url.len(),
        forall|t: int| j <= t < i ==> url[t] == '/',
        j == 0 || url[j - 1] != '/',
    ensures
        trailing_slashes_end(url, i) == j,
    decreases i,
{
    if i > j {
        lemma_trailing_end(url, (i - 1) as nat, j);
    }
}

proof fn lemma_segment_start(url: Seq<char>, i: nat, j: nat)
    requires
        j <= i <= url.len(),
        forall|t: int| j <= t < i ==> url[t] != '/',
        j == 0 || url[j - 1] == '/',
    ensures
        segment_start(url, i) == j,
    decreases i,
{
    if i > j {
        lemma_segment_start(url, (i - 1) as nat, j);
    }
}

/// The version read from a docs.rs URL is its last path segment, trailing
/// slashes aside, when that starts with a digit (as in
/// `https://docs.rs/axum-core/0.5.2/`), and nothing when it does not.
pub proof fn law_docs_rs_url_version(prefix: Seq<char>, segment: Seq<char>, slashes: nat)
    requires
        segment.len() > 0,
        forall|i: int| 0 <= i < segment.len() ==> segment[i] != '/',
    ensures
        ('0' <= segment[0] && segment[0] <= '9') ==> docs_rs_version(
            prefix + seq!['/'] + segment + Seq::new(slashes, |i: int| '/'),
        ) == Some(segment),
        !('0' <= segment[0] && segment[0] <= '9') ==> docs_rs_version(
            prefix + seq!['/'] + segment + Seq::new(slashes, |i: int| '/'),
        ) is None,
{
    let url = prefix + seq!['/'] + segment + Seq::new(slashes, |i: int| '/');
    let a = prefix.len() + 1;
    let b = a + segment.len();
    assert(url[b - 1] == segment[segment.len() - 1]);
    lemma_trailing_end(url, url.len(), b as nat);
    assert(url[a - 1] == '/');
    assert forall|t: int| a <= t < b implies url[t] != '/' by {
        assert(url[t] == segment[t - a]);
    }
    lemma_segment_start(url, b as nat, a as nat);
    assert(url[a as int] == segment[0]);
    assert(url.subrange(a as int, b as int) =~= segment);
}

} // verus!
