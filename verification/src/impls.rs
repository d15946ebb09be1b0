//! Trait impls of a type, implementors of a trait, and methods of a type.

use vstd::prelude::*;
use crate::lookup::{resolve_item, resolve_spec, seg_views, walk_ok};
use crate::markdown::{summary_of, summary_spec};
use crate::model::{find_item, item_position, Crate, Inner, Item, ItemKind, Ty};
use crate::order::{key_view, key_views, lemma_sorted_views, sort_by_keys, stably_sorted, KeyView, SortKey};
use crate::render::opt_view;
use crate::text::{chars_eq, chars_of, contains, contains_seq, to_lowercase, unicode_lowercase};

verus! {

/// A trait impl of a type; rustdoc's generics of the impl are found by its
/// id.
pub struct ImplRecord {
    pub impl_id: u32,
    /// Path of the implemented trait.
    pub trait_path: String,
    /// Made by the compiler (auto traits).
    pub is_synthetic: bool,
    /// Comes from a blanket impl.
    pub is_blanket: bool,
}

/// Mathematical content of an impl record.
pub type ImplView = (u32, Seq<char>, bool, bool);

/// The view of an impl record.
pub open spec fn impl_view(r: ImplRecord) -> ImplView {
    (r.impl_id, r.trait_path@, r.is_synthetic, r.is_blanket)
}

/// The views of impl records.
pub open spec fn impl_views(rs: Seq<ImplRecord>) -> Seq<ImplView> {
    Seq::new(rs.len(), |i: int| impl_view(rs[i]))
}

/// Sort key of an impl: trait path, then non-blanket before blanket.
pub open spec fn impl_key(v: ImplView) -> KeyView {
    (v.1, seq![], if v.3 { 1 } else { 0 })
}

/// The impls rustdoc records for a struct, enum, union or primitive.
pub open spec fn type_impls_spec(item: Item) -> Option<Seq<u32>> {
    match item.inner {
        Inner::HasImpls { impls } => Some(impls@),
        _ => None,
    }
}

/// The impls of a struct, enum, union or primitive; `None` for other items.
pub fn type_impls(item: &Item) -> (r: Option<&Vec<u32>>)
    ensures
        (match r {
            Some(v) => Some(v@),
            None => None,
        }) == type_impls_spec(*item),
{
    match &item.inner {
        Inner::HasImpls { impls } => Some(impls),
        _ => None,
    }
}

/// The trait impl an id names, if it is an impl of a trait.
pub open spec fn trait_impl_of(docs: Crate, id: u32) -> Option<ImplView> {
    match find_item(docs.index@, id) {
        None => None,
        Some(c) => match docs.index@[c as int].inner {
            Inner::Impl { trait_path, is_synthetic, is_blanket, .. } => match trait_path {
                None => None,
                Some(t) => Some((id, t@, is_synthetic, is_blanket)),
            },
            _ => None,
        },
    }
}

/// The trait impls among the first `n` ids, in order.
pub open spec fn trait_impls_in(docs: Crate, ids: Seq<u32>, n: nat) -> Seq<ImplView>
    decreases n,
{
    if n == 0 {
        seq![]
    } else {
        let prev = trait_impls_in(docs, ids, (n - 1) as nat);
        match trait_impl_of(docs, ids[n - 1]) {
            Some(v) => prev.push(v),
            None => prev,
        }
    }
}

/// The impl records for the trait impls among `ids`, in order.
fn collect_trait_impls(docs: &Crate, ids: &Vec<u32>) -> (out: Vec<ImplRecord>)
    ensures
        impl_views(out@) == trait_impls_in(*docs, ids@, ids@.len()),
{
    let mut out: Vec<ImplRecord> = Vec::new();
    for i in 0..ids.len()
        invariant
            impl_views(out@) == trait_impls_in(*docs, ids@, i as nat),
    {
        let ghost prev = impl_views(out@);
        if let Some(c) = item_position(docs, ids[i]) {
            if let Inner::Impl { trait_path, is_synthetic, is_blanket, .. } = &docs.index[c].inner {
                if let Some(t) = trait_path {
                    let r = ImplRecord {
                        impl_id: ids[i],
                        trait_path: String::from_str(t.as_str()),
                        is_synthetic: *is_synthetic,
                        is_blanket: *is_blanket,
                    };
                    out.push(r);
                    assert(impl_views(out@) =~= prev.push(impl_view(r)));
                }
            }
        }
    }
    out
}

/// Lists the traits implemented by the type at `type_path`, sorted by trait
/// path with blanket impls after direct ones. `None` when nothing resolves
/// there or it is not a struct, enum, union or primitive.
pub fn list_impls(docs: &Crate, type_path: &[String]) -> (r: Option<Vec<ImplRecord>>)
    requires
        walk_ok(*docs, seg_views(type_path@)),
    ensures
        (r is Some) == (match resolve_spec(*docs, seg_views(type_path@)) {
            Some(p) => type_impls_spec(docs.index@[p as int]) is Some,
            None => false,
        }),
        r matches Some(out) ==> stably_sorted(
            trait_impls_in(
                *docs,
                type_impls_spec(docs.index@[resolve_spec(*docs, seg_views(type_path@))->0 as int])->0,
                type_impls_spec(docs.index@[resolve_spec(*docs, seg_views(type_path@))->0 as int])->0.len(),
            ),
            |v: ImplView| impl_key(v),
            impl_views(out@),
        ),
{
    let p = match resolve_item(docs, type_path) {
        Some(p) => p,
        None => return None,
    };
    let ids = match type_impls(&docs.index[p]) {
        Some(ids) => ids,
        None => return None,
    };
    let unsorted = collect_trait_impls(docs, ids);
    let mut keys: Vec<SortKey> = Vec::new();
    for i in 0..unsorted.len()
        invariant
            keys@.len() == i,
            forall|j: int|
                0 <= j < i ==> key_view(#[trigger] keys@[j]) == impl_key(impl_view(unsorted@[j])),
    {
        let k = SortKey {
            first: chars_of(unsorted[i].trait_path.as_str()),
            second: Vec::new(),
            rank: if unsorted[i].is_blanket {
                1
            } else {
                0
            },
        };
        assert(k.second@ =~= Seq::<char>::empty());
        keys.push(k);
    }
    let ghost ks = key_views(keys@);
    let ghost us = unsorted@;
    let out = sort_by_keys(unsorted, keys);
    proof {
        assert(ks =~= Seq::new(us.len(), |i: int| (|v: ImplView| impl_key(v))((|r: ImplRecord| impl_view(r))(us[i]))));
        lemma_sorted_views(us, out@, |r: ImplRecord| impl_view(r), |v: ImplView| impl_key(v), ks);
        assert(impl_views(us) =~= Seq::new(us.len(), |i: int| (|r: ImplRecord| impl_view(r))(us[i])));
        assert(impl_views(out@) =~= Seq::new(out@.len(), |i: int| (|r: ImplRecord| impl_view(r))(out@[i])));
    }
    Some(out)
}

/// An implementor of a trait; rustdoc's description of the implementing
/// type and the impl's generics are found by the impl's id.
pub struct Implementor {
    pub impl_id: u32,
    /// Path of the implementing type when it is a plain path.
    pub type_path: Option<String>,
}

/// Mathematical content of an implementor.
pub type ImplementorView = (u32, Option<Seq<char>>);

/// The view of an implementor.
pub open spec fn implementor_view(r: Implementor) -> ImplementorView {
    (r.impl_id, opt_view(r.type_path))
}

/// The views of implementors.
pub open spec fn implementor_views(rs: Seq<Implementor>) -> Seq<ImplementorView> {
    Seq::new(rs.len(), |i: int| implementor_view(rs[i]))
}

/// Sort key of an implementor: by type path, absent paths first.
pub open spec fn implementor_key(v: ImplementorView) -> KeyView {
    match v.1 {
        Some(t) => (t, seq![], 1),
        None => (seq![], seq![], 0),
    }
}

/// The implementor an impl id gives, if the id names an impl.
pub open spec fn implementor_of(docs: Crate, id: u32) -> Option<ImplementorView> {
    match find_item(docs.index@, id) {
        None => None,
        Some(c) => match docs.index@[c as int].inner {
            Inner::Impl { for_type, .. } => Some(
                (
                    id,
                    match for_type {
                        Ty::ResolvedPath { path, .. } => Some(path@),
                        _ => None,
                    },
                ),
            ),
            _ => None,
        },
    }
}

/// The implementors among the first `n` impl ids, in order.
pub open spec fn implementors_in(docs: Crate, ids: Seq<u32>, n: nat) -> Seq<ImplementorView>
    decreases n,
{
    if n == 0 {
        seq![]
    } else {
        let prev = implementors_in(docs, ids, (n - 1) as nat);
        match implementor_of(docs, ids[n - 1]) {
            Some(v) => prev.push(v),
            None => prev,
        }
    }
}

/// The implementations rustdoc records for a trait.
pub open spec fn trait_impls_spec(item: Item) -> Option<Seq<u32>> {
    match item.inner {
        Inner::Trait { implementations } => Some(implementations@),
        _ => None,
    }
}

/// Lists the implementors of the trait at `trait_path` that this crate's
/// index knows, sorted by type path (absent paths first). `None` when
/// nothing resolves there or it is not a trait.
pub fn list_implementors(docs: &Crate, trait_path: &[String]) -> (r: Option<Vec<Implementor>>)
    requires
        walk_ok(*docs, seg_views(trait_path@)),
    ensures
        (r is Some) == (match resolve_spec(*docs, seg_views(trait_path@)) {
            Some(p) => trait_impls_spec(docs.index@[p as int]) is Some,
            None => false,
        }),
        r matches Some(out) ==> stably_sorted(
            implementors_in(
                *docs,
                trait_impls_spec(docs.index@[resolve_spec(*docs, seg_views(trait_path@))->0 as int])->0,
                trait_impls_spec(docs.index@[resolve_spec(*docs, seg_views(trait_path@))->0 as int])->0.len(),
            ),
            |v: ImplementorView| implementor_key(v),
            implementor_views(out@),
        ),
{
    let p = match resolve_item(docs, trait_path) {
        Some(p) => p,
        None => return None,
    };
    let ids = match &docs.index[p].inner {
        Inner::Trait { implementations } => implementations,
        _ => return None,
    };
    let mut unsorted: Vec<Implementor> = Vec::new();
    for i in 0..ids.len()
        invariant
            implementor_views(unsorted@) == implementors_in(*docs, ids@, i as nat),
    {
        let ghost prev = implementor_views(unsorted@);
        if let Some(c) = item_position(docs, ids[i]) {
            if let Inner::Impl { for_type, .. } = &docs.index[c].inner {
                let type_path = match for_type {
                    Ty::ResolvedPath { path, .. } => Some(String::from_str(path.as_str())),
                    _ => None,
                };
                let r = Implementor { impl_id: ids[i], type_path };
                unsorted.push(r);
                assert(implementor_views(unsorted@) =~= prev.push(implementor_view(r)));
            }
        }
    }
    let mut keys: Vec<SortKey> = Vec::new();
    for i in 0..unsorted.len()
        invariant
            keys@.len() == i,
            forall|j: int|
                0 <= j < i ==> key_view(#[trigger] keys@[j]) == implementor_key(
                    implementor_view(unsorted@[j]),
                ),
    {
        let k = match &unsorted[i].type_path {
            Some(t) => SortKey { first: chars_of(t.as_str()), second: Vec::new(), rank: 1 },
            None => SortKey { first: Vec::new(), second: Vec::new(), rank: 0 },
        };
        assert(k.second@ =~= Seq::<char>::empty());
        assert(unsorted[i as int].type_path is None ==> k.first@ =~= Seq::<char>::empty());
        keys.push(k);
    }
    let ghost ks = key_views(keys@);
    let ghost us = unsorted@;
    let out = sort_by_keys(unsorted, keys);
    proof {
        assert(ks =~= Seq::new(us.len(), |i: int| (|v: ImplementorView| implementor_key(v))((|r: Implementor| implementor_view(r))(us[i]))));
        lemma_sorted_views(us, out@, |r: Implementor| implementor_view(r), |v: ImplementorView| implementor_key(v), ks);
        assert(implementor_views(us) =~= Seq::new(us.len(), |i: int| (|r: Implementor| implementor_view(r))(us[i])));
        assert(implementor_views(out@) =~= Seq::new(out@.len(), |i: int| (|r: Implementor| implementor_view(r))(out@[i])));
    }
    Some(out)
}

/// A method of a type; rustdoc's signature is found by the method's id.
pub struct Method {
    pub method_id: u32,
    pub name: String,
    pub kind: ItemKind,
    /// The implemented trait, for methods of trait impls.
    pub via_trait: Option<String>,
    pub summary: Option<String>,
    pub deprecated: bool,
}

/// Mathematical content of a method record.
pub type MethodView = (u32, Seq<char>, ItemKind, Option<Seq<char>>, Option<Seq<char>>, bool);

/// The view of a method record.
pub open spec fn method_view(m: Method) -> MethodView {
    (m.method_id, m.name@, m.kind, opt_view(m.via_trait), opt_view(m.summary), m.deprecated)
}

/// The views of method records.
pub open spec fn method_views(ms: Seq<Method>) -> Seq<MethodView> {
    Seq::new(ms.len(), |i: int| method_view(ms[i]))
}

/// Sort key of a method: name, then trait (inherent methods first).
pub open spec fn method_key(v: MethodView) -> KeyView {
    match v.3 {
        Some(t) => (v.1, t, 1),
        None => (v.1, seq![], 0),
    }
}

/// The method record an impl item gives: a named function.
pub open spec fn method_of(docs: Crate, id: u32, via: Option<Seq<char>>) -> Option<MethodView> {
    match find_item(docs.index@, id) {
        None => None,
        Some(c) => {
            let m = docs.index@[c as int];
            match m.inner {
                Inner::Function(_) => match m.name {
                    Some(n) => Some((id, n@, m.kind, via, summary_spec(opt_view(m.docs)), m.deprecated)),
                    None => None,
                },
                _ => None,
            }
        },
    }
}

/// The methods among the first `n` items of an impl.
pub open spec fn methods_in(docs: Crate, ids: Seq<u32>, via: Option<Seq<char>>, n: nat) -> Seq<MethodView>
    decreases n,
{
    if n == 0 {
        seq![]
    } else {
        let prev = methods_in(docs, ids, via, (n - 1) as nat);
        match method_of(docs, ids[n - 1], via) {
            Some(v) => prev.push(v),
            None => prev,
        }
    }
}

/// The methods of the item at position `pos` when it is an impl for the type
/// with id `type_id`.
pub open spec fn impl_methods(docs: Crate, type_id: u32, pos: int) -> Seq<MethodView> {
    match docs.index@[pos].inner {
        Inner::Impl { for_type, trait_path, items, .. } => match for_type {
            Ty::ResolvedPath { id, .. } => if id == type_id {
                methods_in(docs, items@, opt_view(trait_path), items@.len())
            } else {
                seq![]
            },
            _ => seq![],
        },
        _ => seq![],
    }
}

/// The methods for `type_id` in the impls among the first `n` items of the
/// index, in index order.
pub open spec fn type_methods(docs: Crate, type_id: u32, n: nat) -> Seq<MethodView>
    decreases n,
{
    if n == 0 {
        seq![]
    } else {
        type_methods(docs, type_id, (n - 1) as nat) + impl_methods(docs, type_id, n - 1)
    }
}

/// Appends the methods of one impl's items.
fn push_impl_methods(docs: &Crate, out: &mut Vec<Method>, ids: &Vec<u32>, via: &Option<String>)
    ensures
        method_views(final(out)@) == method_views(old(out)@) + methods_in(*docs, ids@, opt_view(*via), ids@.len()),
{
    let ghost start = method_views(out@);
    for i in 0..ids.len()
        invariant
            method_views(out@) == start + methods_in(*docs, ids@, opt_view(*via), i as nat),
    {
        let ghost prev = method_views(out@);
        if let Some(c) = item_position(docs, ids[i]) {
            let m = &docs.index[c];
            if let Inner::Function(_) = &m.inner {
                if let Some(n) = &m.name {
                    let via_trait = match via {
                        Some(t) => Some(String::from_str(t.as_str())),
                        None => None,
                    };
                    let summary = match &m.docs {
                        Some(d) => summary_of(Some(d.as_str())),
                        None => summary_of(None),
                    };
                    let rec = Method {
                        method_id: ids[i],
                        name: String::from_str(n.as_str()),
                        kind: m.kind,
                        via_trait,
                        summary,
                        deprecated: m.deprecated,
                    };
                    out.push(rec);
                    assert(method_views(out@) =~= prev.push(method_view(rec)));
                }
            }
        }
    }
}

/// Lists the inherent and trait-impl methods of the type at `type_path`,
/// sorted by name, then trait (inherent first). `None` when nothing
/// resolves there.
pub fn list_methods(docs: &Crate, type_path: &[String]) -> (r: Option<Vec<Method>>)
    requires
        walk_ok(*docs, seg_views(type_path@)),
    ensures
        (r is Some) == (resolve_spec(*docs, seg_views(type_path@)) is Some),
        r matches Some(out) ==> stably_sorted(
            type_methods(
                *docs,
                docs.index@[resolve_spec(*docs, seg_views(type_path@))->0 as int].id,
                docs.index@.len(),
            ),
            |v: MethodView| method_key(v),
            method_views(out@),
        ),
{
    let p = match resolve_item(docs, type_path) {
        Some(p) => p,
        None => return None,
    };
    let type_id = docs.index[p].id;
    let mut unsorted: Vec<Method> = Vec::new();
    for i in 0..docs.index.len()
        invariant
            method_views(unsorted@) == type_methods(*docs, type_id, i as nat),
    {
        let ghost before = method_views(unsorted@);
        if let Inner::Impl { for_type, trait_path, items, .. } = &docs.index[i].inner {
            if let Ty::ResolvedPath { id, .. } = for_type {
                if *id == type_id {
                    push_impl_methods(docs, &mut unsorted, items, trait_path);
                }
            }
        }
        assert(method_views(unsorted@) =~= before + impl_methods(*docs, type_id, i as int));
    }
    let mut keys: Vec<SortKey> = Vec::new();
    for i in 0..unsorted.len()
        invariant
            keys@.len() == i,
            forall|j: int|
                0 <= j < i ==> key_view(#[trigger] keys@[j]) == method_key(method_view(unsorted@[j])),
    {
        let k = match &unsorted[i].via_trait {
            Some(t) => SortKey { first: chars_of(unsorted[i].name.as_str()), second: chars_of(t.as_str()), rank: 1 },
            None => SortKey { first: chars_of(unsorted[i].name.as_str()), second: Vec::new(), rank: 0 },
        };
        assert(unsorted[i as int].via_trait is None ==> k.second@ =~= Seq::<char>::empty());
        keys.push(k);
    }
    let ghost ks = key_views(keys@);
    let ghost us = unsorted@;
    let out = sort_by_keys(unsorted, keys);
    proof {
        assert(ks =~= Seq::new(us.len(), |i: int| (|v: MethodView| method_key(v))((|r: Method| method_view(r))(us[i]))));
        lemma_sorted_views(us, out@, |r: Method| method_view(r), |v: MethodView| method_key(v), ks);
        assert(method_views(us) =~= Seq::new(us.len(), |i: int| (|r: Method| method_view(r))(us[i])));
        assert(method_views(out@) =~= Seq::new(out@.len(), |i: int| (|r: Method| method_view(r))(out@[i])));
    }
    Some(out)
}

/// The method passes the listing's filters: its lowercased name contains
/// the lowercased query, it is inherent when only those are asked for, it
/// comes from the asked-for trait, and it is not deprecated unless those are
/// wanted.
pub open spec fn method_passes(
    m: MethodView,
    query: Option<Seq<char>>,
    inherent_only: bool,
    trait_path: Option<Seq<char>>,
    include_deprecated: bool,
) -> bool {
    &&& (query matches Some(q) ==> contains_seq(unicode_lowercase(m.1), unicode_lowercase(q)))
    &&& (!inherent_only || m.3 is None)
    &&& (trait_path matches Some(t) ==> m.3 == Some(t))
    &&& (include_deprecated || !m.5)
}

/// The text of an optional string.
pub open spec fn str_view(s: Option<&str>) -> Option<Seq<char>> {
    match s {
        Some(t) => Some(t@),
        None => None,
    }
}

/// The methods that pass the listing's filters, in order.
pub open spec fn passed_methods(
    ms: Seq<MethodView>,
    query: Option<Seq<char>>,
    inherent_only: bool,
    trait_path: Option<Seq<char>>,
    include_deprecated: bool,
) -> Seq<MethodView> {
    ms.filter(|v: MethodView| method_passes(v, query, inherent_only, trait_path, include_deprecated))
}

/// One page of a method listing.
pub struct MethodPage {
    pub methods: Vec<Method>,
    /// How many methods passed the filters.
    pub total_matches: usize,
    /// Fewer methods were returned than passed.
    pub truncated: bool,
}

/// The first `n` of `s`, or all of it.
pub open spec fn first_n<A>(s: Seq<A>, n: nat) -> Seq<A> {
    if n < s.len() {
        s.take(n as int)
    } else {
        s
    }
}

/// Keeps the methods that pass the filters, in order, at most `limit` of
/// them, and counts all that passed.
pub fn filter_methods(
    methods: Vec<Method>,
    query: Option<&str>,
    inherent_only: bool,
    trait_path: Option<&str>,
    include_deprecated: bool,
    limit: usize,
) -> (page: MethodPage)
    ensures
        method_views(page.methods@) == first_n(
            passed_methods(method_views(methods@), str_view(query), inherent_only, str_view(trait_path), include_deprecated),
            limit as nat,
        ),
        page.total_matches == passed_methods(method_views(methods@), str_view(query), inherent_only, str_view(trait_path), include_deprecated).len(),
        page.truncated == (page.methods@.len() < page.total_matches),
{
    let ghost qv = str_view(query);
    let ghost tv = str_view(trait_path);
    let ghost pred = |v: MethodView| method_passes(v, qv, inherent_only, tv, include_deprecated);
    let ghost all = method_views(methods@);
    let lowered: Option<Vec<char>> = match query {
        Some(q) => Some(chars_of(to_lowercase(q).as_str())),
        None => None,
    };
    let trait_chars: Option<Vec<char>> = match trait_path {
        Some(t) => Some(chars_of(t)),
        None => None,
    };
    let n0 = methods.len();
    let mut rest = methods;
    let mut out: Vec<Method> = Vec::new();
    let mut total: usize = 0;
    let ghost mut seen: Seq<MethodView> = seq![];
    while rest.len() > 0
        invariant
            pred == (|v: MethodView| method_passes(v, qv, inherent_only, tv, include_deprecated)),
            seen + method_views(rest@) == all,
            total == seen.filter(pred).len(),
            method_views(out@) == first_n(seen.filter(pred), limit as nat),
            lowered matches Some(l) ==> qv matches Some(q) && l@ == unicode_lowercase(q),
            lowered is None <==> qv is None,
            trait_chars matches Some(t) ==> tv == Some(t@),
            trait_chars is None <==> tv is None,
            total <= all.len(),
            all.len() == n0,
        decreases rest@.len(),
    {
        let ghost before = rest@;
        let m = rest.remove(0);
        let ghost mv = method_view(m);
        proof {
            assert(method_views(before) =~= seq![mv] + method_views(rest@));
            assert(seen.push(mv) + method_views(rest@) =~= all);
            reveal(Seq::filter);
            assert(seen.push(mv).drop_last() =~= seen);
            seen.lemma_filter_len(pred);
            method_views(rest@).lemma_filter_len(pred);
        }
        let name_ok = match &lowered {
            Some(l) => {
                let name = chars_of(to_lowercase(m.name.as_str()).as_str());
                contains(&name, l)
            },
            None => true,
        };
        let trait_ok = match &trait_chars {
            Some(t) => match &m.via_trait {
                Some(vt) => chars_eq(&chars_of(vt.as_str()), t),
                None => false,
            },
            None => true,
        };
        let keep = name_ok && (!inherent_only || m.via_trait.is_none()) && trait_ok && (include_deprecated || !m.deprecated);
        assert(keep == pred(mv));
        if keep {
            proof {
                assert(seen.push(mv).filter(pred) == seen.filter(pred).push(mv));
                (seen.push(mv)).lemma_filter_len(pred);
                assert(seen.push(mv).len() <= all.len()) by {
                    assert(all.len() == seen.push(mv).len() + method_views(rest@).len());
                }
            }
            if out.len() < limit {
                let ghost o = out@;
                out.push(m);
                assert(method_views(out@) =~= method_views(o).push(mv));
            }
            total = total + 1;
        } else {
            assert(seen.push(mv).filter(pred) == seen.filter(pred));
        }
        proof {
            seen = seen.push(mv);
        }
    }
    assert(seen =~= all);
    assert(passed_methods(all, qv, inherent_only, tv, include_deprecated) == all.filter(pred));
    let truncated = out.len() < total;
    MethodPage { methods: out, total_matches: total, truncated }
}

/// How many methods a listing returns unless told otherwise.
pub fn default_limit() -> (r: usize)
    ensures
        r == 50,
{
    50
}

/// Deprecated methods are listed unless told otherwise.
pub fn default_true() -> (r: bool)
    ensures
        r,
{
    true
}

/// A page of methods holds at most `limit` of the methods given, each one
/// passing every filter: its lowercased name contains the lowercased query,
/// it is inherent when only those are asked for, it comes from the
/// asked-for trait, and it is not deprecated unless those are wanted. When
/// the page has room for all, every method that passes is on it.
pub proof fn law_method_page(
    ms: Seq<MethodView>,
    query: Option<Seq<char>>,
    inherent_only: bool,
    trait_path: Option<Seq<char>>,
    include_deprecated: bool,
    limit: nat,
    page: Seq<MethodView>,
)
    requires
        page == first_n(passed_methods(ms, query, inherent_only, trait_path, include_deprecated), limit),
    ensures
        page.len() <= limit,
        forall|i: int| 0 <= i < page.len() ==> ms.contains(#[trigger] page[i]),
        forall|i: int|
            0 <= i < page.len() ==> (query matches Some(q) ==> contains_seq(
                unicode_lowercase((#[trigger] page[i]).1),
                unicode_lowercase(q),
            )),
        forall|i: int| 0 <= i < page.len() ==> (inherent_only ==> (#[trigger] page[i]).3 is None),
        forall|i: int| 0 <= i < page.len() ==> (trait_path matches Some(t) ==> (#[trigger] page[i]).3 == Some(t)),
        forall|i: int| 0 <= i < page.len() ==> (!include_deprecated ==> !(#[trigger] page[i]).5),
        limit >= ms.len() ==> forall|j: int|
            0 <= j < ms.len() && (query matches Some(q) ==> contains_seq(unicode_lowercase(ms[j].1), unicode_lowercase(q)))
                && (inherent_only ==> ms[j].3 is None) && (trait_path matches Some(t) ==> ms[j].3 == Some(t)) && (
            !include_deprecated ==> !ms[j].5) ==> page.contains(#[trigger] ms[j]),
{
    let pred = |v: MethodView| method_passes(v, query, inherent_only, trait_path, include_deprecated);
    let passed = ms.filter(pred);
    ms.lemma_filter_len(pred);
    assert forall|i: int| 0 <= i < page.len() implies ms.contains(#[trigger] page[i]) && (query matches Some(q)
        ==> contains_seq(unicode_lowercase(page[i].1), unicode_lowercase(q))) && (inherent_only ==> page[i].3 is None)
        && (trait_path matches Some(t) ==> page[i].3 == Some(t)) && (!include_deprecated ==> !page[i].5) by {
        assert(page[i] == passed[i]);
        ms.lemma_filter_pred(pred, i);
        ms.lemma_filter_contains_rev(pred, passed[i]);
    }
    if limit >= ms.len() {
        assert(page == passed);
        assert forall|j: int|
            0 <= j < ms.len() && (query matches Some(q) ==> contains_seq(unicode_lowercase(ms[j].1), unicode_lowercase(q)))
                && (inherent_only ==> ms[j].3 is None) && (trait_path matches Some(t) ==> ms[j].3 == Some(t)) && (
            !include_deprecated ==> !ms[j].5) implies page.contains(#[trigger] ms[j]) by {
            assert(pred(ms[j]));
            ms.lemma_filter_contains(pred, j);
        }
    }
}

} // verus!
