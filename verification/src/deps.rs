//! The dependencies a crate's manifest declares: one flat list of direct
//! dependencies with their kind, requirement and build flags.

use vstd::prelude::*;
use crate::order::{lemma_sorts_covers, copy_strings, insert_sorted_unique, key_view, key_views, sort_by_keys, sorts, strictly_sorted, strs, KeyView, SortKey};
use crate::render::opt_view;
use crate::text::chars_of;

verus! {

/// Which table of the manifest declares a dependency.
#[derive(Clone, Copy, Debug, PartialEq, Eq, Structural)]
pub enum DependencyKind {
    Normal,
    Dev,
    Build,
}

/// The kind's name as `Debug` writes it.
pub open spec fn kind_text(k: DependencyKind) -> Seq<char> {
    match k {
        DependencyKind::Normal => seq!['N', 'o', 'r', 'm', 'a', 'l'],
        DependencyKind::Dev => seq!['D', 'e', 'v'],
        DependencyKind::Build => seq!['B', 'u', 'i', 'l', 'd'],
    }
}

/// The kind's name as `Debug` writes it.
pub fn kind_name(k: DependencyKind) -> (r: Vec<char>)
    ensures
        r@ == kind_text(k),
{
    let r = match k {
        DependencyKind::Normal => vec!['N', 'o', 'r', 'm', 'a', 'l'],
        DependencyKind::Dev => vec!['D', 'e', 'v'],
        DependencyKind::Build => vec!['B', 'u', 'i', 'l', 'd'],
    };
    assert(r@ =~= kind_text(k));
    r
}

/// The table form of a dependency in a manifest.
pub struct DependencyDetail {
    pub version: Option<String>,
    pub features: Option<Vec<String>>,
    pub optional: Option<bool>,
    pub default_features: Option<bool>,
    /// The real crate name when the manifest renames it.
    pub package: Option<String>,
}

/// A dependency as the manifest writes it.
pub enum ManifestDependency {
    /// `name = "req"`.
    Simple(String),
    /// `name = { ... }`.
    Detailed(DependencyDetail),
    /// `name = { workspace = true, ... }`: the workspace's fields are not at
    /// hand.
    Inherited { features: Option<Vec<String>>, optional: Option<bool> },
}

/// One dependency table: names and their declarations, in table order.
pub type DepsSet = Vec<(String, ManifestDependency)>;

/// The dependency tables of one `[target.'cfg'.*]` section.
pub struct TargetDeps {
    pub cfg: String,
    pub dependencies: DepsSet,
    pub dev_dependencies: DepsSet,
    pub build_dependencies: DepsSet,
}

/// The dependency tables of a manifest.
pub struct ManifestDeps {
    pub dependencies: Option<DepsSet>,
    pub dev_dependencies: Option<DepsSet>,
    pub build_dependencies: Option<DepsSet>,
    pub target: Option<Vec<TargetDeps>>,
}

/// One direct dependency.
pub struct Dependency {
    /// The manifest's key for it.
    pub name: String,
    /// The real crate name when the manifest renames it.
    pub package: Option<String>,
    pub kind: DependencyKind,
    /// The version requirement, when the manifest gives one.
    pub req: Option<String>,
    pub optional: bool,
    pub default_features: bool,
    pub features: Vec<String>,
    /// The `cfg` of the target section that declares it.
    pub target: Option<String>,
}

/// The texts of an optional list of strings, empty when absent.
pub open spec fn opt_strs(v: Option<Vec<String>>) -> Seq<Seq<char>> {
    match v {
        Some(v) => strs(v@),
        None => seq![],
    }
}

/// `out` describes the manifest entry `name = md` declared in a table of
/// kind `kind` under target `target`.
pub open spec fn describes(name: Seq<char>, md: ManifestDependency, kind: DependencyKind, target: Option<Seq<char>>, out: Dependency) -> bool {
    &&& out.name@ == name
    &&& out.kind == kind
    &&& opt_view(out.target) == target
    &&& match md {
        ManifestDependency::Simple(req) => {
            &&& opt_view(out.req) == Some(req@)
            &&& !out.optional
            &&& out.default_features
            &&& out.features@.len() == 0
            &&& out.package is None
        },
        ManifestDependency::Detailed(d) => {
            &&& opt_view(out.req) == opt_view(d.version)
            &&& out.optional == (d.optional == Some(true))
            &&& out.default_features == (d.default_features != Some(false))
            &&& strs(out.features@) == opt_strs(d.features)
            &&& opt_view(out.package) == opt_view(d.package)
        },
        ManifestDependency::Inherited { features, optional } => {
            &&& out.req is None
            &&& out.optional == (optional == Some(true))
            &&& out.default_features
            &&& strs(out.features@) == opt_strs(features)
            &&& out.package is None
        },
    }
}

/// A manifest entry with the kind and target of its table.
pub type RawDep = (String, ManifestDependency, DependencyKind, Option<Seq<char>>);

/// The entries of one table, tagged.
pub open spec fn tagged(section: Option<DepsSet>, kind: DependencyKind, target: Option<Seq<char>>) -> Seq<RawDep> {
    match section {
        Some(s) => Seq::new(s@.len(), |i: int| (s@[i].0, s@[i].1, kind, target)),
        None => seq![],
    }
}

/// The entries of one target section: its normal, dev and build tables.
pub open spec fn section_entries(t: TargetDeps) -> Seq<RawDep> {
    tagged(Some(t.dependencies), DependencyKind::Normal, Some(t.cfg@))
        + tagged(Some(t.dev_dependencies), DependencyKind::Dev, Some(t.cfg@))
        + tagged(Some(t.build_dependencies), DependencyKind::Build, Some(t.cfg@))
}

/// The entries of the first `n` target sections, in order.
pub open spec fn target_entries(ts: Seq<TargetDeps>, n: int) -> Seq<RawDep>
    decreases n,
{
    if n <= 0 {
        seq![]
    } else {
        target_entries(ts, n - 1) + section_entries(ts[n - 1])
    }
}

/// Every entry of the manifest's dependency tables, in the order they are
/// read: normal, dev, build, then the target sections.
pub open spec fn manifest_entries(m: ManifestDeps) -> Seq<RawDep> {
    tagged(m.dependencies, DependencyKind::Normal, None)
        + tagged(m.dev_dependencies, DependencyKind::Dev, None)
        + tagged(m.build_dependencies, DependencyKind::Build, None)
        + match m.target {
        Some(ts) => target_entries(ts@, ts@.len() as int),
        None => seq![],
    }
}

/// `out` describes a tagged entry.
pub open spec fn describes_raw(r: RawDep, out: Dependency) -> bool {
    describes(r.0@, r.1, r.2, r.3, out)
}

fn copy_opt_string(s: &Option<String>) -> (r: Option<String>)
    ensures
        opt_view(r) == opt_view(*s),
{
    match s {
        Some(t) => Some(String::from_str(t.as_str())),
        None => None,
    }
}

fn copy_opt_strings(v: &Option<Vec<String>>) -> (r: Vec<String>)
    ensures
        strs(r@) == opt_strs(*v),
{
    match v {
        Some(v) => copy_strings(v),
        None => {
            let r: Vec<String> = Vec::new();
            assert(strs(r@) =~= seq![]);
            r
        },
    }
}

/// Describes one manifest entry.
pub fn describe(name: &String, md: &ManifestDependency, kind: DependencyKind, target: &Option<String>) -> (out: Dependency)
    ensures
        describes(name@, *md, kind, opt_view(*target), out),
{
    let (req, optional, default_features, features, package) = match md {
        ManifestDependency::Simple(req) => (Some(String::from_str(req.as_str())), false, true, Vec::new(), None),
        ManifestDependency::Detailed(d) => (
            copy_opt_string(&d.version),
            d.optional == Some(true),
            d.default_features != Some(false),
            copy_opt_strings(&d.features),
            copy_opt_string(&d.package),
        ),
        ManifestDependency::Inherited { features, optional } => (
            None,
            *optional == Some(true),
            true,
            copy_opt_strings(features),
            None,
        ),
    };
    Dependency {
        name: String::from_str(name.as_str()),
        package,
        kind,
        req,
        optional,
        default_features,
        features,
        target: copy_opt_string(target),
    }
}

/// The table an optional reference points to.
pub open spec fn owned(section: Option<&DepsSet>) -> Option<DepsSet> {
    match section {
        Some(s) => Some(*s),
        None => None,
    }
}

/// Appends the description of every entry of a table.
pub fn collect_section(section: Option<&DepsSet>, kind: DependencyKind, target: Option<String>, out: &mut Vec<Dependency>)
    ensures
        final(out)@.len() == old(out)@.len() + tagged(owned(section), kind, opt_view(target)).len(),
        final(out)@.take(old(out)@.len() as int) == old(out)@,
        forall|i: int| 0 <= i < final(out)@.len() - old(out)@.len() ==> #[trigger] describes_raw(
            tagged(owned(section), kind, opt_view(target))[i],
            final(out)@[old(out)@.len() + i],
        ),
{
    let ghost start = out@;
    let ghost tg = tagged(owned(section), kind, opt_view(target));
    let s = match section {
        Some(s) => s,
        None => {
            assert(out@.take(start.len() as int) =~= start);
            return;
        },
    };
    for i in 0..s.len()
        invariant
            tg == tagged(Some(*s), kind, opt_view(target)),
            out@.len() == start.len() + i,
            out@.take(start.len() as int) == start,
            forall|j: int| 0 <= j < i ==> #[trigger] describes_raw(tg[j], out@[start.len() + j]),
    {
        let d = describe(&s[i].0, &s[i].1, kind, &target);
        let ghost prev = out@;
        out.push(d);
        assert(out@.take(start.len() as int) =~= prev.take(start.len() as int));
        assert forall|j: int| 0 <= j < i + 1 implies #[trigger] describes_raw(tg[j], out@[start.len() + j]) by {
            if j < i {
                assert(out@[start.len() + j] == prev[start.len() + j]);
            }
        }
    }
}

proof fn lemma_extend(prev: Seq<Dependency>, now: Seq<Dependency>, a: Seq<RawDep>, b: Seq<RawDep>)
    requires
        prev.len() == a.len(),
        forall|i: int| 0 <= i < a.len() ==> #[trigger] describes_raw(a[i], prev[i]),
        now.len() == prev.len() + b.len(),
        now.take(prev.len() as int) == prev,
        forall|i: int| 0 <= i < now.len() - prev.len() ==> #[trigger] describes_raw(b[i], now[prev.len() + i]),
    ensures
        forall|i: int| 0 <= i < now.len() ==> #[trigger] describes_raw((a + b)[i], now[i]),
{
    assert forall|i: int| 0 <= i < now.len() implies #[trigger] describes_raw((a + b)[i], now[i]) by {
        if i < a.len() {
            assert(now[i] == now.take(prev.len() as int)[i]);
            assert(describes_raw(a[i], prev[i]));
        } else {
            assert(describes_raw(b[i - prev.len()], now[prev.len() + (i - prev.len())]));
        }
    }
}

/// Sort key of a dependency: its name, then its kind's name.
pub open spec fn dependency_key_view(name: Seq<char>, kind: DependencyKind) -> KeyView {
    (name, kind_text(kind), 0u64)
}

/// `out` lists the manifest's dependencies sorted stably by name and kind:
/// the entry at `perm[i]` is described in place `i`.
pub open spec fn lists_dependencies(m: ManifestDeps, perm: Seq<int>, out: Seq<Dependency>) -> bool {
    let es = manifest_entries(m);
    &&& sorts(Seq::new(es.len(), |i: int| dependency_key_view(es[i].0@, es[i].2)), perm)
    &&& out.len() == perm.len()
    &&& forall|i: int| 0 <= i < perm.len() ==> #[trigger] describes_raw(es[perm[i]], out[i])
}

/// All direct dependencies a manifest declares, sorted by name, then kind.
pub fn manifest_dependencies(m: &ManifestDeps) -> (out: Vec<Dependency>)
    ensures
        exists|perm: Seq<int>| #[trigger] lists_dependencies(*m, perm, out@),
{
    let ghost es = manifest_entries(*m);
    let mut all: Vec<Dependency> = Vec::new();
    let ghost t1 = tagged(m.dependencies, DependencyKind::Normal, None);
    let ghost t2 = tagged(m.dev_dependencies, DependencyKind::Dev, None);
    let ghost t3 = tagged(m.build_dependencies, DependencyKind::Build, None);
    let ghost p0 = all@;
    let r1 = m.dependencies.as_ref();
    assert(owned(r1) == m.dependencies);
    collect_section(r1, DependencyKind::Normal, None, &mut all);
    proof {
        lemma_extend(p0, all@, seq![], t1);
        assert(seq![] + t1 =~= t1);
    }
    let ghost p1 = all@;
    let r2 = m.dev_dependencies.as_ref();
    assert(owned(r2) == m.dev_dependencies);
    collect_section(r2, DependencyKind::Dev, None, &mut all);
    proof {
        lemma_extend(p1, all@, t1, t2);
    }
    let ghost p2 = all@;
    let r3 = m.build_dependencies.as_ref();
    assert(owned(r3) == m.build_dependencies);
    collect_section(r3, DependencyKind::Build, None, &mut all);
    proof {
        lemma_extend(p2, all@, t1 + t2, t3);
    }
    let ghost head = t1 + t2 + t3;
    assert(forall|i: int| 0 <= i < all@.len() ==> #[trigger] describes_raw(head[i], all@[i]));
    if let Some(targets) = &m.target {
        assert(head + target_entries(targets@, 0) =~= head);
        let mut t: usize = 0;
        while t < targets.len()
            invariant
                t <= targets@.len(),
                all@.len() == (head + target_entries(targets@, t as int)).len(),
                forall|i: int| 0 <= i < all@.len() ==> #[trigger] describes_raw((head + target_entries(targets@, t as int))[i], all@[i]),
            decreases targets@.len() - t,
        {
            let ghost acc = head + target_entries(targets@, t as int);
            let ghost tt = targets@[t as int];
            let ghost s1 = tagged(Some(tt.dependencies), DependencyKind::Normal, Some(tt.cfg@));
            let ghost s2 = tagged(Some(tt.dev_dependencies), DependencyKind::Dev, Some(tt.cfg@));
            let ghost s3 = tagged(Some(tt.build_dependencies), DependencyKind::Build, Some(tt.cfg@));
            let cfg = &targets[t].cfg;
            let ghost q0 = all@;
            assert(forall|i: int| 0 <= i < q0.len() ==> #[trigger] describes_raw(acc[i], q0[i]));
            let c1 = String::from_str(cfg.as_str());
            collect_section(Some(&targets[t].dependencies), DependencyKind::Normal, Some(c1), &mut all);
            proof {
                lemma_extend(q0, all@, acc, s1);
            }
            let ghost q1 = all@;
            let c2 = String::from_str(cfg.as_str());
            collect_section(Some(&targets[t].dev_dependencies), DependencyKind::Dev, Some(c2), &mut all);
            proof {
                lemma_extend(q1, all@, acc + s1, s2);
            }
            let ghost q2 = all@;
            let c3 = String::from_str(cfg.as_str());
            collect_section(Some(&targets[t].build_dependencies), DependencyKind::Build, Some(c3), &mut all);
            proof {
                lemma_extend(q2, all@, acc + s1 + s2, s3);
                assert(acc + s1 + s2 + s3 =~= head + target_entries(targets@, t + 1));
            }
            t += 1;
        }
        assert(es =~= head + target_entries(targets@, targets@.len() as int));
    } else {
        assert(es =~= head + seq![]);
        assert(head + seq![] =~= head);
    }
    let mut keys: Vec<SortKey> = Vec::new();
    for i in 0..all.len()
        invariant
            keys@.len() == i,
            forall|j: int| 0 <= j < i ==> key_view(#[trigger] keys@[j]) == dependency_key_view(all@[j].name@, all@[j].kind),
    {
        let k = SortKey { first: chars_of(all[i].name.as_str()), second: kind_name(all[i].kind), rank: 0 };
        keys.push(k);
    }
    let ghost ks = key_views(keys@);
    let ghost us = all@;
    let out = sort_by_keys(all, keys);
    proof {
        let perm = choose|p: Seq<int>| sorts(ks, p) && out@ == Seq::new(p.len(), |i: int| us[p[i]]);
        assert forall|i: int| 0 <= i < us.len() implies ks[i] == dependency_key_view(es[i].0@, es[i].2) by {
            assert(describes_raw(es[i], us[i]));
        }
        assert(ks =~= Seq::new(es.len(), |i: int| dependency_key_view(es[i].0@, es[i].2)));
        assert forall|i: int| 0 <= i < perm.len() implies #[trigger] describes_raw(es[perm[i]], out@[i]) by {
            assert(0 <= perm[i] < ks.len());
        }
        assert(lists_dependencies(*m, perm, out@));
    }
    out
}

/// The manifest marks the dependency optional.
pub open spec fn is_optional(md: ManifestDependency) -> bool {
    match md {
        ManifestDependency::Simple(_) => false,
        ManifestDependency::Detailed(d) => d.optional == Some(true),
        ManifestDependency::Inherited { optional, .. } => optional == Some(true),
    }
}

/// The names of the optional dependencies of the normal table.
pub open spec fn optional_names(m: ManifestDeps) -> Set<Seq<char>> {
    Set::new(|n: Seq<char>| m.dependencies is Some && exists|i: int|
        0 <= i < m.dependencies->0@.len() && is_optional(#[trigger] m.dependencies->0@[i].1)
            && m.dependencies->0@[i].0@ == n)
}

/// The optional dependencies of the normal table, sorted, once each.
pub fn optional_dependency_features(m: &ManifestDeps) -> (out: Vec<String>)
    ensures
        strictly_sorted(strs(out@)),
        forall|n: Seq<char>| strs(out@).contains(n) <==> optional_names(*m).contains(n),
{
    let mut out: Vec<String> = Vec::new();
    match &m.dependencies {
        Some(ds) => {
            for i in 0..ds.len()
                invariant
                    m.dependencies == Some(*ds),
                    strictly_sorted(strs(out@)),
                    forall|n: Seq<char>| strs(out@).contains(n) <==> exists|j: int|
                        0 <= j < i && is_optional(#[trigger] ds@[j].1) && ds@[j].0@ == n,
            {
                let optional = match &ds[i].1 {
                    ManifestDependency::Simple(_) => false,
                    ManifestDependency::Detailed(d) => d.optional == Some(true),
                    ManifestDependency::Inherited { optional, .. } => *optional == Some(true),
                };
                let ghost prev = strs(out@);
                if optional {
                    insert_sorted_unique(&mut out, String::from_str(ds[i].0.as_str()));
                }
                assert forall|n: Seq<char>| strs(out@).contains(n) <==> exists|j: int|
                    0 <= j < i + 1 && is_optional(#[trigger] ds@[j].1) && ds@[j].0@ == n by {
                    if n == ds@[i as int].0@ && optional {
                        assert(is_optional(ds@[i as int].1));
                    }
                }
            }
            assert forall|n: Seq<char>| strs(out@).contains(n) <==> optional_names(*m).contains(n) by {
                if strs(out@).contains(n) {
                    let j = choose|j: int| 0 <= j < ds@.len() && is_optional(#[trigger] ds@[j].1) && ds@[j].0@ == n;
                    assert(optional_names(*m).contains(n));
                }
            }
        },
        None => {
            assert(strs(out@) =~= seq![]);
        },
    }
    out
}

/// The dependency passes the filters: of the given kind, if one is given,
/// and optional, if only optional ones are asked for.
pub open spec fn passes(d: Dependency, kind: Option<DependencyKind>, optional_only: bool) -> bool {
    (match kind {
        Some(k) => d.kind == k,
        None => true,
    }) && (!optional_only || d.optional)
}

/// Keeps the dependencies that pass the filters, in order.
pub fn filter_dependencies(deps: Vec<Dependency>, kind: Option<DependencyKind>, optional_only: bool) -> (out: Vec<Dependency>)
    ensures
        out@ == deps@.filter(|d: Dependency| passes(d, kind, optional_only)),
{
    let ghost pred = |d: Dependency| passes(d, kind, optional_only);
    let ghost all = deps@;
    let mut rest = deps;
    let mut out: Vec<Dependency> = Vec::new();
    while rest.len() > 0
        invariant
            pred == (|d: Dependency| passes(d, kind, optional_only)),
            out@ + rest@.filter(pred) == all.filter(pred),
        decreases rest@.len(),
    {
        let ghost before = rest@;
        let d = rest.remove(0);
        proof {
            assert(before =~= seq![d] + rest@);
            Seq::filter_distributes_over_add(seq![d], rest@, pred);
            reveal_with_fuel(Seq::filter, 2);
            assert(seq![d].drop_last() =~= Seq::<Dependency>::empty());
        }
        let keep = match kind {
            Some(k) => d.kind == k,
            None => true,
        } && (!optional_only || d.optional);
        if keep {
            let ghost o = out@;
            out.push(d);
            assert(o.push(d) + rest@.filter(pred) =~= o + (seq![d] + rest@.filter(pred)));
        } else {
            assert(seq![d].filter(pred) =~= Seq::<Dependency>::empty());
        }
    }
    assert(out@ + rest@.filter(pred) =~= out@);
    out
}

/// Filtering dependencies keeps exactly those of the asked-for kind (any
/// kind without one) that are optional when only optional ones are asked
/// for: every one kept passes, every one that passes is kept.
pub proof fn law_dependency_filter(
    deps: Seq<Dependency>,
    kind: Option<DependencyKind>,
    optional_only: bool,
    out: Seq<Dependency>,
)
    requires
        out == deps.filter(|d: Dependency| passes(d, kind, optional_only)),
    ensures
        forall|i: int| 0 <= i < out.len() ==> (kind matches Some(k) ==> (#[trigger] out[i]).kind == k),
        forall|i: int| 0 <= i < out.len() ==> (optional_only ==> (#[trigger] out[i]).optional),
        forall|i: int| 0 <= i < out.len() ==> deps.contains(#[trigger] out[i]),
        forall|j: int|
            0 <= j < deps.len() && (kind matches Some(k) ==> deps[j].kind == k) && (optional_only
                ==> deps[j].optional) ==> out.contains(#[trigger] deps[j]),
{
    let pred = |d: Dependency| passes(d, kind, optional_only);
    assert forall|i: int| 0 <= i < out.len() implies (kind matches Some(k) ==> (#[trigger] out[i]).kind == k) && (
    optional_only ==> out[i].optional) && deps.contains(out[i]) by {
        deps.lemma_filter_pred(pred, i);
        deps.lemma_filter_contains_rev(pred, out[i]);
    }
    assert forall|j: int|
        0 <= j < deps.len() && (kind matches Some(k) ==> deps[j].kind == k) && (optional_only ==> deps[j].optional)
            implies out.contains(#[trigger] deps[j]) by {
        deps.lemma_filter_contains(pred, j);
    }
}

/// The dependency listed at `i` is the manifest entry named `name` of the
/// given kind, for every target.
pub open spec fn listed_as(out: Seq<Dependency>, i: int, name: Seq<char>, kind: DependencyKind) -> bool {
    &&& 0 <= i < out.len()
    &&& out[i].name@ == name
    &&& out[i].kind == kind
    &&& out[i].target is None
}

/// Some dependency listed is the manifest entry named `name` of the kind.
pub open spec fn is_listed_as(out: Seq<Dependency>, name: Seq<char>, kind: DependencyKind) -> bool {
    exists|i: int| #[trigger] listed_as(out, i, name, kind)
}

proof fn lemma_entry_listed(m: ManifestDeps, perm: Seq<int>, out: Seq<Dependency>, x: int)
    requires
        lists_dependencies(m, perm, out),
        0 <= x < manifest_entries(m).len(),
    ensures
        is_listed_as(out, manifest_entries(m)[x].0@, manifest_entries(m)[x].2) <== manifest_entries(m)[x].3 is None,
{
    let es = manifest_entries(m);
    let ks = Seq::new(es.len(), |i: int| dependency_key_view(es[i].0@, es[i].2));
    lemma_sorts_covers(ks, perm, x);
    let i = choose|i: int| 0 <= i < perm.len() && perm[i] == x;
    assert(describes_raw(es[perm[i]], out[i]));
    if es[x].3 is None {
        assert(listed_as(out, i, es[x].0@, es[x].2));
    }
}

/// Every entry of the manifest's `[dependencies]`, `[dev-dependencies]` and
/// `[build-dependencies]` tables is listed under its name, as a normal,
/// dev or build dependency respectively, for every target.
pub proof fn law_manifest_tables_listed(m: ManifestDeps, perm: Seq<int>, out: Seq<Dependency>)
    requires
        lists_dependencies(m, perm, out),
    ensures
        m.dependencies matches Some(d) ==> forall|j: int|
            0 <= j < d@.len() ==> is_listed_as(out, #[trigger] d@[j].0@, DependencyKind::Normal),
        m.dev_dependencies matches Some(d) ==> forall|j: int|
            0 <= j < d@.len() ==> is_listed_as(out, #[trigger] d@[j].0@, DependencyKind::Dev),
        m.build_dependencies matches Some(d) ==> forall|j: int|
            0 <= j < d@.len() ==> is_listed_as(out, #[trigger] d@[j].0@, DependencyKind::Build),
{
    let es = manifest_entries(m);
    let t1 = tagged(m.dependencies, DependencyKind::Normal, None);
    let t2 = tagged(m.dev_dependencies, DependencyKind::Dev, None);
    let t3 = tagged(m.build_dependencies, DependencyKind::Build, None);
    if let Some(d) = m.dependencies {
        assert forall|j: int| 0 <= j < d@.len() implies is_listed_as(out, #[trigger] d@[j].0@, DependencyKind::Normal) by {
            assert(es[j] == t1[j]);
            lemma_entry_listed(m, perm, out, j);
        }
    }
    if let Some(d) = m.dev_dependencies {
        assert forall|j: int| 0 <= j < d@.len() implies is_listed_as(out, #[trigger] d@[j].0@, DependencyKind::Dev) by {
            assert(es[t1.len() + j] == t2[j]);
            lemma_entry_listed(m, perm, out, t1.len() + j);
        }
    }
    if let Some(d) = m.build_dependencies {
        assert forall|j: int| 0 <= j < d@.len() implies is_listed_as(out, #[trigger] d@[j].0@, DependencyKind::Build) by {
            assert(es[t1.len() + t2.len() + j] == t3[j]);
            lemma_entry_listed(m, perm, out, t1.len() + t2.len() + j);
        }
    }
}

} // verus!
