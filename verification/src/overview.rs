//! A first look at a crate: its metadata, the features on by default, its
//! direct dependencies, its top-level modules and the start of its README.

use vstd::prelude::*;
use crate::deps::{Dependency, DependencyKind};
use crate::features::Feature;
use crate::listing::{Entry, Listing};
use crate::markdown::ReadmeBody;
use crate::metadata::CrateMetadata;
use crate::model::ItemKind;
use crate::render::opt_view;
use crate::text::{chars_eq, chars_of, string_of, take_chars, truncate_chars};

verus! {

/// The elements of `s` that satisfy `keep`, in order.
pub open spec fn kept<T>(s: Seq<T>, keep: spec_fn(T) -> bool) -> Seq<T>
    decreases s.len(),
{
    if s.len() == 0 {
        seq![]
    } else {
        (if keep(s[0]) {
            seq![s[0]]
        } else {
            seq![]
        }) + kept(s.drop_first(), keep)
    }
}

/// A feature belongs in the overview: it is on by default or is `default`.
pub open spec fn overview_feature(f: Feature) -> bool {
    f.enabled_by_default || f.name@ == "default"@
}

/// A dependency belongs in the overview: a normal one, for every target.
pub open spec fn overview_dependency(d: Dependency) -> bool {
    d.kind == DependencyKind::Normal && d.target is None
}

/// An entry belongs in the overview: a module.
pub open spec fn overview_entry(e: Entry) -> bool {
    e.kind == ItemKind::Module
}

/// How many characters of the README an overview shows.
pub open spec fn overview_readme_chars() -> nat {
    4000
}

/// A crate overview.
pub struct CrateOverview {
    pub metadata: CrateMetadata,
    /// The features on by default, and `default` itself.
    pub default_features: Vec<Feature>,
    /// The normal dependencies that every target has.
    pub direct_dependencies: Vec<Dependency>,
    /// The modules at the crate root.
    pub public_modules: Vec<Entry>,
    /// The README, its text cut to 4000 characters.
    pub readme: Option<ReadmeBody>,
}

fn keep_features(v: Vec<Feature>) -> (out: Vec<Feature>)
    ensures
        out@ == kept(v@, |f: Feature| overview_feature(f)),
{
    let ghost all = v@;
    let mut v = v;
    let mut out: Vec<Feature> = Vec::new();
    let dflt = chars_of("default");
    proof {
        reveal_strlit("default");
    }
    while v.len() > 0
        invariant
            dflt@ == "default"@,
            out@ + kept(v@, |f: Feature| overview_feature(f)) == kept(all, |f: Feature| overview_feature(f)),
        decreases v@.len(),
    {
        let ghost before = v@;
        let f = v.remove(0);
        assert(before.drop_first() =~= v@);
        let keep = f.enabled_by_default || chars_eq(&chars_of(f.name.as_str()), &dflt);
        let ghost prev = out@;
        if keep {
            out.push(f);
            assert(out@ + kept(v@, |f: Feature| overview_feature(f)) =~= prev + kept(before, |f: Feature| overview_feature(f)));
        } else {
            assert(kept(before, |f: Feature| overview_feature(f)) =~= kept(v@, |f: Feature| overview_feature(f)));
        }
    }
    assert(out@ =~= kept(all, |f: Feature| overview_feature(f)));
    out
}

fn keep_dependencies(v: Vec<Dependency>) -> (out: Vec<Dependency>)
    ensures
        out@ == kept(v@, |d: Dependency| overview_dependency(d)),
{
    let ghost all = v@;
    let mut v = v;
    let mut out: Vec<Dependency> = Vec::new();
    while v.len() > 0
        invariant
            out@ + kept(v@, |d: Dependency| overview_dependency(d)) == kept(all, |d: Dependency| overview_dependency(d)),
        decreases v@.len(),
    {
        let ghost before = v@;
        let d = v.remove(0);
        assert(before.drop_first() =~= v@);
        let keep = d.kind == DependencyKind::Normal && d.target.is_none();
        let ghost prev = out@;
        if keep {
            out.push(d);
            assert(out@ + kept(v@, |d: Dependency| overview_dependency(d)) =~= prev + kept(
                before,
                |d: Dependency| overview_dependency(d),
            ));
        } else {
            assert(kept(before, |d: Dependency| overview_dependency(d)) =~= kept(v@, |d: Dependency| overview_dependency(d)));
        }
    }
    assert(out@ =~= kept(all, |d: Dependency| overview_dependency(d)));
    out
}

fn keep_modules(v: Vec<Entry>) -> (out: Vec<Entry>)
    ensures
        out@ == kept(v@, |e: Entry| overview_entry(e)),
{
    let ghost all = v@;
    let mut v = v;
    let mut out: Vec<Entry> = Vec::new();
    while v.len() > 0
        invariant
            out@ + kept(v@, |e: Entry| overview_entry(e)) == kept(all, |e: Entry| overview_entry(e)),
        decreases v@.len(),
    {
        let ghost before = v@;
        let e = v.remove(0);
        assert(before.drop_first() =~= v@);
        let keep = e.kind == ItemKind::Module;
        let ghost prev = out@;
        if keep {
            out.push(e);
            assert(out@ + kept(v@, |e: Entry| overview_entry(e)) =~= prev + kept(before, |e: Entry| overview_entry(e)));
        } else {
            assert(kept(before, |e: Entry| overview_entry(e)) =~= kept(v@, |e: Entry| overview_entry(e)));
        }
    }
    assert(out@ =~= kept(all, |e: Entry| overview_entry(e)));
    out
}

/// Puts a crate overview together from what the other requests return:
/// the metadata as it is, the features on by default (and `default`), the
/// normal dependencies without a target, the module entries of the root
/// listing, and the README with its text cut to 4000 characters.
pub fn crate_overview(
    metadata: CrateMetadata,
    features: Vec<Feature>,
    deps: Vec<Dependency>,
    listing: Listing,
    readme: Option<ReadmeBody>,
) -> (r: CrateOverview)
    ensures
        r.metadata == metadata,
        r.default_features@ == kept(features@, |f: Feature| overview_feature(f)),
        r.direct_dependencies@ == kept(deps@, |d: Dependency| overview_dependency(d)),
        r.public_modules@ == kept(listing.entries@, |e: Entry| overview_entry(e)),
        (r.readme is Some) == (readme is Some),
        r.readme matches Some(b) ==> {
            let given = readme->0;
            &&& b.headings == given.headings
            &&& b.content_truncated == given.content_truncated
            &&& opt_view(b.content) == match given.content {
                Some(c) => Some(take_chars(c@, overview_readme_chars())),
                None => None,
            }
        },
{
    let readme = match readme {
        Some(body) => {
            let content = match &body.content {
                Some(c) => {
                    let (cut, _) = truncate_chars(&chars_of(c.as_str()), 4000);
                    Some(string_of(&cut))
                },
                None => None,
            };
            Some(ReadmeBody { headings: body.headings, content, content_truncated: body.content_truncated })
        },
        None => None,
    };
    CrateOverview {
        metadata,
        default_features: keep_features(features),
        direct_dependencies: keep_dependencies(deps),
        public_modules: keep_modules(listing.entries),
        readme,
    }
}

} // verus!
