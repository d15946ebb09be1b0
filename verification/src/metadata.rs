//! A crate's package metadata, as its own manifest gives it: values it
//! inherits from a workspace are not at hand and count as absent.

use vstd::prelude::*;
use crate::errors::Error;
use crate::order::{copy_strings, strs};
use crate::render::opt_view;

verus! {

/// A manifest value that may be inherited from the workspace.
pub enum Inheritable<T> {
    Local(T),
    Inherited,
}

/// The `readme` field: a path, or `false`/`true`.
pub enum Readme {
    Path(String),
    Flag(bool),
}

/// The `[package]` table of a manifest.
pub struct PackageMeta {
    pub name: String,
    pub version: Option<Inheritable<String>>,
    pub description: Option<Inheritable<String>>,
    pub repository: Option<Inheritable<String>>,
    pub homepage: Option<Inheritable<String>>,
    pub documentation: Option<Inheritable<String>>,
    pub license: Option<Inheritable<String>>,
    pub license_file: Option<Inheritable<String>>,
    pub readme: Option<Inheritable<Readme>>,
    pub rust_version: Option<Inheritable<String>>,
    /// The edition, as its year.
    pub edition: Option<Inheritable<String>>,
    pub authors: Option<Inheritable<Vec<String>>>,
    pub keywords: Option<Inheritable<Vec<String>>>,
    pub categories: Option<Inheritable<Vec<String>>>,
}

/// A crate's metadata.
pub struct CrateMetadata {
    pub name: String,
    pub version: String,
    pub description: Option<String>,
    pub repository: Option<String>,
    pub homepage: Option<String>,
    pub documentation: Option<String>,
    pub license: Option<String>,
    pub license_file: Option<String>,
    pub readme: Option<String>,
    /// The minimum supported Rust version.
    pub rust_version: Option<String>,
    pub edition: Option<String>,
    pub authors: Vec<String>,
    pub keywords: Vec<String>,
    pub categories: Vec<String>,
}

/// The manifest's own text for a field; absent when inherited.
pub open spec fn local_text(mi: Option<Inheritable<String>>) -> Option<Seq<char>> {
    match mi {
        Some(Inheritable::Local(s)) => Some(s@),
        _ => None,
    }
}

/// The manifest's own list for a field; empty when absent or inherited.
pub open spec fn local_list(mi: Option<Inheritable<Vec<String>>>) -> Seq<Seq<char>> {
    match mi {
        Some(Inheritable::Local(v)) => strs(v@),
        _ => seq![],
    }
}

/// The readme path the manifest gives; absent for a flag or inherited.
pub open spec fn readme_path(mi: Option<Inheritable<Readme>>) -> Option<Seq<char>> {
    match mi {
        Some(Inheritable::Local(Readme::Path(p))) => Some(p@),
        _ => None,
    }
}

/// The manifest's own text for a field.
pub fn local(mi: &Option<Inheritable<String>>) -> (r: Option<String>)
    ensures
        opt_view(r) == local_text(*mi),
{
    match mi {
        Some(Inheritable::Local(s)) => Some(String::from_str(s.as_str())),
        _ => None,
    }
}

fn local_vec(mi: &Option<Inheritable<Vec<String>>>) -> (r: Vec<String>)
    ensures
        strs(r@) == local_list(*mi),
{
    match mi {
        Some(Inheritable::Local(v)) => copy_strings(v),
        _ => {
            let r: Vec<String> = Vec::new();
            assert(strs(r@) =~= seq![]);
            r
        },
    }
}

/// `m` is the metadata of `pkg` at version `version` (the manifest's own
/// version when it gives one).
pub open spec fn describes_package(pkg: PackageMeta, version: Seq<char>, m: CrateMetadata) -> bool {
    &&& m.name@ == pkg.name@
    &&& m.version@ == (match local_text(pkg.version) {
        Some(v) => v,
        None => version,
    })
    &&& opt_view(m.description) == local_text(pkg.description)
    &&& opt_view(m.repository) == local_text(pkg.repository)
    &&& opt_view(m.homepage) == local_text(pkg.homepage)
    &&& opt_view(m.documentation) == local_text(pkg.documentation)
    &&& opt_view(m.license) == local_text(pkg.license)
    &&& opt_view(m.license_file) == local_text(pkg.license_file)
    &&& opt_view(m.readme) == readme_path(pkg.readme)
    &&& opt_view(m.rust_version) == local_text(pkg.rust_version)
    &&& opt_view(m.edition) == local_text(pkg.edition)
    &&& strs(m.authors@) == local_list(pkg.authors)
    &&& strs(m.keywords@) == local_list(pkg.keywords)
    &&& strs(m.categories@) == local_list(pkg.categories)
}

/// The metadata of a crate version from its manifest's `[package]` table;
/// an error when the manifest has none.
pub fn crate_metadata(package: Option<&PackageMeta>, version: &str) -> (r: Result<CrateMetadata, Error>)
    ensures
        package is None <==> r is Err,
        r matches Err(e) ==> e matches Error::MissingMetadata(m) && m@ == "missing package metadata"@,
        r matches Ok(m) ==> describes_package(*package->0, version@, m),
{
    let pkg = match package {
        Some(p) => p,
        None => return Err(Error::MissingMetadata(String::from_str("missing package metadata"))),
    };
    let readme = match &pkg.readme {
        Some(Inheritable::Local(Readme::Path(p))) => Some(String::from_str(p.as_str())),
        _ => None,
    };
    let version = match local(&pkg.version) {
        Some(v) => v,
        None => String::from_str(version),
    };
    Ok(CrateMetadata {
        name: String::from_str(pkg.name.as_str()),
        version,
        description: local(&pkg.description),
        repository: local(&pkg.repository),
        homepage: local(&pkg.homepage),
        documentation: local(&pkg.documentation),
        license: local(&pkg.license),
        license_file: local(&pkg.license_file),
        readme,
        rust_version: local(&pkg.rust_version),
        edition: local(&pkg.edition),
        authors: local_vec(&pkg.authors),
        keywords: local_vec(&pkg.keywords),
        categories: local_vec(&pkg.categories),
    })
}

/// Where a crate's README is looked for.
pub enum ReadmeChoice {
    /// The file the manifest names, relative to the crate root.
    File(String),
    /// The usual names, in order.
    Defaults,
}

/// Where to look for the README: the file the manifest names, or the usual
/// names when the manifest names none (or has no package, or inherits the
/// field); an error when the manifest turns the README off.
pub fn readme_choice(package: Option<&PackageMeta>) -> (r: Result<ReadmeChoice, Error>)
    ensures
        package is None ==> r matches Ok(ReadmeChoice::Defaults),
        package matches Some(p) ==> match p.readme {
            Some(Inheritable::Local(Readme::Path(f))) => r matches Ok(ReadmeChoice::File(g)) && g@ == f@,
            Some(Inheritable::Local(Readme::Flag(false))) => r matches Err(e) && e matches Error::MissingSourceFile(m) && m@ == "readme disabled in crate"@,
            _ => r matches Ok(ReadmeChoice::Defaults),
        },
{
    match package {
        None => Ok(ReadmeChoice::Defaults),
        Some(p) => match &p.readme {
            Some(Inheritable::Local(Readme::Path(f))) => Ok(ReadmeChoice::File(String::from_str(f.as_str()))),
            Some(Inheritable::Local(Readme::Flag(false))) => Err(Error::MissingSourceFile(String::from_str("readme disabled in crate"))),
            _ => Ok(ReadmeChoice::Defaults),
        },
    }
}

/// The error for a README file the manifest names but the crate lacks.
pub fn missing_readme() -> (e: Error)
    ensures
        e matches Error::MissingSourceFile(m) && m@ == "no readme in crate"@,
{
    Error::MissingSourceFile(String::from_str("no readme in crate"))
}

/// The usual README names, in the order they are tried.
pub open spec fn readme_names() -> Seq<Seq<char>> {
    seq!["README.md"@, "README.txt"@, "README"@]
}

/// The usual README names, in the order they are tried.
pub fn readme_candidates() -> (r: Vec<String>)
    ensures
        strs(r@) == readme_names(),
{
    let mut r: Vec<String> = Vec::new();
    r.push(String::from_str("README.md"));
    r.push(String::from_str("README.txt"));
    r.push(String::from_str("README"));
    assert(strs(r@) =~= readme_names());
    r
}

/// The README is the first usual name that exists (`exists[i]` tells
/// whether the `i`-th does); with none, the error lists them all.
pub fn default_readme(exists: &Vec<bool>) -> (r: Result<usize, Error>)
    requires
        exists@.len() == readme_names().len(),
    ensures
        r matches Ok(i) ==> i < exists@.len() && exists@[i as int] && forall|j: int| 0 <= j < i ==> !exists@[j],
        r is Err <==> forall|j: int| 0 <= j < exists@.len() ==> !exists@[j],
        r matches Err(e) ==> e matches Error::MissingSourceFile(m) && m@ == "README.md,README.txt,README"@,
{
    let mut i: usize = 0;
    while i < exists.len()
        invariant
            i <= exists@.len(),
            forall|j: int| 0 <= j < i ==> !exists@[j],
        decreases exists@.len() - i,
    {
        if exists[i] {
            return Ok(i);
        }
        i += 1;
    }
    Err(Error::MissingSourceFile(String::from_str("README.md,README.txt,README")))
}

} // verus!
