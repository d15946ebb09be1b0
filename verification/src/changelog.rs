//! A crate's changelog: which file holds it, which releases a query picks,
//! and how their notes are cut down.

use vstd::prelude::*;
use crate::errors::Error;
use crate::markdown::{leading_nonblank, paragraph_lines};
use crate::text::{chars_of, join, lines, string_of, take_chars, truncate_chars};
use crate::versions::{semver_le, semver_valid, version_le, version_parses};

verus! {

/// A release in a changelog: version, title and notes.
pub type EntryView = (Seq<char>, Seq<char>, Seq<char>);

/// What `parse_changelog::parse` finds in a text, in the text's order:
/// `None` where it reports an error.
pub uninterp spec fn parsed_changelog(text: Seq<char>) -> Option<Seq<EntryView>>;

/// The views of parsed releases.
pub open spec fn entry_views(v: Seq<(String, String, String)>) -> Seq<EntryView> {
    Seq::new(v.len(), |i: int| (v[i].0@, v[i].1@, v[i].2@))
}

/// Calls `parse_changelog::parse` and lists its releases in order as
/// (version, title, notes), or gives its error's message. Claims that the
/// releases are `parsed_changelog` of the text, and, as the crate documents,
/// that a successful parse finds at least one release and no version twice.
#[verifier::external_body]
fn parse_releases(text: &str) -> (r: Result<Vec<(String, String, String)>, String>)
    ensures
        r is Ok == parsed_changelog(text@) is Some,
        r matches Ok(v) ==> parsed_changelog(text@) == Some(entry_views(v@)),
        r matches Ok(v) ==> v@.len() > 0 && forall|i: int, j: int|
            0 <= i < j < v@.len() ==> (#[trigger] v@[i]).0@ != (#[trigger] v@[j]).0@,
{
    match parse_changelog::parse(text) {
        Ok(map) => {
            let mut v = Vec::new();
            for release in map.values() {
                v.push((release.version.to_string(), release.title.to_string(), release.notes.to_string()));
            }
            Ok(v)
        },
        Err(e) => Err(e.to_string()),
    }
}

/// The file names a changelog goes by, in the order they are tried.
pub open spec fn candidate_names() -> Seq<Seq<char>> {
    seq![
        "CHANGELOG.md"@,
        "CHANGELOG"@,
        "CHANGES.md"@,
        "CHANGES"@,
        "HISTORY.md"@,
        "HISTORY"@,
        "NEWS.md"@,
        "NEWS"@,
    ]
}

/// The file names a changelog goes by, in the order they are tried.
pub fn changelog_candidates() -> (r: Vec<String>)
    ensures
        crate::order::strs(r@) == candidate_names(),
{
    let mut r: Vec<String> = Vec::new();
    r.push(String::from_str("CHANGELOG.md"));
    r.push(String::from_str("CHANGELOG"));
    r.push(String::from_str("CHANGES.md"));
    r.push(String::from_str("CHANGES"));
    r.push(String::from_str("HISTORY.md"));
    r.push(String::from_str("HISTORY"));
    r.push(String::from_str("NEWS.md"));
    r.push(String::from_str("NEWS"));
    assert(crate::order::strs(r@) =~= candidate_names());
    r
}

/// The changelog is the first candidate that exists (`exists[i]` tells
/// whether the `i`-th does); with none, the error lists them all.
pub fn first_existing(exists: &Vec<bool>) -> (r: Result<usize, Error>)
    requires
        exists@.len() == candidate_names().len(),
    ensures
        r matches Ok(i) ==> i < exists@.len() && exists@[i as int] && forall|j: int| 0 <= j < i ==> !exists@[j],
        r is Err <==> forall|j: int| 0 <= j < exists@.len() ==> !exists@[j],
        r matches Err(e) ==> e matches Error::MissingSourceFile(m) && m@ == join(candidate_names(), ","@),
{
    let mut i: usize = 0;
    while i < exists.len()
        invariant
            i <= exists@.len(),
            forall|j: int| 0 <= j < i ==> !exists@[j],
        decreases exists@.len() - i,
    {
        if exists[i] {
            return Ok(i);
        }
        i += 1;
    }
    let names = changelog_candidates();
    let mut parts: Vec<Vec<char>> = Vec::new();
    for k in 0..names.len()
        invariant
            crate::order::strs(names@) == candidate_names(),
            crate::text::views(parts@) == candidate_names().take(k as int),
    {
        let ghost prev = parts@;
        let c = chars_of(names[k].as_str());
        assert(c@ == crate::order::strs(names@)[k as int]);
        parts.push(c);
        assert(crate::text::views(parts@) =~= crate::text::views(prev).push(c@));
        assert(candidate_names().take(k + 1) =~= candidate_names().take(k as int).push(candidate_names()[k as int]));
    }
    assert(candidate_names().take(8) =~= candidate_names());
    let sep = chars_of(",");
    let m = crate::text::join_chars(&parts, &sep);
    Err(Error::MissingSourceFile(string_of(&m)))
}

/// A changelog query: one release by its version, or the releases between
/// two versions; at most `limit`; notes cut to their first paragraph when
/// `summary_only`, and to `max_chars` characters.
pub struct ChangelogQuery {
    pub section_version: Option<String>,
    pub from_version: Option<String>,
    pub to_version: Option<String>,
    pub limit: usize,
    pub summary_only: bool,
    pub max_chars: usize,
}

/// The bounds of the query are versions `semver` reads.
pub open spec fn query_ok(q: ChangelogQuery) -> bool {
    &&& (q.from_version matches Some(f) ==> semver_valid(f@))
    &&& (q.to_version matches Some(t) ==> semver_valid(t@))
}

/// The release's version lies within the bounds; a version `semver` cannot
/// read passes only where no bound is given.
pub open spec fn in_range(version: Seq<char>, from: Option<String>, to: Option<String>) -> bool {
    if !semver_valid(version) {
        from is None && to is None
    } else {
        &&& (from matches Some(f) ==> semver_le(f@, version))
        &&& (to matches Some(t) ==> semver_le(version, t@))
    }
}

/// The first `n` of `s`, or all of it.
pub open spec fn take_upto<A>(s: Seq<A>, n: nat) -> Seq<A> {
    if n < s.len() {
        s.take(n as int)
    } else {
        s
    }
}

/// Position of the release with version `v` at or after `i`.
pub open spec fn release_pos_from(es: Seq<EntryView>, v: Seq<char>, i: nat) -> Option<nat>
    decreases es.len() - i,
{
    if i >= es.len() {
        None
    } else if es[i as int].0 == v {
        Some(i)
    } else {
        release_pos_from(es, v, i + 1)
    }
}

/// The releases a query picks, before their notes are cut: `None` when the
/// asked-for version has no release.
pub open spec fn selected(es: Seq<EntryView>, q: ChangelogQuery) -> Option<Seq<EntryView>> {
    match q.section_version {
        Some(s) => match release_pos_from(es, s@, 0) {
            Some(p) => Some(take_upto(seq![es[p as int]], q.limit as nat)),
            None => None,
        },
        None => Some(take_upto(es.filter(|e: EntryView| in_range(e.0, q.from_version, q.to_version)), q.limit as nat)),
    }
}

/// Notes cut to their first paragraph (lines up to the first blank one,
/// joined with newlines) when asked.
pub open spec fn summarized(notes: Seq<char>, summary_only: bool) -> Seq<char> {
    if summary_only {
        let ls = lines(notes);
        join(ls.take(leading_nonblank(ls, 0) as int), "\n"@)
    } else {
        notes
    }
}

/// One release of a changelog.
pub struct Release {
    pub version: String,
    pub title: String,
    pub notes: String,
    /// The notes had more than the asked-for number of characters.
    pub notes_truncated: bool,
}

/// `r` is the release `e` with its notes cut as the query says.
pub open spec fn release_of(e: EntryView, q: ChangelogQuery, r: Release) -> bool {
    let n = summarized(e.2, q.summary_only);
    &&& r.version@ == e.0
    &&& r.title@ == e.1
    &&& r.notes@ == take_chars(n, q.max_chars as nat)
    &&& r.notes_truncated == (n.len() > q.max_chars)
}

/// A changelog: the file it was read from and the releases a query picked.
pub struct Changelog {
    pub source_file: String,
    pub releases: Vec<Release>,
}

/// Cuts a release's notes as the query says.
fn make_release(e: &(String, String, String), q: &ChangelogQuery) -> (r: Release)
    ensures
        release_of((e.0@, e.1@, e.2@), *q, r),
{
    let notes = chars_of(e.2.as_str());
    let n = if q.summary_only {
        let nl = chars_of("\n");
        paragraph_lines(&notes, &nl)
    } else {
        notes
    };
    let (cut, truncated) = truncate_chars(&n, q.max_chars);
    Release {
        version: String::from_str(e.0.as_str()),
        title: String::from_str(e.1.as_str()),
        notes: string_of(&cut),
        notes_truncated: truncated,
    }
}

/// Whether a release's version lies within the query's bounds.
fn release_in_range(version: &str, q: &ChangelogQuery) -> (r: bool)
    requires
        query_ok(*q),
    ensures
        r == in_range(version@, q.from_version, q.to_version),
{
    if !version_parses(version) {
        return q.from_version.is_none() && q.to_version.is_none();
    }
    let lower = match &q.from_version {
        Some(f) => version_le(f.as_str(), version),
        None => true,
    };
    let upper = match &q.to_version {
        Some(t) => version_le(version, t.as_str()),
        None => true,
    };
    lower && upper
}

/// The releases a query picks from parsed releases, with their notes cut;
/// an error when the asked-for version has no release.
pub fn select_releases(entries: &Vec<(String, String, String)>, q: &ChangelogQuery) -> (r: Result<Vec<Release>, Error>)
    requires
        query_ok(*q),
    ensures
        r is Ok <==> selected(entry_views(entries@), *q) is Some,
        r matches Ok(rs) ==> rs@.len() == selected(entry_views(entries@), *q)->0.len() && forall|i: int|
            0 <= i < rs@.len() ==> #[trigger] release_of(selected(entry_views(entries@), *q)->0[i], *q, rs@[i]),
        r matches Err(e) ==> e matches Error::ResourceNotFound(m) && m@ == "version "@ + q.section_version->0@ + " in changelog"@,
{
    let ghost es = entry_views(entries@);
    let mut out: Vec<Release> = Vec::new();
    match &q.section_version {
        Some(s) => {
            let sv = chars_of(s.as_str());
            let mut i: usize = 0;
            while i < entries.len()
                invariant
                    i <= entries@.len(),
                    es == entry_views(entries@),
                    sv@ == s@,
                    release_pos_from(es, s@, 0) == release_pos_from(es, s@, i as nat),
                ensures
                    i <= entries@.len(),
                    release_pos_from(es, s@, 0) == release_pos_from(es, s@, i as nat),
                    i < entries@.len() ==> es[i as int].0 == s@,
                decreases entries@.len() - i,
            {
                let v = chars_of(entries[i].0.as_str());
                if crate::text::chars_eq(&v, &sv) {
                    break;
                }
                i += 1;
            }
            if i == entries.len() {
                let mut m = chars_of("version ");
                crate::text::append_chars(&mut m, &sv);
                crate::text::append_chars(&mut m, &chars_of(" in changelog"));
                let ms = string_of(&m);
                assert(ms@ =~= "version "@ + s@ + " in changelog"@);
                return Err(Error::ResourceNotFound(ms));
            }
            assert(release_pos_from(es, s@, i as nat) == Some(i as nat));
            if q.limit > 0 {
                out.push(make_release(&entries[i], q));
            }
            proof {
                let sel = take_upto(seq![es[i as int]], q.limit as nat);
                if q.limit == 0 {
                    assert(sel =~= seq![]);
                } else {
                    assert(sel =~= seq![es[i as int]]);
                }
            }
        },
        None => {
            let ghost pred = |e: EntryView| in_range(e.0, q.from_version, q.to_version);
            let mut i: usize = 0;
            while i < entries.len()
                invariant
                    i <= entries@.len(),
                    es == entry_views(entries@),
                    query_ok(*q),
                    pred == (|e: EntryView| in_range(e.0, q.from_version, q.to_version)),
                    q.section_version is None,
                    out@.len() == take_upto(es.take(i as int).filter(pred), q.limit as nat).len(),
                    forall|k: int| 0 <= k < out@.len() ==> #[trigger] release_of(es.take(i as int).filter(pred)[k], *q, out@[k]),
                decreases entries@.len() - i,
            {
                let ghost before = es.take(i as int).filter(pred);
                proof {
                    assert(es.take(i + 1).drop_last() =~= es.take(i as int));
                    assert(es.take(i + 1).last() == es[i as int]);
                    reveal(Seq::filter);
                    assert(entries@[i as int].0@ == es[i as int].0);
                }
                let keep = release_in_range(entries[i].0.as_str(), q);
                if keep {
                    assert(es.take(i + 1).filter(pred) == before.push(es[i as int]));
                    if out.len() < q.limit {
                        out.push(make_release(&entries[i], q));
                    }
                    assert forall|k: int| 0 <= k < out@.len() implies #[trigger] release_of(es.take(i + 1).filter(pred)[k], *q, out@[k]) by {
                        if k < before.len() {
                            assert(es.take(i + 1).filter(pred)[k] == before[k]);
                        }
                    }
                } else {
                    assert(es.take(i + 1).filter(pred) == before);
                }
                i += 1;
            }
            assert(es.take(entries@.len() as int) =~= es);
            proof {
                let f = es.filter(pred);
                let sel = take_upto(f, q.limit as nat);
                assert(selected(es, *q) == Some(sel));
                assert forall|k: int| 0 <= k < out@.len() implies #[trigger] release_of(sel[k], *q, out@[k]) by {
                    assert(sel[k] == f[k]);
                }
            }
        },
    }
    Ok(out)
}

/// The changelog in `text`, read from the file `source_file`, with the
/// releases the query picks.
pub fn changelog(source_file: String, text: &str, q: &ChangelogQuery) -> (r: Result<Changelog, Error>)
    requires
        query_ok(*q),
    ensures
        parsed_changelog(text@) is None ==> (r matches Err(e) && e matches Error::Other(m) && m@ == "error parsing changelog"@),
        parsed_changelog(text@) matches Some(es) ==> {
            &&& (r is Ok <==> selected(es, *q) is Some)
            &&& (r matches Ok(c) ==> {
                &&& c.source_file@ == source_file@
                &&& c.releases@.len() == selected(es, *q)->0.len()
                &&& forall|i: int| 0 <= i < c.releases@.len() ==> #[trigger] release_of(selected(es, *q)->0[i], *q, c.releases@[i])
            })
            &&& (r matches Err(e) ==> e matches Error::ResourceNotFound(m) && m@ == "version "@ + q.section_version->0@ + " in changelog"@)
        },
{
    let entries = match parse_releases(text) {
        Ok(v) => v,
        Err(_) => return Err(Error::Other(String::from_str("error parsing changelog"))),
    };
    match select_releases(&entries, q) {
        Ok(releases) => Ok(Changelog { source_file, releases }),
        Err(e) => Err(e),
    }
}

/// Whether a changelog query's bounds are versions `semver` reads.
pub fn check_query(q: &ChangelogQuery) -> (r: bool)
    ensures
        r == query_ok(*q),
{
    let from_ok = match &q.from_version {
        Some(f) => version_parses(f.as_str()),
        None => true,
    };
    let to_ok = match &q.to_version {
        Some(t) => version_parses(t.as_str()),
        None => true,
    };
    from_ok && to_ok
}

/// The changelog in `text` for a query whose bounds may not be versions:
/// `None` when a bound is not one, else what `changelog` gives.
pub fn changelog_for(source_file: String, text: &str, q: &ChangelogQuery) -> (r: Option<Result<Changelog, Error>>)
    ensures
        r is None <==> !query_ok(*q),
        (parsed_changelog(text@) is None && query_ok(*q)) ==> (r matches Some(Err(e)) && e matches Error::Other(m) && m@ == "error parsing changelog"@),
        (parsed_changelog(text@) is Some && query_ok(*q)) ==> {
            let es = parsed_changelog(text@)->0;
            &&& (r matches Some(Ok(_)) <==> selected(es, *q) is Some)
            &&& (r matches Some(Ok(c)) ==> {
                &&& c.source_file@ == source_file@
                &&& c.releases@.len() == selected(es, *q)->0.len()
                &&& forall|i: int| 0 <= i < c.releases@.len() ==> #[trigger] release_of(selected(es, *q)->0[i], *q, c.releases@[i])
            })
        },
{
    if !check_query(q) {
        return None;
    }
    Some(changelog(source_file, text, q))
}

/// How many releases a changelog query returns unless told otherwise.
pub fn default_limit() -> (r: usize)
    ensures
        r == 20,
{
    20
}

/// How many characters of notes a release keeps unless told otherwise.
pub fn default_max_chars() -> (r: usize)
    ensures
        r == 20000,
{
    20000
}

/// A query never picks more releases than its limit, and a query for one
/// version picks at most that one, with that version.
pub proof fn law_selection_respects_limit(es: Seq<EntryView>, q: ChangelogQuery)
    ensures
        selected(es, q) matches Some(s) ==> s.len() <= q.limit,
        (q.section_version is Some && selected(es, q) is Some) ==> {
            let s = selected(es, q)->0;
            s.len() <= 1 && forall|i: int| 0 <= i < s.len() ==> (#[trigger] s[i]).0 == q.section_version->0@
        },
{
    if let Some(v) = q.section_version {
        lemma_release_pos_from(es, v@, 0);
    }
}

proof fn lemma_release_pos_from(es: Seq<EntryView>, v: Seq<char>, i: nat)
    ensures
        release_pos_from(es, v, i) matches Some(p) ==> i <= p < es.len() && es[p as int].0 == v,
    decreases es.len() - i,
{
    if i < es.len() && es[i as int].0 != v {
        lemma_release_pos_from(es, v, i + 1);
    }
}

/// Without a section, a query picks releases of the changelog, in its
/// order, each at or after `from` and at or before `to` (by semver order)
/// when those are given, none whose version does not parse when a bound is
/// given, and, when the limit leaves room, every release in that range.
pub proof fn law_range_selection(es: Seq<EntryView>, q: ChangelogQuery)
    requires
        q.section_version is None,
    ensures
        selected(es, q) is Some,
        forall|i: int| 0 <= i < selected(es, q)->0.len() ==> es.contains(#[trigger] selected(es, q)->0[i]),
        forall|i: int|
            0 <= i < selected(es, q)->0.len() ==> (q.from_version matches Some(f) ==> semver_valid(
                (#[trigger] selected(es, q)->0[i]).0,
            ) && semver_le(f@, selected(es, q)->0[i].0)),
        forall|i: int|
            0 <= i < selected(es, q)->0.len() ==> (q.to_version matches Some(t) ==> semver_valid(
                (#[trigger] selected(es, q)->0[i]).0,
            ) && semver_le(selected(es, q)->0[i].0, t@)),
        q.limit >= es.len() ==> forall|j: int|
            0 <= j < es.len() && (semver_valid(es[j].0) || (q.from_version is None && q.to_version is None)) && (
            q.from_version matches Some(f) ==> semver_le(f@, es[j].0)) && (q.to_version matches Some(t) ==> semver_le(
                es[j].0,
                t@,
            )) ==> selected(es, q)->0.contains(#[trigger] es[j]),
{
    let pred = |e: EntryView| in_range(e.0, q.from_version, q.to_version);
    let f = es.filter(pred);
    es.lemma_filter_len(pred);
    let s = selected(es, q)->0;
    assert forall|i: int| 0 <= i < s.len() implies es.contains(#[trigger] s[i]) && (q.from_version matches Some(fv)
        ==> semver_valid(s[i].0) && semver_le(fv@, s[i].0)) && (q.to_version matches Some(t) ==> semver_valid(s[i].0)
        && semver_le(s[i].0, t@)) by {
        assert(s[i] == f[i]);
        es.lemma_filter_pred(pred, i);
        es.lemma_filter_contains_rev(pred, f[i]);
    }
    if q.limit >= es.len() {
        assert(s == f);
        assert forall|j: int|
            0 <= j < es.len() && (semver_valid(es[j].0) || (q.from_version is None && q.to_version is None)) && (
            q.from_version matches Some(fv) ==> semver_le(fv@, es[j].0)) && (q.to_version matches Some(t) ==> semver_le(
                es[j].0,
                t@,
            )) implies s.contains(#[trigger] es[j]) by {
            assert(pred(es[j]));
            es.lemma_filter_contains(pred, j);
        }
    }
}

} // verus!
