//! Versions and version requirements as text, with the `semver` crate
//! deciding what parses and how versions order.

use vstd::prelude::*;
use crate::requirement::{parse_req, semver_req_text, star_req, VersionRequirement};
use crate::text::{chars_of, eq_ignore_ascii_case_at, eq_ignore_ascii_case_spec, string_of, trim, trim_bounds, copy_range};

verus! {

#[verifier::external_type_specification]
#[verifier::external_body]
pub struct ExVersionReq(semver::VersionReq);

/// `semver::Version::parse` accepts the text.
pub uninterp spec fn semver_valid(s: Seq<char>) -> bool;

/// The version written `a` orders at or before the one written `b`, by
/// `semver::Version`'s `Ord`.
pub uninterp spec fn semver_le(a: Seq<char>, b: Seq<char>) -> bool;

/// The text `semver` writes for the version read from the text.
pub uninterp spec fn semver_canonical(s: Seq<char>) -> Seq<char>;

/// The pre-release identifiers of the version read from the text, as
/// `semver` writes them.
pub uninterp spec fn semver_pre(s: Seq<char>) -> Seq<char>;

/// `semver::VersionReq::parse` accepts the text.
pub uninterp spec fn semver_req_valid(s: Seq<char>) -> bool;

/// Calls `semver::Version::parse`; claims only that the answer is whether it
/// succeeded.
#[verifier::external_body]
pub(crate) fn version_parses(s: &str) -> (r: bool)
    ensures
        r == semver_valid(s@),
{
    semver::Version::parse(s).is_ok()
}

/// Calls `semver::Version::parse`; on success hands back the version as
/// `Display` writes it and its pre-release part as text, on failure the
/// error's message; claims that it succeeds exactly where `semver_valid`
/// holds and names the two texts, and nothing of the message.
#[verifier::external_body]
fn parse_version(s: &str) -> (r: Result<(String, String), String>)
    ensures
        r is Ok == semver_valid(s@),
        r matches Ok((t, pre)) ==> t@ == semver_canonical(s@) && pre@ == semver_pre(s@),
{
    match semver::Version::parse(s) {
        Ok(v) => Ok((v.to_string(), v.pre.as_str().to_string())),
        Err(e) => Err(e.to_string()),
    }
}

/// Parses both texts with `semver::Version::parse` and compares them with
/// `<=`; claims that the answer is `semver_le` of the two texts.
#[verifier::external_body]
pub(crate) fn version_le(a: &str, b: &str) -> (r: bool)
    requires
        semver_valid(a@),
        semver_valid(b@),
    ensures
        r == semver_le(a@, b@),
{
    match (semver::Version::parse(a), semver::Version::parse(b)) {
        (Ok(x), Ok(y)) => x <= y,
        _ => false,
    }
}

/// `latest` or `newest`, in any ASCII case: the newest published version.
pub open spec fn is_latest_alias(t: Seq<char>) -> bool {
    eq_ignore_ascii_case_spec(t, "latest"@) || eq_ignore_ascii_case_spec(t, "newest"@)
}

/// The requirement a user's text stands for: the aliases stand for `*`, a
/// full version for exactly that version (`=`), anything else for itself;
/// surrounding whitespace is dropped.
pub open spec fn requirement_text(raw: Seq<char>) -> Seq<char> {
    let t = trim(raw);
    if is_latest_alias(t) {
        "*"@
    } else if semver_valid(t) {
        "="@ + t
    } else {
        t
    }
}

/// The requirement a user's text stands for, as text.
pub fn normalized_requirement(raw: &str) -> (r: String)
    ensures
        r@ == requirement_text(raw@),
{
    let v = chars_of(raw);
    let (lo, hi) = trim_bounds(&v, 0, v.len());
    assert(v@.subrange(0, v@.len() as int) =~= v@);
    let latest = chars_of("latest");
    let newest = chars_of("newest");
    if eq_ignore_ascii_case_at(&v, lo, hi, &latest) || eq_ignore_ascii_case_at(&v, lo, hi, &newest) {
        return String::from_str("*");
    }
    let t = copy_range(&v, lo, hi);
    let ts = string_of(&t);
    if version_parses(ts.as_str()) {
        let mut out = chars_of("=");
        crate::text::append_chars(&mut out, &t);
        let r = string_of(&out);
        assert(r@ =~= "="@ + trim(raw@));
        r
    } else {
        ts
    }
}

/// Reads a user's version requirement: `latest`/`newest` mean any version,
/// a full version means exactly it, anything else is a Cargo requirement.
pub fn parse_version_req(raw: &str) -> (r: Result<VersionRequirement, String>)
    ensures
        is_latest_alias(trim(raw@)) ==> r is Ok,
        !is_latest_alias(trim(raw@)) ==> (r is Ok <==> semver_req_valid(requirement_text(raw@))),
        r matches Ok(q) ==> q@.0 == requirement_text(raw@),
        r matches Ok(q) ==> q@.1 == (if is_latest_alias(trim(raw@)) {
            "*"@
        } else {
            semver_req_text(requirement_text(raw@))
        }),
{
    let v = chars_of(raw);
    let (lo, hi) = trim_bounds(&v, 0, v.len());
    assert(v@.subrange(0, v@.len() as int) =~= v@);
    let latest = chars_of("latest");
    let newest = chars_of("newest");
    if eq_ignore_ascii_case_at(&v, lo, hi, &latest) || eq_ignore_ascii_case_at(&v, lo, hi, &newest) {
        proof {
            reveal_strlit("*");
        }
        return Ok(star_req());
    }
    let text = normalized_requirement(raw);
    parse_req(text.as_str())
}

/// A published version as the registry lists it.
pub struct ApiVersion {
    /// The version's text.
    pub num: String,
    /// It has pre-release identifiers.
    pub prerelease: bool,
    pub yanked: bool,
    pub created_at: String,
    pub rust_version: Option<String>,
}

/// The version is wanted: yanked ones only when asked for, pre-releases
/// only when asked for.
pub open spec fn wanted(v: ApiVersion, include_yanked: bool, include_prerelease: bool) -> bool {
    (include_yanked || !v.yanked) && (include_prerelease || !v.prerelease)
}

/// Positions of the wanted versions among the first `n`, in order.
pub open spec fn wanted_positions(vs: Seq<ApiVersion>, include_yanked: bool, include_prerelease: bool, n: int) -> Seq<int>
    decreases n,
{
    if n <= 0 {
        seq![]
    } else {
        wanted_positions(vs, include_yanked, include_prerelease, n - 1) + if wanted(vs[n - 1], include_yanked, include_prerelease) {
            seq![n - 1]
        } else {
            seq![]
        }
    }
}

/// The wanted versions to list: the first `limit` of them, or all of them
/// when `limit` is zero (the count is checked only after a version is
/// taken).
pub open spec fn versions_listed(vs: Seq<ApiVersion>, include_yanked: bool, include_prerelease: bool, limit: nat) -> Seq<int> {
    let ps = wanted_positions(vs, include_yanked, include_prerelease, vs.len() as int);
    if limit > 0 && limit < ps.len() {
        ps.take(limit as int)
    } else {
        ps
    }
}

/// Positions of the versions to list, in the registry's order.
pub fn versions_to_list(versions: &Vec<ApiVersion>, limit: usize, include_yanked: bool, include_prerelease: bool) -> (r: Vec<usize>)
    ensures
        r@.len() == versions_listed(versions@, include_yanked, include_prerelease, limit as nat).len(),
        forall|k: int| 0 <= k < r@.len() ==> r@[k] as int == #[trigger] versions_listed(versions@, include_yanked, include_prerelease, limit as nat)[k],
{
    let mut r: Vec<usize> = Vec::new();
    let mut i: usize = 0;
    while i < versions.len()
        invariant_except_break
            i <= versions@.len(),
            limit == 0 || r@.len() < limit,
            r@.len() == wanted_positions(versions@, include_yanked, include_prerelease, i as int).len(),
            forall|k: int| 0 <= k < r@.len() ==> r@[k] as int == #[trigger] wanted_positions(versions@, include_yanked, include_prerelease, i as int)[k],
        ensures
            r@.len() == versions_listed(versions@, include_yanked, include_prerelease, limit as nat).len(),
            forall|k: int| 0 <= k < r@.len() ==> r@[k] as int == #[trigger] versions_listed(versions@, include_yanked, include_prerelease, limit as nat)[k],
        decreases versions@.len() - i,
    {
        let ghost prev = wanted_positions(versions@, include_yanked, include_prerelease, i as int);
        let ghost r0 = r@;
        assert(wanted_positions(versions@, include_yanked, include_prerelease, i + 1) == prev + if wanted(versions@[i as int], include_yanked, include_prerelease) {
            seq![i as int]
        } else {
            seq![]
        });
        let v = &versions[i];
        if (include_yanked || !v.yanked) && (include_prerelease || !v.prerelease) {
            r.push(i);
            proof {
                assert forall|k: int| 0 <= k < r@.len() implies r@[k] as int == #[trigger] wanted_positions(versions@, include_yanked, include_prerelease, i + 1)[k] by {
                    if k < r0.len() {
                        assert(r@[k] == r0[k]);
                    }
                }
                lemma_wanted_grows(versions@, include_yanked, include_prerelease, i + 1, versions@.len() as int);
            }
            if r.len() == limit {
                proof {
                    let ps = wanted_positions(versions@, include_yanked, include_prerelease, versions@.len() as int);
                    assert forall|k: int| 0 <= k < r@.len() implies r@[k] as int == #[trigger] versions_listed(versions@, include_yanked, include_prerelease, limit as nat)[k] by {
                        assert(wanted_positions(versions@, include_yanked, include_prerelease, i + 1)[k] == ps[k]);
                    }
                }
                break;
            }
        } else {
            assert(wanted_positions(versions@, include_yanked, include_prerelease, i + 1) =~= prev);
        }
        i += 1;
    }
    r
}

proof fn lemma_wanted_grows(vs: Seq<ApiVersion>, y: bool, p: bool, m: int, n: int)
    requires
        0 <= m <= n <= vs.len(),
    ensures
        wanted_positions(vs, y, p, m).len() <= wanted_positions(vs, y, p, n).len(),
        forall|k: int| 0 <= k < wanted_positions(vs, y, p, m).len() ==> #[trigger] wanted_positions(vs, y, p, m)[k] == wanted_positions(vs, y, p, n)[k],
    decreases n - m,
{
    if m < n {
        lemma_wanted_grows(vs, y, p, m, n - 1);
    }
}

/// What is reported of a version.
pub struct VersionInfo {
    pub version: String,
    pub yanked: bool,
    pub prerelease: bool,
    pub published_at: String,
    pub rust_version: Option<String>,
    /// Whether docs.rs built its docs, when that was checked.
    pub doc_status: Option<bool>,
}

/// The report on a version, with its docs status when checked.
pub fn version_info(v: &ApiVersion, doc_status: Option<bool>) -> (r: VersionInfo)
    ensures
        r.version@ == v.num@,
        r.yanked == v.yanked,
        r.prerelease == v.prerelease,
        r.published_at@ == v.created_at@,
        crate::render::opt_view(r.rust_version) == crate::render::opt_view(v.rust_version),
        r.doc_status == doc_status,
{
    VersionInfo {
        version: String::from_str(v.num.as_str()),
        yanked: v.yanked,
        prerelease: v.prerelease,
        published_at: String::from_str(v.created_at.as_str()),
        rust_version: match &v.rust_version {
            Some(x) => Some(String::from_str(x.as_str())),
            None => None,
        },
        doc_status,
    }
}

/// The exact requirement for one version, `=` and its text, by which its
/// docs status is asked for.
pub fn exact_requirement(version: &str) -> (r: String)
    ensures
        r@ == "="@ + version@,
{
    let mut out = chars_of("=");
    crate::text::append_chars(&mut out, &chars_of(version));
    string_of(&out)
}

/// A version given by a user, surrounding whitespace dropped, in the text
/// `semver` writes for it; the parse error's message when it is none.
pub fn exact_version(text: &str) -> (r: Result<String, String>)
    ensures
        r is Ok == semver_valid(trim(text@)),
        r matches Ok(t) ==> t@ == semver_canonical(trim(text@)),
{
    let v = chars_of(text);
    let (lo, hi) = trim_bounds(&v, 0, v.len());
    assert(v@.subrange(0, v@.len() as int) =~= v@);
    let t = string_of(&copy_range(&v, lo, hi));
    match parse_version(t.as_str()) {
        Ok((canonical, _)) => Ok(canonical),
        Err(m) => Err(m),
    }
}

/// A version as the registry lists it, when its number is a version: the
/// number in the text `semver` writes, a pre-release when it has
/// pre-release identifiers.
pub fn listed_version(num: &str, yanked: bool, created_at: String, rust_version: Option<String>) -> (r: Option<
    ApiVersion,
>)
    ensures
        r is Some == semver_valid(num@),
        r matches Some(v) ==> {
            &&& v.num@ == semver_canonical(num@)
            &&& v.prerelease == (semver_pre(num@).len() > 0)
            &&& v.yanked == yanked
            &&& v.created_at == created_at
            &&& v.rust_version == rust_version
        },
{
    match parse_version(num) {
        Ok((canonical, pre)) => {
            let prerelease = chars_of(pre.as_str()).len() > 0;
            Some(ApiVersion { num: canonical, prerelease, yanked, created_at, rust_version })
        },
        Err(_) => None,
    }
}

proof fn lemma_wanted_positions(vs: Seq<ApiVersion>, y: bool, pr: bool, n: int)
    requires
        0 <= n <= vs.len(),
    ensures
        forall|k: int|
            0 <= k < wanted_positions(vs, y, pr, n).len() ==> 0 <= #[trigger] wanted_positions(vs, y, pr, n)[k] < n
                && wanted(vs[wanted_positions(vs, y, pr, n)[k]], y, pr),
        forall|k: int, l: int|
            0 <= k < l < wanted_positions(vs, y, pr, n).len() ==> #[trigger] wanted_positions(vs, y, pr, n)[k]
                < #[trigger] wanted_positions(vs, y, pr, n)[l],
        forall|j: int| 0 <= j < n && wanted(vs[j], y, pr) ==> #[trigger] wanted_positions(vs, y, pr, n).contains(j),
    decreases n,
{
    if n > 0 {
        lemma_wanted_positions(vs, y, pr, n - 1);
        let prev = wanted_positions(vs, y, pr, n - 1);
        let cur = wanted_positions(vs, y, pr, n);
        assert forall|k: int| 0 <= k < cur.len() implies 0 <= #[trigger] cur[k] < n && wanted(vs[cur[k]], y, pr) by {
            if k < prev.len() {
                assert(cur[k] == prev[k]);
            }
        }
        assert forall|k: int, l: int| 0 <= k < l < cur.len() implies #[trigger] cur[k] < #[trigger] cur[l] by {
            if l < prev.len() {
                assert(cur[k] == prev[k] && cur[l] == prev[l]);
            } else {
                assert(cur[k] == prev[k]);
            }
        }
        assert forall|j: int| 0 <= j < n && wanted(vs[j], y, pr) implies #[trigger] cur.contains(j) by {
            if j < n - 1 {
                assert(prev.contains(j));
                let k = choose|k: int| 0 <= k < prev.len() && prev[k] == j;
                assert(cur[k] == j);
            } else {
                assert(cur[prev.len() as int] == j);
            }
        }
    }
}

/// The versions listed are positions of the registry's list, in its order,
/// none yanked unless yanked ones are asked for, none a pre-release unless
/// those are asked for, at most `limit` of them when it is above zero, and,
/// when there is room, every version that passes.
pub proof fn law_versions_listed(vs: Seq<ApiVersion>, include_yanked: bool, include_prerelease: bool, limit: nat)
    ensures
        forall|k: int|
            0 <= k < versions_listed(vs, include_yanked, include_prerelease, limit).len() ==> {
                let p = #[trigger] versions_listed(vs, include_yanked, include_prerelease, limit)[k];
                &&& 0 <= p < vs.len()
                &&& (!include_yanked ==> !vs[p].yanked)
                &&& (!include_prerelease ==> !vs[p].prerelease)
            },
        forall|k: int, l: int|
            0 <= k < l < versions_listed(vs, include_yanked, include_prerelease, limit).len() ==> #[trigger] versions_listed(
                vs,
                include_yanked,
                include_prerelease,
                limit,
            )[k] < #[trigger] versions_listed(vs, include_yanked, include_prerelease, limit)[l],
        limit > 0 ==> versions_listed(vs, include_yanked, include_prerelease, limit).len() <= limit,
        (limit == 0 || limit >= vs.len()) ==> forall|j: int|
            0 <= j < vs.len() && (include_yanked || !vs[j].yanked) && (include_prerelease || !vs[j].prerelease)
                ==> #[trigger] versions_listed(vs, include_yanked, include_prerelease, limit).contains(j),
{
    let ps = wanted_positions(vs, include_yanked, include_prerelease, vs.len() as int);
    lemma_wanted_positions(vs, include_yanked, include_prerelease, vs.len() as int);
    let out = versions_listed(vs, include_yanked, include_prerelease, limit);
    assert forall|k: int| 0 <= k < out.len() implies out[k] == ps[k] by {}
    if limit == 0 || limit >= vs.len() {
        assert(ps.len() <= vs.len()) by {
            lemma_strictly_increasing_len(ps, vs.len() as int);
        }
        assert(out == ps);
        assert forall|j: int|
            0 <= j < vs.len() && (include_yanked || !vs[j].yanked) && (include_prerelease || !vs[j].prerelease) implies #[trigger] out.contains(j) by {
            assert(wanted(vs[j], include_yanked, include_prerelease));
            assert(ps.contains(j));
        }
    }
}

proof fn lemma_strictly_increasing_len(ps: Seq<int>, n: int)
    requires
        0 <= n,
        forall|k: int| 0 <= k < ps.len() ==> 0 <= #[trigger] ps[k] < n,
        forall|k: int, l: int| 0 <= k < l < ps.len() ==> #[trigger] ps[k] < #[trigger] ps[l],
    ensures
        ps.len() <= n,
    decreases ps.len(),
{
    if ps.len() > 0 {
        let m = ps.len() - 1;
        let top = ps[m];
        assert(0 <= top < n);
        let q = ps.drop_last();
        assert forall|k: int| 0 <= k < q.len() implies 0 <= #[trigger] q[k] < top by {
            assert(q[k] == ps[k]);
            assert(ps[k] < ps[m]);
        }
        assert forall|k: int, l: int| 0 <= k < l < q.len() implies #[trigger] q[k] < #[trigger] q[l] by {
            assert(q[k] == ps[k] && q[l] == ps[l]);
        }
        lemma_strictly_increasing_len(q, top);
    }
}

} // verus!
