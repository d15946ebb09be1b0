//! Where downloads come from and where they are kept: docs.rs and
//! crates.io paths, and the cache directory layout of the crates.io index.

use vstd::prelude::*;
use crate::text::{ascii_lower, append_chars, chars_of, string_of, to_ascii_lower};

verus! {

/// The path of a crate's rustdoc JSON on docs.rs, for a target when one is
/// given.
pub open spec fn docs_url_spec(krate: Seq<char>, version: Seq<char>, target: Option<Seq<char>>) -> Seq<char> {
    "/crate/"@ + krate + "/"@ + version + match target {
        Some(t) => "/"@ + t + "/json.zst"@,
        None => "/json.zst"@,
    }
}

/// The path of a crate's rustdoc JSON on docs.rs. Without a target, docs.rs
/// serves the crate's default target.
pub fn build_download_url(krate: &str, version: &str, target: Option<&str>) -> (r: String)
    ensures
        r@ == docs_url_spec(krate@, version@, match target {
            Some(t) => Some(t@),
            None => None,
        }),
{
    let mut v = chars_of("/crate/");
    append_chars(&mut v, &chars_of(krate));
    append_chars(&mut v, &chars_of("/"));
    append_chars(&mut v, &chars_of(version));
    match target {
        Some(t) => {
            append_chars(&mut v, &chars_of("/"));
            append_chars(&mut v, &chars_of(t));
            append_chars(&mut v, &chars_of("/json.zst"));
        },
        None => {
            append_chars(&mut v, &chars_of("/json.zst"));
        },
    }
    let r = string_of(&v);
    proof {
        let ts = match target {
            Some(t) => Some(t@),
            None => None,
        };
        assert(r@ =~= docs_url_spec(krate@, version@, ts));
    }
    r
}

/// A text of ASCII characters only.
pub open spec fn is_ascii_text(s: Seq<char>) -> bool {
    forall|i: int| 0 <= i < s.len() ==> (s[i] as u32) < 128
}

/// `s` with ASCII letters lowered.
pub open spec fn lower_ascii(s: Seq<char>) -> Seq<char> {
    Seq::new(s.len(), |i: int| ascii_lower(s[i]))
}

/// The directories under the cache root that hold a crate version, as the
/// crates.io index lays out crate names: `1/`, `2/`, `3/{first}/` or
/// `{first two}/{next two}/`, then the lowercase name, then the version.
pub open spec fn crate_dir_spec(name: Seq<char>, version: Seq<char>) -> Seq<Seq<char>> {
    let l = lower_ascii(name);
    let prefix = if l.len() == 1 {
        seq![seq!['1']]
    } else if l.len() == 2 {
        seq![seq!['2']]
    } else if l.len() == 3 {
        seq![seq!['3'], l.take(1)]
    } else {
        seq![l.take(2), l.subrange(2, 4)]
    };
    prefix + seq![l, version]
}

/// The directories under the cache root that hold a crate version.
pub fn dir_for_crate(name: &str, version: &str) -> (r: Vec<String>)
    requires
        name@.len() > 0,
        is_ascii_text(name@),
    ensures
        crate::order::strs(r@) == crate_dir_spec(name@, version@),
{
    let n = chars_of(name);
    let mut l: Vec<char> = Vec::new();
    for i in 0..n.len()
        invariant
            n@ == name@,
            l@ == lower_ascii(name@).take(i as int),
    {
        l.push(to_ascii_lower(n[i]));
        assert(l@ =~= lower_ascii(name@).take(i + 1));
    }
    assert(l@ =~= lower_ascii(name@));
    let mut r: Vec<String> = Vec::new();
    let len = l.len();
    let ghost lv = l@;
    if len == 1 {
        let mut one: Vec<char> = Vec::new();
        one.push('1');
        r.push(string_of(&one));
        assert(crate::order::strs(r@) =~= seq![seq!['1']]);
    } else if len == 2 {
        let mut two: Vec<char> = Vec::new();
        two.push('2');
        r.push(string_of(&two));
        assert(crate::order::strs(r@) =~= seq![seq!['2']]);
    } else if len == 3 {
        let mut three: Vec<char> = Vec::new();
        three.push('3');
        r.push(string_of(&three));
        r.push(string_of(&crate::text::copy_range(&l, 0, 1)));
        assert(crate::order::strs(r@) =~= seq![seq!['3'], lv.take(1)]);
    } else {
        r.push(string_of(&crate::text::copy_range(&l, 0, 2)));
        r.push(string_of(&crate::text::copy_range(&l, 2, 4)));
        assert(crate::order::strs(r@) =~= seq![lv.take(2), lv.subrange(2, 4)]);
    }
    let ghost pre = crate::order::strs(r@);
    r.push(string_of(&l));
    r.push(String::from_str(version));
    proof {
        let sp = crate_dir_spec(name@, version@);
        assert(crate::order::strs(r@) =~= pre + seq![lv, version@]);
        assert(crate::order::strs(r@) =~= sp);
    }
    r
}

/// `rustdoc_types::FORMAT_VERSION`, the rustdoc JSON format this library
/// reads; the crate's source sets it to 61.
#[verifier::external_body]
pub(crate) fn supported_format_version() -> (r: u32)
    ensures
        r == 61,
{
    rustdoc_types::FORMAT_VERSION
}

/// The file under a crate version's cache directory that holds its rustdoc
/// JSON for a target (`default_target` when none is given).
pub open spec fn docs_file_spec(target: Option<Seq<char>>) -> Seq<char> {
    let base = match target {
        Some(t) => t,
        None => "default_target"@,
    };
    base + ".json.zst"@
}

/// The file under a crate version's cache directory that holds its rustdoc
/// JSON for a target.
pub fn docs_file_name(target: Option<&str>) -> (r: String)
    ensures
        r@ == docs_file_spec(match target {
            Some(t) => Some(t@),
            None => None,
        }),
{
    let mut v = match target {
        Some(t) => chars_of(t),
        None => chars_of("default_target"),
    };
    append_chars(&mut v, &chars_of(".json.zst"));
    string_of(&v)
}

/// A download that found nothing for a target is tried again for the
/// crate's default target; without a target there is nothing to fall back
/// to.
pub fn retry_without_target(not_found: bool, target: Option<&str>) -> (r: bool)
    ensures
        r == (not_found && target is Some),
{
    not_found && target.is_some()
}

/// What to make of downloaded rustdoc JSON.
pub enum DocsVerdict {
    /// It parsed, in the supported format.
    Accept,
    /// It is in a format this library cannot read.
    Unsupported(u32),
    /// It did not parse: read just its format version to tell why.
    ReadFormatVersion,
    /// It did not parse though its format is the supported one: report the
    /// parse error.
    ParseFailed,
}

/// Judges rustdoc JSON by the format version of the parsed crate, `None`
/// when it did not parse.
pub fn judge_parsed(parsed_format: Option<u32>) -> (v: DocsVerdict)
    ensures
        parsed_format == Some(61u32) ==> v is Accept,
        (parsed_format is Some && parsed_format->0 != 61) ==> v == DocsVerdict::Unsupported(parsed_format->0),
        parsed_format is None ==> v is ReadFormatVersion,
{
    let supported = supported_format_version();
    match parsed_format {
        Some(f) => if f == supported {
            DocsVerdict::Accept
        } else {
            DocsVerdict::Unsupported(f)
        },
        None => DocsVerdict::ReadFormatVersion,
    }
}

/// Judges rustdoc JSON that did not parse by the format version read from
/// it alone.
pub fn judge_unparsed(format_version: u32) -> (v: DocsVerdict)
    ensures
        format_version != 61 ==> v == DocsVerdict::Unsupported(format_version),
        format_version == 61 ==> v is ParseFailed,
{
    if format_version != supported_format_version() {
        DocsVerdict::Unsupported(format_version)
    } else {
        DocsVerdict::ParseFailed
    }
}

} // verus!
