//! Parsed version requirements. Only the two functions here that call
//! `semver` make a `VersionRequirement`, so its text, the requirement and
//! the text `semver` writes for the requirement always belong together.

use vstd::prelude::*;
use crate::versions::semver_req_valid;

verus! {

/// The text `semver` writes (through `Display`) for the requirement that
/// `semver::VersionReq::parse` reads from the text.
pub uninterp spec fn semver_req_text(s: Seq<char>) -> Seq<char>;

/// A version requirement together with the text it was read from and the
/// text `semver` writes for it.
pub struct VersionRequirement {
    text: String,
    req_text: String,
    req: semver::VersionReq,
}

impl View for VersionRequirement {
    type V = (Seq<char>, Seq<char>);

    /// The text the requirement was parsed from, and the text `semver`
    /// writes for the requirement.
    closed spec fn view(&self) -> (Seq<char>, Seq<char>) {
        (self.text@, self.req_text@)
    }
}

impl VersionRequirement {
    /// The text the requirement was parsed from.
    pub fn text(&self) -> (r: &str)
        ensures
            r@ == self@.0,
    {
        self.text.as_str()
    }

    /// The text `semver` writes for the requirement.
    pub fn req_text(&self) -> (r: &str)
        ensures
            r@ == self@.1,
    {
        self.req_text.as_str()
    }

    /// The parsed requirement.
    pub fn req(&self) -> &semver::VersionReq {
        &self.req
    }
}

/// Calls `semver::VersionReq::parse` on `s`, keeping `s` and the text
/// `Display` writes for the result beside it, and handing back the error's
/// message; claims that it succeeds exactly where `semver_req_valid` holds,
/// that the texts are `s` and `semver_req_text(s)`, and nothing of the
/// message.
#[verifier::external_body]
pub(crate) fn parse_req(s: &str) -> (r: Result<VersionRequirement, String>)
    ensures
        r is Ok == semver_req_valid(s@),
        r matches Ok(q) ==> q@ == (s@, semver_req_text(s@)),
{
    match semver::VersionReq::parse(s) {
        Ok(req) => Ok(VersionRequirement { text: s.to_string(), req_text: req.to_string(), req }),
        Err(e) => Err(e.to_string()),
    }
}

/// `semver::VersionReq::STAR`, the requirement every version meets; both
/// texts are what `Display` writes for it, `*`.
#[verifier::external_body]
pub(crate) fn star_req() -> (r: VersionRequirement)
    ensures
        r@ == ("*"@, "*"@),
{
    let req = semver::VersionReq::STAR;
    VersionRequirement { text: req.to_string(), req_text: req.to_string(), req }
}

} // verus!
