//! Semantic-version requirements, decided by the `semver` crate.

use vstd::prelude::*;

verus! {

/// Whether `version` parses as a semantic version, `constraint` parses as a version
/// requirement, and the requirement matches the version (`semver` 1.x rules).
pub uninterp spec fn semver_satisfies(constraint: Seq<char>, version: Seq<char>) -> bool;

/// Parses `constraint` with `semver::VersionReq::parse` and `version` with
/// `semver::Version::parse`, and evaluates `VersionReq::matches`; false when either
/// does not parse. The result is named [`semver_satisfies`] of the two texts: it depends
/// on them alone. What `matches` decides (caret, tilde, wildcard, comparison and
/// pre-release rules) is not restated here.
#[verifier::external_body]
pub(crate) fn version_satisfies(constraint: &str, version: &str) -> (r: bool)
    ensures
        r == semver_satisfies(constraint@, version@),
{
    match (semver::VersionReq::parse(constraint), semver::Version::parse(version)) {
        (Ok(req), Ok(ver)) => req.matches(&ver),
        _ => false,
    }
}

} // verus!
