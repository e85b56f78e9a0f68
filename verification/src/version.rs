//! Schema version tags on service records.

use vstd::prelude::*;

verus! {

/// A semantic version: the numeric components of a schema tag.
#[derive(Clone, Copy, Debug, PartialEq, Eq, Structural)]
pub struct Version {
    pub major: u64,
    pub minor: u64,
    pub patch: u64,
}

/// The numeric components that the semver grammar assigns to a string,
/// or `None` where the string is not a version.
pub uninterp spec fn parsed_semver(s: Seq<char>) -> Option<(u64, u64, u64)>;

/// Relies on `semver::Version::parse`: the result depends on the input
/// string alone; on success the `major`, `minor` and `patch` fields
/// hold the parsed numbers.
#[verifier::external_body]
fn parse_semver_str(s: &str) -> (r: Option<(u64, u64, u64)>)
    ensures
        r == parsed_semver(s@),
{
    match semver::Version::parse(s) {
        Ok(v) => Some((v.major, v.minor, v.patch)),
        Err(_) => None,
    }
}

/// Parses a semantic version tag, as service records carry in
/// `meta.version`. Yields `None` where the string is not a version.
pub fn semver_version(s: &str) -> (r: Option<Version>)
    ensures
        r matches Some(v) ==> parsed_semver(s@) == Some((v.major, v.minor, v.patch)),
        r is None <==> parsed_semver(s@) is None,
{
    match parse_semver_str(s) {
        Some(t) => Some(Version { major: t.0, minor: t.1, patch: t.2 }),
        None => None,
    }
}

} // verus!
