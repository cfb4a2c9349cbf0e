//! Semantic versions, their order and text, and the build-number state
//! that follows them.

use std::cmp::Ordering;
use vstd::prelude::*;
use vstd::string::*;
use crate::error::{Error, GradleResult};
use crate::text::{dec, decimal};

verus! {

/// Major, minor, patch, pre-release text and build-metadata text.
pub type VersionData = (u64, u64, u64, Seq<char>, Seq<char>);

/// A semantic version: `major.minor.patch`, optionally followed by
/// `-pre-release` and `+build` text.
#[derive(Clone, Debug, PartialEq, Eq)]
pub struct SemanticVersion {
    pub major: u64,
    pub minor: u64,
    pub patch: u64,
    /// Pre-release text, empty for a release.
    pub pre: String,
    /// Build-metadata text, empty when there is none.
    pub build: String,
}

impl View for SemanticVersion {
    type V = VersionData;

    open spec fn view(&self) -> VersionData {
        (self.major, self.minor, self.patch, self.pre@, self.build@)
    }
}

pub open spec fn opt_view(o: Option<SemanticVersion>) -> Option<VersionData> {
    match o {
        Some(v) => Some(v@),
        None => None,
    }
}

/// `a.b.c`
pub open spec fn triple_text(a: u64, b: u64, c: u64) -> Seq<char> {
    dec(a as nat) + seq!['.'] + dec(b as nat) + seq!['.'] + dec(c as nat)
}

/// The canonical text of a version: `major.minor.patch[-pre][+build]`.
pub open spec fn version_text(v: VersionData) -> Seq<char> {
    triple_text(v.0, v.1, v.2) + (if v.3.len() > 0 {
        seq!['-'] + v.3
    } else {
        Seq::empty()
    }) + (if v.4.len() > 0 {
        seq!['+'] + v.4
    } else {
        Seq::empty()
    })
}

/// A release version: no pre-release and no build metadata.
pub open spec fn release(a: u64, b: u64, c: u64) -> VersionData {
    (a, b, c, Seq::empty(), Seq::empty())
}

/// What semver's parser makes of a string.
pub uninterp spec fn semver_parse(s: Seq<char>) -> Option<VersionData>;

/// semver's precedence of two pre-release texts.
pub uninterp spec fn prerelease_order(a: Seq<char>, b: Seq<char>) -> Ordering;

/// semver's order of two build-metadata texts.
pub uninterp spec fn build_order(a: Seq<char>, b: Seq<char>) -> Ordering;

pub open spec fn cmp_u64(a: u64, b: u64) -> Ordering {
    if a < b {
        Ordering::Less
    } else if a > b {
        Ordering::Greater
    } else {
        Ordering::Equal
    }
}

/// The total order of semantic versions: numerically by major, minor and
/// patch, then by pre-release precedence, then by build metadata.
pub open spec fn version_cmp(a: VersionData, b: VersionData) -> Ordering {
    if a.0 != b.0 {
        cmp_u64(a.0, b.0)
    } else if a.1 != b.1 {
        cmp_u64(a.1, b.1)
    } else if a.2 != b.2 {
        cmp_u64(a.2, b.2)
    } else if a.3 != b.3 {
        prerelease_order(a.3, b.3)
    } else if a.4 != b.4 {
        build_order(a.4, b.4)
    } else {
        Ordering::Equal
    }
}

/// Relies on `semver::Version::parse`: the fields of the parsed version, the
/// pre-release and build texts as `as_str` gives them. Its parser keeps the
/// text of every version it accepts, and it accepts every `a.b.c` written
/// without leading zeros.
#[verifier::external_body]
pub(crate) fn parse_semver(text: &str) -> (r: Option<SemanticVersion>)
    ensures
        opt_view(r) == semver_parse(text@),
        r matches Some(v) ==> version_text(v@) == text@,
        forall|a: u64, b: u64, c: u64|
            #[trigger] triple_text(a, b, c) == text@ ==> opt_view(r) == Some(release(a, b, c)),
{
    match semver::Version::parse(text) {
        Ok(v) => Some(
            SemanticVersion {
                major: v.major,
                minor: v.minor,
                patch: v.patch,
                pre: v.pre.as_str().to_string(),
                build: v.build.as_str().to_string(),
            },
        ),
        Err(_) => None,
    }
}

/// Relies on `semver::Prerelease::new` and semver's `Ord` for `Prerelease`.
#[verifier::external_body]
fn compare_prerelease(a: &str, b: &str) -> (r: Ordering)
    ensures
        r == prerelease_order(a@, b@),
{
    let x = semver::Prerelease::new(a).unwrap_or(semver::Prerelease::EMPTY);
    let y = semver::Prerelease::new(b).unwrap_or(semver::Prerelease::EMPTY);
    x.cmp(&y)
}

/// Relies on `semver::BuildMetadata::new` and semver's `Ord` for
/// `BuildMetadata`.
#[verifier::external_body]
fn compare_build(a: &str, b: &str) -> (r: Ordering)
    ensures
        r == build_order(a@, b@),
{
    let x = semver::BuildMetadata::new(a).unwrap_or(semver::BuildMetadata::EMPTY);
    let y = semver::BuildMetadata::new(b).unwrap_or(semver::BuildMetadata::EMPTY);
    x.cmp(&y)
}

fn compare_u64(a: u64, b: u64) -> (r: Ordering)
    ensures
        r == cmp_u64(a, b),
{
    if a < b {
        Ordering::Less
    } else if a > b {
        Ordering::Greater
    } else {
        Ordering::Equal
    }
}

impl SemanticVersion {
    /// The release version `major.minor.patch`.
    pub fn new(major: u64, minor: u64, patch: u64) -> (r: SemanticVersion)
        ensures
            r@ == release(major, minor, patch),
    {
        SemanticVersion { major, minor, patch, pre: String::new(), build: String::new() }
    }

    /// An equal copy.
    pub fn duplicate(&self) -> (r: SemanticVersion)
        ensures
            r@ == self@,
    {
        SemanticVersion {
            major: self.major,
            minor: self.minor,
            patch: self.patch,
            pre: self.pre.clone(),
            build: self.build.clone(),
        }
    }

    /// The canonical text, `major.minor.patch[-pre][+build]`.
    pub fn to_string(&self) -> (r: String)
        ensures
            r@ == version_text(self@),
    {
        let mut r = decimal(self.major);
        proof {
            reveal_strlit(".");
            reveal_strlit("-");
            reveal_strlit("+");
        }
        r.append(".");
        r.append(decimal(self.minor).as_str());
        r.append(".");
        r.append(decimal(self.patch).as_str());
        let ghost t = r@;
        if self.pre.unicode_len() > 0 {
            r.append("-");
            r.append(self.pre.as_str());
        }
        assert(r@ =~= t + (if self.pre@.len() > 0 {
            seq!['-'] + self.pre@
        } else {
            Seq::empty()
        }));
        let ghost u = r@;
        if self.build.unicode_len() > 0 {
            r.append("+");
            r.append(self.build.as_str());
        }
        assert(r@ =~= u + (if self.build@.len() > 0 {
            seq!['+'] + self.build@
        } else {
            Seq::empty()
        }));
        r
    }

    /// Compares by the order of semantic versions.
    pub fn compare(&self, other: &SemanticVersion) -> (r: Ordering)
        ensures
            r == version_cmp(self@, other@),
    {
        if self.major != other.major {
            compare_u64(self.major, other.major)
        } else if self.minor != other.minor {
            compare_u64(self.minor, other.minor)
        } else if self.patch != other.patch {
            compare_u64(self.patch, other.patch)
        } else if self.pre != other.pre {
            compare_prerelease(self.pre.as_str(), other.pre.as_str())
        } else if self.build != other.build {
            compare_build(self.build.as_str(), other.build.as_str())
        } else {
            Ordering::Equal
        }
    }
}

/// The reason reported when a caller-supplied version string is rejected.
pub open spec fn parse_failure_message(s: Seq<char>) -> Seq<char> {
    "failed to parse version string '"@ + s + "'"@
}

/// Parses a caller-supplied semantic version.
pub fn sem_version_parse(version_string: &str) -> (r: GradleResult<SemanticVersion>)
    ensures
        semver_parse(version_string@) is Some <==> r is Ok,
        r matches Ok(v) ==> Some(v@) == semver_parse(version_string@) && version_text(v@)
            == version_string@,
        r matches Err(e) ==> e matches Error::ParsingFailed(m) && m@ == parse_failure_message(
            version_string@,
        ),
        forall|a: u64, b: u64, c: u64|
            #[trigger] triple_text(a, b, c) == version_string@ ==> (r matches Ok(v) && v@
                == release(a, b, c)),
{
    match parse_semver(version_string) {
        Some(v) => Ok(v),
        None => {
            let mut m = String::from_str("failed to parse version string '");
            m.append(version_string);
            m.append("'");
            Err(Error::ParsingFailed(m))
        },
    }
}

/// The reason reported when a synchronization would lower the version.
pub open spec fn not_increasing_message(old: VersionData, new: VersionData) -> Seq<char> {
    "version not increasing (old)"@ + version_text(old) + " > (new)"@ + version_text(new)
}

/// The outcome of synchronizing the state `(code, version)` with `target`:
/// `None` when the target is lower, otherwise the next state and whether it
/// changed. A higher target advances the build number by exactly one.
pub open spec fn synced(state: (u32, VersionData), target: VersionData) -> Option<
    ((u32, VersionData), bool),
> {
    match version_cmp(state.1, target) {
        Ordering::Greater => None,
        Ordering::Less => Some((((state.0 + 1) as u32, target), true)),
        Ordering::Equal => Some((state, false)),
    }
}

/// Synchronizing `(n, a)` with a higher version `b` moves to `(n + 1, b)`
/// and reports a change, however far `b` is above `a`.
pub proof fn lemma_sync_higher(n: u32, a: VersionData, b: VersionData)
    requires
        n < u32::MAX,
        version_cmp(a, b) == Ordering::Less,
    ensures
        synced((n, a), b) == Some((((n + 1) as u32, b), true)),
{
}

/// Synchronizing with the current version changes nothing.
pub proof fn lemma_sync_same(n: u32, a: VersionData)
    ensures
        synced((n, a), a) == Some(((n, a), false)),
{
}

/// A version below the current one is refused, when the two differ in
/// major, minor or patch.
pub proof fn lemma_sync_lower_refused(n: u32, a: VersionData, c: VersionData)
    requires
        version_cmp(c, a) == Ordering::Less,
        (c.0, c.1, c.2) != (a.0, a.1, a.2),
    ensures
        synced((n, a), c) is None,
{
}

/// A build number paired with the semantic version it was issued for.
pub struct GradleVersion {
    version_code: u32,
    version_name: SemanticVersion,
}

impl View for GradleVersion {
    type V = (u32, VersionData);

    closed spec fn view(&self) -> (u32, VersionData) {
        (self.version_code, self.version_name@)
    }
}

impl GradleVersion {
    pub fn new(version_code: u32, version_name: SemanticVersion) -> (r: GradleVersion)
        ensures
            r@ == (version_code, version_name@),
    {
        GradleVersion { version_code, version_name }
    }

    pub fn code(&self) -> (r: u32)
        ensures
            r == self@.0,
    {
        self.version_code
    }

    pub fn version(&self) -> (r: &SemanticVersion)
        ensures
            r@ == self@.1,
    {
        &self.version_name
    }

    /// Moves to `new_version` when it is higher, advancing the build number
    /// by one; keeps the state when it is equal; refuses a lower one.
    /// Returns whether the state changed.
    pub fn synchronize_version(&mut self, new_version: &SemanticVersion) -> (r: GradleResult<bool>)
        requires
            old(self)@.0 < u32::MAX,
        ensures
            r is Ok <==> synced(old(self)@, new_version@) is Some,
            r matches Ok(changed) ==> synced(old(self)@, new_version@) == Some(
                (final(self)@, changed),
            ),
            r is Err ==> final(self)@ == old(self)@,
            r matches Err(e) ==> e matches Error::VersionNotIncreasing(m) && m@
                == not_increasing_message(old(self)@.1, new_version@),
    {
        match self.version_name.compare(new_version) {
            Ordering::Greater => {
                let mut m = String::from_str("version not increasing (old)");
                m.append(self.version_name.to_string().as_str());
                m.append(" > (new)");
                m.append(new_version.to_string().as_str());
                Err(Error::VersionNotIncreasing(m))
            },
            Ordering::Less => {
                self.version_code = self.version_code + 1;
                self.version_name = new_version.duplicate();
                Ok(true)
            },
            Ordering::Equal => Ok(false),
        }
    }
}

} // verus!
