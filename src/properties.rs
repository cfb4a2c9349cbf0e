//! The properties dialect: a `projectVersion=<version>` line holds the
//! semantic version; there is no build number.

use vstd::prelude::*;
use vstd::string::*;
use crate::buildgradle::value_text;
use crate::pattern::{find_first, first_match, value_end, value_start, Pattern};
use crate::text::chars_of;
use crate::version::{
    opt_view, release, semver_parse, triple_text, version_text, SemanticVersion, VersionData,
};

verus! {

/// The version declared on a line: what semver makes of the value of the
/// leftmost `projectVersion` match.
pub open spec fn project_of(s: Seq<char>) -> Option<VersionData> {
    match first_match(s, Pattern::Project) {
        None => None,
        Some(_) => semver_parse(value_text(s, Pattern::Project)),
    }
}

/// The line with the value of its `projectVersion` declaration replaced by
/// the text of `v`; everything around the value is kept.
pub open spec fn render_project(s: Seq<char>, v: VersionData) -> Seq<char> {
    match project_of(s) {
        None => s,
        Some(_) => {
            let i = first_match(s, Pattern::Project)->0;
            s.subrange(0, value_start(s, i, Pattern::Project)) + version_text(v) + s.subrange(
                value_end(s, i, Pattern::Project),
                s.len() as int,
            )
        },
    }
}

/// The semantic version declared on the line, if any. A value that is not a
/// semantic version declares none.
pub fn parse_project_version_from_line(line: &str) -> (r: Option<SemanticVersion>)
    ensures
        opt_view(r) == project_of(line@),
        r matches Some(v) ==> version_text(v@) == value_text(line@, Pattern::Project),
        forall|a: u64, b: u64, c: u64|
            first_match(line@, Pattern::Project) is Some && #[trigger] triple_text(a, b, c)
                == value_text(line@, Pattern::Project) ==> opt_view(r) == Some(release(a, b, c)),
{
    let s = chars_of(line);
    match find_first(&s, Pattern::Project) {
        None => None,
        Some(sp) => {
            proof {
                crate::pattern::lemma_match_bounds(s@, sp.start as int, Pattern::Project);
            }
            crate::version::parse_semver(line.substring_char(sp.value_start, sp.value_end))
        },
    }
}

/// Swaps the version in the line's `projectVersion` declaration for
/// `new_version`; any other line is returned unchanged.
pub fn replace_project_version_from_line(line: String, new_version: &SemanticVersion) -> (r:
    String)
    ensures
        r@ == render_project(line@, new_version@),
{
    if parse_project_version_from_line(line.as_str()).is_none() {
        return line;
    }
    let s = chars_of(line.as_str());
    let sp = find_first(&s, Pattern::Project).unwrap();
    proof {
        crate::pattern::lemma_match_bounds(s@, sp.start as int, Pattern::Project);
    }
    let t = line.as_str();
    let mut r = String::from_str(t.substring_char(0, sp.value_start));
    r.append(new_version.to_string().as_str());
    r.append(t.substring_char(sp.value_end, s.len()));
    assert(r@ =~= render_project(line@, new_version@));
    r
}

} // verus!
