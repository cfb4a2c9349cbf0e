//! The build-script dialect: a `versionCode <n>` line holds the build
//! number and a `versionName "<version>"` line the semantic version.

use vstd::prelude::*;
use vstd::string::*;
use crate::pattern::{find_first, first_match, key, match_end, value_end, value_start, Pattern};
use crate::text::{chars_of, dec, decimal, dec_value, parse_u32};
use crate::version::{
    opt_view, release, semver_parse, triple_text, version_text, SemanticVersion, VersionData,
};

verus! {

/// The value text of the leftmost match of `p` (empty where there is none).
pub open spec fn value_text(s: Seq<char>, p: Pattern) -> Seq<char> {
    let i = first_match(s, p)->0;
    s.subrange(value_start(s, i, p), value_end(s, i, p))
}

/// The build number declared on a line: the numeral of the leftmost
/// `versionCode` match, when it fits in a `u32`.
pub open spec fn code_of(s: Seq<char>) -> Option<u32> {
    match first_match(s, Pattern::Code) {
        None => None,
        Some(_) => if dec_value(value_text(s, Pattern::Code)) <= u32::MAX {
            Some(dec_value(value_text(s, Pattern::Code)) as u32)
        } else {
            None
        },
    }
}

/// The version declared on a line: what semver makes of the quoted text of
/// the leftmost `versionName` match.
pub open spec fn name_of(s: Seq<char>) -> Option<VersionData> {
    match first_match(s, Pattern::Name) {
        None => None,
        Some(_) => semver_parse(value_text(s, Pattern::Name)),
    }
}

/// The line with the leftmost `versionCode` match replaced by
/// `versionCode <n>`, where the line declares a build number.
pub open spec fn render_code(s: Seq<char>, n: u32) -> Seq<char> {
    match code_of(s) {
        None => s,
        Some(_) => {
            let i = first_match(s, Pattern::Code)->0;
            s.subrange(0, i) + key(Pattern::Code) + seq![' '] + dec(n as nat) + s.subrange(
                match_end(s, i, Pattern::Code),
                s.len() as int,
            )
        },
    }
}

/// The line with the leftmost `versionName` match replaced by
/// `versionName "<v>"`, where the line declares a version.
pub open spec fn render_name(s: Seq<char>, v: VersionData) -> Seq<char> {
    match name_of(s) {
        None => s,
        Some(_) => {
            let i = first_match(s, Pattern::Name)->0;
            s.subrange(0, i) + key(Pattern::Name) + seq![' ', '"'] + version_text(v) + seq!['"']
                + s.subrange(match_end(s, i, Pattern::Name), s.len() as int)
        },
    }
}

/// The build number declared on the line, if any. A numeral too large for a
/// `u32` declares none.
pub fn parse_version_code_line(line: &str) -> (r: Option<u32>)
    ensures
        r == code_of(line@),
{
    let s = chars_of(line);
    match find_first(&s, Pattern::Code) {
        None => None,
        Some(sp) => {
            proof {
                crate::pattern::lemma_match_bounds(s@, sp.start as int, Pattern::Code);
            }
            parse_u32(&s, sp.value_start, sp.value_end)
        },
    }
}

/// The semantic version declared on the line, if any. A quoted text that is
/// not a semantic version declares none.
pub fn parse_version_name_line(line: &str) -> (r: Option<SemanticVersion>)
    ensures
        opt_view(r) == name_of(line@),
        r matches Some(v) ==> version_text(v@) == value_text(line@, Pattern::Name),
        forall|a: u64, b: u64, c: u64|
            first_match(line@, Pattern::Name) is Some && #[trigger] triple_text(a, b, c)
                == value_text(line@, Pattern::Name) ==> opt_view(r) == Some(release(a, b, c)),
{
    let s = chars_of(line);
    match find_first(&s, Pattern::Name) {
        None => None,
        Some(sp) => {
            proof {
                crate::pattern::lemma_match_bounds(s@, sp.start as int, Pattern::Name);
            }
            crate::version::parse_semver(line.substring_char(sp.value_start, sp.value_end))
        },
    }
}

/// Replaces the numeral of the line's `versionCode` declaration by
/// `version_code`; any other line is returned unchanged.
pub fn replace_version_code(line: String, version_code: u32) -> (r: String)
    ensures
        r@ == render_code(line@, version_code),
{
    if parse_version_code_line(line.as_str()).is_none() {
        return line;
    }
    let s = chars_of(line.as_str());
    let sp = find_first(&s, Pattern::Code).unwrap();
    proof {
        crate::pattern::lemma_match_bounds(s@, sp.start as int, Pattern::Code);
        reveal_strlit("versionCode ");
    }
    let t = line.as_str();
    let mut r = String::from_str(t.substring_char(0, sp.start));
    r.append("versionCode ");
    r.append(decimal(version_code as u64).as_str());
    r.append(t.substring_char(sp.end, s.len()));
    assert(r@ =~= render_code(line@, version_code));
    r
}

/// Replaces the line's `versionName "..."` declaration by
/// `versionName "<version>"`; any other line is returned unchanged.
pub fn replace_version_name(line: String, version: &SemanticVersion) -> (r: String)
    ensures
        r@ == render_name(line@, version@),
{
    if parse_version_name_line(line.as_str()).is_none() {
        return line;
    }
    let s = chars_of(line.as_str());
    let sp = find_first(&s, Pattern::Name).unwrap();
    proof {
        crate::pattern::lemma_match_bounds(s@, sp.start as int, Pattern::Name);
        reveal_strlit("versionName \"");
        reveal_strlit("\"");
    }
    let t = line.as_str();
    let mut r = String::from_str(t.substring_char(0, sp.start));
    r.append("versionName \"");
    r.append(version.to_string().as_str());
    r.append("\"");
    r.append(t.substring_char(sp.end, s.len()));
    assert(r@ =~= render_name(line@, version@));
    r
}

} // verus!
