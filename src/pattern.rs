//! The version-bearing line patterns, matched at the leftmost position
//! where they occur in a line.
//!
//! - `versionCode`, whitespace, a decimal numeral;
//! - `versionName`, whitespace, a double-quoted run of digits and dots;
//! - `projectVersion`, optional whitespace, `=`, optional whitespace, a run
//!   of digits and dots.
//!
//! Each run of whitespace, digits or dots is taken whole.

use vstd::prelude::*;
use crate::text::{run_end, lemma_run_end_bounds, scan_run, word_at, CharClass};

verus! {

#[derive(Clone, Copy, PartialEq, Eq, Debug)]
pub enum Pattern {
    /// `versionCode <digits>`
    Code,
    /// `versionName "<digits and dots>"`
    Name,
    /// `projectVersion = <digits and dots>`
    Project,
}

pub open spec fn key(p: Pattern) -> Seq<char> {
    match p {
        Pattern::Code => seq!['v', 'e', 'r', 's', 'i', 'o', 'n', 'C', 'o', 'd', 'e'],
        Pattern::Name => seq!['v', 'e', 'r', 's', 'i', 'o', 'n', 'N', 'a', 'm', 'e'],
        Pattern::Project => seq![
            'p', 'r', 'o', 'j', 'e', 'c', 't', 'V', 'e', 'r', 's', 'i', 'o', 'n',
        ],
    }
}

pub open spec fn key_at(s: Seq<char>, i: int, p: Pattern) -> bool {
    0 <= i && i + key(p).len() <= s.len() && s.subrange(i, i + key(p).len()) == key(p)
}

/// Where the whitespace after the key ends (for `Project`: after the `=`
/// and the whitespace that follows it).
pub open spec fn gap_end(s: Seq<char>, i: int, p: Pattern) -> int {
    let k = i + key(p).len();
    match p {
        Pattern::Project => run_end(s, run_end(s, k, CharClass::Space) + 1, CharClass::Space),
        _ => run_end(s, k, CharClass::Space),
    }
}

/// Start of the value: the numeral, or the text inside the quotes.
pub open spec fn value_start(s: Seq<char>, i: int, p: Pattern) -> int {
    match p {
        Pattern::Name => gap_end(s, i, p) + 1,
        _ => gap_end(s, i, p),
    }
}

pub open spec fn value_end(s: Seq<char>, i: int, p: Pattern) -> int {
    match p {
        Pattern::Code => run_end(s, value_start(s, i, p), CharClass::Digit),
        _ => run_end(s, value_start(s, i, p), CharClass::Numeric),
    }
}

/// End of the whole match (past the closing quote for `Name`).
pub open spec fn match_end(s: Seq<char>, i: int, p: Pattern) -> int {
    match p {
        Pattern::Name => value_end(s, i, p) + 1,
        _ => value_end(s, i, p),
    }
}

/// Whether the pattern matches at position `i`.
pub open spec fn matches_at(s: Seq<char>, i: int, p: Pattern) -> bool {
    let k = i + key(p).len();
    &&& key_at(s, i, p)
    &&& value_end(s, i, p) > value_start(s, i, p)
    &&& match p {
        Pattern::Code => gap_end(s, i, p) > k,
        Pattern::Name => gap_end(s, i, p) > k && gap_end(s, i, p) < s.len() && s[gap_end(
            s,
            i,
            p,
        )] == '"' && value_end(s, i, p) < s.len() && s[value_end(s, i, p)] == '"',
        Pattern::Project => run_end(s, k, CharClass::Space) < s.len() && s[run_end(
            s,
            k,
            CharClass::Space,
        )] == '=',
    }
}

/// The leftmost position at or after `i` where the pattern matches.
pub open spec fn first_at(s: Seq<char>, i: int, p: Pattern) -> Option<int>
    decreases s.len() + 1 - i,
{
    if i < 0 || i > s.len() {
        None
    } else if matches_at(s, i, p) {
        Some(i)
    } else {
        first_at(s, i + 1, p)
    }
}

/// The leftmost match in the whole line.
pub open spec fn first_match(s: Seq<char>, p: Pattern) -> Option<int> {
    first_at(s, 0, p)
}

/// The leftmost match is a match, and no earlier position matches.
pub proof fn lemma_first_at(s: Seq<char>, i: int, p: Pattern)
    requires
        first_at(s, i, p) is Some,
    ensures
        i <= first_at(s, i, p)->0,
        matches_at(s, first_at(s, i, p)->0, p),
        forall|j: int| i <= j < first_at(s, i, p)->0 ==> !matches_at(s, j, p),
    decreases s.len() + 1 - i,
{
    if !matches_at(s, i, p) {
        lemma_first_at(s, i + 1, p);
    }
}

/// A match that no earlier position precedes is the leftmost one.
pub proof fn lemma_first_at_is(s: Seq<char>, i: int, j: int, p: Pattern)
    requires
        0 <= i <= j,
        matches_at(s, j, p),
        forall|m: int| i <= m < j ==> !matches_at(s, m, p),
    ensures
        first_at(s, i, p) == Some(j),
    decreases j - i,
{
    if i < j {
        lemma_first_at_is(s, i + 1, j, p);
    }
}

/// Without any match, there is no leftmost one.
pub proof fn lemma_first_at_none(s: Seq<char>, i: int, p: Pattern)
    requires
        0 <= i,
        forall|m: int| i <= m ==> !matches_at(s, m, p),
    ensures
        first_at(s, i, p) is None,
    decreases s.len() + 1 - i,
{
    if i <= s.len() {
        lemma_first_at_none(s, i + 1, p);
    }
}

/// The positions of one match.
#[derive(Clone, Copy, Debug)]
pub struct Span {
    pub start: usize,
    pub value_start: usize,
    pub value_end: usize,
    pub end: usize,
}

pub open spec fn span_is(r: Span, s: Seq<char>, i: int, p: Pattern) -> bool {
    &&& r.start == i
    &&& r.value_start == value_start(s, i, p)
    &&& r.value_end == value_end(s, i, p)
    &&& r.end == match_end(s, i, p)
}

/// The positions of a match are ordered and lie within the line.
pub proof fn lemma_match_bounds(s: Seq<char>, i: int, p: Pattern)
    requires
        matches_at(s, i, p),
    ensures
        0 <= i < i + key(p).len() <= value_start(s, i, p) < value_end(s, i, p) <= match_end(
            s,
            i,
            p,
        ) <= s.len(),
        forall|j: int|
            value_start(s, i, p) <= j < value_end(s, i, p) ==> crate::text::in_class(
                #[trigger] s[j],
                match p {
                    Pattern::Code => CharClass::Digit,
                    _ => CharClass::Numeric,
                },
            ),
{
    let k = i + key(p).len();
    lemma_run_end_bounds(s, k, CharClass::Space);
    let w = run_end(s, k, CharClass::Space);
    if p == Pattern::Project {
        lemma_run_end_bounds(s, w + 1, CharClass::Space);
    }
    let vs = value_start(s, i, p);
    match p {
        Pattern::Code => lemma_run_end_bounds(s, vs, CharClass::Digit),
        _ => lemma_run_end_bounds(s, vs, CharClass::Numeric),
    }
}

fn key_str(p: Pattern) -> (r: &'static str)
    ensures
        r@ == key(p),
{
    match p {
        Pattern::Code => {
            proof {
                reveal_strlit("versionCode");
            }
            let r = "versionCode";
            assert(r@ =~= key(p));
            r
        },
        Pattern::Name => {
            proof {
                reveal_strlit("versionName");
            }
            let r = "versionName";
            assert(r@ =~= key(p));
            r
        },
        Pattern::Project => {
            proof {
                reveal_strlit("projectVersion");
            }
            let r = "projectVersion";
            assert(r@ =~= key(p));
            r
        },
    }
}

/// The match at position `i`, if the pattern matches there.
pub fn match_at(s: &Vec<char>, i: usize, p: Pattern) -> (r: Option<Span>)
    ensures
        r is Some <==> matches_at(s@, i as int, p),
        r matches Some(sp) ==> span_is(sp, s@, i as int, p),
{
    let w = key_str(p);
    if !word_at(s, i, w) {
        return None;
    }
    let n = w.unicode_len();
    assert(i + n <= s.len());
    let k = i + n;
    let g1 = scan_run(s, k, CharClass::Space);
    let (gap, vs) = match p {
        Pattern::Code => {
            if g1 == k {
                return None;
            }
            (g1, g1)
        },
        Pattern::Name => {
            if g1 == k || g1 >= s.len() || s[g1] != '"' {
                return None;
            }
            (g1, g1 + 1)
        },
        Pattern::Project => {
            if g1 >= s.len() || s[g1] != '=' {
                return None;
            }
            let g2 = scan_run(s, g1 + 1, CharClass::Space);
            (g2, g2)
        },
    };
    assert(gap == gap_end(s@, i as int, p));
    assert(vs == value_start(s@, i as int, p));
    let ve = match p {
        Pattern::Code => scan_run(s, vs, CharClass::Digit),
        _ => scan_run(s, vs, CharClass::Numeric),
    };
    if ve == vs {
        return None;
    }
    let end = match p {
        Pattern::Name => {
            if ve >= s.len() || s[ve] != '"' {
                return None;
            }
            ve + 1
        },
        _ => ve,
    };
    Some(Span { start: i, value_start: vs, value_end: ve, end })
}

/// The leftmost match in the line.
pub fn find_first(s: &Vec<char>, p: Pattern) -> (r: Option<Span>)
    ensures
        r is Some <==> first_match(s@, p) is Some,
        r matches Some(sp) ==> matches_at(s@, sp.start as int, p),
        r matches Some(sp) ==> first_match(s@, p) == Some(sp.start as int) && span_is(
            sp,
            s@,
            sp.start as int,
            p,
        ),
{
    let mut i: usize = 0;
    while i < s.len()
        invariant
            i <= s@.len(),
            first_at(s@, 0, p) == first_at(s@, i as int, p),
        decreases s@.len() + 1 - i,
    {
        match match_at(s, i, p) {
            Some(sp) => {
                return Some(sp);
            },
            None => {},
        }
        i = i + 1;
    }
    assert(!matches_at(s@, s@.len() as int, p));
    assert(first_at(s@, s@.len() as int + 1, p) is None);
    None
}

} // verus!
