//! Where a pattern matches depends only on the text around the match:
//! replacing one match region by another leaves the matches of the other
//! patterns, and their values, as they were.

use vstd::prelude::*;
use crate::buildgradle::{code_of, name_of, render_code, render_name, value_text};
use crate::text::{dec, is_digit, is_numeric, lemma_dec_value_of_dec};
use crate::version::{semver_parse, version_text, VersionData};
use crate::reload::no_newline;
use crate::pattern::{
    first_at, first_match, gap_end, key, key_at, lemma_first_at, lemma_first_at_is,
    lemma_first_at_none, lemma_match_bounds, match_end, matches_at, value_end, value_start,
    Pattern,
};
use crate::text::{in_class, lemma_run_end_bounds, run_end, CharClass};

verus! {

/// Of the keys, only the first character can be a lowercase `v`; the two
/// build-script keys differ in their eighth character.
pub proof fn lemma_key_letters(p: Pattern)
    ensures
        forall|x: int| 1 <= x < key(p).len() ==> key(p)[x] != 'v',
        p != Pattern::Project ==> key(p)[0] == 'v' && key(p).len() == 11,
        key(Pattern::Code)[7] != key(Pattern::Name)[7],
{
    let c = key(Pattern::Code);
    let n = key(Pattern::Name);
    let r = key(Pattern::Project);
    assert(c[1] != 'v' && c[2] != 'v' && c[3] != 'v' && c[4] != 'v' && c[5] != 'v' && c[6] != 'v'
        && c[7] != 'v' && c[8] != 'v' && c[9] != 'v' && c[10] != 'v');
    assert(n[1] != 'v' && n[2] != 'v' && n[3] != 'v' && n[4] != 'v' && n[5] != 'v' && n[6] != 'v'
        && n[7] != 'v' && n[8] != 'v' && n[9] != 'v' && n[10] != 'v');
    assert(r[1] != 'v' && r[2] != 'v' && r[3] != 'v' && r[4] != 'v' && r[5] != 'v' && r[6] != 'v'
        && r[7] != 'v' && r[8] != 'v' && r[9] != 'v' && r[10] != 'v' && r[11] != 'v' && r[12]
        != 'v' && r[13] != 'v');
    assert(c[0] == 'v' && n[0] == 'v' && c[7] == 'C' && n[7] == 'N');
}

/// Two texts that agree up to a character outside the class have the same
/// run before it.
pub proof fn lemma_run_end_prefix(s1: Seq<char>, s2: Seq<char>, b: int, x: int, k: CharClass)
    requires
        0 <= x <= b,
        b < s1.len(),
        b < s2.len(),
        forall|y: int| x <= y <= b ==> s1[y] == s2[y],
        !in_class(s1[b], k),
    ensures
        run_end(s1, x, k) == run_end(s2, x, k),
        run_end(s1, x, k) <= b,
    decreases b - x,
{
    if x < b && in_class(s1[x], k) {
        lemma_run_end_prefix(s1, s2, b, x + 1, k);
    }
}

/// A run in a suffix is the same run, shifted.
pub proof fn lemma_run_end_shift(a: Seq<char>, c: Seq<char>, x: int, k: CharClass)
    requires
        0 <= x <= c.len(),
    ensures
        run_end(a + c, a.len() + x, k) == a.len() + run_end(c, x, k),
    decreases c.len() - x,
{
    if x < c.len() {
        assert((a + c)[a.len() + x] == c[x]);
        if in_class(c[x], k) {
            lemma_run_end_shift(a, c, x + 1, k);
        }
    }
}

/// A run that covers `[x, y)` and stops at `y` ends at `y`.
pub proof fn lemma_run_end_exact(s: Seq<char>, x: int, y: int, k: CharClass)
    requires
        0 <= x <= y <= s.len(),
        forall|z: int| x <= z < y ==> in_class(#[trigger] s[z], k),
        y == s.len() || !in_class(s[y], k),
    ensures
        run_end(s, x, k) == y,
    decreases y - x,
{
    if x < y {
        lemma_run_end_exact(s, x + 1, y, k);
    }
}

/// A match in a suffix is the same match, shifted.
pub proof fn lemma_match_shift(a: Seq<char>, c: Seq<char>, x: int, q: Pattern)
    requires
        0 <= x <= c.len(),
    ensures
        matches_at(a + c, a.len() + x, q) == matches_at(c, x, q),
        matches_at(c, x, q) ==> value_start(a + c, a.len() + x, q) == a.len() + value_start(
            c,
            x,
            q,
        ) && value_end(a + c, a.len() + x, q) == a.len() + value_end(c, x, q),
{
    let s = a + c;
    let al = a.len() as int;
    let kl = key(q).len() as int;
    let k = x + kl;
    if k > c.len() {
        assert(!key_at(s, al + x, q));
        assert(!key_at(c, x, q));
        return;
    }
    assert(s.subrange(al + x, al + k) =~= c.subrange(x, k));
    if !key_at(c, x, q) {
        return;
    }
    lemma_run_end_bounds(c, k, CharClass::Space);
    lemma_run_end_shift(a, c, k, CharClass::Space);
    let g1 = run_end(c, k, CharClass::Space);
    if g1 < c.len() {
        assert(s[al + g1] == c[g1]);
    }
    match q {
        Pattern::Code => {
            lemma_run_end_shift(a, c, g1, CharClass::Digit);
        },
        Pattern::Name => {
            if g1 < c.len() {
                lemma_run_end_bounds(c, g1 + 1, CharClass::Numeric);
                lemma_run_end_shift(a, c, g1 + 1, CharClass::Numeric);
                let ve = run_end(c, g1 + 1, CharClass::Numeric);
                if ve < c.len() {
                    assert(s[al + ve] == c[ve]);
                }
            }
        },
        Pattern::Project => {
            if g1 < c.len() {
                lemma_run_end_bounds(c, g1 + 1, CharClass::Space);
                lemma_run_end_shift(a, c, g1 + 1, CharClass::Space);
                let g2 = run_end(c, g1 + 1, CharClass::Space);
                lemma_run_end_shift(a, c, g2, CharClass::Numeric);
            }
        },
    }
}

/// Texts that agree up to and including a `v` have the same matches before
/// it, with their values before it too.
pub proof fn lemma_match_prefix(s1: Seq<char>, s2: Seq<char>, b: int, j: int, q: Pattern)
    requires
        0 <= j < b,
        b < s1.len(),
        b < s2.len(),
        forall|y: int| 0 <= y <= b ==> s1[y] == s2[y],
        s1[b] == 'v',
    ensures
        matches_at(s1, j, q) == matches_at(s2, j, q),
        matches_at(s1, j, q) ==> value_start(s1, j, q) == value_start(s2, j, q) && value_end(
            s1,
            j,
            q,
        ) == value_end(s2, j, q) && value_end(s1, j, q) <= b,
{
    let kl = key(q).len() as int;
    let k = j + kl;
    lemma_key_letters(q);
    if k > b {
        if k <= s1.len() {
            assert(s1.subrange(j, k)[b - j] == s1[b]);
        }
        if k <= s2.len() {
            assert(s2.subrange(j, k)[b - j] == s2[b]);
        }
        assert(!key_at(s1, j, q));
        assert(!key_at(s2, j, q));
        return;
    }
    assert(s1.subrange(j, k) =~= s2.subrange(j, k));
    if !key_at(s1, j, q) {
        return;
    }
    lemma_run_end_prefix(s1, s2, b, k, CharClass::Space);
    lemma_run_end_bounds(s1, k, CharClass::Space);
    let g1 = run_end(s1, k, CharClass::Space);
    match q {
        Pattern::Code => {
            lemma_run_end_prefix(s1, s2, b, g1, CharClass::Digit);
        },
        Pattern::Name => {
            if g1 < b {
                lemma_run_end_prefix(s1, s2, b, g1 + 1, CharClass::Numeric);
            } else {
                assert(s1[g1] != '"');
            }
        },
        Pattern::Project => {
            if g1 < b {
                lemma_run_end_prefix(s1, s2, b, g1 + 1, CharClass::Space);
                lemma_run_end_bounds(s1, g1 + 1, CharClass::Space);
                let g2 = run_end(s1, g1 + 1, CharClass::Space);
                lemma_run_end_prefix(s1, s2, b, g2, CharClass::Numeric);
            } else {
                assert(s1[g1] != '=');
            }
        },
    }
}

/// Without a leftmost match there is no match at all.
pub proof fn lemma_no_first_no_match(s: Seq<char>, i: int, q: Pattern)
    requires
        0 <= i,
        first_at(s, i, q) is None,
    ensures
        forall|j: int| i <= j ==> !matches_at(s, j, q),
    decreases s.len() + 1 - i,
{
    if i <= s.len() {
        lemma_no_first_no_match(s, i + 1, q);
    } else {
        assert forall|j: int| i <= j implies !matches_at(s, j, q) by {
            assert(!key_at(s, j, q));
        }
    }
}

/// The premises of a replacement: `s1[a..e1]`, which starts with a `v`,
/// is replaced by `s2[a..e2]`, and no match of `q` starts in either.
pub open spec fn replaced(s1: Seq<char>, s2: Seq<char>, a: int, e1: int, e2: int, q: Pattern) -> bool {
    &&& 0 <= a < e1 <= s1.len()
    &&& a < e2 <= s2.len()
    &&& forall|y: int| 0 <= y <= a ==> s1[y] == s2[y]
    &&& s1[a] == 'v'
    &&& s1.subrange(e1, s1.len() as int) == s2.subrange(e2, s2.len() as int)
    &&& forall|j: int| a <= j < e1 ==> !matches_at(s1, j, q)
    &&& forall|j: int| a <= j < e2 ==> !matches_at(s2, j, q)
}

proof fn lemma_replace_before(s1: Seq<char>, s2: Seq<char>, a: int, e1: int, e2: int, q: Pattern)
    requires
        replaced(s1, s2, a, e1, e2, q),
        first_match(s1, q) is Some,
        first_match(s1, q)->0 < a,
    ensures
        first_match(s2, q) is Some,
        value_text(s1, q) == value_text(s2, q),
{
    lemma_first_at(s1, 0, q);
    let j1 = first_match(s1, q)->0;
    lemma_match_bounds(s1, j1, q);
    assert forall|j: int| 0 <= j < j1 implies !matches_at(s2, j, q) by {
        lemma_match_prefix(s1, s2, a, j, q);
    }
    lemma_match_prefix(s1, s2, a, j1, q);
    lemma_first_at_is(s2, 0, j1, q);
    assert(s1.subrange(value_start(s1, j1, q), value_end(s1, j1, q)) =~= s2.subrange(
        value_start(s2, j1, q),
        value_end(s2, j1, q),
    ));
}

#[verifier::spinoff_prover]
#[verifier::rlimit(80)]
proof fn lemma_replace_after(s1: Seq<char>, s2: Seq<char>, a: int, e1: int, e2: int, q: Pattern)
    requires
        replaced(s1, s2, a, e1, e2, q),
        first_match(s1, q) is Some,
        first_match(s1, q)->0 >= a,
    ensures
        first_match(s2, q) is Some,
        value_text(s1, q) == value_text(s2, q),
{
    let c = s1.subrange(e1, s1.len() as int);
    let head1 = s1.subrange(0, e1);
    let head2 = s2.subrange(0, e2);
    assert(s1 =~= head1 + c);
    assert(s2 =~= head2 + c);
    lemma_first_at(s1, 0, q);
    let j1 = first_match(s1, q)->0;
    lemma_match_bounds(s1, j1, q);
    assert(j1 >= e1);
    let x = j1 - e1;
    assert forall|j: int| 0 <= j < e2 + x implies !matches_at(s2, j, q) by {
        if j < a {
            lemma_match_prefix(s1, s2, a, j, q);
        } else if j >= e2 {
            lemma_match_shift(head1, c, j - e2, q);
            lemma_match_shift(head2, c, j - e2, q);
        }
    }
    lemma_match_shift(head1, c, x, q);
    lemma_match_shift(head2, c, x, q);
    lemma_first_at_is(s2, 0, e2 + x, q);
    lemma_match_bounds(c, x, q);
    assert(s1.subrange(value_start(s1, j1, q), value_end(s1, j1, q)) =~= c.subrange(
        value_start(c, x, q),
        value_end(c, x, q),
    ));
    assert(s2.subrange(value_start(s2, e2 + x, q), value_end(s2, e2 + x, q)) =~= c.subrange(
        value_start(c, x, q),
        value_end(c, x, q),
    ));
}

proof fn lemma_replace_none(s1: Seq<char>, s2: Seq<char>, a: int, e1: int, e2: int, q: Pattern)
    requires
        replaced(s1, s2, a, e1, e2, q),
        first_match(s1, q) is None,
    ensures
        first_match(s2, q) is None,
{
    let c = s1.subrange(e1, s1.len() as int);
    let head1 = s1.subrange(0, e1);
    let head2 = s2.subrange(0, e2);
    assert(s1 =~= head1 + c);
    assert(s2 =~= head2 + c);
    lemma_no_first_no_match(s1, 0, q);
    assert forall|j: int| 0 <= j implies !matches_at(s2, j, q) by {
        if j < a {
            lemma_match_prefix(s1, s2, a, j, q);
        } else if j >= e2 {
            if j - e2 <= c.len() {
                lemma_match_shift(head1, c, j - e2, q);
                lemma_match_shift(head2, c, j - e2, q);
            } else {
                assert(!key_at(s2, j, q));
            }
        }
    }
    lemma_first_at_none(s2, 0, q);
}

/// Replacing one region by another, where no match of `q` starts in either,
/// keeps whether `q` matches and the value of its leftmost match.
pub proof fn lemma_replace_keeps_other(
    s1: Seq<char>,
    s2: Seq<char>,
    a: int,
    e1: int,
    e2: int,
    q: Pattern,
)
    requires
        replaced(s1, s2, a, e1, e2, q),
    ensures
        (first_match(s1, q) is Some) == (first_match(s2, q) is Some),
        first_match(s1, q) is Some ==> value_text(s1, q) == value_text(s2, q),
{
    if first_match(s1, q) is Some {
        if first_match(s1, q)->0 < a {
            lemma_replace_before(s1, s2, a, e1, e2, q);
        } else {
            lemma_replace_after(s1, s2, a, e1, e2, q);
        }
    } else {
        lemma_replace_none(s1, s2, a, e1, e2, q);
    }
}

/// No match of the other build-script pattern starts in a region that
/// begins with a key and holds no other `v`.
proof fn lemma_region_free(s: Seq<char>, a: int, e: int, p: Pattern, q: Pattern)
    requires
        0 <= a,
        a + 11 <= e <= s.len(),
        p != Pattern::Project,
        q != Pattern::Project,
        p != q,
        s.subrange(a, a + 11) == key(p),
        forall|y: int| a < y < e ==> s[y] != 'v',
    ensures
        forall|j: int| a <= j < e ==> !matches_at(s, j, q),
{
    lemma_key_letters(p);
    lemma_key_letters(q);
    assert forall|j: int| a <= j < e implies !matches_at(s, j, q) by {
        if j == a {
            assert(s.subrange(a, a + 11)[7] != key(q)[7]);
        } else if j + 11 <= s.len() {
            assert(s.subrange(j, j + 11)[0] == s[j]);
        }
    }
}

/// A match holds no `v` but the first letter of its key.
proof fn lemma_match_chars(s: Seq<char>, i: int, p: Pattern)
    requires
        matches_at(s, i, p),
        p != Pattern::Project,
    ensures
        forall|y: int| i < y < match_end(s, i, p) ==> s[y] != 'v',
{
    lemma_match_bounds(s, i, p);
    lemma_key_letters(p);
    let k = i + 11;
    lemma_run_end_bounds(s, k, CharClass::Space);
    assert forall|y: int| i < y < match_end(s, i, p) implies s[y] != 'v' by {
        if y < k {
            assert(s.subrange(i, k)[y - i] == s[y]);
        } else if y < gap_end(s, i, p) {
            assert(in_class(s[y], CharClass::Space));
        } else if value_start(s, i, p) <= y < value_end(s, i, p) {
        }
    }
}

pub open spec fn all_numeric(t: Seq<char>) -> bool {
    forall|q: int| 0 <= q < t.len() ==> is_numeric(#[trigger] t[q])
}

/// The text `s` with `s[i..e]` replaced by `mid`.
pub open spec fn splice(s: Seq<char>, i: int, e: int, mid: Seq<char>) -> Seq<char> {
    s.subrange(0, i) + mid + s.subrange(e, s.len() as int)
}

proof fn lemma_splice(s: Seq<char>, i: int, e: int, mid: Seq<char>)
    requires
        0 <= i <= e <= s.len(),
    ensures
        splice(s, i, e, mid).len() == s.len() - (e - i) + mid.len(),
        forall|z: int| 0 <= z < i ==> #[trigger] splice(s, i, e, mid)[z] == s[z],
        forall|z: int|
            i <= z < i + mid.len() ==> #[trigger] splice(s, i, e, mid)[z] == mid[z - i],
        forall|z: int|
            i + mid.len() <= z < splice(s, i, e, mid).len() ==> #[trigger] splice(s, i, e, mid)[z]
                == s[z - (i + mid.len()) + e],
        splice(s, i, e, mid).subrange(i + mid.len(), splice(s, i, e, mid).len() as int)
            == s.subrange(e, s.len() as int),
{
    let s2 = splice(s, i, e, mid);
    assert(s2.subrange(i + mid.len(), s2.len() as int) =~= s.subrange(e, s.len() as int));
}

pub open spec fn code_mid(n: u32) -> Seq<char> {
    key(Pattern::Code) + seq![' '] + dec(n as nat)
}

pub open spec fn name_mid(t: Seq<char>) -> Seq<char> {
    key(Pattern::Name) + seq![' ', '"'] + t + seq!['"']
}

proof fn lemma_code_mid(n: u32)
    ensures
        code_mid(n).len() == 12 + dec(n as nat).len(),
        code_mid(n).subrange(0, 11) == key(Pattern::Code),
        code_mid(n)[0] == 'v',
        code_mid(n)[11] == ' ',
        forall|w: int| 12 <= w < code_mid(n).len() ==> #[trigger] code_mid(n)[w] == dec(n as nat)[w - 12],
        forall|w: int| 12 <= w < code_mid(n).len() ==> is_digit(#[trigger] code_mid(n)[w]),
        forall|w: int| 1 <= w < code_mid(n).len() ==> #[trigger] code_mid(n)[w] != 'v' && code_mid(n)[w] != '\n',
        forall|w: int| 0 <= w < code_mid(n).len() ==> #[trigger] code_mid(n)[w] != '\n',
{
    let m = code_mid(n);
    let d = dec(n as nat);
    lemma_dec_value_of_dec(n as nat);
    lemma_key_letters(Pattern::Code);
    assert(m.subrange(0, 11) =~= key(Pattern::Code));
    let k = key(Pattern::Code);
    assert(k[0] != '\n' && k[1] != '\n' && k[2] != '\n' && k[3] != '\n' && k[4] != '\n' && k[5] != '\n'
        && k[6] != '\n' && k[7] != '\n' && k[8] != '\n' && k[9] != '\n' && k[10] != '\n');
    assert forall|w: int| 1 <= w < m.len() implies #[trigger] m[w] != 'v' && m[w] != '\n' by {
        if w < 11 {
            assert(m[w] == k[w]);
        } else if w >= 12 {
            assert(m[w] == d[w - 12]);
            assert(is_digit(d[w - 12]));
        }
    }
    assert forall|w: int| 12 <= w < m.len() implies is_digit(#[trigger] m[w]) by {
        assert(m[w] == d[w - 12]);
    }
}

proof fn lemma_name_mid(t: Seq<char>)
    requires
        all_numeric(t),
    ensures
        name_mid(t).len() == 14 + t.len(),
        name_mid(t).subrange(0, 11) == key(Pattern::Name),
        name_mid(t)[0] == 'v',
        name_mid(t)[11] == ' ',
        name_mid(t)[12] == '"',
        name_mid(t)[13 + t.len() as int] == '"',
        forall|w: int| 13 <= w < 13 + t.len() ==> #[trigger] name_mid(t)[w] == t[w - 13],
        forall|w: int| 13 <= w < 13 + t.len() ==> is_numeric(#[trigger] name_mid(t)[w]),
        forall|w: int| 1 <= w < name_mid(t).len() ==> #[trigger] name_mid(t)[w] != 'v' && name_mid(t)[w] != '\n',
        forall|w: int| 0 <= w < name_mid(t).len() ==> #[trigger] name_mid(t)[w] != '\n',
{
    let m = name_mid(t);
    lemma_key_letters(Pattern::Name);
    assert(m.subrange(0, 11) =~= key(Pattern::Name));
    let k = key(Pattern::Name);
    assert(k[0] != '\n' && k[1] != '\n' && k[2] != '\n' && k[3] != '\n' && k[4] != '\n' && k[5] != '\n'
        && k[6] != '\n' && k[7] != '\n' && k[8] != '\n' && k[9] != '\n' && k[10] != '\n');
    assert forall|w: int| 1 <= w < m.len() implies #[trigger] m[w] != 'v' && m[w] != '\n' by {
        if w < 11 {
            assert(m[w] == k[w]);
        } else if 13 <= w < 13 + t.len() {
            assert(m[w] == t[w - 13]);
            assert(is_numeric(t[w - 13]));
        }
    }
    assert forall|w: int| 13 <= w < 13 + t.len() implies is_numeric(#[trigger] m[w]) by {
        assert(m[w] == t[w - 13]);
    }
}

/// A line that declares a build number, once rewritten to `n`, declares `n`.
#[verifier::rlimit(50)]
pub proof fn lemma_render_code_self(s: Seq<char>, n: u32)
    requires
        code_of(s) is Some,
    ensures
        code_of(render_code(s, n)) == Some(n),
{
    let p = Pattern::Code;
    lemma_first_at(s, 0, p);
    let i = first_match(s, p)->0;
    lemma_match_bounds(s, i, p);
    let e1 = match_end(s, i, p);
    lemma_run_end_bounds(s, value_start(s, i, p), CharClass::Digit);
    let mid = code_mid(n);
    lemma_code_mid(n);
    lemma_splice(s, i, e1, mid);
    let s2 = splice(s, i, e1, mid);
    assert(render_code(s, n) == s2);
    let e2 = i + mid.len();
    assert(s2.subrange(i, i + 11) =~= key(p));
    assert forall|j: int| 0 <= j < i implies !matches_at(s2, j, p) by {
        assert(s2[i] == s[i]);
        lemma_match_prefix(s, s2, i, j, p);
    }
    lemma_run_end_exact(s2, i + 11, i + 12, CharClass::Space);
    if e2 < s2.len() {
        assert(s2[e2] == s[e1]);
    }
    lemma_run_end_exact(s2, i + 12, e2, CharClass::Digit);
    assert(matches_at(s2, i, p));
    lemma_first_at_is(s2, 0, i, p);
    assert(value_text(s2, p) =~= dec(n as nat));
    lemma_dec_value_of_dec(n as nat);
}

/// Rewriting the build number leaves the version a line declares as it was.
#[verifier::rlimit(50)]
pub proof fn lemma_render_code_other(s: Seq<char>, n: u32)
    requires
        code_of(s) is Some,
    ensures
        name_of(render_code(s, n)) == name_of(s),
{
    let p = Pattern::Code;
    lemma_first_at(s, 0, p);
    let i = first_match(s, p)->0;
    lemma_match_bounds(s, i, p);
    lemma_match_chars(s, i, p);
    lemma_key_letters(p);
    let e1 = match_end(s, i, p);
    let mid = code_mid(n);
    lemma_code_mid(n);
    lemma_splice(s, i, e1, mid);
    let s2 = splice(s, i, e1, mid);
    assert(render_code(s, n) == s2);
    let e2 = i + mid.len();
    assert(s2.subrange(i, i + 11) =~= key(p));
    assert(s.subrange(i, i + 11) == key(p));
    assert(s[i] == 'v');
    lemma_region_free(s, i, e1, p, Pattern::Name);
    lemma_region_free(s2, i, e2, p, Pattern::Name);
    lemma_replace_keeps_other(s, s2, i, e1, e2, Pattern::Name);
}

/// Rewriting the build number puts no newline into a line.
pub proof fn lemma_render_code_newline(s: Seq<char>, n: u32)
    requires
        code_of(s) is Some,
        no_newline(s),
    ensures
        no_newline(render_code(s, n)),
{
    let p = Pattern::Code;
    lemma_first_at(s, 0, p);
    let i = first_match(s, p)->0;
    lemma_match_bounds(s, i, p);
    let e1 = match_end(s, i, p);
    let mid = code_mid(n);
    lemma_code_mid(n);
    lemma_splice(s, i, e1, mid);
    let s2 = splice(s, i, e1, mid);
    assert(render_code(s, n) == s2);
    assert forall|z: int| 0 <= z < s2.len() implies s2[z] != '\n' by {
        if z < i {
        } else if z < i + mid.len() {
        } else {
        }
    }
}

/// A line that declares a version, once rewritten to a version whose text
/// is a run of digits and dots, declares what semver reads from that text.
#[verifier::rlimit(50)]
pub proof fn lemma_render_name_self(s: Seq<char>, v: VersionData)
    requires
        name_of(s) is Some,
        all_numeric(version_text(v)),
        version_text(v).len() > 0,
    ensures
        name_of(render_name(s, v)) == semver_parse(version_text(v)),
{
    let p = Pattern::Name;
    let t = version_text(v);
    lemma_first_at(s, 0, p);
    let i = first_match(s, p)->0;
    lemma_match_bounds(s, i, p);
    let e1 = match_end(s, i, p);
    let mid = name_mid(t);
    lemma_name_mid(t);
    lemma_splice(s, i, e1, mid);
    let s2 = splice(s, i, e1, mid);
    assert(render_name(s, v) == s2);
    assert(s2.subrange(i, i + 11) =~= key(p));
    assert forall|j: int| 0 <= j < i implies !matches_at(s2, j, p) by {
        assert(s2[i] == s[i]);
        lemma_match_prefix(s, s2, i, j, p);
    }
    lemma_run_end_exact(s2, i + 11, i + 12, CharClass::Space);
    lemma_run_end_exact(s2, i + 13, i + 13 + t.len(), CharClass::Numeric);
    assert(matches_at(s2, i, p));
    lemma_first_at_is(s2, 0, i, p);
    assert(value_text(s2, p) =~= t);
}

/// Rewriting the version leaves the build number a line declares as it was.
#[verifier::rlimit(50)]
pub proof fn lemma_render_name_other(s: Seq<char>, v: VersionData)
    requires
        name_of(s) is Some,
        all_numeric(version_text(v)),
    ensures
        code_of(render_name(s, v)) == code_of(s),
{
    let p = Pattern::Name;
    let t = version_text(v);
    lemma_first_at(s, 0, p);
    let i = first_match(s, p)->0;
    lemma_match_bounds(s, i, p);
    lemma_match_chars(s, i, p);
    lemma_key_letters(p);
    let e1 = match_end(s, i, p);
    let mid = name_mid(t);
    lemma_name_mid(t);
    lemma_splice(s, i, e1, mid);
    let s2 = splice(s, i, e1, mid);
    assert(render_name(s, v) == s2);
    let e2 = i + mid.len();
    assert(s2.subrange(i, i + 11) =~= key(p));
    assert(s.subrange(i, i + 11) == key(p));
    assert(s[i] == 'v');
    lemma_region_free(s, i, e1, p, Pattern::Code);
    lemma_region_free(s2, i, e2, p, Pattern::Code);
    lemma_replace_keeps_other(s, s2, i, e1, e2, Pattern::Code);
}

/// Rewriting the version to digits and dots puts no newline into a line.
pub proof fn lemma_render_name_newline(s: Seq<char>, v: VersionData)
    requires
        name_of(s) is Some,
        no_newline(s),
        all_numeric(version_text(v)),
    ensures
        no_newline(render_name(s, v)),
{
    let p = Pattern::Name;
    let t = version_text(v);
    lemma_first_at(s, 0, p);
    let i = first_match(s, p)->0;
    lemma_match_bounds(s, i, p);
    let e1 = match_end(s, i, p);
    let mid = name_mid(t);
    lemma_name_mid(t);
    lemma_splice(s, i, e1, mid);
    let s2 = splice(s, i, e1, mid);
    assert(render_name(s, v) == s2);
    assert forall|z: int| 0 <= z < s2.len() implies s2[z] != '\n' by {
        if z < i {
        } else if z < i + mid.len() {
        } else {
        }
    }
}

/// A build-script line rewritten to the state `(n, v)`, where the text of
/// `v` is a run of digits and dots that semver reads back as `v`, declares
/// `n` if it declared a build number and `v` if it declared a version, and
/// nothing where it declared nothing.
pub proof fn lemma_render_build_line(l: Seq<char>, n: u32, v: VersionData)
    requires
        no_newline(l),
        version_text(v).len() > 0,
        all_numeric(version_text(v)),
        semver_parse(version_text(v)) == Some(v),
    ensures
        code_of(render_name(render_code(l, n), v)) == (if code_of(l) is Some {
            Some(n)
        } else {
            None
        }),
        name_of(render_name(render_code(l, n), v)) == (if name_of(l) is Some {
            Some(v)
        } else {
            None
        }),
        no_newline(render_name(render_code(l, n), v)),
{
    let r1 = render_code(l, n);
    if code_of(l) is Some {
        lemma_render_code_self(l, n);
        lemma_render_code_other(l, n);
        lemma_render_code_newline(l, n);
    }
    if name_of(r1) is Some {
        lemma_render_name_self(r1, v);
        lemma_render_name_other(r1, v);
        lemma_render_name_newline(r1, v);
    }
}

} // verus!
