//! Reading back what was written: splitting the serialized text into lines
//! again, and what a line declares once a trailing carriage return is gone.

use vstd::prelude::*;
use crate::pattern::{
    first_at, gap_end, key, key_at, match_end, matches_at, value_end, value_start, Pattern,
};
use crate::text::{lemma_run_end_bounds, lemma_run_end_push, run_end, CharClass};
use crate::buildgradle::{code_of, name_of, value_text};
use crate::properties::project_of;
use crate::pattern::{first_match, lemma_first_at, lemma_match_bounds};
use crate::document::{joined, lines_acc, split_lines, strip_cr};

verus! {

/// A trailing carriage return changes no match of any pattern, nor where
/// its parts lie.
pub proof fn lemma_match_ignores_cr(s0: Seq<char>, j: int, p: Pattern)
    requires
        0 <= j <= s0.len(),
    ensures
        matches_at(s0.push('\r'), j, p) == matches_at(s0, j, p),
        matches_at(s0, j, p) ==> value_start(s0.push('\r'), j, p) == value_start(s0, j, p)
            && value_end(s0.push('\r'), j, p) == value_end(s0, j, p) && match_end(
            s0.push('\r'),
            j,
            p,
        ) == match_end(s0, j, p),
{
    let s = s0.push('\r');
    let kl = key(p).len() as int;
    let k = j + kl;
    if k > s0.len() {
        if k == s0.len() + 1 {
            assert(s.subrange(j, k)[kl - 1] == '\r');
            assert(key(p)[kl - 1] != '\r');
        }
        assert(!key_at(s, j, p));
        assert(!key_at(s0, j, p));
        return;
    }
    assert(s.subrange(j, k) =~= s0.subrange(j, k));
    assert(key_at(s, j, p) == key_at(s0, j, p));
    if !key_at(s0, j, p) {
        return;
    }
    lemma_run_end_bounds(s0, k, CharClass::Space);
    lemma_run_end_push(s0, '\r', k, CharClass::Space);
    let g1 = run_end(s0, k, CharClass::Space);
    if g1 == s0.len() {
        // the whitespace runs to the end: nothing can follow it in either
        assert(run_end(s, k, CharClass::Space) == s.len());
        match p {
            Pattern::Project => {},
            Pattern::Name => {},
            Pattern::Code => {
                assert(run_end(s, s.len() as int, CharClass::Digit) == s.len());
                assert(run_end(s0, s0.len() as int, CharClass::Digit) == s0.len());
            },
        }
        return;
    }
    assert(run_end(s, k, CharClass::Space) == g1);
    assert(s[g1] == s0[g1]);
    match p {
        Pattern::Code => {
            lemma_run_end_push(s0, '\r', g1, CharClass::Digit);
        },
        Pattern::Name => {
            lemma_run_end_bounds(s0, g1 + 1, CharClass::Numeric);
            lemma_run_end_push(s0, '\r', g1 + 1, CharClass::Numeric);
            let ve = run_end(s0, g1 + 1, CharClass::Numeric);
            if ve < s0.len() {
                assert(s[ve] == s0[ve]);
            }
        },
        Pattern::Project => {
            lemma_run_end_bounds(s0, g1 + 1, CharClass::Space);
            lemma_run_end_push(s0, '\r', g1 + 1, CharClass::Space);
            let g2 = run_end(s0, g1 + 1, CharClass::Space);
            if g2 == s0.len() {
                assert(run_end(s, g1 + 1, CharClass::Space) == s.len());
                assert(run_end(s, s.len() as int, CharClass::Numeric) == s.len());
                assert(run_end(s0, s0.len() as int, CharClass::Numeric) == s0.len());
            } else {
                lemma_run_end_push(s0, '\r', g2, CharClass::Numeric);
            }
        },
    }
}

pub proof fn lemma_first_ignores_cr(s0: Seq<char>, i: int, p: Pattern)
    requires
        0 <= i,
    ensures
        first_at(s0.push('\r'), i, p) == first_at(s0, i, p),
    decreases s0.len() + 2 - i,
{
    let s = s0.push('\r');
    if i <= s0.len() {
        lemma_match_ignores_cr(s0, i, p);
        if !matches_at(s0, i, p) {
            lemma_first_ignores_cr(s0, i + 1, p);
        }
    } else if i == s0.len() + 1 {
        assert(!matches_at(s, i, p));
        assert(first_at(s, i + 1, p) is None);
    }
}

/// The value text of the leftmost match is the same with or without a
/// trailing carriage return.
pub proof fn lemma_value_text_ignores_cr(s0: Seq<char>, p: Pattern)
    ensures
        first_match(s0.push('\r'), p) == first_match(s0, p),
        first_match(s0, p) is Some ==> value_text(s0.push('\r'), p) == value_text(s0, p),
{
    let s = s0.push('\r');
    lemma_first_ignores_cr(s0, 0, p);
    if first_match(s0, p) is Some {
        lemma_first_at(s0, 0, p);
        let i = first_match(s0, p)->0;
        lemma_match_bounds(s0, i, p);
        lemma_match_ignores_cr(s0, i, p);
        assert(s.subrange(value_start(s0, i, p), value_end(s0, i, p)) =~= s0.subrange(
            value_start(s0, i, p),
            value_end(s0, i, p),
        ));
    }
}

/// Dropping a trailing carriage return changes nothing that a line
/// declares.
pub proof fn lemma_declarations_ignore_cr(l: Seq<char>)
    ensures
        code_of(strip_cr(l)) == code_of(l),
        name_of(strip_cr(l)) == name_of(l),
        project_of(strip_cr(l)) == project_of(l),
{
    if l.len() > 0 && l.last() == '\r' {
        let l0 = l.drop_last();
        assert(l0.push('\r') =~= l);
        lemma_value_text_ignores_cr(l0, Pattern::Code);
        lemma_value_text_ignores_cr(l0, Pattern::Name);
        lemma_value_text_ignores_cr(l0, Pattern::Project);
    }
}

pub open spec fn no_newline(l: Seq<char>) -> bool {
    forall|q: int| 0 <= q < l.len() ==> l[q] != '\n'
}

proof fn lemma_lines_acc_shift(a: Seq<char>, b: Seq<char>, x: int, cur: Seq<char>)
    requires
        0 <= x,
    ensures
        lines_acc(a + b, a.len() + x, cur) == lines_acc(b, x, cur),
    decreases b.len() - x,
{
    if x < b.len() {
        assert((a + b)[a.len() + x] == b[x]);
        if b[x] == '\n' {
            lemma_lines_acc_shift(a, b, x + 1, Seq::empty());
        } else {
            lemma_lines_acc_shift(a, b, x + 1, cur.push(b[x]));
        }
    }
}

proof fn lemma_lines_acc_line(s: Seq<char>, i: int, p: int, cur: Seq<char>)
    requires
        0 <= i <= p < s.len(),
        s[p] == '\n',
        forall|q: int| i <= q < p ==> s[q] != '\n',
    ensures
        lines_acc(s, i, cur) == seq![strip_cr(cur + s.subrange(i, p))] + lines_acc(
            s,
            p + 1,
            Seq::empty(),
        ),
    decreases p - i,
{
    if i == p {
        assert(cur + s.subrange(i, p) =~= cur);
    } else {
        lemma_lines_acc_line(s, i + 1, p, cur.push(s[i]));
        assert(cur.push(s[i]) + s.subrange(i + 1, p) =~= cur + s.subrange(i, p));
    }
}

proof fn lemma_joined_front(r: Seq<Seq<char>>)
    requires
        r.len() > 0,
    ensures
        joined(r) == r[0] + seq!['\n'] + joined(r.drop_first()),
    decreases r.len(),
{
    if r.len() == 1 {
        assert(r.drop_last() =~= Seq::<Seq<char>>::empty());
        assert(r.drop_first() =~= Seq::<Seq<char>>::empty());
        assert(joined(r) =~= r[0] + seq!['\n'] + joined(r.drop_first()));
    } else {
        lemma_joined_front(r.drop_last());
        assert(r.drop_last().drop_first() =~= r.drop_first().drop_last());
        assert(r.drop_first().last() == r.last());
        assert(joined(r) =~= r[0] + seq!['\n'] + joined(r.drop_first()));
    }
}

/// Splitting the joined lines gives back the first line, without one
/// trailing carriage return, and then the rest.
proof fn lemma_split_joined_step(r: Seq<Seq<char>>)
    requires
        r.len() > 0,
        no_newline(r[0]),
    ensures
        split_lines(joined(r)) == seq![strip_cr(r[0])] + split_lines(joined(r.drop_first())),
{
    lemma_joined_front(r);
    let a = r[0] + seq!['\n'];
    let b = joined(r.drop_first());
    let s = joined(r);
    assert(s =~= a + b);
    let p = r[0].len() as int;
    assert(s[p] == '\n');
    assert forall|q: int| 0 <= q < p implies s[q] != '\n' by {
        assert(s[q] == r[0][q]);
    }
    lemma_lines_acc_line(s, 0, p, Seq::empty());
    assert(Seq::<char>::empty() + s.subrange(0, p) =~= r[0]);
    lemma_lines_acc_shift(a, b, 0, Seq::empty());
    assert(a.len() + 0 == p + 1);
}

/// Splitting joined lines gives each line back, without one trailing
/// carriage return, as far as the lines hold no newline.
pub proof fn lemma_split_joined(r: Seq<Seq<char>>, m: int)
    requires
        0 <= m <= r.len(),
        forall|j: int| 0 <= j < m ==> no_newline(#[trigger] r[j]),
    ensures
        split_lines(joined(r)).len() >= m,
        forall|j: int| 0 <= j < m ==> split_lines(joined(r))[j] == strip_cr(#[trigger] r[j]),
    decreases m,
{
    if m > 0 {
        lemma_split_joined_step(r);
        lemma_split_joined(r.drop_first(), m - 1);
        assert forall|j: int| 0 <= j < m implies split_lines(joined(r))[j] == strip_cr(
            #[trigger] r[j],
        ) by {
            if j > 0 {
                assert(r.drop_first()[j - 1] == r[j]);
            }
        }
    }
}

/// No line that splitting produces holds a newline.
pub proof fn lemma_split_no_newline(s: Seq<char>, i: int, cur: Seq<char>)
    requires
        no_newline(cur),
    ensures
        forall|j: int|
            0 <= j < lines_acc(s, i, cur).len() ==> no_newline(#[trigger] lines_acc(s, i, cur)[j]),
    decreases s.len() - i,
{
    if 0 <= i < s.len() {
        if s[i] == '\n' {
            lemma_split_no_newline(s, i + 1, Seq::empty());
            let rest = lines_acc(s, i + 1, Seq::empty());
            assert forall|j: int|
                0 <= j < lines_acc(s, i, cur).len() implies no_newline(
                #[trigger] lines_acc(s, i, cur)[j],
            ) by {
                if j > 0 {
                    assert(lines_acc(s, i, cur)[j] == rest[j - 1]);
                } else {
                    assert(lines_acc(s, i, cur)[0] == strip_cr(cur));
                    if cur.len() > 0 && cur.last() == '\r' {
                        assert(forall|q: int|
                            0 <= q < cur.len() - 1 ==> cur.drop_last()[q] == cur[q]);
                    }
                }
            }
        } else {
            let c2 = cur.push(s[i]);
            assert(forall|q: int| 0 <= q < cur.len() ==> c2[q] == cur[q]);
            assert(no_newline(c2));
            lemma_split_no_newline(s, i + 1, c2);
            assert(lines_acc(s, i, cur) == lines_acc(s, i + 1, c2));
        }
    } else if cur.len() > 0 {
        assert(lines_acc(s, i, cur) =~= seq![cur]);
    }
}

} // verus!
