//! Characters, decimal numerals and the text helpers that the line
//! patterns are built from.

use vstd::prelude::*;
use vstd::string::*;

verus! {

/// ASCII decimal digit.
pub open spec fn is_digit(c: char) -> bool {
    '0' as u32 <= c as u32 && c as u32 <= '9' as u32
}

/// A character of the Unicode `White_Space` property.
pub open spec fn is_space(c: char) -> bool {
    let u = c as u32;
    u == 0x20 || (0x09 <= u && u <= 0x0d) || u == 0x85 || u == 0xa0 || u == 0x1680
        || (0x2000 <= u && u <= 0x200a) || u == 0x2028 || u == 0x2029 || u == 0x202f
        || u == 0x205f || u == 0x3000
}

/// The characters that may form a dotted numeric version string.
pub open spec fn is_numeric(c: char) -> bool {
    is_digit(c) || c == '.'
}

/// The classes of characters whose maximal runs the line patterns consume.
#[derive(Clone, Copy, PartialEq, Eq, Debug)]
pub enum CharClass {
    Space,
    Digit,
    Numeric,
}

pub open spec fn in_class(c: char, k: CharClass) -> bool {
    match k {
        CharClass::Space => is_space(c),
        CharClass::Digit => is_digit(c),
        CharClass::Numeric => is_numeric(c),
    }
}

/// End of the maximal run of characters of class `k` starting at `i`.
pub open spec fn run_end(s: Seq<char>, i: int, k: CharClass) -> int
    decreases s.len() - i,
{
    if 0 <= i < s.len() && in_class(s[i], k) {
        run_end(s, i + 1, k)
    } else {
        i
    }
}

pub proof fn lemma_run_end_bounds(s: Seq<char>, i: int, k: CharClass)
    requires
        0 <= i <= s.len(),
    ensures
        i <= run_end(s, i, k) <= s.len(),
        forall|j: int| i <= j < run_end(s, i, k) ==> in_class(#[trigger] s[j], k),
        run_end(s, i, k) < s.len() ==> !in_class(s[run_end(s, i, k)], k),
    decreases s.len() - i,
{
    if i < s.len() && in_class(s[i], k) {
        lemma_run_end_bounds(s, i + 1, k);
    }
}

/// Appending a character extends a run only if the run reached the end and
/// the character belongs to the class.
pub proof fn lemma_run_end_push(s0: Seq<char>, c: char, x: int, k: CharClass)
    requires
        0 <= x <= s0.len(),
    ensures
        run_end(s0.push(c), x, k) == (if in_class(c, k) && run_end(s0, x, k) == s0.len() {
            s0.len() as int + 1
        } else {
            run_end(s0, x, k)
        }),
    decreases s0.len() - x,
{
    let s = s0.push(c);
    if x < s0.len() {
        assert(s[x] == s0[x]);
        if in_class(s0[x], k) {
            lemma_run_end_push(s0, c, x + 1, k);
        }
    } else {
        assert(s[x] == c);
        if in_class(c, k) {
            assert(run_end(s, x + 1, k) == x + 1);
        }
    }
}

pub open spec fn digit_char(d: nat) -> char {
    seq!['0', '1', '2', '3', '4', '5', '6', '7', '8', '9'][d as int]
}

pub open spec fn digit_value(c: char) -> nat {
    (c as u32 - '0' as u32) as nat
}

/// The decimal numeral of `n`, without leading zeros.
pub open spec fn dec(n: nat) -> Seq<char>
    decreases n,
{
    if n < 10 {
        seq![digit_char(n)]
    } else {
        dec(n / 10).push(digit_char(n % 10))
    }
}

/// The value of a string of decimal digits.
pub open spec fn dec_value(s: Seq<char>) -> nat
    decreases s.len(),
{
    if s.len() == 0 {
        0
    } else {
        dec_value(s.drop_last()) * 10 + digit_value(s.last())
    }
}

pub fn char_in_class(c: char, k: CharClass) -> (r: bool)
    ensures
        r == in_class(c, k),
{
    let u = c as u32;
    let digit = 0x30 <= u && u <= 0x39;
    match k {
        CharClass::Space => u == 0x20 || (0x09 <= u && u <= 0x0d) || u == 0x85 || u == 0xa0
            || u == 0x1680 || (0x2000 <= u && u <= 0x200a) || u == 0x2028 || u == 0x2029
            || u == 0x202f || u == 0x205f || u == 0x3000,
        CharClass::Digit => digit,
        CharClass::Numeric => digit || c == '.',
    }
}

/// The position after the maximal run of class `k` that starts at `i`.
pub fn scan_run(s: &Vec<char>, i: usize, k: CharClass) -> (r: usize)
    requires
        i <= s@.len(),
    ensures
        r as int == run_end(s@, i as int, k),
        i <= r <= s@.len(),
{
    let mut j: usize = i;
    while j < s.len() && char_in_class(s[j], k)
        invariant
            i <= j <= s@.len(),
            run_end(s@, j as int, k) == run_end(s@, i as int, k),
        decreases s@.len() - j,
    {
        j = j + 1;
    }
    j
}

/// The characters of `s`, one by one.
pub fn chars_of(s: &str) -> (r: Vec<char>)
    ensures
        r@ == s@,
{
    let n = s.unicode_len();
    let mut r: Vec<char> = Vec::new();
    let mut i: usize = 0;
    while i < n
        invariant
            n == s@.len(),
            i <= n,
            r@ == s@.subrange(0, i as int),
        decreases n - i,
    {
        r.push(s.get_char(i));
        i = i + 1;
    }
    r
}

/// Whether `w` occurs in `s` at position `i`.
pub fn word_at(s: &Vec<char>, i: usize, w: &str) -> (r: bool)
    ensures
        r == (i + w@.len() <= s@.len() && s@.subrange(i as int, i + w@.len()) == w@),
{
    let n = w.unicode_len();
    if i > s.len() || n > s.len() - i {
        return false;
    }
    let mut j: usize = 0;
    while j < n
        invariant
            n == w@.len(),
            i + n <= s.len(),
            j <= n,
            forall|m: int| 0 <= m < j ==> s@[i + m] == w@[m],
        decreases n - j,
    {
        if s[i + j] != w.get_char(j) {
            assert(s@.subrange(i as int, i + n)[j as int] != w@[j as int]);
            return false;
        }
        j = j + 1;
    }
    assert(s@.subrange(i as int, i + n) =~= w@);
    true
}

/// A string of one decimal digit.
fn digit_str(d: u64) -> (r: &'static str)
    requires
        d < 10,
    ensures
        r@ == seq![digit_char(d as nat)],
{
    let digits = "0123456789";
    proof {
        reveal_strlit("0123456789");
    }
    let r = digits.substring_char(d as usize, d as usize + 1);
    assert(r@ =~= seq![digit_char(d as nat)]);
    r
}

/// The decimal numeral of `n`.
pub fn decimal(n: u64) -> (r: String)
    ensures
        r@ == dec(n as nat),
    decreases n,
{
    if n < 10 {
        String::from_str(digit_str(n))
    } else {
        let mut r = decimal(n / 10);
        r.append(digit_str(n % 10));
        r
    }
}

/// The value of the digits `s[a..b]`, or `None` where it exceeds `u32::MAX`.
pub fn parse_u32(s: &Vec<char>, a: usize, b: usize) -> (r: Option<u32>)
    requires
        a <= b <= s@.len(),
        forall|j: int| a <= j < b ==> is_digit(#[trigger] s@[j]),
    ensures
        r == (if dec_value(s@.subrange(a as int, b as int)) <= u32::MAX {
            Some(dec_value(s@.subrange(a as int, b as int)) as u32)
        } else {
            None::<u32>
        }),
{
    let mut v: u64 = 0;
    let mut j: usize = a;
    while j < b
        invariant
            a <= j <= b <= s@.len(),
            forall|m: int| a <= m < b ==> is_digit(#[trigger] s@[m]),
            v as nat == dec_value(s@.subrange(a as int, j as int)),
            v <= u32::MAX,
        decreases b - j,
    {
        assert(is_digit(s@[j as int]));
        let d = (s[j] as u32 - '0' as u32) as u64;
        assert(s@.subrange(a as int, j + 1).drop_last() =~= s@.subrange(a as int, j as int));
        let w = v * 10 + d;
        if w > u32::MAX as u64 {
            proof {
                assert(s@.subrange(a as int, j + 1) =~= s@.subrange(a as int, b as int).subrange(0, j + 1 - a));
                lemma_dec_value_grows(s@.subrange(a as int, j + 1), s@.subrange(a as int, b as int));
            }
            return None;
        }
        v = w;
        j = j + 1;
    }
    assert(s@.subrange(a as int, j as int) =~= s@.subrange(a as int, b as int));
    Some(v as u32)
}

pub proof fn lemma_digit(d: nat)
    requires
        d < 10,
    ensures
        digit_value(digit_char(d)) == d,
        is_digit(digit_char(d)),
{
    let ds = seq!['0', '1', '2', '3', '4', '5', '6', '7', '8', '9'];
    assert(ds[0] == '0' && ds[1] == '1' && ds[2] == '2' && ds[3] == '3' && ds[4] == '4' && ds[5]
        == '5' && ds[6] == '6' && ds[7] == '7' && ds[8] == '8' && ds[9] == '9');
}

/// A numeral is worth the number it was written for.
pub proof fn lemma_dec_value_of_dec(n: nat)
    ensures
        dec_value(dec(n)) == n,
        forall|j: int| 0 <= j < dec(n).len() ==> is_digit(#[trigger] dec(n)[j]),
    decreases n,
{
    lemma_digit(n % 10);
    if n >= 10 {
        lemma_dec_value_of_dec(n / 10);
        assert(dec(n).drop_last() =~= dec(n / 10));
        assert(forall|j: int| 0 <= j < dec(n).len() - 1 ==> dec(n)[j] == dec(n / 10)[j]);
        assert(dec(n).last() == digit_char(n % 10));
        assert(dec_value(dec(n)) == dec_value(dec(n / 10)) * 10 + digit_value(digit_char(n % 10)));
        assert((n / 10) * 10 + n % 10 == n);
    } else {
        assert(dec(n).drop_last() =~= Seq::<char>::empty());
        assert(dec_value(Seq::<char>::empty()) == 0);
        assert(dec(n).last() == digit_char(n));
        assert(n % 10 == n);
    }
}

/// A string of digits is worth at least as much as any of its prefixes.
pub proof fn lemma_dec_value_grows(p: Seq<char>, s: Seq<char>)
    requires
        p.len() <= s.len(),
        p == s.subrange(0, p.len() as int),
    ensures
        dec_value(p) <= dec_value(s),
    decreases s.len(),
{
    if p.len() < s.len() {
        assert(s.drop_last().subrange(0, p.len() as int) =~= p);
        lemma_dec_value_grows(p, s.drop_last());
    } else {
        assert(p =~= s);
    }
}

} // verus!
