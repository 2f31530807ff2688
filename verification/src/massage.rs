//! The fallback massaging pipeline: an ordered list of rules, each removing
//! one trailing season/year/cour/part decoration if present, followed by
//! surrounding-character trimming.
//!
//! Every rule strips at most one anchored-at-end occurrence, mirroring a
//! single replacement of the corresponding anchored pattern:
//! `" (YYYY)"` for years 2020-2049 (each parenthesis optional), then
//! `" Nth season"` (one or more digits plus an ordinal suffix), then
//! `" (cour N)"`, `" (season N)"`, `" (part N)"` (parentheses optional),
//! then a trailing `" N"` bare digit.

use vstd::prelude::*;
use crate::utils::trim_chars;
use crate::utils::trim_surrounding;

verus! {

pub open spec fn is_digit(c: char) -> bool {
    '0' as int <= c as int && c as int <= '9' as int
}

fn digit_char(c: char) -> (r: bool)
    ensures
        r == is_digit(c),
{
    c as u32 >= '0' as u32 && c as u32 <= '9' as u32
}

/// The decade digits admitted by the year rule: 2020 through 2049.
pub open spec fn is_year_decade(c: char) -> bool {
    c == '2' || c == '3' || c == '4'
}

/// How many trailing characters the year rule removes: a space, an optional
/// `(`, a year 2020-2049, and an optional `)`.
pub open spec fn year_len(s: Seq<char>) -> int {
    let n = s.len() as int;
    if n >= 7 && s[n - 7] == ' ' && s[n - 6] == '(' && s[n - 5] == '2' && s[n - 4] == '0'
        && is_year_decade(s[n - 3]) && is_digit(s[n - 2]) && s[n - 1] == ')' {
        7
    } else if n >= 6 && s[n - 6] == ' ' && s[n - 5] == '(' && s[n - 4] == '2' && s[n - 3] == '0'
        && is_year_decade(s[n - 2]) && is_digit(s[n - 1]) {
        6
    } else if n >= 6 && s[n - 6] == ' ' && s[n - 5] == '2' && s[n - 4] == '0' && is_year_decade(
        s[n - 3],
    ) && is_digit(s[n - 2]) && s[n - 1] == ')' {
        6
    } else if n >= 5 && s[n - 5] == ' ' && s[n - 4] == '2' && s[n - 3] == '0' && is_year_decade(
        s[n - 2],
    ) && is_digit(s[n - 1]) {
        5
    } else {
        0
    }
}

pub open spec fn strip_year(s: Seq<char>) -> Seq<char> {
    s.take(s.len() - year_len(s))
}

/// Length of the run of digits ending at index `i`, inclusive.
pub open spec fn digit_run(s: Seq<char>, i: int) -> int
    decreases i + 1,
{
    if i < 0 || i >= s.len() || !is_digit(s[i]) {
        0
    } else {
        1 + digit_run(s, i - 1)
    }
}

/// An ordinal suffix: st, nd, rd or th.
pub open spec fn is_ordinal(a: char, b: char) -> bool {
    (a == 's' && b == 't') || (a == 'n' && b == 'd') || (a == 'r' && b == 'd') || (a == 't' && b
        == 'h')
}

/// How many trailing characters the ordinal-season rule removes: a space,
/// one or more digits, an ordinal suffix, and `" season"`.
pub open spec fn ordinal_season_len(s: Seq<char>) -> int {
    let n = s.len() as int;
    let run = digit_run(s, n - 10);
    if n >= 10 && s[n - 7] == ' ' && s[n - 6] == 's' && s[n - 5] == 'e' && s[n - 4] == 'a' && s[n
        - 3] == 's' && s[n - 2] == 'o' && s[n - 1] == 'n' && is_ordinal(s[n - 9], s[n - 8]) && run
        >= 1 && n - 10 - run >= 0 && s[n - 10 - run] == ' ' {
        10 + run
    } else {
        0
    }
}

pub open spec fn strip_ordinal_season(s: Seq<char>) -> Seq<char> {
    s.take(s.len() - ordinal_season_len(s))
}

/// How many trailing characters a worded rule removes: a space, an optional
/// `(`, the word, a space, a single digit, and an optional `)`.
pub open spec fn worded_len(s: Seq<char>, w: Seq<char>) -> int {
    let n = s.len() as int;
    let k = w.len() as int;
    if n >= k + 5 && s[n - k - 5] == ' ' && s[n - k - 4] == '(' && s.subrange(n - k - 3, n - 3)
        == w && s[n - 3] == ' ' && is_digit(s[n - 2]) && s[n - 1] == ')' {
        k + 5
    } else if n >= k + 4 && s[n - k - 4] == ' ' && s[n - k - 3] == '(' && s.subrange(
        n - k - 2,
        n - 2,
    ) == w && s[n - 2] == ' ' && is_digit(s[n - 1]) {
        k + 4
    } else if n >= k + 4 && s[n - k - 4] == ' ' && s.subrange(n - k - 3, n - 3) == w && s[n - 3]
        == ' ' && is_digit(s[n - 2]) && s[n - 1] == ')' {
        k + 4
    } else if n >= k + 3 && s[n - k - 3] == ' ' && s.subrange(n - k - 2, n - 2) == w && s[n - 2]
        == ' ' && is_digit(s[n - 1]) {
        k + 3
    } else {
        0
    }
}

pub open spec fn strip_worded(s: Seq<char>, w: Seq<char>) -> Seq<char> {
    s.take(s.len() - worded_len(s, w))
}

pub open spec fn cour_word() -> Seq<char> {
    seq!['c', 'o', 'u', 'r']
}

pub open spec fn season_word() -> Seq<char> {
    seq!['s', 'e', 'a', 's', 'o', 'n']
}

pub open spec fn part_word() -> Seq<char> {
    seq!['p', 'a', 'r', 't']
}

/// How many trailing characters the bare-digit rule removes: a space and a
/// single final digit.
pub open spec fn bare_digit_len(s: Seq<char>) -> int {
    let n = s.len() as int;
    if n >= 2 && s[n - 2] == ' ' && is_digit(s[n - 1]) {
        2
    } else {
        0
    }
}

pub open spec fn strip_bare_digit(s: Seq<char>) -> Seq<char> {
    s.take(s.len() - bare_digit_len(s))
}

/// All decoration rules, applied in order.
pub open spec fn strip_decorations(s: Seq<char>) -> Seq<char> {
    strip_bare_digit(
        strip_worded(
            strip_worded(strip_worded(strip_ordinal_season(strip_year(s)), cour_word()), season_word()),
            part_word(),
        ),
    )
}

/// The whole fallback massaging pipeline: decoration stripping followed by
/// surrounding-character trimming.
pub open spec fn massage(s: Seq<char>) -> Seq<char> {
    trim_surrounding(strip_decorations(s))
}

fn exec_year_len(v: &Vec<char>) -> (r: usize)
    ensures
        r == year_len(v@),
        r <= v.len(),
{
    let n = v.len();
    if n >= 7 && v[n - 7] == ' ' && v[n - 6] == '(' && v[n - 5] == '2' && v[n - 4] == '0' && (v[n
        - 3] == '2' || v[n - 3] == '3' || v[n - 3] == '4') && digit_char(v[n - 2]) && v[n - 1]
        == ')' {
        7
    } else if n >= 6 && v[n - 6] == ' ' && v[n - 5] == '(' && v[n - 4] == '2' && v[n - 3] == '0'
        && (v[n - 2] == '2' || v[n - 2] == '3' || v[n - 2] == '4') && digit_char(v[n - 1]) {
        6
    } else if n >= 6 && v[n - 6] == ' ' && v[n - 5] == '2' && v[n - 4] == '0' && (v[n - 3] == '2'
        || v[n - 3] == '3' || v[n - 3] == '4') && digit_char(v[n - 2]) && v[n - 1] == ')' {
        6
    } else if n >= 5 && v[n - 5] == ' ' && v[n - 4] == '2' && v[n - 3] == '0' && (v[n - 2] == '2'
        || v[n - 2] == '3' || v[n - 2] == '4') && digit_char(v[n - 1]) {
        5
    } else {
        0
    }
}

fn exec_ordinal_season_len(v: &Vec<char>) -> (r: usize)
    ensures
        r == ordinal_season_len(v@),
        r <= v.len(),
{
    let n = v.len();
    if !(n >= 10 && v[n - 7] == ' ' && v[n - 6] == 's' && v[n - 5] == 'e' && v[n - 4] == 'a' && v[n
        - 3] == 's' && v[n - 2] == 'o' && v[n - 1] == 'n') {
        return 0;
    }
    let a = v[n - 9];
    let b = v[n - 8];
    if !((a == 's' && b == 't') || (a == 'n' && b == 'd') || (a == 'r' && b == 'd') || (a == 't'
        && b == 'h')) {
        return 0;
    }
    // count the digits running backwards from position n - 10
    let mut run: usize = 0;
    while n - 10 >= run && digit_char(v[n - 10 - run])
        invariant
            n == v@.len(),
            n >= 10,
            run <= n - 9,
            digit_run(v@, n - 10) == run + digit_run(v@, n - 10 - run),
        decreases n - 9 - run,
    {
        assert(digit_run(v@, n - 10 - run) == 1 + digit_run(v@, n - 10 - run - 1));
        run += 1;
    }
    assert(digit_run(v@, n - 10 - run) == 0);
    assert(digit_run(v@, n - 10) == run);
    if run >= 1 && n - 10 >= run && v[n - 10 - run] == ' ' {
        10 + run
    } else {
        0
    }
}

fn matches_at(v: &Vec<char>, start: usize, w: &Vec<char>) -> (r: bool)
    requires
        start + w@.len() <= v@.len(),
    ensures
        r == (v@.subrange(start as int, start + w@.len()) == w@),
{
    let n = v.len();
    let k = w.len();
    let mut t: usize = 0;
    while t < k
        invariant
            n == v@.len(),
            start + k <= n,
            k == w@.len(),
            t <= k,
            forall|u: int| 0 <= u < t ==> v@[start + u] == w@[u],
        decreases k - t,
    {
        if v[start + t] != w[t] {
            assert(v@.subrange(start as int, start + w@.len())[t as int] != w@[t as int]);
            return false;
        }
        t += 1;
    }
    assert(v@.subrange(start as int, start + w@.len()) =~= w@);
    true
}

fn exec_worded_len(v: &Vec<char>, w: &Vec<char>) -> (r: usize)
    requires
        w@.len() >= 1,
    ensures
        r == worded_len(v@, w@),
        r <= v.len(),
{
    let n = v.len();
    let k = w.len();
    if n >= 5 && n - 5 >= k && v[n - k - 5] == ' ' && v[n - k - 4] == '(' && matches_at(
        v,
        n - k - 3,
        w,
    ) && v[n - 3] == ' ' && digit_char(v[n - 2]) && v[n - 1] == ')' {
        k + 5
    } else if n >= 4 && n - 4 >= k && v[n - k - 4] == ' ' && v[n - k - 3] == '(' && matches_at(
        v,
        n - k - 2,
        w,
    ) && v[n - 2] == ' ' && digit_char(v[n - 1]) {
        k + 4
    } else if n >= 4 && n - 4 >= k && v[n - k - 4] == ' ' && matches_at(v, n - k - 3, w) && v[n - 3]
        == ' ' && digit_char(v[n - 2]) && v[n - 1] == ')' {
        k + 4
    } else if n >= 3 && n - 3 >= k && v[n - k - 3] == ' ' && matches_at(v, n - k - 2, w) && v[n - 2]
        == ' ' && digit_char(v[n - 1]) {
        k + 3
    } else {
        0
    }
}

fn exec_bare_digit_len(v: &Vec<char>) -> (r: usize)
    ensures
        r == bare_digit_len(v@),
        r <= v.len(),
{
    let n = v.len();
    if n >= 2 && v[n - 2] == ' ' && digit_char(v[n - 1]) {
        2
    } else {
        0
    }
}

fn strip_suffix(v: &mut Vec<char>, k: usize)
    requires
        k <= old(v)@.len(),
    ensures
        final(v)@ == old(v)@.take(old(v)@.len() - k),
{
    let target = v.len() - k;
    v.truncate(target);
}

/// Applies all decoration rules in order to the character sequence.
pub fn strip_decoration_rules(v: &mut Vec<char>)
    ensures
        final(v)@ == strip_decorations(old(v)@),
{
    let k1 = exec_year_len(v);
    strip_suffix(v, k1);
    let k2 = exec_ordinal_season_len(v);
    strip_suffix(v, k2);
    let cour: Vec<char> = vec!['c', 'o', 'u', 'r'];
    assert(cour@ =~= cour_word());
    let k3 = exec_worded_len(v, &cour);
    strip_suffix(v, k3);
    let season: Vec<char> = vec!['s', 'e', 'a', 's', 'o', 'n'];
    assert(season@ =~= season_word());
    let k4 = exec_worded_len(v, &season);
    strip_suffix(v, k4);
    let part: Vec<char> = vec!['p', 'a', 'r', 't'];
    assert(part@ =~= part_word());
    let k5 = exec_worded_len(v, &part);
    strip_suffix(v, k5);
    let k6 = exec_bare_digit_len(v);
    strip_suffix(v, k6);
}

/// The whole fallback massaging pipeline over a character sequence.
pub fn massaged(v: &Vec<char>) -> (r: Vec<char>)
    ensures
        r@ == massage(v@),
{
    let mut s: Vec<char> = Vec::new();
    let mut i: usize = 0;
    while i < v.len()
        invariant
            i <= v@.len(),
            s@ == v@.take(i as int),
        decreases v@.len() - i,
    {
        s.push(v[i]);
        assert(s@ =~= v@.take(i + 1));
        i += 1;
    }
    assert(s@ =~= v@);
    strip_decoration_rules(&mut s);
    trim_chars(&s)
}

} // verus!
