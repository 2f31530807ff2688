//! String utilities for the title matcher: character-level conversion,
//! lower-casing, and trimming of surrounding special characters.

use vstd::prelude::*;
use vstd::string::*;

verus! {

/// What `str::to_lowercase` returns for a given character sequence.
pub uninterp spec fn lower_of(s: Seq<char>) -> Seq<char>;

/// Relies on str::to_lowercase: the result depends on the input characters
/// alone (Unicode lower-casing).
#[verifier::external_body]
pub(crate) fn lowercase(s: &str) -> (r: String)
    ensures
        r@ == lower_of(s@),
{
    s.to_lowercase()
}

/// Whether `char::is_alphanumeric` holds of the character.
pub uninterp spec fn alphanumeric(c: char) -> bool;

/// Relies on char::is_alphanumeric: a fixed Unicode character property.
#[verifier::external_body]
fn is_alphanumeric_char(c: char) -> (r: bool)
    ensures
        r == alphanumeric(c),
{
    c.is_alphanumeric()
}

/// The characters of a string slice, in order.
pub fn chars_of(s: &str) -> (v: Vec<char>)
    ensures
        v@ == s@,
{
    let n = s.unicode_len();
    let mut v: Vec<char> = Vec::new();
    let mut i: usize = 0;
    while i < n
        invariant
            n == s@.len(),
            i <= n,
            v@ == s@.take(i as int),
        decreases n - i,
    {
        let c = s.get_char(i);
        v.push(c);
        assert(v@ =~= s@.take(i + 1));
        i += 1;
    }
    assert(v@ =~= s@);
    v
}

/// Character-sequence equality.
pub fn chars_eq(a: &Vec<char>, b: &Vec<char>) -> (r: bool)
    ensures
        r == (a@ == b@),
{
    if a.len() != b.len() {
        return false;
    }
    let n = a.len();
    let mut i: usize = 0;
    while i < n
        invariant
            n == a@.len(),
            n == b@.len(),
            i <= n,
            forall|k: int| 0 <= k < i ==> a@[k] == b@[k],
        decreases n - i,
    {
        if a[i] != b[i] {
            return false;
        }
        i += 1;
    }
    assert(a@ =~= b@);
    true
}

/// Characters kept as a leading boundary: alphanumerics and a literal `(`.
pub open spec fn keep_leading(c: char) -> bool {
    alphanumeric(c) || c == '('
}

/// Characters kept as a trailing boundary: alphanumerics and a literal `)`.
pub open spec fn keep_trailing(c: char) -> bool {
    alphanumeric(c) || c == ')'
}

/// Index of the first character kept as a leading boundary; `s.len()` if none.
pub open spec fn first_keep(s: Seq<char>) -> int
    decreases s.len(),
{
    if s.len() == 0 {
        0
    } else if keep_leading(s.first()) {
        0
    } else {
        1 + first_keep(s.drop_first())
    }
}

/// Index of the last character kept as a trailing boundary; `-1` if none.
pub open spec fn last_keep(s: Seq<char>) -> int
    decreases s.len(),
{
    if s.len() == 0 {
        -1
    } else if keep_trailing(s.last()) {
        s.len() - 1
    } else {
        last_keep(s.drop_last())
    }
}

proof fn lemma_first_keep_bounds(s: Seq<char>)
    ensures
        0 <= first_keep(s) <= s.len(),
        first_keep(s) < s.len() ==> keep_leading(s[first_keep(s)]),
        forall|k: int| 0 <= k < first_keep(s) ==> !keep_leading(s[k]),
    decreases s.len(),
{
    if s.len() == 0 {
    } else if keep_leading(s.first()) {
    } else {
        lemma_first_keep_bounds(s.drop_first());
        assert forall|k: int| 0 <= k < first_keep(s) implies !keep_leading(s[k]) by {
            if k > 0 {
                assert(s.drop_first()[k - 1] == s[k]);
            }
        }
        if first_keep(s) < s.len() {
            assert(s.drop_first()[first_keep(s) - 1] == s[first_keep(s)]);
        }
    }
}

proof fn lemma_last_keep_bounds(s: Seq<char>)
    ensures
        -1 <= last_keep(s) < s.len(),
        last_keep(s) >= 0 ==> keep_trailing(s[last_keep(s)]),
        forall|k: int| last_keep(s) < k < s.len() ==> !keep_trailing(s[k]),
    decreases s.len(),
{
    if s.len() == 0 {
    } else if keep_trailing(s.last()) {
    } else {
        lemma_last_keep_bounds(s.drop_last());
        assert forall|k: int| last_keep(s) < k < s.len() implies !keep_trailing(s[k]) by {
            if k < s.len() - 1 {
                assert(s.drop_last()[k] == s[k]);
            }
        }
        if last_keep(s) >= 0 {
            assert(s.drop_last()[last_keep(s)] == s[last_keep(s)]);
        }
    }
}

/// Surrounding-character trimming: leading characters are dropped up to the
/// first alphanumeric or `(`, trailing ones back to the last alphanumeric or
/// `)`.  With no boundary character on one side, the scan leaves the last
/// (respectively first) character as the boundary; a crossed pair of bounds
/// yields the empty sequence.
pub open spec fn trim_surrounding(s: Seq<char>) -> Seq<char> {
    if s.len() == 0 {
        s
    } else {
        let start = if first_keep(s) < s.len() {
            first_keep(s)
        } else {
            s.len() - 1
        };
        let end = if last_keep(s) >= 0 {
            last_keep(s)
        } else {
            0
        };
        if start <= end {
            s.subrange(start, end + 1)
        } else {
            Seq::empty()
        }
    }
}

/// Trimming again changes nothing.
pub proof fn lemma_trim_idempotent(s: Seq<char>)
    ensures
        trim_surrounding(trim_surrounding(s)) == trim_surrounding(s),
{
    lemma_first_keep_bounds(s);
    lemma_last_keep_bounds(s);
    let r = trim_surrounding(s);
    if s.len() == 0 {
    } else {
        let start = if first_keep(s) < s.len() {
            first_keep(s)
        } else {
            s.len() - 1
        };
        let end = if last_keep(s) >= 0 {
            last_keep(s)
        } else {
            0
        };
        if start <= end {
            lemma_first_keep_bounds(r);
            lemma_last_keep_bounds(r);
            if first_keep(s) < s.len() {
                // the first kept character heads the result
                assert(r[0] == s[start]);
                assert(first_keep(r) == 0) by {
                    if !keep_leading(r.first()) {
                    }
                }
            } else {
                // no leading boundary exists anywhere in s, in particular in r
                assert forall|k: int| 0 <= k < r.len() implies !keep_leading(r[k]) by {
                    assert(r[k] == s[start + k]);
                }
                if first_keep(r) < r.len() {
                    assert(keep_leading(r[first_keep(r)]));
                }
            }
            if last_keep(s) >= 0 {
                assert(r[r.len() - 1] == s[end]);
                assert(last_keep(r) == r.len() - 1) by {
                    if !keep_trailing(r.last()) {
                    }
                }
            } else {
                assert forall|k: int| 0 <= k < r.len() implies !keep_trailing(r[k]) by {
                    assert(r[k] == s[start + k]);
                }
                if last_keep(r) >= 0 {
                    assert(keep_trailing(r[last_keep(r)]));
                }
            }
            // whichever side lacked a boundary, the surviving range is stable
            let rstart = if first_keep(r) < r.len() {
                first_keep(r)
            } else {
                r.len() - 1
            };
            let rend = if last_keep(r) >= 0 {
                last_keep(r)
            } else {
                0
            };
            assert(rstart == 0);
            assert(rend == r.len() - 1);
            assert(trim_surrounding(r) =~= r);
        } else {
            assert(r.len() == 0);
        }
    }
}

/// Trims surrounding special characters from a string, keeping `(` on the
/// left and `)` on the right, never splitting a multi-byte character.
pub fn remove_special_surrounding_characters(value: &str) -> (r: &str)
    ensures
        r@ == trim_surrounding(value@),
{
    proof {
        lemma_first_keep_bounds(value@);
        lemma_last_keep_bounds(value@);
    }
    let n = value.unicode_len();
    if n == 0 {
        return value;
    }
    let mut i: usize = 0;
    let mut start: usize = n - 1;
    let mut found_start = false;
    while i < n
        invariant
            n == value@.len(),
            0 < n,
            i <= n,
            !found_start ==> start == n - 1 && forall|k: int| 0 <= k < i ==> !keep_leading(
                value@[k],
            ),
            found_start ==> start < i && keep_leading(value@[start as int]) && forall|k: int|
                0 <= k < start ==> !keep_leading(value@[k]),
        decreases n - i,
    {
        if !found_start {
            let c = value.get_char(i);
            if is_alphanumeric_char(c) || c == '(' {
                found_start = true;
                start = i;
            }
        }
        i += 1;
    }
    proof {
        if found_start {
            lemma_scan_first(value@, start as int);
            assert(first_keep(value@) == start);
        } else {
            assert(first_keep(value@) == n) by {
                if first_keep(value@) < value@.len() {
                    assert(keep_leading(value@[first_keep(value@)]));
                }
            }
        }
    }
    let mut j: usize = n;
    let mut end: usize = 0;
    let mut found_end = false;
    while j > 0
        invariant
            n == value@.len(),
            0 < n,
            j <= n,
            !found_end ==> end == 0 && forall|k: int| j <= k < n ==> !keep_trailing(value@[k]),
            found_end ==> j <= end < n && keep_trailing(value@[end as int]) && forall|k: int|
                end < k < n ==> !keep_trailing(value@[k]),
        decreases j,
    {
        if !found_end {
            let c = value.get_char(j - 1);
            if is_alphanumeric_char(c) || c == ')' {
                found_end = true;
                end = j - 1;
            }
        }
        j -= 1;
    }
    proof {
        if found_end {
            lemma_scan_last(value@, end as int);
        } else {
            assert(last_keep(value@) == -1) by {
                if last_keep(value@) >= 0 {
                    assert(keep_trailing(value@[last_keep(value@)]));
                }
            }
        }
    }
    if start <= end {
        value.substring_char(start, end + 1)
    } else {
        let empty = value.substring_char(0, 0);
        assert(empty@ =~= trim_surrounding(value@));
        empty
    }
}

/// Surrounding-character trimming over an owned character sequence.
pub fn trim_chars(v: &Vec<char>) -> (r: Vec<char>)
    ensures
        r@ == trim_surrounding(v@),
{
    proof {
        lemma_first_keep_bounds(v@);
        lemma_last_keep_bounds(v@);
    }
    let n = v.len();
    let mut out: Vec<char> = Vec::new();
    if n == 0 {
        assert(out@ =~= trim_surrounding(v@));
        return out;
    }
    let mut i: usize = 0;
    let mut start: usize = n - 1;
    let mut found_start = false;
    while i < n
        invariant
            n == v@.len(),
            0 < n,
            i <= n,
            !found_start ==> start == n - 1 && forall|k: int| 0 <= k < i ==> !keep_leading(v@[k]),
            found_start ==> start < i && keep_leading(v@[start as int]) && forall|k: int|
                0 <= k < start ==> !keep_leading(v@[k]),
        decreases n - i,
    {
        if !found_start {
            let c = v[i];
            if is_alphanumeric_char(c) || c == '(' {
                found_start = true;
                start = i;
            }
        }
        i += 1;
    }
    proof {
        if found_start {
            lemma_scan_first(v@, start as int);
        } else {
            assert(first_keep(v@) == n) by {
                if first_keep(v@) < v@.len() {
                    assert(keep_leading(v@[first_keep(v@)]));
                }
            }
        }
    }
    let mut j: usize = n;
    let mut end: usize = 0;
    let mut found_end = false;
    while j > 0
        invariant
            n == v@.len(),
            0 < n,
            j <= n,
            !found_end ==> end == 0 && forall|k: int| j <= k < n ==> !keep_trailing(v@[k]),
            found_end ==> j <= end < n && keep_trailing(v@[end as int]) && forall|k: int|
                end < k < n ==> !keep_trailing(v@[k]),
        decreases j,
    {
        if !found_end {
            let c = v[j - 1];
            if is_alphanumeric_char(c) || c == ')' {
                found_end = true;
                end = j - 1;
            }
        }
        j -= 1;
    }
    proof {
        if found_end {
            lemma_scan_last(v@, end as int);
        } else {
            assert(last_keep(v@) == -1) by {
                if last_keep(v@) >= 0 {
                    assert(keep_trailing(v@[last_keep(v@)]));
                }
            }
        }
    }
    if start <= end {
        let mut t = start;
        while t <= end
            invariant
                n == v@.len(),
                start <= t <= end + 1,
                end < n,
                out@ == v@.subrange(start as int, t as int),
            decreases end + 1 - t,
        {
            out.push(v[t]);
            assert(out@ =~= v@.subrange(start as int, t + 1));
            t += 1;
        }
    } else {
        assert(out@ =~= Seq::<char>::empty());
    }
    out
}

proof fn lemma_scan_first(s: Seq<char>, i: int)
    requires
        0 <= i < s.len(),
        keep_leading(s[i]),
        forall|k: int| 0 <= k < i ==> !keep_leading(s[k]),
    ensures
        first_keep(s) == i,
{
    lemma_first_keep_bounds(s);
    if first_keep(s) < i {
        assert(keep_leading(s[first_keep(s)]));
    }
    if first_keep(s) > i {
        assert(!keep_leading(s[i]));
    }
}

proof fn lemma_scan_last(s: Seq<char>, i: int)
    requires
        0 <= i < s.len(),
        keep_trailing(s[i]),
        forall|k: int| i < k < s.len() ==> !keep_trailing(s[k]),
    ensures
        last_keep(s) == i,
{
    lemma_last_keep_bounds(s);
    if last_keep(s) > i {
        assert(!keep_trailing(s[last_keep(s)]));
    }
    if -1 <= last_keep(s) < i {
        assert(!keep_trailing(s[i]));
    }
}

} // verus!
