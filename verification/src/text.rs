//! Character-level text utilities shared by the parsers: digit runs and
//! their numeric values, finding and splitting on separator characters,
//! prefix and substring tests, and leading-whitespace trimming.

use vstd::prelude::*;

verus! {

/// An ASCII decimal digit (`'0'` has code point 48, `'9'` has 57).
pub open spec fn spec_digit(c: char) -> bool {
    48 <= c as int && c as int <= 57
}

/// The numeric value of one ASCII decimal digit.
pub open spec fn digit_val(c: char) -> int {
    c as int - 48
}

/// The numeric value of a sequence of ASCII decimal digits, most
/// significant digit first.
pub open spec fn digits_val(s: Seq<char>) -> int
    decreases s.len(),
{
    if s.len() == 0 {
        0
    } else {
        digits_val(s.drop_last()) * 10 + digit_val(s.last())
    }
}

/// The length of the maximal run of ASCII digits at the start of `s`.
pub open spec fn digit_run(s: Seq<char>) -> int
    decreases s.len(),
{
    if s.len() == 0 {
        0
    } else if !spec_digit(s[0]) {
        0
    } else {
        1 + digit_run(s.skip(1))
    }
}

/// The index of the first occurrence of `c` in `s`, or `s.len()` if `c`
/// does not occur.
pub open spec fn find_char(s: Seq<char>, c: char) -> int
    decreases s.len(),
{
    if s.len() == 0 {
        0
    } else if s[0] == c {
        0
    } else {
        1 + find_char(s.skip(1), c)
    }
}

/// A character with the Unicode `White_Space` property, the set that
/// `char::is_whitespace` tests.
pub open spec fn spec_space(c: char) -> bool {
    let u = c as int;
    u == 9 || u == 10 || u == 11 || u == 12 || u == 13 || u == 0x20 || u == 0x85 || u == 0xa0
        || u == 0x1680 || (0x2000 <= u && u <= 0x200a) || u == 0x2028 || u == 0x2029 || u == 0x202f
        || u == 0x205f || u == 0x3000
}

/// The length of the maximal run of whitespace characters at the start of
/// `s`.
pub open spec fn trim_len(s: Seq<char>) -> int
    decreases s.len(),
{
    if s.len() == 0 {
        0
    } else if !spec_space(s[0]) {
        0
    } else {
        1 + trim_len(s.skip(1))
    }
}

/// `pat` occurs at the start of `s`.
pub open spec fn has_prefix_spec(s: Seq<char>, pat: Seq<char>) -> bool {
    pat.len() <= s.len() && s.take(pat.len() as int) == pat
}

/// `pat` occurs somewhere in `s`.
pub open spec fn spec_contains(s: Seq<char>, pat: Seq<char>) -> bool {
    exists|k: int| 0 <= k && k + pat.len() <= s.len() && #[trigger] s.subrange(k, k + pat.len())
        == pat
}

/// `s`, split on each occurrence of `sep`. The result always has at least
/// one element; separators are not kept.
pub open spec fn spec_split(s: Seq<char>, sep: char) -> Seq<Seq<char>>
    decreases s.len(),
{
    let k = find_char(s, sep);
    if 0 <= k < s.len() {
        seq![s.take(k)] + spec_split(s.skip(k + 1), sep)
    } else {
        seq![s]
    }
}

pub proof fn lemma_find_char_bounds(s: Seq<char>, c: char)
    ensures
        0 <= find_char(s, c) <= s.len(),
        forall|i: int| 0 <= i < find_char(s, c) ==> s[i] != c,
        find_char(s, c) < s.len() ==> s[find_char(s, c)] == c,
    decreases s.len(),
{
    if s.len() != 0 && s[0] != c {
        lemma_find_char_bounds(s.skip(1), c);
        assert forall|i: int| 0 <= i < find_char(s, c) implies s[i] != c by {
            if i > 0 {
                assert(s.skip(1)[i - 1] == s[i]);
            }
        }
        if find_char(s, c) < s.len() {
            assert(s.skip(1)[find_char(s, c) - 1] == s[find_char(s, c)]);
        }
    }
}

/// Pins `find_char` down from a witness: no occurrence before `m`, and an
/// occurrence at `m` unless `m` is the length.
pub proof fn lemma_find_char_at(s: Seq<char>, c: char, m: int)
    requires
        0 <= m <= s.len(),
        forall|i: int| 0 <= i < m ==> s[i] != c,
        m < s.len() ==> s[m] == c,
    ensures
        find_char(s, c) == m,
    decreases s.len(),
{
    if s.len() != 0 && s[0] != c {
        assert forall|i: int| 0 <= i < m - 1 implies s.skip(1)[i] != c by {
            assert(s.skip(1)[i] == s[i + 1]);
        }
        if m - 1 < s.len() - 1 {
            assert(s.skip(1)[m - 1] == s[m]);
        }
        lemma_find_char_at(s.skip(1), c, m - 1);
    }
}

pub proof fn lemma_digit_run_bounds(s: Seq<char>)
    ensures
        0 <= digit_run(s) <= s.len(),
        forall|i: int| 0 <= i < digit_run(s) ==> spec_digit(s[i]),
        digit_run(s) < s.len() ==> !spec_digit(s[digit_run(s)]),
    decreases s.len(),
{
    if s.len() != 0 && spec_digit(s[0]) {
        lemma_digit_run_bounds(s.skip(1));
        assert forall|i: int| 0 <= i < digit_run(s) implies spec_digit(s[i]) by {
            if i > 0 {
                assert(s.skip(1)[i - 1] == s[i]);
            }
        }
        if digit_run(s) < s.len() {
            assert(s.skip(1)[digit_run(s) - 1] == s[digit_run(s)]);
        }
    }
}

/// Pins `digit_run` down from a witness: all digits before `m`, and a
/// non-digit at `m` unless `m` is the length.
pub proof fn lemma_digit_run_at(s: Seq<char>, m: int)
    requires
        0 <= m <= s.len(),
        forall|i: int| 0 <= i < m ==> spec_digit(s[i]),
        m < s.len() ==> !spec_digit(s[m]),
    ensures
        digit_run(s) == m,
    decreases s.len(),
{
    if s.len() != 0 && spec_digit(s[0]) {
        assert forall|i: int| 0 <= i < m - 1 implies spec_digit(s.skip(1)[i]) by {
            assert(s.skip(1)[i] == s[i + 1]);
        }
        if m - 1 < s.len() - 1 {
            assert(s.skip(1)[m - 1] == s[m]);
        }
        lemma_digit_run_at(s.skip(1), m - 1);
    }
}

/// Pins `trim_len` down from a witness.
pub proof fn lemma_trim_len_at(s: Seq<char>, m: int)
    requires
        0 <= m <= s.len(),
        forall|i: int| 0 <= i < m ==> spec_space(s[i]),
        m < s.len() ==> !spec_space(s[m]),
    ensures
        trim_len(s) == m,
    decreases s.len(),
{
    if s.len() != 0 && spec_space(s[0]) {
        assert forall|i: int| 0 <= i < m - 1 implies spec_space(s.skip(1)[i]) by {
            assert(s.skip(1)[i] == s[i + 1]);
        }
        if m - 1 < s.len() - 1 {
            assert(s.skip(1)[m - 1] == s[m]);
        }
        lemma_trim_len_at(s.skip(1), m - 1);
    }
}

pub proof fn lemma_digits_val_nonneg(s: Seq<char>)
    requires
        forall|i: int| 0 <= i < s.len() ==> spec_digit(s[i]),
    ensures
        digits_val(s) >= 0,
    decreases s.len(),
{
    if s.len() != 0 {
        lemma_digits_val_nonneg(s.drop_last());
    }
}

/// A digit string is worth at least any of its prefixes.
pub proof fn lemma_digits_val_prefix_le(s: Seq<char>, k: int)
    requires
        forall|i: int| 0 <= i < s.len() ==> spec_digit(s[i]),
        0 <= k <= s.len(),
    ensures
        digits_val(s.take(k)) <= digits_val(s),
    decreases s.len() - k,
{
    if k == s.len() {
        assert(s.take(k) =~= s);
    } else {
        assert(s.take(k + 1).drop_last() =~= s.take(k));
        lemma_digits_val_nonneg(s.take(k));
        lemma_digits_val_prefix_le(s, k + 1);
    }
}

/// True exactly on characters with the Unicode `White_Space` property;
/// the same set `char::is_whitespace` recognizes.
pub fn is_space_char(c: char) -> (r: bool)
    ensures
        r == spec_space(c),
{
    let u = c as u32;
    u == 9 || u == 10 || u == 11 || u == 12 || u == 13 || u == 0x20 || u == 0x85 || u == 0xa0
        || u == 0x1680 || (0x2000 <= u && u <= 0x200a) || u == 0x2028 || u == 0x2029 || u == 0x202f
        || u == 0x205f || u == 0x3000
}

/// The end position of the maximal digit run of `s` that starts at `start`.
pub fn digit_run_end(s: &str, start: usize) -> (e: usize)
    requires
        start <= s@.len(),
    ensures
        start <= e <= s@.len(),
        e - start == digit_run(s@.skip(start as int)),
{
    let n = s.unicode_len();
    let mut e = start;
    loop
        invariant
            start <= e <= n,
            n == s@.len(),
            forall|i: int| start <= i < e ==> spec_digit(s@[i]),
        ensures
            start <= e <= n,
            forall|i: int| start <= i < e ==> spec_digit(s@[i]),
            e < n ==> !spec_digit(s@[e as int]),
        decreases n - e,
    {
        if e >= n {
            break;
        }
        let c = s.get_char(e);
        let u = c as u32;
        if !(48 <= u && u <= 57) {
            break;
        }
        e += 1;
    }
    proof {
        let t = s@.skip(start as int);
        assert forall|i: int| 0 <= i < e - start implies spec_digit(t[i]) by {
            assert(t[i] == s@[start + i]);
        }
        if e - start < t.len() {
            assert(t[e - start] == s@[e as int]);
        }
        lemma_digit_run_at(t, e as int - start as int);
    }
    e
}

/// The index of the first occurrence of `sep` in `s`, or the length of `s`
/// if `sep` does not occur.
pub fn find_char_at(s: &str, sep: char) -> (e: usize)
    ensures
        e == find_char(s@, sep),
        0 <= e <= s@.len(),
{
    let n = s.unicode_len();
    let mut e: usize = 0;
    loop
        invariant
            0 <= e <= n,
            n == s@.len(),
            forall|i: int| 0 <= i < e ==> s@[i] != sep,
        ensures
            0 <= e <= n,
            forall|i: int| 0 <= i < e ==> s@[i] != sep,
            e < n ==> s@[e as int] == sep,
        decreases n - e,
    {
        if e >= n {
            break;
        }
        let c = s.get_char(e);
        if c == sep {
            break;
        }
        e += 1;
    }
    proof {
        lemma_find_char_at(s@, sep, e as int);
    }
    e
}

/// The numeric value of the digits of `s` between `start` and `end`, or
/// `None` if that value does not fit in a `u64`.
pub fn parse_num(s: &str, start: usize, end: usize) -> (r: Option<u64>)
    requires
        start <= end <= s@.len(),
        forall|i: int| start <= i < end ==> spec_digit(s@[i]),
    ensures
        match r {
            Some(v) => v as int == digits_val(s@.subrange(start as int, end as int)),
            None => digits_val(s@.subrange(start as int, end as int)) > u64::MAX,
        },
{
    let ghost whole = s@.subrange(start as int, end as int);
    let mut v: u64 = 0;
    let mut i = start;
    while i < end
        invariant
            start <= i <= end <= s@.len(),
            forall|k: int| start <= k < end ==> spec_digit(s@[k]),
            whole == s@.subrange(start as int, end as int),
            v as int == digits_val(s@.subrange(start as int, i as int)),
        decreases end - i,
    {
        let c = s.get_char(i);
        let d = (c as u32 - 48) as u64;
        proof {
            assert(s@.subrange(start as int, i as int + 1).drop_last() =~= s@.subrange(
                start as int,
                i as int,
            ));
            assert(s@.subrange(start as int, i as int + 1).last() == s@[i as int]);
        }
        if v > (u64::MAX - d) / 10 {
            proof {
                assert(10 * v + d > u64::MAX) by {
                    assert(10 * ((u64::MAX - d) / 10) + 9 >= u64::MAX - d);
                };
                assert forall|k: int| 0 <= k < whole.len() implies spec_digit(whole[k]) by {
                    assert(whole[k] == s@[start + k]);
                }
                lemma_digits_val_prefix_le(whole, i as int + 1 - start as int);
                assert(whole.take(i as int + 1 - start as int) =~= s@.subrange(
                    start as int,
                    i as int + 1,
                ));
            }
            return None;
        }
        v = v * 10 + d;
        i += 1;
    }
    Some(v)
}

/// Whether `pat` occurs in `s` at exactly position `k`.
fn matches_at(s: &str, pat: &str, k: usize) -> (r: bool)
    requires
        k + pat@.len() <= s@.len(),
    ensures
        r == (s@.subrange(k as int, k as int + pat@.len()) == pat@),
{
    let m = pat.unicode_len();
    let n = s.unicode_len();
    let ghost piece = s@.subrange(k as int, k as int + pat@.len());
    let mut j: usize = 0;
    while j < m
        invariant
            0 <= j <= m,
            m == pat@.len(),
            n == s@.len(),
            k + m <= n,
            piece == s@.subrange(k as int, k as int + pat@.len()),
            forall|i: int| 0 <= i < j ==> s@[k + i] == pat@[i],
        decreases m - j,
    {
        let a = s.get_char(k + j);
        let b = pat.get_char(j);
        if a != b {
            proof {
                assert(piece[j as int] == s@[k + j]);
            }
            return false;
        }
        j += 1;
    }
    proof {
        assert(piece =~= pat@);
    }
    true
}

/// Whether `s` begins with `pat`.
pub fn has_prefix(s: &str, pat: &str) -> (r: bool)
    ensures
        r == has_prefix_spec(s@, pat@),
{
    let m = pat.unicode_len();
    let n = s.unicode_len();
    if m > n {
        return false;
    }
    let r = matches_at(s, pat, 0);
    proof {
        assert(s@.subrange(0, pat@.len() as int) =~= s@.take(pat@.len() as int));
    }
    r
}

/// Whether `pat` occurs anywhere in `s`.
pub fn contains_seq(s: &str, pat: &str) -> (r: bool)
    ensures
        r == spec_contains(s@, pat@),
{
    let m = pat.unicode_len();
    let n = s.unicode_len();
    if m > n {
        return false;
    }
    let mut k: usize = 0;
    loop
        invariant
            0 <= k <= n - m,
            m <= n,
            m == pat@.len(),
            n == s@.len(),
            forall|k2: int| 0 <= k2 < k ==> #[trigger] s@.subrange(k2, k2 + pat@.len()) != pat@,
        ensures
            forall|k2: int|
                0 <= k2 <= n - m ==> #[trigger] s@.subrange(k2, k2 + pat@.len()) != pat@,
        decreases n - m - k,
    {
        if matches_at(s, pat, k) {
            return true;
        }
        if k >= n - m {
            break;
        }
        k += 1;
    }
    false
}

/// Whether two strings hold the same characters.
pub fn str_eq(a: &str, b: &str) -> (r: bool)
    ensures
        r == (a@ == b@),
{
    let n = a.unicode_len();
    if n != b.unicode_len() {
        return false;
    }
    let r = matches_at(a, b, 0);
    proof {
        assert(a@.subrange(0, b@.len() as int) =~= a@);
    }
    r
}

/// `s` with its leading whitespace removed.
pub fn trim_start<'a>(s: &'a str) -> (r: &'a str)
    ensures
        r@ == s@.skip(trim_len(s@)),
{
    let n = s.unicode_len();
    let mut e: usize = 0;
    loop
        invariant
            0 <= e <= n,
            n == s@.len(),
            forall|i: int| 0 <= i < e ==> spec_space(s@[i]),
        ensures
            0 <= e <= n,
            forall|i: int| 0 <= i < e ==> spec_space(s@[i]),
            e < n ==> !spec_space(s@[e as int]),
        decreases n - e,
    {
        if e >= n {
            break;
        }
        if !is_space_char(s.get_char(e)) {
            break;
        }
        e += 1;
    }
    proof {
        lemma_trim_len_at(s@, e as int);
        assert(s@.subrange(e as int, n as int) =~= s@.skip(e as int));
    }
    s.substring_char(e, n)
}

/// `s`, split into the pieces between occurrences of `sep`.
pub fn split_char(s: &str, sep: char) -> (r: Vec<String>)
    ensures
        r.deep_view() == spec_split(s@, sep),
{
    let n = s.unicode_len();
    let mut r: Vec<String> = Vec::new();
    let mut start: usize = 0;
    let mut i: usize = 0;
    proof {
        assert(s@.skip(0) =~= s@);
        assert(r.deep_view() + spec_split(s@, sep) =~= spec_split(s@, sep));
    }
    while i < n
        invariant
            0 <= start <= i <= n,
            n == s@.len(),
            forall|k: int| start <= k < i ==> s@[k] != sep,
            spec_split(s@, sep) == r.deep_view() + spec_split(s@.skip(start as int), sep),
        decreases n - i,
    {
        if s.get_char(i) == sep {
            let ghost old_r = r.deep_view();
            let piece = s.substring_char(start, i).to_owned();
            r.push(piece);
            proof {
                let t = s@.skip(start as int);
                assert forall|k: int| 0 <= k < i - start implies t[k] != sep by {
                    assert(t[k] == s@[start + k]);
                }
                assert(t[i - start] == s@[i as int]);
                lemma_find_char_at(t, sep, i as int - start as int);
                assert(t.take(i - start) =~= s@.subrange(start as int, i as int));
                assert(t.skip(i - start + 1) =~= s@.skip(i as int + 1));
                assert(r.deep_view() =~= old_r + seq![piece@]);
                assert(spec_split(s@, sep) == r.deep_view() + spec_split(
                    s@.skip(i as int + 1),
                    sep,
                ));
            }
            start = i + 1;
        }
        i += 1;
    }
    let ghost old_r = r.deep_view();
    let piece = s.substring_char(start, n).to_owned();
    r.push(piece);
    proof {
        let t = s@.skip(start as int);
        assert forall|k: int| 0 <= k < t.len() implies t[k] != sep by {
            assert(t[k] == s@[start + k]);
        }
        lemma_find_char_at(t, sep, t.len() as int);
        assert(piece@ =~= t);
        assert(r.deep_view() =~= old_r + seq![piece@]);
        assert(r.deep_view() =~= spec_split(s@, sep));
    }
    r
}

/// A split result is never empty.
pub proof fn lemma_split_len(s: Seq<char>, sep: char)
    ensures
        spec_split(s, sep).len() >= 1,
{
    lemma_find_char_bounds(s, sep);
}

} // verus!
