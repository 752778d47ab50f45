//! The timestamp micro-parser: one `HH:MM:SS.mmm` or `MM:SS.mmm` token is
//! turned into a count of milliseconds plus the unconsumed remainder of the
//! line.

use vstd::prelude::*;

use crate::text::digit_run;
use crate::text::digit_run_end;
use crate::text::digit_val;
use crate::text::digits_val;
use crate::text::lemma_digit_run_bounds;
use crate::text::lemma_digits_val_nonneg;
use crate::text::parse_num;
use crate::text::spec_digit;

verus! {

/// The trailing `.mmm` milliseconds field: exactly three digits starting at
/// `p`, added onto `base`. The second component is the index where the
/// unconsumed remainder starts.
pub open spec fn millis_part(s: Seq<char>, p: int, base: int) -> Option<(int, int)> {
    let n4 = digit_run(s.skip(p));
    if n4 != 3 {
        None
    } else {
        Some((base + digits_val(s.subrange(p, p + 3)), p + 3))
    }
}

/// What a timestamp token at the start of `s` is worth: `None` if `s` does
/// not begin with a well-formed timestamp, otherwise the total milliseconds
/// (unbounded) and the index where the remainder of `s` starts.
///
/// The shape is a leading digit run (hours, or minutes when it is exactly
/// two digits with value at most 59 and no third field follows), `:`, a
/// two-digit field at most 59, optionally `:` plus another such field, then
/// `.` and exactly three digits. Hours have no digit-count or value ceiling.
pub open spec fn ts_spec(s: Seq<char>) -> Option<(int, int)> {
    let n1 = digit_run(s);
    if n1 == 0 || n1 >= s.len() || s[n1] != ':' {
        None
    } else {
        let v1 = digits_val(s.take(n1));
        let has_hours = v1 > 59 || n1 != 2;
        let p2 = n1 + 1;
        let n2 = digit_run(s.skip(p2));
        if p2 + n2 >= s.len() || n2 != 2 || digits_val(s.subrange(p2, p2 + n2)) > 59 {
            None
        } else {
            let v2 = digits_val(s.subrange(p2, p2 + n2));
            let t2 = s[p2 + n2];
            if has_hours || t2 == ':' {
                let p3 = p2 + n2 + 1;
                let n3 = digit_run(s.skip(p3));
                if p3 + n3 >= s.len() || n3 != 2 || digits_val(s.subrange(p3, p3 + n3)) > 59 {
                    None
                } else {
                    let v3 = digits_val(s.subrange(p3, p3 + n3));
                    if s[p3 + n3] != '.' {
                        None
                    } else {
                        millis_part(s, p3 + n3 + 1, v1 * 3600000 + v2 * 60000 + v3 * 1000)
                    }
                }
            } else {
                if t2 != '.' {
                    None
                } else {
                    millis_part(s, p2 + n2 + 1, v1 * 60000 + v2 * 1000)
                }
            }
        }
    }
}

/// The value of a two-digit field lies between 0 and 99.
proof fn lemma_digits_val_2(s: Seq<char>)
    requires
        s.len() == 2,
        forall|i: int| 0 <= i < s.len() ==> spec_digit(s[i]),
    ensures
        0 <= digits_val(s) <= 99,
{
    let s1 = s.drop_last();
    assert(s1.drop_last() =~= Seq::<char>::empty());
    assert(digits_val(s1) == digits_val(s1.drop_last()) * 10 + digit_val(s1.last()));
    assert(digits_val(s1.drop_last()) == 0);
    assert(s1.last() == s[0]);
}

/// The value of a three-digit field lies between 0 and 999.
proof fn lemma_digits_val_3(s: Seq<char>)
    requires
        s.len() == 3,
        forall|i: int| 0 <= i < s.len() ==> spec_digit(s[i]),
    ensures
        0 <= digits_val(s) <= 999,
{
    let s1 = s.drop_last();
    let s2 = s1.drop_last();
    assert(s2.drop_last() =~= Seq::<char>::empty());
    assert(digits_val(s1) == digits_val(s2) * 10 + digit_val(s1.last()));
    assert(digits_val(s2) == digits_val(s2.drop_last()) * 10 + digit_val(s2.last()));
    assert(digits_val(s2.drop_last()) == 0);
    assert(s2.last() == s[0] && s1.last() == s[1]);
}

/// Parses a timestamp from the start of the given string. Returns the
/// timestamp's offset from zero in milliseconds, and the remainder of the
/// string after the timestamp, or `None` when no well-formed timestamp is
/// there or its value does not fit in a `u64`.
pub fn parse_timestamp<'a>(line: &'a str) -> (r: Option<(u64, &'a str)>)
    ensures
        match r {
            Some(p) => ts_spec(line@) matches Some(si) && p.0 as int == si.0 && p.1@ == line@.skip(
                si.1,
            ),
            None => !(ts_spec(line@) matches Some(si) && si.0 <= u64::MAX),
        },
{
    let ghost s = line@;
    let n = line.unicode_len();

    // the hours-or-minutes field
    let e1 = digit_run_end(line, 0);
    proof {
        assert(s.skip(0) =~= s);
        lemma_digit_run_bounds(s);
    }
    if e1 == 0 || e1 >= n {
        return None;
    }
    if line.get_char(e1) != ':' {
        return None;
    }
    proof {
        assert(s.take(e1 as int) =~= s.subrange(0, e1 as int));
    }
    let v1 = match parse_num(line, 0, e1) {
        Some(v) => v,
        None => {
            // the leading field alone is worth more than u64::MAX, so the
            // whole timestamp is too
            proof {
                lemma_ts_value_lower(s);
            }
            return None;
        },
    };
    let has_hours = v1 > 59 || e1 != 2;

    // the minutes-or-seconds field: exactly two digits, at most 59, and a
    // terminating character must follow
    let p2 = e1 + 1;
    let e2 = digit_run_end(line, p2);
    if e2 >= n || e2 - p2 != 2 {
        return None;
    }
    proof {
        lemma_field_digits(s, p2 as int, e2 as int - p2 as int);
        lemma_digits_val_2(s.subrange(p2 as int, e2 as int));
    }
    let v2 = match parse_num(line, p2, e2) {
        Some(v) => v,
        None => {
            return None;
        },
    };
    if v2 > 59 {
        return None;
    }
    let t2 = line.get_char(e2);

    let base: u64;
    let p4: usize;
    if has_hours || t2 == ':' {
        // a third colon-separated field is present (or forced by hours)
        let p3 = e2 + 1;
        let e3 = digit_run_end(line, p3);
        if e3 >= n || e3 - p3 != 2 {
            return None;
        }
        proof {
            lemma_field_digits(s, p3 as int, e3 as int - p3 as int);
            lemma_digits_val_2(s.subrange(p3 as int, e3 as int));
        }
        let v3 = match parse_num(line, p3, e3) {
            Some(v) => v,
            None => {
                return None;
            },
        };
        if v3 > 59 {
            return None;
        }
        if line.get_char(e3) != '.' {
            return None;
        }
        let rest = v2 * 60000 + v3 * 1000;
        base = match v1.checked_mul(3600000) {
            Some(h) => match h.checked_add(rest) {
                Some(t) => t,
                None => {
                    proof {
                        lemma_ts_millis_nonneg(s, e3 as int + 1);
                    }
                    return None;
                },
            },
            None => {
                proof {
                    lemma_ts_millis_nonneg(s, e3 as int + 1);
                }
                return None;
            },
        };
        p4 = e3 + 1;
    } else {
        if t2 != '.' {
            return None;
        }
        base = v2 * 1000 + v1 * 60000;
        p4 = e2 + 1;
    }

    // the milliseconds field: exactly three digits
    let e4 = digit_run_end(line, p4);
    if e4 - p4 != 3 {
        return None;
    }
    proof {
        lemma_field_digits(s, p4 as int, e4 as int - p4 as int);
        lemma_digits_val_3(s.subrange(p4 as int, e4 as int));
    }
    let v4 = match parse_num(line, p4, e4) {
        Some(v) => v,
        None => {
            return None;
        },
    };
    let total = match base.checked_add(v4) {
        Some(t) => t,
        None => {
            return None;
        },
    };
    let rem = line.substring_char(e4, n);
    proof {
        assert(rem@ =~= s.skip(e4 as int));
    }
    Some((total, rem))
}

/// In a parsed timestamp, every field contributes at least zero, and the
/// total is at least the value of the leading field.
proof fn lemma_ts_value_lower(s: Seq<char>)
    ensures
        ts_spec(s) matches Some(si) ==> si.0 >= digits_val(s.take(digit_run(s))),
{
    if ts_spec(s) is Some {
        let n1 = digit_run(s);
        let v1 = digits_val(s.take(n1));
        lemma_digit_run_bounds(s);
        assert forall|i: int| 0 <= i < s.take(n1).len() implies spec_digit(s.take(n1)[i]) by {
            assert(s.take(n1)[i] == s[i]);
        }
        lemma_digits_val_nonneg(s.take(n1));
        let p2 = n1 + 1;
        let n2 = digit_run(s.skip(p2));
        lemma_digit_run_bounds(s);
        lemma_field_digits(s, p2, n2);
        lemma_digits_val_2(s.subrange(p2, p2 + n2));
        let v2 = digits_val(s.subrange(p2, p2 + n2));
        let has_hours = v1 > 59 || n1 != 2;
        let t2 = s[p2 + n2];
        if has_hours || t2 == ':' {
            let p3 = p2 + n2 + 1;
            let n3 = digit_run(s.skip(p3));
            lemma_field_digits(s, p3, n3);
            lemma_digits_val_2(s.subrange(p3, p3 + n3));
            let v3 = digits_val(s.subrange(p3, p3 + n3));
            lemma_ts_millis_nonneg(s, p3 + n3 + 1);
            assert(v1 * 3600000 >= v1) by (nonlinear_arith)
                requires
                    v1 >= 0,
            ;
            assert(v1 * 60000 >= v1) by (nonlinear_arith)
                requires
                    v1 >= 0,
            ;
        } else {
            lemma_ts_millis_nonneg(s, p2 + n2 + 1);
            assert(v1 * 60000 >= v1) by (nonlinear_arith)
                requires
                    v1 >= 0,
            ;
        }
    }
}

/// The digit run found at `p` inside `s` consists of digits of `s`.
proof fn lemma_field_digits(s: Seq<char>, p: int, m: int)
    requires
        0 <= p <= s.len(),
        m == digit_run(s.skip(p)),
    ensures
        forall|i: int| p <= i < p + m ==> spec_digit(s[i]),
        forall|i: int| 0 <= i < m ==> spec_digit(#[trigger] s.subrange(p, p + m)[i]),
        0 <= m <= s.len() - p,
{
    lemma_digit_run_bounds(s.skip(p));
    assert forall|i: int| p <= i < p + m implies spec_digit(s[i]) by {
        assert(s.skip(p)[i - p] == s[i]);
    }
    assert forall|i: int| 0 <= i < m implies spec_digit(#[trigger] s.subrange(p, p + m)[i]) by {
        assert(s.subrange(p, p + m)[i] == s[p + i]);
    }
}

/// Pins down the digit run found at offset `p` of `s` from a witness.
proof fn lemma_digit_run_at_offset(s: Seq<char>, p: int, m: int)
    requires
        0 <= p,
        0 <= m,
        p + m <= s.len(),
        forall|i: int| p <= i < p + m ==> spec_digit(#[trigger] s[i]),
        p + m < s.len() ==> !spec_digit(s[p + m]),
    ensures
        digit_run(s.skip(p)) == m,
{
    let t = s.skip(p);
    assert forall|i: int| 0 <= i < m implies spec_digit(t[i]) by {
        assert(t[i] == s[p + i]);
    }
    if m < t.len() {
        assert(t[m] == s[p + m]);
    }
    crate::text::lemma_digit_run_at(t, m);
}

/// For every well-formed two-field timestamp `MM:SS.mmm` standing alone —
/// two digits, a colon, two digits worth at most 59, a period and exactly
/// three digits, with the minutes worth at most 59 — the parser is worth
/// `minutes*60000 + seconds*1000 + millis` milliseconds, and the remainder
/// starts at the end of the token.
pub proof fn lemma_two_field_timestamp(s: Seq<char>)
    requires
        s.len() == 9,
        forall|i: int| (0 <= i < 2 || 3 <= i < 5 || 6 <= i < 9) ==> spec_digit(#[trigger] s[i]),
        s[2] == ':',
        s[5] == '.',
        digits_val(s.subrange(0, 2)) <= 59,
        digits_val(s.subrange(3, 5)) <= 59,
    ensures
        ts_spec(s) == Some(
            (
                digits_val(s.subrange(0, 2)) * 60000 + digits_val(s.subrange(3, 5)) * 1000
                    + digits_val(s.subrange(6, 9)),
                9int,
            ),
        ),
{
    assert(!spec_digit(':') && !spec_digit('.'));
    assert(s.skip(0) =~= s);
    lemma_digit_run_at_offset(s, 0, 2);
    lemma_digit_run_at_offset(s, 3, 2);
    lemma_digit_run_at_offset(s, 6, 3);
    assert(s.take(2) =~= s.subrange(0, 2));
}

/// For every well-formed three-field timestamp `HH:MM:SS.mmm` standing
/// alone, where the hours field has any positive number of digits `k` and
/// no value ceiling, the parser is worth
/// `hours*3600000 + minutes*60000 + seconds*1000 + millis` milliseconds.
pub proof fn lemma_three_field_timestamp(s: Seq<char>, k: int)
    requires
        1 <= k,
        s.len() == k + 10,
        forall|i: int|
            (0 <= i < k || k + 1 <= i < k + 3 || k + 4 <= i < k + 6 || k + 7 <= i < k + 10)
                ==> spec_digit(#[trigger] s[i]),
        s[k] == ':',
        s[k + 3] == ':',
        s[k + 6] == '.',
        digits_val(s.subrange(k + 1, k + 3)) <= 59,
        digits_val(s.subrange(k + 4, k + 6)) <= 59,
    ensures
        ts_spec(s) == Some(
            (
                digits_val(s.subrange(0, k)) * 3600000 + digits_val(s.subrange(k + 1, k + 3))
                    * 60000 + digits_val(s.subrange(k + 4, k + 6)) * 1000 + digits_val(
                    s.subrange(k + 7, k + 10),
                ),
                k + 10,
            ),
        ),
{
    assert(!spec_digit(':') && !spec_digit('.'));
    assert(s.skip(0) =~= s);
    lemma_digit_run_at_offset(s, 0, k);
    lemma_digit_run_at_offset(s, k + 1, 2);
    lemma_digit_run_at_offset(s, k + 4, 2);
    lemma_digit_run_at_offset(s, k + 7, 3);
    assert(s.take(k) =~= s.subrange(0, k));
}

/// A timestamp whose leading field is a single digit fails: a minutes-style
/// leading field must be exactly two digits, and a one-digit field forces
/// the hours interpretation, which then finds three digits where a
/// two-digit field is required.
pub proof fn lemma_short_leading_field_fails(s: Seq<char>)
    requires
        s.len() == 8,
        forall|i: int| (i == 0 || 2 <= i < 4 || 5 <= i < 8) ==> spec_digit(#[trigger] s[i]),
        s[1] == ':',
        s[4] == '.',
    ensures
        ts_spec(s) is None,
{
    assert(!spec_digit(':') && !spec_digit('.'));
    assert(s.skip(0) =~= s);
    lemma_digit_run_at_offset(s, 0, 1);
    lemma_digit_run_at_offset(s, 2, 2);
    lemma_digit_run_at_offset(s, 5, 3);
}

/// A two-field timestamp whose milliseconds run is not exactly three digits
/// long fails, whatever else follows.
pub proof fn lemma_millis_not_three_fails(s: Seq<char>)
    requires
        s.len() >= 6,
        forall|i: int| (0 <= i < 2 || 3 <= i < 5) ==> spec_digit(#[trigger] s[i]),
        s[2] == ':',
        s[5] == '.',
        digits_val(s.subrange(0, 2)) <= 59,
        digit_run(s.skip(6)) != 3,
    ensures
        ts_spec(s) is None,
{
    assert(!spec_digit(':') && !spec_digit('.'));
    assert(s.skip(0) =~= s);
    lemma_digit_run_at_offset(s, 0, 2);
    lemma_digit_run_at_offset(s, 3, 2);
    assert(s.take(2) =~= s.subrange(0, 2));
}

/// A four-field timestamp — three colon-separated fields and then a fourth
/// colon where the period belongs — fails entirely.
pub proof fn lemma_four_field_fails(s: Seq<char>, k: int)
    requires
        1 <= k,
        s.len() >= k + 7,
        forall|i: int|
            (0 <= i < k || k + 1 <= i < k + 3 || k + 4 <= i < k + 6) ==> spec_digit(
                #[trigger] s[i],
            ),
        s[k] == ':',
        s[k + 3] == ':',
        s[k + 6] == ':',
    ensures
        ts_spec(s) is None,
{
    assert(!spec_digit(':'));
    assert(s.skip(0) =~= s);
    lemma_digit_run_at_offset(s, 0, k);
    lemma_digit_run_at_offset(s, k + 1, 2);
    lemma_digit_run_at_offset(s, k + 4, 2);
}

/// The milliseconds field, when present, is nonnegative.
proof fn lemma_ts_millis_nonneg(s: Seq<char>, p: int)
    requires
        0 <= p <= s.len(),
    ensures
        digit_run(s.skip(p)) == 3 ==> digits_val(s.subrange(p, p + 3)) >= 0,
{
    if digit_run(s.skip(p)) == 3 {
        lemma_field_digits(s, p, 3);
        assert forall|i: int| 0 <= i < 3 implies spec_digit(#[trigger] s.subrange(p, p + 3)[i]) by {
            assert(s.subrange(p, p + 3)[i] == s[p + i]);
        }
        lemma_digits_val_nonneg(s.subrange(p, p + 3));
    }
}

} // verus!
