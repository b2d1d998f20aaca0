//! Validity dates of stored ACL values.
//!
//! A stored value may begin with `"T" YYMMDD ","`.  The six digits name
//! a calendar day; two-digit years from 00 to 68 fall in the two
//! thousands, the rest in the nineteen hundreds.  A date is carried
//! around as a single integer key `year * 10000 + month * 100 + day`,
//! which orders chronologically.

use vstd::prelude::*;
use crate::util::{spec_all_digits, spec_digit_char, spec_digit_val, spec_is_digit};

verus! {

/// True of leap years in the Gregorian calendar.
pub open spec fn spec_is_leap(y: int) -> bool {
    y % 4 == 0 && (y % 100 != 0 || y % 400 == 0)
}

/// Number of days of a month.
pub open spec fn spec_days_in_month(y: int, m: int) -> int {
    if m == 2 {
        if spec_is_leap(y) {
            29
        } else {
            28
        }
    } else if m == 4 || m == 6 || m == 9 || m == 11 {
        30
    } else {
        31
    }
}

/// The integer key of a calendar day; later days have larger keys.
pub open spec fn spec_date_key(y: int, m: int, d: int) -> int {
    y * 10000 + m * 100 + d
}

/// The full year named by a two-digit year.
pub open spec fn spec_full_year(yy: int) -> int {
    if yy <= 68 {
        2000 + yy
    } else {
        1900 + yy
    }
}

/// The day key named by six digits `YYMMDD`, if they name a real
/// calendar day.
pub open spec fn spec_parse_date(s: Seq<char>) -> Option<int> {
    if s.len() == 6 && spec_all_digits(s) {
        let y = spec_full_year(spec_digit_val(s[0]) * 10 + spec_digit_val(s[1]));
        let m = spec_digit_val(s[2]) * 10 + spec_digit_val(s[3]);
        let d = spec_digit_val(s[4]) * 10 + spec_digit_val(s[5]);
        if 1 <= m && m <= 12 && 1 <= d && d <= spec_days_in_month(y, m) {
            Some(spec_date_key(y, m, d))
        } else {
            None
        }
    } else {
        None
    }
}

/// Parses six digits `YYMMDD` into a day key.
pub fn parse_date(s: &str) -> (r: Option<i64>)
    ensures
        match r {
            Some(k) => spec_parse_date(s@) == Some(k as int),
            None => spec_parse_date(s@) is None,
        },
{
    let n = s.unicode_len();
    if n != 6 {
        return None;
    }
    let mut vals: Vec<i64> = Vec::new();
    let mut i: usize = 0;
    while i < 6
        invariant
            0 <= i <= 6,
            s@.len() == 6,
            vals@.len() == i,
            spec_all_digits(s@.take(i as int)),
            forall|j: int| 0 <= j < i ==> vals@[j] == spec_digit_val(s@[j]),
        decreases 6 - i,
    {
        let c = s.get_char(i);
        let u: u32 = c as u32;
        if !(48 <= u && u <= 57) {
            proof {
                assert(!spec_is_digit(s@[i as int]));
            }
            return None;
        }
        vals.push((u - 48) as i64);
        proof {
            assert(forall|j: int| 0 <= j < i + 1 ==> s@.take(i + 1)[j] == s@[j]);
        }
        i = i + 1;
    }
    proof {
        assert(s@.take(6) =~= s@);
    }
    let yy: i64 = vals[0] * 10 + vals[1];
    let y: i64 = if yy <= 68 {
        2000 + yy
    } else {
        1900 + yy
    };
    let m: i64 = vals[2] * 10 + vals[3];
    let d: i64 = vals[4] * 10 + vals[5];
    let dim: i64 = days_in_month(y, m);
    if 1 <= m && m <= 12 && 1 <= d && d <= dim {
        Some(y * 10000 + m * 100 + d)
    } else {
        None
    }
}

/// Number of days of a month, in executable code.
fn days_in_month(y: i64, m: i64) -> (r: i64)
    requires
        1900 <= y <= 2068,
    ensures
        r == spec_days_in_month(y as int, m as int),
{
    if m == 2 {
        if y % 4 == 0 && (y % 100 != 0 || y % 400 == 0) {
            29
        } else {
            28
        }
    } else if m == 4 || m == 6 || m == 9 || m == 11 {
        30
    } else {
        31
    }
}

/// Splitting a stored value into its optional date and the rest: a
/// leading `"T" YYMMDD ","` with a real calendar day is taken off; any
/// other shape leaves the value whole and dateless.
pub open spec fn spec_extract_date(s: Seq<char>) -> (Option<int>, Seq<char>) {
    if s.len() > 0 && s[0] == 'T' {
        let tail = s.drop_first();
        match crate::util::spec_find_char(tail, ',') {
            Some(i) => match spec_parse_date(tail.take(i)) {
                Some(k) => (Some(k), tail.skip(i + 1)),
                None => (None, s),
            },
            None => (None, s),
        }
    } else {
        (None, s)
    }
}

/// Takes the optional validity date off the front of a stored value.
pub fn extract_date(s: &str) -> (r: (Option<i64>, String))
    ensures
        ({
            let (sd, srest) = spec_extract_date(s@);
            match (r.0, sd) {
                (Some(k), Some(sk)) => k == sk && r.1@ == srest,
                (None, None) => r.1@ == srest,
                _ => false,
            }
        }),
{
    let n = s.unicode_len();
    if n == 0 || s.get_char(0) != 'T' {
        return (None, s.to_owned());
    }
    let ghost tail: Seq<char> = s@.drop_first();
    let mut i: usize = 1;
    while i < n
        invariant
            1 <= i <= n,
            n == s@.len(),
            s@.len() > 0 && s@[0] == 'T',
            tail == s@.drop_first(),
            forall|j: int| 0 <= j < i - 1 ==> tail[j] != ',',
        decreases n - i,
    {
        if s.get_char(i) == ',' {
            proof {
                assert(tail[i - 1] == s@[i as int]);
                crate::util::lemma_find_char(tail, ',');
                match crate::util::spec_find_char(tail, ',') {
                    Some(k) => {
                        if k < i - 1 {
                            assert(tail[k] != ',');
                            assert(false);
                        }
                        if k > i - 1 {
                            assert(tail[i - 1] != ',');
                            assert(false);
                        }
                    },
                    None => {
                        assert(tail[i - 1] != ',');
                        assert(false);
                    },
                }
            }
            let date_str = s.substring_char(1, i);
            proof {
                assert(date_str@ =~= tail.take(i - 1));
            }
            match parse_date(date_str) {
                Some(k) => {
                    let rest = s.substring_char(i + 1, n).to_owned();
                    proof {
                        assert(rest@ =~= tail.skip(i - 1 + 1));
                    }
                    return (Some(k), rest);
                },
                None => {
                    return (None, s.to_owned());
                },
            }
        }
        i = i + 1;
    }
    proof {
        assert(forall|j: int| 0 <= j < tail.len() ==> tail[j] != ',');
        crate::util::lemma_find_char(tail, ',');
        match crate::util::spec_find_char(tail, ',') {
            Some(k) => {
                assert(tail[k] != ',');
                assert(false);
            },
            None => {},
        }
    }
    (None, s.to_owned())
}

/// Two-digit zero-padded rendering of a value below one hundred.
pub open spec fn spec_two_digits(v: int) -> Seq<char> {
    seq![spec_digit_char(v / 10), spec_digit_char(v % 10)]
}

/// The text of a date prefix `"T" YYMMDD ","` for a day key.
pub open spec fn spec_date_prefix(key: int) -> Seq<char> {
    seq!['T'] + spec_two_digits((key / 10000) % 100) + spec_two_digits((key / 100) % 100)
        + spec_two_digits(key % 100) + seq![',']
}

/// Renders the date prefix of an encoded record.
pub fn format_date_prefix(key: i64) -> (r: String)
    requires
        0 <= key < 100000000,
    ensures
        r@ == spec_date_prefix(key as int),
{
    let mut out = String::new();
    crate::util::push_char(&mut out, 'T');
    let yy: i64 = (key / 10000) % 100;
    let mm: i64 = (key / 100) % 100;
    let dd: i64 = key % 100;
    push_two_digits(&mut out, yy);
    push_two_digits(&mut out, mm);
    push_two_digits(&mut out, dd);
    crate::util::push_char(&mut out, ',');
    proof {
        assert(out@ =~= spec_date_prefix(key as int));
    }
    out
}

/// Appends a value below one hundred as two digits.
fn push_two_digits(out: &mut String, v: i64)
    requires
        0 <= v < 100,
    ensures
        final(out)@ == old(out)@ + spec_two_digits(v as int),
{
    let hi = digit_of(v / 10);
    let lo = digit_of(v % 10);
    crate::util::push_char(out, hi);
    crate::util::push_char(out, lo);
    proof {
        assert(out@ =~= old(out)@ + spec_two_digits(v as int));
    }
}

/// The digit character of a value below ten.
fn digit_of(v: i64) -> (c: char)
    requires
        0 <= v < 10,
    ensures
        c == spec_digit_char(v as int),
{
    match v {
        0 => '0',
        1 => '1',
        2 => '2',
        3 => '3',
        4 => '4',
        5 => '5',
        6 => '6',
        7 => '7',
        8 => '8',
        _ => '9',
    }
}

/// True when a record stamped with `date` must be treated as absent at
/// day `today`.
pub open spec fn spec_expired(date: Option<int>, today: int) -> bool {
    match date {
        Some(d) => today > d,
        None => false,
    }
}

} // verus!
