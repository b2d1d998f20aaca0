//! Small verified helpers over strings and numbers: decimal and
//! hexadecimal rendering, integer parsing, splitting and joining.

use vstd::prelude::*;

verus! {

/// Relies on `String::push`: appends one character at the end.
#[verifier::external_body]
pub fn push_char(s: &mut String, c: char)
    ensures
        final(s)@ == old(s)@.push(c),
{
    s.push(c)
}

/// Relies on `str`'s `==`: true exactly when the two strings hold the
/// same characters.
#[verifier::external_body]
pub fn str_eq(a: &str, b: &str) -> (r: bool)
    ensures
        r == (a@ == b@),
{
    a == b
}

/// True of the ten ASCII decimal digit characters.
pub open spec fn spec_is_digit(c: char) -> bool {
    48 <= c as int && c as int <= 57
}

/// Numeric value of a decimal digit character.
pub open spec fn spec_digit_val(c: char) -> int {
    c as int - 48
}

/// The digit character of a value below ten.
pub open spec fn spec_digit_char(v: int) -> char {
    if v == 0 {
        '0'
    } else if v == 1 {
        '1'
    } else if v == 2 {
        '2'
    } else if v == 3 {
        '3'
    } else if v == 4 {
        '4'
    } else if v == 5 {
        '5'
    } else if v == 6 {
        '6'
    } else if v == 7 {
        '7'
    } else if v == 8 {
        '8'
    } else {
        '9'
    }
}

/// Value of a digit string read left to right.
pub open spec fn spec_digits_value(s: Seq<char>) -> int
    decreases s.len(),
{
    if s.len() == 0 {
        0
    } else {
        spec_digits_value(s.drop_last()) * 10 + spec_digit_val(s.last())
    }
}

/// True when every character of `s` is a decimal digit.
pub open spec fn spec_all_digits(s: Seq<char>) -> bool {
    forall|i: int| 0 <= i < s.len() ==> spec_is_digit(#[trigger] s[i])
}

/// What `str::parse::<u16>` returns: an optional leading `+`, then at
/// least one digit, and a value that fits in sixteen bits.
pub open spec fn spec_parse_u16(s: Seq<char>) -> Option<u16> {
    let digits = if s.len() > 0 && s[0] == '+' {
        s.drop_first()
    } else {
        s
    };
    if digits.len() == 0 || !spec_all_digits(digits) {
        None
    } else if spec_digits_value(digits) > 65535 {
        None
    } else {
        Some(spec_digits_value(digits) as u16)
    }
}

/// A longer digit string never has a smaller value.
proof fn lemma_digits_value_mono(s: Seq<char>, n: int)
    requires
        spec_all_digits(s),
        0 <= n <= s.len(),
    ensures
        spec_digits_value(s.take(n)) <= spec_digits_value(s),
        spec_digits_value(s) >= 0,
    decreases s.len(),
{
    if s.len() == 0 {
        assert(s.take(n) =~= s);
    } else {
        let d = s.drop_last();
        assert(spec_all_digits(d)) by {
            assert(forall|j: int| 0 <= j < d.len() ==> d[j] == s[j]);
        }
        let m = if n <= s.len() - 1 {
            n
        } else {
            (s.len() - 1) as int
        };
        lemma_digits_value_mono(d, m);
        if n <= s.len() - 1 {
            assert(s.take(n) =~= d.take(n));
            assert(spec_digit_val(s.last()) >= 0);
        } else {
            assert(s.take(n) =~= s);
        }
    }
}

/// Parses a decimal integer as `str::parse::<u16>` does.
pub fn parse_u16(s: &str) -> (r: Option<u16>)
    ensures
        r == spec_parse_u16(s@),
{
    let n = s.unicode_len();
    let start: usize = if n > 0 && s.get_char(0) == '+' {
        1
    } else {
        0
    };
    let ghost digits: Seq<char> = if s@.len() > 0 && s@[0] == '+' {
        s@.drop_first()
    } else {
        s@
    };
    proof {
        assert(digits =~= s@.subrange(start as int, n as int));
    }
    if n == start {
        return None;
    }
    let mut acc: u32 = 0;
    let mut i: usize = start;
    while i < n
        invariant
            start <= i <= n,
            n == s@.len(),
            start == 1 ==> s@.len() > 0 && s@[0] == '+',
            digits == (if s@.len() > 0 && s@[0] == '+' {
                s@.drop_first()
            } else {
                s@
            }),
            digits =~= s@.subrange(start as int, n as int),
            spec_all_digits(digits.take(i - start)),
            acc == spec_digits_value(digits.take(i - start)),
            acc <= 65535,
        decreases n - i,
    {
        let c = s.get_char(i);
        proof {
            assert(digits[i - start] == s@[i as int]);
        }
        let u: u32 = c as u32;
        if !(48 <= u && u <= 57) {
            proof {
                assert(!spec_is_digit(digits[i - start]));
                assert(!spec_all_digits(digits));
            }
            return None;
        }
        let d: u32 = u - 48;
        proof {
            assert(digits.take(i - start + 1).drop_last() =~= digits.take(i - start));
            assert(digits.take(i - start + 1).last() == c);
            assert(spec_all_digits(digits.take(i - start + 1))) by {
                assert(forall|j: int|
                    0 <= j < i - start + 1 ==> digits.take(i - start + 1)[j] == digits[j]);
            }
        }
        acc = acc * 10 + d;
        i = i + 1;
        if acc > 65535 {
            proof {
                if spec_all_digits(digits) {
                    lemma_digits_value_mono(digits, i - start);
                    assert(digits.take(digits.len() as int) =~= digits);
                    assert(spec_digits_value(digits) >= acc > 65535);
                }
            }
            return None;
        }
    }
    proof {
        assert(digits.take(n - start) =~= digits);
    }
    Some(acc as u16)
}

/// Decimal rendering of a non-negative value, most significant digit
/// first, as `u64`'s `Display` writes it.
pub open spec fn spec_decimal(n: int) -> Seq<char>
    decreases n,
{
    if n < 10 {
        seq![spec_digit_char(n)]
    } else {
        spec_decimal(n / 10).push(spec_digit_char(n % 10))
    }
}

/// The digit character of a value below ten, in executable code.
fn digit_char(v: u64) -> (c: char)
    requires
        v < 10,
    ensures
        c == spec_digit_char(v as int),
{
    match v {
        0 => '0',
        1 => '1',
        2 => '2',
        3 => '3',
        4 => '4',
        5 => '5',
        6 => '6',
        7 => '7',
        8 => '8',
        _ => '9',
    }
}

/// Renders a value in decimal.
pub fn u64_to_string(n: u64) -> (r: String)
    ensures
        r@ == spec_decimal(n as int),
{
    let mut rev: Vec<char> = Vec::new();
    let mut m: u64 = n;
    loop
        invariant_except_break
            spec_decimal(n as int) =~= spec_decimal(m as int) + rev@.reverse(),
        ensures
            spec_decimal(n as int) =~= rev@.reverse(),
        decreases m,
    {
        let d = digit_char(m % 10);
        if m < 10 {
            proof {
                assert(spec_decimal(m as int) =~= seq![spec_digit_char(m as int)]);
                assert((seq![spec_digit_char(m as int)] + rev@.reverse()) =~= rev@.push(
                    spec_digit_char(m as int),
                ).reverse());
            }
            rev.push(d);
            break;
        } else {
            proof {
                assert(spec_decimal(m as int) =~= spec_decimal(m as int / 10).push(
                    spec_digit_char(m as int % 10),
                ));
                assert((spec_decimal(m as int / 10).push(spec_digit_char(m as int % 10))
                    + rev@.reverse()) =~= spec_decimal(m as int / 10) + rev@.push(
                    spec_digit_char(m as int % 10),
                ).reverse());
            }
            rev.push(d);
            m = m / 10;
        }
    }
    let mut out = String::new();
    let mut i: usize = rev.len();
    while i > 0
        invariant
            i <= rev@.len(),
            out@ =~= rev@.subrange(i as int, rev@.len() as int).reverse(),
        decreases i,
    {
        i = i - 1;
        let c = rev[i];
        push_char(&mut out, c);
        proof {
            assert(rev@.subrange(i as int, rev@.len() as int).reverse() =~= rev@.subrange(
                i + 1,
                rev@.len() as int,
            ).reverse().push(rev@[i as int]));
        }
    }
    proof {
        assert(rev@.subrange(0, rev@.len() as int) =~= rev@);
    }
    out
}

/// The uppercase hexadecimal digit of a value below sixteen.
pub open spec fn spec_hex_char(v: int) -> char {
    if v < 10 {
        spec_digit_char(v)
    } else if v == 10 {
        'A'
    } else if v == 11 {
        'B'
    } else if v == 12 {
        'C'
    } else if v == 13 {
        'D'
    } else if v == 14 {
        'E'
    } else {
        'F'
    }
}

/// Uppercase hexadecimal rendering without leading zeros, as `{:X}`
/// formatting writes it.
pub open spec fn spec_hex(n: int) -> Seq<char>
    decreases n,
{
    if n < 16 {
        seq![spec_hex_char(n)]
    } else {
        spec_hex(n / 16).push(spec_hex_char(n % 16))
    }
}

/// The uppercase hexadecimal digit of a value below sixteen, in
/// executable code.
fn hex_char(v: u64) -> (c: char)
    requires
        v < 16,
    ensures
        c == spec_hex_char(v as int),
{
    match v {
        0 => '0',
        1 => '1',
        2 => '2',
        3 => '3',
        4 => '4',
        5 => '5',
        6 => '6',
        7 => '7',
        8 => '8',
        9 => '9',
        10 => 'A',
        11 => 'B',
        12 => 'C',
        13 => 'D',
        14 => 'E',
        _ => 'F',
    }
}

/// Renders a value in uppercase hexadecimal.
pub fn u64_to_hex_string(n: u64) -> (r: String)
    ensures
        r@ == spec_hex(n as int),
{
    let mut rev: Vec<char> = Vec::new();
    let mut m: u64 = n;
    loop
        invariant_except_break
            spec_hex(n as int) =~= spec_hex(m as int) + rev@.reverse(),
        ensures
            spec_hex(n as int) =~= rev@.reverse(),
        decreases m,
    {
        let d = hex_char(m % 16);
        if m < 16 {
            proof {
                assert(spec_hex(m as int) =~= seq![spec_hex_char(m as int)]);
                assert((seq![spec_hex_char(m as int)] + rev@.reverse()) =~= rev@.push(
                    spec_hex_char(m as int),
                ).reverse());
            }
            rev.push(d);
            break;
        } else {
            proof {
                assert(spec_hex(m as int) =~= spec_hex(m as int / 16).push(
                    spec_hex_char(m as int % 16),
                ));
                assert((spec_hex(m as int / 16).push(spec_hex_char(m as int % 16))
                    + rev@.reverse()) =~= spec_hex(m as int / 16) + rev@.push(
                    spec_hex_char(m as int % 16),
                ).reverse());
            }
            rev.push(d);
            m = m / 16;
        }
    }
    let mut out = String::new();
    let mut i: usize = rev.len();
    while i > 0
        invariant
            i <= rev@.len(),
            out@ =~= rev@.subrange(i as int, rev@.len() as int).reverse(),
        decreases i,
    {
        i = i - 1;
        let c = rev[i];
        push_char(&mut out, c);
        proof {
            assert(rev@.subrange(i as int, rev@.len() as int).reverse() =~= rev@.subrange(
                i + 1,
                rev@.len() as int,
            ).reverse().push(rev@[i as int]));
        }
    }
    proof {
        assert(rev@.subrange(0, rev@.len() as int) =~= rev@);
    }
    out
}

/// First position of `sep` in `s`, if any.
pub open spec fn spec_find_char(s: Seq<char>, sep: char) -> Option<int>
    decreases s.len(),
{
    if s.len() == 0 {
        None
    } else if s[0] == sep {
        Some(0int)
    } else {
        match spec_find_char(s.drop_first(), sep) {
            Some(i) => Some(i + 1),
            None => None,
        }
    }
}

/// The position `spec_find_char` returns indexes an occurrence of
/// `sep`, and nothing before it is one.
pub proof fn lemma_find_char(s: Seq<char>, sep: char)
    ensures
        match spec_find_char(s, sep) {
            Some(i) => 0 <= i < s.len() && s[i] == sep && forall|j: int|
                0 <= j < i ==> s[j] != sep,
            None => forall|j: int| 0 <= j < s.len() ==> s[j] != sep,
        },
    decreases s.len(),
{
    if s.len() == 0 {
    } else if s[0] == sep {
    } else {
        let t = s.drop_first();
        lemma_find_char(t, sep);
        assert(forall|j: int| 0 <= j < t.len() ==> t[j] == s[j + 1]);
        match spec_find_char(t, sep) {
            Some(i) => {
                assert(s[i + 1] == t[i]);
                assert(forall|j: int| 1 <= j < i + 1 ==> s[j] == t[j - 1]);
            },
            None => {
                assert(forall|j: int| 1 <= j < s.len() ==> s[j] == t[j - 1]);
            },
        }
    }
}

/// Splitting on `sep`: the pieces between occurrences, in order; a
/// string without the separator is one piece.
pub open spec fn spec_split(s: Seq<char>, sep: char) -> Seq<Seq<char>>
    decreases s.len(),
    via spec_split_decreases
{
    match spec_find_char(s, sep) {
        Some(i) => seq![s.take(i)] + spec_split(s.skip(i + 1), sep),
        None => seq![s],
    }
}

#[via_fn]
proof fn spec_split_decreases(s: Seq<char>, sep: char) {
    lemma_find_char(s, sep);
}

/// The views of a sequence of strings.
pub open spec fn strs_view(v: Seq<String>) -> Seq<Seq<char>> {
    v.map_values(|x: String| x@)
}

/// Splits a string at every occurrence of `sep`.
pub fn split_char(s: &str, sep: char) -> (r: Vec<String>)
    ensures
        r.deep_view() == spec_split(s@, sep),
{
    let n = s.unicode_len();
    let mut out: Vec<String> = Vec::new();
    let mut start: usize = 0;
    let mut i: usize = 0;
    proof {
        assert(s@.skip(0) =~= s@);
        assert(strs_view(out@) =~= Seq::<Seq<char>>::empty());
        assert(spec_split(s@, sep) =~~= strs_view(out@) + spec_split(s@.skip(0), sep));
    }
    while i < n
        invariant
            0 <= start <= i <= n,
            n == s@.len(),
            forall|j: int| start <= j < i ==> s@[j] != sep,
            spec_split(s@, sep) =~~= strs_view(out@) + spec_split(s@.skip(start as int), sep),
        decreases n - i,
    {
        let c = s.get_char(i);
        if c == sep {
            let piece = s.substring_char(start, i).to_owned();
            proof {
                let tail = s@.skip(start as int);
                assert(forall|j: int| 0 <= j < tail.len() ==> tail[j] == s@[j + start]);
                assert(tail[i - start] == sep);
                assert(forall|j: int| 0 <= j < i - start ==> tail[j] != sep);
                lemma_find_char(tail, sep);
                match spec_find_char(tail, sep) {
                    Some(k) => {
                        if k < i - start {
                            assert(tail[k] != sep);
                            assert(false);
                        }
                        if k > i - start {
                            assert(tail[i - start] != sep);
                            assert(false);
                        }
                    },
                    None => {
                        assert(tail[i - start] != sep);
                        assert(false);
                    },
                }
                assert(spec_find_char(tail, sep) == Some((i - start) as int));
                assert(tail.take((i - start) as int) =~= s@.subrange(start as int, i as int));
                assert(tail.skip(i - start + 1) =~= s@.skip(i + 1));
                assert(spec_split(tail, sep) =~~= seq![s@.subrange(start as int, i as int)]
                    + spec_split(s@.skip(i + 1), sep));
                assert((strs_view(out@) + spec_split(tail, sep)) =~~= strs_view(out@).push(
                    piece@,
                ) + spec_split(s@.skip(i + 1), sep));
                assert(strs_view(out@).push(piece@) =~~= strs_view(out@.push(piece)));
            }
            out.push(piece);
            start = i + 1;
        }
        i = i + 1;
    }
    let last = s.substring_char(start, n).to_owned();
    proof {
        let tail = s@.skip(start as int);
        assert(forall|j: int| 0 <= j < tail.len() ==> tail[j] == s@[j + start]);
        assert(forall|j: int| 0 <= j < tail.len() ==> tail[j] != sep);
        lemma_find_char(tail, sep);
        match spec_find_char(tail, sep) {
            Some(k) => {
                assert(tail[k] != sep);
                assert(false);
            },
            None => {},
        }
        assert(spec_split(tail, sep) =~~= seq![tail]);
        assert(tail =~= s@.subrange(start as int, n as int));
        assert((strs_view(out@) + seq![last@]) =~~= strs_view(out@.push(last)));
    }
    out.push(last);
    proof {
        assert(out.deep_view() =~~= strs_view(out@));
    }
    out
}

/// Joining with `sep`: the pieces in order with one separator between
/// neighbours; no pieces joins to the empty string.
pub open spec fn spec_join(parts: Seq<Seq<char>>, sep: char) -> Seq<char>
    decreases parts.len(),
{
    if parts.len() == 0 {
        Seq::empty()
    } else if parts.len() == 1 {
        parts[0]
    } else {
        spec_join(parts.drop_last(), sep).push(sep) + parts.last()
    }
}

/// Joins strings with `sep` between neighbours.
pub fn join_strings(parts: &Vec<String>, sep: char) -> (r: String)
    ensures
        r@ == spec_join(parts.deep_view(), sep),
{
    let mut out = String::new();
    let mut i: usize = 0;
    while i < parts.len()
        invariant
            0 <= i <= parts@.len(),
            out@ =~= spec_join(parts.deep_view().take(i as int), sep),
        decreases parts@.len() - i,
    {
        if i > 0 {
            push_char(&mut out, sep);
        }
        out.append(parts[i].as_str());
        proof {
            let pv = parts.deep_view();
            assert(pv.take(i + 1).drop_last() =~= pv.take(i as int));
            assert(pv.take(i + 1).last() == pv[i as int]);
            if i == 0 {
                assert(spec_join(pv.take(1), sep) =~= pv[0]);
            }
        }
        i = i + 1;
    }
    proof {
        assert(parts.deep_view().take(parts.deep_view().len() as int) =~= parts.deep_view());
    }
    out
}

} // verus!
