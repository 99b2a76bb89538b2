//! The compact date and date-time codec of the calendar format: 8 digit
//! characters for a calendar date, and date `T` time `Z` for a date-time,
//! converted to and from the dashed ISO-like strings the records carry.

use vstd::prelude::*;

verus! {

pub open spec fn is_digit_char(c: char) -> bool {
    '0' <= c && c <= '9'
}

pub fn is_digit(c: char) -> (r: bool)
    ensures
        r == is_digit_char(c),
{
    '0' <= c && c <= '9'
}

pub open spec fn digit_val(c: char) -> int {
    if c == '0' {
        0
    } else if c == '1' {
        1
    } else if c == '2' {
        2
    } else if c == '3' {
        3
    } else if c == '4' {
        4
    } else if c == '5' {
        5
    } else if c == '6' {
        6
    } else if c == '7' {
        7
    } else if c == '8' {
        8
    } else if c == '9' {
        9
    } else {
        -1
    }
}

pub open spec fn digit_char(d: int) -> char {
    if d == 0 {
        '0'
    } else if d == 1 {
        '1'
    } else if d == 2 {
        '2'
    } else if d == 3 {
        '3'
    } else if d == 4 {
        '4'
    } else if d == 5 {
        '5'
    } else if d == 6 {
        '6'
    } else if d == 7 {
        '7'
    } else if d == 8 {
        '8'
    } else {
        '9'
    }
}

/// All of `s[i..j]` are digit characters.
pub open spec fn digits_at(s: Seq<char>, i: int, j: int) -> bool {
    forall|k: int| i <= k < j ==> is_digit_char(#[trigger] s[k])
}

/// The two-digit number at `s[i..i+2]`.
pub open spec fn num2(s: Seq<char>, i: int) -> int {
    10 * digit_val(s[i]) + digit_val(s[i + 1])
}

/// The four-digit number at `s[i..i+4]`.
pub open spec fn num4(s: Seq<char>, i: int) -> int {
    1000 * digit_val(s[i]) + 100 * digit_val(s[i + 1]) + 10 * digit_val(s[i + 2]) + digit_val(
        s[i + 3],
    )
}

/// `n` as two zero-padded digit characters.
pub open spec fn fmt2(n: int) -> Seq<char> {
    seq![digit_char((n / 10) % 10), digit_char(n % 10)]
}

/// `n` as four zero-padded digit characters.
pub open spec fn fmt4(n: int) -> Seq<char> {
    seq![
        digit_char((n / 1000) % 10),
        digit_char((n / 100) % 10),
        digit_char((n / 10) % 10),
        digit_char(n % 10),
    ]
}

pub open spec fn is_leap_year(y: int) -> bool {
    y % 4 == 0 && (y % 100 != 0 || y % 400 == 0)
}

pub open spec fn days_in_month(y: int, m: int) -> int {
    if m == 2 {
        if is_leap_year(y) {
            29
        } else {
            28
        }
    } else if m == 4 || m == 6 || m == 9 || m == 11 {
        30
    } else if 1 <= m <= 12 {
        31
    } else {
        0
    }
}

/// A calendar date the codec accepts: a four-digit year and a real day of
/// the proleptic Gregorian calendar.
pub open spec fn valid_date(y: int, m: int, d: int) -> bool {
    0 <= y <= 9999 && 1 <= m <= 12 && 1 <= d <= days_in_month(y, m)
}

pub open spec fn valid_time(h: int, mi: int, s: int) -> bool {
    0 <= h < 24 && 0 <= mi < 60 && 0 <= s < 60
}

// ------------------------------------------------------------------
// Shapes of encoded values
// ------------------------------------------------------------------
/// `YYYY-MM-DD`.
pub open spec fn iso_date(y: int, m: int, d: int) -> Seq<char> {
    fmt4(y) + seq!['-'] + fmt2(m) + seq!['-'] + fmt2(d)
}

/// `YYYY-MM-DDTHH:MM:SS`.
pub open spec fn iso_datetime(y: int, m: int, d: int, h: int, mi: int, s: int) -> Seq<char> {
    iso_date(y, m, d) + seq!['T'] + fmt2(h) + seq![':'] + fmt2(mi) + seq![':'] + fmt2(s)
}

/// `YYYYMMDD`.
pub open spec fn compact_date(y: int, m: int, d: int) -> Seq<char> {
    fmt4(y) + fmt2(m) + fmt2(d)
}

/// `YYYYMMDDTHHMMSSZ`.
pub open spec fn compact_datetime(y: int, m: int, d: int, h: int, mi: int, s: int) -> Seq<char> {
    compact_date(y, m, d) + seq!['T'] + fmt2(h) + fmt2(mi) + fmt2(s) + seq!['Z']
}

// ------------------------------------------------------------------
// Decoding specs
// ------------------------------------------------------------------
/// A compact date read from the first 8 characters of `v`, as the `DUE`
/// rule reads it: present iff there are 8 leading digits forming a valid
/// calendar date.
pub open spec fn compact_date_result(v: Seq<char>) -> Option<(int, int, int)> {
    if v.len() >= 8 && digits_at(v, 0, 8) && valid_date(num4(v, 0), num2(v, 4), num2(v, 6)) {
        Some((num4(v, 0), num2(v, 4), num2(v, 6)))
    } else {
        None
    }
}

/// The `DUE` value decoded to an ISO date string, or nothing.
pub open spec fn due_value_spec(v: Seq<char>) -> Option<Seq<char>> {
    match compact_date_result(v) {
        Some((y, m, d)) => Some(iso_date(y, m, d)),
        None => None,
    }
}

/// The `CREATED`/`DTSTAMP` value decoded, per the two accepted shapes:
/// a date-time of length at least 15 containing a `T`, with the date in the
/// first 8 characters and the time in characters 9 to 14; or a date-only
/// value of exactly 8 characters.  Anything else is dropped.
pub open spec fn created_value_spec(v: Seq<char>) -> Option<Seq<char>> {
    if v.len() >= 15 && crate::chars::first_idx(v, 'T') < v.len() {
        if digits_at(v, 0, 8) && digits_at(v, 9, 15) && valid_date(num4(v, 0), num2(v, 4), num2(v, 6))
            && valid_time(num2(v, 9), num2(v, 11), num2(v, 13)) {
            Some(
                iso_datetime(
                    num4(v, 0),
                    num2(v, 4),
                    num2(v, 6),
                    num2(v, 9),
                    num2(v, 11),
                    num2(v, 13),
                ),
            )
        } else {
            None
        }
    } else if v.len() == 8 {
        due_value_spec(v)
    } else {
        None
    }
}

// ------------------------------------------------------------------
// Encoding specs (serializer side)
// ------------------------------------------------------------------
/// An ISO date string decoded exactly: ten characters `YYYY-MM-DD` naming
/// a valid calendar date.
pub open spec fn parse_iso_date_spec(s: Seq<char>) -> Option<(int, int, int)> {
    if s.len() == 10 && digits_at(s, 0, 4) && s[4] == '-' && digits_at(s, 5, 7) && s[7] == '-'
        && digits_at(s, 8, 10) && valid_date(num4(s, 0), num2(s, 5), num2(s, 8)) {
        Some((num4(s, 0), num2(s, 5), num2(s, 8)))
    } else {
        None
    }
}

/// An ISO date-time string decoded exactly: `YYYY-MM-DDTHH:MM:SS`.
pub open spec fn parse_iso_datetime_spec(s: Seq<char>) -> Option<(int, int, int, int, int, int)> {
    if s.len() == 19 && digits_at(s, 0, 4) && s[4] == '-' && digits_at(s, 5, 7) && s[7] == '-'
        && digits_at(s, 8, 10) && s[10] == 'T' && digits_at(s, 11, 13) && s[13] == ':'
        && digits_at(s, 14, 16) && s[16] == ':' && digits_at(s, 17, 19) && valid_date(
        num4(s, 0),
        num2(s, 5),
        num2(s, 8),
    ) && valid_time(num2(s, 11), num2(s, 14), num2(s, 17)) {
        Some((num4(s, 0), num2(s, 5), num2(s, 8), num2(s, 11), num2(s, 14), num2(s, 17)))
    } else {
        None
    }
}

/// What the serializer emits after `DUE:` for a stored due date, if anything.
pub open spec fn due_encode_spec(s: Seq<char>) -> Option<Seq<char>> {
    match parse_iso_date_spec(s) {
        Some((y, m, d)) => Some(compact_date(y, m, d)),
        None => None,
    }
}

/// What the serializer emits after `CREATED:` for a stored creation value:
/// a date-only value for an ISO date, a full date-time for an ISO date-time,
/// nothing for anything else.
pub open spec fn created_encode_spec(s: Seq<char>) -> Option<Seq<char>> {
    match parse_iso_date_spec(s) {
        Some(t) => Some(compact_date(t.0, t.1, t.2)),
        None => match parse_iso_datetime_spec(s) {
            Some(u) => Some(compact_datetime(u.0, u.1, u.2, u.3, u.4, u.5)),
            None => None,
        },
    }
}

// ------------------------------------------------------------------
// Digit lemmas
// ------------------------------------------------------------------
pub proof fn lemma_digit_inverse(c: char)
    requires
        is_digit_char(c),
    ensures
        0 <= digit_val(c) < 10,
        digit_char(digit_val(c)) == c,
{
}

pub proof fn lemma_char_inverse(d: int)
    requires
        0 <= d < 10,
    ensures
        is_digit_char(digit_char(d)),
        digit_val(digit_char(d)) == d,
{
}

/// Reading back the two digits of a formatted number gives the number.
pub proof fn lemma_num2_of_fmt2(n: int)
    requires
        0 <= n < 100,
    ensures
        fmt2(n).len() == 2,
        digits_at(fmt2(n), 0, 2),
        num2(fmt2(n), 0) == n,
{
    lemma_char_inverse((n / 10) % 10);
    lemma_char_inverse(n % 10);
    assert(digits_at(fmt2(n), 0, 2)) by {
        assert(is_digit_char(fmt2(n)[0]));
        assert(is_digit_char(fmt2(n)[1]));
    }
}

/// A number below 10000 is the weighted sum of its four decimal digits.
proof fn lemma_decompose4(n: int)
    requires
        0 <= n < 10000,
    ensures
        1000 * ((n / 1000) % 10) + 100 * ((n / 100) % 10) + 10 * ((n / 10) % 10) + n % 10 == n,
        0 <= (n / 1000) % 10 < 10,
        0 <= (n / 100) % 10 < 10,
        0 <= (n / 10) % 10 < 10,
        0 <= n % 10 < 10,
{
    vstd::arithmetic::div_mod::lemma_fundamental_div_mod(n, 10);
    vstd::arithmetic::div_mod::lemma_mod_bound(n, 10);
    let q1 = n / 10;
    vstd::arithmetic::div_mod::lemma_fundamental_div_mod(q1, 10);
    vstd::arithmetic::div_mod::lemma_mod_bound(q1, 10);
    vstd::arithmetic::div_mod::lemma_div_denominator(n, 10, 10);
    assert(q1 / 10 == n / 100);
    let q2 = n / 100;
    vstd::arithmetic::div_mod::lemma_fundamental_div_mod(q2, 10);
    vstd::arithmetic::div_mod::lemma_mod_bound(q2, 10);
    vstd::arithmetic::div_mod::lemma_div_denominator(n, 100, 10);
    assert(q2 / 10 == n / 1000);
    let q3 = n / 1000;
    assert(0 <= q3 < 10);
    vstd::arithmetic::div_mod::lemma_fundamental_div_mod_converse(q3, 10, 0, q3);
}

pub proof fn lemma_num4_of_fmt4(n: int)
    requires
        0 <= n < 10000,
    ensures
        fmt4(n).len() == 4,
        digits_at(fmt4(n), 0, 4),
        num4(fmt4(n), 0) == n,
{
    lemma_decompose4(n);
    lemma_char_inverse((n / 1000) % 10);
    lemma_char_inverse((n / 100) % 10);
    lemma_char_inverse((n / 10) % 10);
    lemma_char_inverse(n % 10);
    assert(digits_at(fmt4(n), 0, 4)) by {
        assert(is_digit_char(fmt4(n)[0]));
        assert(is_digit_char(fmt4(n)[1]));
        assert(is_digit_char(fmt4(n)[2]));
        assert(is_digit_char(fmt4(n)[3]));
    }
}

/// Formatting the number read from two digit characters gives them back.
pub proof fn lemma_fmt2_of_digits(s: Seq<char>, i: int)
    requires
        0 <= i,
        i + 2 <= s.len(),
        is_digit_char(s[i]),
        is_digit_char(s[i + 1]),
    ensures
        0 <= num2(s, i) < 100,
        fmt2(num2(s, i)) =~= s.subrange(i, i + 2),
{
    lemma_digit_inverse(s[i]);
    lemma_digit_inverse(s[i + 1]);
    let a = digit_val(s[i]);
    let b = digit_val(s[i + 1]);
    assert((10 * a + b) / 10 == a);
    assert((10 * a + b) % 10 == b);
}

pub proof fn lemma_fmt4_of_digits(s: Seq<char>, i: int)
    requires
        0 <= i,
        i + 4 <= s.len(),
        is_digit_char(s[i]),
        is_digit_char(s[i + 1]),
        is_digit_char(s[i + 2]),
        is_digit_char(s[i + 3]),
    ensures
        0 <= num4(s, i) < 10000,
        fmt4(num4(s, i)) =~= s.subrange(i, i + 4),
{
    lemma_digit_inverse(s[i]);
    lemma_digit_inverse(s[i + 1]);
    lemma_digit_inverse(s[i + 2]);
    lemma_digit_inverse(s[i + 3]);
    let a = digit_val(s[i]);
    let b = digit_val(s[i + 1]);
    let c = digit_val(s[i + 2]);
    let d = digit_val(s[i + 3]);
    let n = 1000 * a + 100 * b + 10 * c + d;
    vstd::arithmetic::div_mod::lemma_fundamental_div_mod_converse(n, 1000, a, 100 * b + 10 * c + d);
    vstd::arithmetic::div_mod::lemma_fundamental_div_mod_converse(a, 10, 0, a);
    assert((n / 1000) % 10 == a);
    vstd::arithmetic::div_mod::lemma_fundamental_div_mod_converse(n, 100, 10 * a + b, 10 * c + d);
    vstd::arithmetic::div_mod::lemma_fundamental_div_mod_converse(10 * a + b, 10, a, b);
    assert((n / 100) % 10 == b);
    vstd::arithmetic::div_mod::lemma_fundamental_div_mod_converse(n, 10, 100 * a + 10 * b + c, d);
    vstd::arithmetic::div_mod::lemma_fundamental_div_mod_converse(100 * a + 10 * b + c, 10, 10 * a + b, c);
    assert((n / 10) % 10 == c);
    assert(n % 10 == d);
}

/// An ISO date string that decodes is exactly the formatted form of what it
/// decodes to.
pub proof fn lemma_iso_date_round(s: Seq<char>)
    requires
        parse_iso_date_spec(s) is Some,
    ensures
        match parse_iso_date_spec(s) {
            Some(t) => iso_date(t.0, t.1, t.2) =~= s,
            None => true,
        },
{
    lemma_fmt4_of_digits(s, 0);
    lemma_fmt2_of_digits(s, 5);
    lemma_fmt2_of_digits(s, 8);
}

pub proof fn lemma_iso_datetime_round(s: Seq<char>)
    requires
        parse_iso_datetime_spec(s) is Some,
    ensures
        match parse_iso_datetime_spec(s) {
            Some(t) => iso_datetime(t.0, t.1, t.2, t.3, t.4, t.5) =~= s,
            None => true,
        },
{
    lemma_fmt4_of_digits(s, 0);
    lemma_fmt2_of_digits(s, 5);
    lemma_fmt2_of_digits(s, 8);
    lemma_fmt2_of_digits(s, 11);
    lemma_fmt2_of_digits(s, 14);
    lemma_fmt2_of_digits(s, 17);
}

/// Decoding an emitted compact date gives back the date that was encoded.
pub proof fn lemma_compact_date_round(y: int, m: int, d: int)
    requires
        valid_date(y, m, d),
    ensures
        compact_date(y, m, d).len() == 8,
        compact_date_result(compact_date(y, m, d)) == Some((y, m, d)),
{
    lemma_num4_of_fmt4(y);
    lemma_num2_of_fmt2(m);
    lemma_num2_of_fmt2(d);
    let s = compact_date(y, m, d);
    assert(s[0] == fmt4(y)[0]);
    assert(s[1] == fmt4(y)[1]);
    assert(s[2] == fmt4(y)[2]);
    assert(s[3] == fmt4(y)[3]);
    assert(s[4] == fmt2(m)[0]);
    assert(s[5] == fmt2(m)[1]);
    assert(s[6] == fmt2(d)[0]);
    assert(s[7] == fmt2(d)[1]);
    assert(digits_at(s, 0, 8)) by {
        assert forall|k: int| 0 <= k < 8 implies is_digit_char(#[trigger] s[k]) by {}
    }
    assert(num4(s, 0) == num4(fmt4(y), 0));
    assert(num2(s, 4) == num2(fmt2(m), 0));
    assert(num2(s, 6) == num2(fmt2(d), 0));
}

/// Decoding an emitted compact date-time gives back what was encoded.
pub proof fn lemma_compact_datetime_round(y: int, m: int, d: int, h: int, mi: int, s: int)
    requires
        valid_date(y, m, d),
        valid_time(h, mi, s),
    ensures
        compact_datetime(y, m, d, h, mi, s).len() == 16,
        ({
            let v = compact_datetime(y, m, d, h, mi, s);
            crate::chars::first_idx(v, 'T') < v.len() && digits_at(v, 0, 8) && digits_at(v, 9, 15)
                && num4(v, 0) == y && num2(v, 4) == m && num2(v, 6) == d && num2(v, 9) == h && num2(
                v,
                11,
            ) == mi && num2(v, 13) == s
        }),
{
    lemma_num4_of_fmt4(y);
    lemma_num2_of_fmt2(m);
    lemma_num2_of_fmt2(d);
    lemma_num2_of_fmt2(h);
    lemma_num2_of_fmt2(mi);
    lemma_num2_of_fmt2(s);
    let v = compact_datetime(y, m, d, h, mi, s);
    assert(v[0] == fmt4(y)[0]);
    assert(v[1] == fmt4(y)[1]);
    assert(v[2] == fmt4(y)[2]);
    assert(v[3] == fmt4(y)[3]);
    assert(v[4] == fmt2(m)[0]);
    assert(v[5] == fmt2(m)[1]);
    assert(v[6] == fmt2(d)[0]);
    assert(v[7] == fmt2(d)[1]);
    assert(v[8] == 'T');
    assert(v[9] == fmt2(h)[0]);
    assert(v[10] == fmt2(h)[1]);
    assert(v[11] == fmt2(mi)[0]);
    assert(v[12] == fmt2(mi)[1]);
    assert(v[13] == fmt2(s)[0]);
    assert(v[14] == fmt2(s)[1]);
    assert(v[15] == 'Z');
    assert(digits_at(v, 0, 8)) by {
        assert forall|k: int| 0 <= k < 8 implies is_digit_char(#[trigger] v[k]) by {}
    }
    assert(digits_at(v, 9, 15)) by {
        assert forall|k: int| 9 <= k < 15 implies is_digit_char(#[trigger] v[k]) by {}
    }
    crate::chars::lemma_first_idx(v, 'T');
    assert(crate::chars::first_idx(v, 'T') < v.len()) by {
        if crate::chars::first_idx(v, 'T') >= v.len() {
            assert(v[8] != 'T');
        }
    }
}

// ------------------------------------------------------------------
// Executable code
// ------------------------------------------------------------------
pub fn digit_value(c: char) -> (r: u32)
    requires
        is_digit_char(c),
    ensures
        r == digit_val(c),
        r < 10,
{
    match c {
        '0' => 0,
        '1' => 1,
        '2' => 2,
        '3' => 3,
        '4' => 4,
        '5' => 5,
        '6' => 6,
        '7' => 7,
        '8' => 8,
        _ => 9,
    }
}

pub fn digit_to_char(d: u32) -> (r: char)
    requires
        d < 10,
    ensures
        r == digit_char(d as int),
{
    match d {
        0 => '0',
        1 => '1',
        2 => '2',
        3 => '3',
        4 => '4',
        5 => '5',
        6 => '6',
        7 => '7',
        8 => '8',
        _ => '9',
    }
}

/// Whether `v[i..j]` is all digits.
pub fn all_digits(v: &Vec<char>, i: usize, j: usize) -> (r: bool)
    requires
        i <= j <= v.len(),
    ensures
        r == digits_at(v@, i as int, j as int),
{
    let mut k: usize = i;
    while k < j
        invariant
            i <= k <= j <= v.len(),
            forall|t: int| i <= t < k ==> is_digit_char(#[trigger] v@[t]),
        decreases j - k,
    {
        if !is_digit(v[k]) {
            return false;
        }
        k += 1;
    }
    true
}

pub fn read2(v: &Vec<char>, i: usize) -> (r: u32)
    requires
        i + 2 <= v.len(),
        digits_at(v@, i as int, i as int + 2),
    ensures
        r == num2(v@, i as int),
        r < 100,
{
    let a = digit_value(v[i]);
    let b = digit_value(v[i + 1]);
    10 * a + b
}

pub fn read4(v: &Vec<char>, i: usize) -> (r: u32)
    requires
        i + 4 <= v.len(),
        digits_at(v@, i as int, i as int + 4),
    ensures
        r == num4(v@, i as int),
        r < 10000,
{
    let a = digit_value(v[i]);
    let b = digit_value(v[i + 1]);
    let c = digit_value(v[i + 2]);
    let d = digit_value(v[i + 3]);
    1000 * a + 100 * b + 10 * c + d
}

pub fn push2(out: &mut Vec<char>, n: u32)
    ensures
        final(out)@ == old(out)@ + fmt2(n as int),
{
    out.push(digit_to_char((n / 10) % 10));
    out.push(digit_to_char(n % 10));
    proof {
        assert(((n / 10) % 10) as int == (n as int / 10) % 10);
        assert((n % 10) as int == n as int % 10);
        assert(out@ =~= old(out)@ + fmt2(n as int));
    }
}

pub fn push4(out: &mut Vec<char>, n: u32)
    ensures
        final(out)@ == old(out)@ + fmt4(n as int),
{
    out.push(digit_to_char((n / 1000) % 10));
    out.push(digit_to_char((n / 100) % 10));
    out.push(digit_to_char((n / 10) % 10));
    out.push(digit_to_char(n % 10));
    proof {
        assert(((n / 1000) % 10) as int == (n as int / 1000) % 10);
        assert(((n / 100) % 10) as int == (n as int / 100) % 10);
        assert(((n / 10) % 10) as int == (n as int / 10) % 10);
        assert((n % 10) as int == n as int % 10);
        assert(out@ =~= old(out)@ + fmt4(n as int));
    }
}

pub fn leap_year(y: u32) -> (r: bool)
    ensures
        r == is_leap_year(y as int),
{
    y % 4 == 0 && (y % 100 != 0 || y % 400 == 0)
}

pub fn month_days(y: u32, m: u32) -> (r: u32)
    ensures
        r == days_in_month(y as int, m as int),
{
    if m == 2 {
        if leap_year(y) {
            29
        } else {
            28
        }
    } else if m == 4 || m == 6 || m == 9 || m == 11 {
        30
    } else if 1 <= m && m <= 12 {
        31
    } else {
        0
    }
}

/// The compact date in the first 8 characters of `v`, if they hold one.
pub fn compact_date_at(v: &Vec<char>) -> (r: Option<(u32, u32, u32)>)
    ensures
        match r {
            Some(t) => compact_date_result(v@) == Some((t.0 as int, t.1 as int, t.2 as int)),
            None => compact_date_result(v@) is None,
        },
{
    if v.len() < 8 {
        return None;
    }
    if !all_digits(v, 0, 8) {
        return None;
    }
    let y = read4(v, 0);
    let m = read2(v, 4);
    let d = read2(v, 6);
    if 1 <= m && m <= 12 && 1 <= d && d <= month_days(y, m) {
        Some((y, m, d))
    } else {
        None
    }
}

/// Format a valid date as an ISO `YYYY-MM-DD` string.
pub fn iso_date_chars(y: u32, m: u32, d: u32) -> (out: Vec<char>)
    requires
        y < 10000,
        m < 100,
        d < 100,
    ensures
        out@ == iso_date(y as int, m as int, d as int),
{
    let mut out: Vec<char> = Vec::new();
    push4(&mut out, y);
    out.push('-');
    push2(&mut out, m);
    out.push('-');
    push2(&mut out, d);
    proof {
        assert(out@ =~= iso_date(y as int, m as int, d as int));
    }
    out
}

pub fn iso_datetime_chars(y: u32, m: u32, d: u32, h: u32, mi: u32, s: u32) -> (out: Vec<char>)
    requires
        y < 10000,
        m < 100,
        d < 100,
        h < 100,
        mi < 100,
        s < 100,
    ensures
        out@ == iso_datetime(y as int, m as int, d as int, h as int, mi as int, s as int),
{
    let mut out = iso_date_chars(y, m, d);
    out.push('T');
    push2(&mut out, h);
    out.push(':');
    push2(&mut out, mi);
    out.push(':');
    push2(&mut out, s);
    proof {
        assert(out@ =~= iso_datetime(y as int, m as int, d as int, h as int, mi as int, s as int));
    }
    out
}

/// Decode a `DUE` property value to its stored ISO date form.
pub fn due_value(v: &Vec<char>) -> (r: Option<Vec<char>>)
    ensures
        match r {
            Some(out) => due_value_spec(v@) == Some(out@),
            None => due_value_spec(v@) is None,
        },
{
    match compact_date_at(v) {
        Some((y, m, d)) => Some(iso_date_chars(y, m, d)),
        None => None,
    }
}

/// Decode a `CREATED` or `DTSTAMP` property value to its stored ISO form.
pub fn created_value(v: &Vec<char>) -> (r: Option<Vec<char>>)
    ensures
        match r {
            Some(out) => created_value_spec(v@) == Some(out@),
            None => created_value_spec(v@) is None,
        },
{
    if v.len() >= 15 && crate::chars::find_char(v, 'T') < v.len() {
        if !all_digits(v, 0, 8) {
            return None;
        }
        if !all_digits(v, 9, 15) {
            return None;
        }
        let y = read4(v, 0);
        let m = read2(v, 4);
        let d = read2(v, 6);
        let h = read2(v, 9);
        let mi = read2(v, 11);
        let s = read2(v, 13);
        if 1 <= m && m <= 12 && 1 <= d && d <= month_days(y, m) && h < 24 && mi < 60 && s < 60 {
            Some(iso_datetime_chars(y, m, d, h, mi, s))
        } else {
            None
        }
    } else if v.len() == 8 {
        due_value(v)
    } else {
        None
    }
}

/// Encode a stored due date back to its compact 8-digit form.
pub fn due_encode(v: &Vec<char>) -> (r: Option<Vec<char>>)
    ensures
        match r {
            Some(out) => due_encode_spec(v@) == Some(out@),
            None => due_encode_spec(v@) is None,
        },
{
    match parse_iso_date(v) {
        Some((y, m, d)) => {
            let mut out: Vec<char> = Vec::new();
            push4(&mut out, y);
            push2(&mut out, m);
            push2(&mut out, d);
            proof {
                assert(out@ =~= compact_date(y as int, m as int, d as int));
            }
            Some(out)
        },
        None => None,
    }
}

/// Encode a stored creation value back to its compact form.
pub fn created_encode(v: &Vec<char>) -> (r: Option<Vec<char>>)
    ensures
        match r {
            Some(out) => created_encode_spec(v@) == Some(out@),
            None => created_encode_spec(v@) is None,
        },
{
    match parse_iso_date(v) {
        Some((y, m, d)) => {
            let mut out: Vec<char> = Vec::new();
            push4(&mut out, y);
            push2(&mut out, m);
            push2(&mut out, d);
            proof {
                assert(out@ =~= compact_date(y as int, m as int, d as int));
            }
            Some(out)
        },
        None => {
            match parse_iso_datetime(v) {
                Some((y, m, d, h, mi, s)) => {
                    let mut out: Vec<char> = Vec::new();
                    push4(&mut out, y);
                    push2(&mut out, m);
                    push2(&mut out, d);
                    out.push('T');
                    push2(&mut out, h);
                    push2(&mut out, mi);
                    push2(&mut out, s);
                    out.push('Z');
                    proof {
                        assert(out@ =~= compact_datetime(
                            y as int,
                            m as int,
                            d as int,
                            h as int,
                            mi as int,
                            s as int,
                        ));
                    }
                    Some(out)
                },
                None => None,
            }
        },
    }
}

pub fn parse_iso_date(v: &Vec<char>) -> (r: Option<(u32, u32, u32)>)
    ensures
        match r {
            Some(t) => parse_iso_date_spec(v@) == Some((t.0 as int, t.1 as int, t.2 as int)),
            None => parse_iso_date_spec(v@) is None,
        },
{
    if v.len() != 10 {
        return None;
    }
    if !all_digits(v, 0, 4) || v[4] != '-' || !all_digits(v, 5, 7) || v[7] != '-' || !all_digits(
        v,
        8,
        10,
    ) {
        return None;
    }
    let y = read4(v, 0);
    let m = read2(v, 5);
    let d = read2(v, 8);
    if 1 <= m && m <= 12 && 1 <= d && d <= month_days(y, m) {
        Some((y, m, d))
    } else {
        None
    }
}

pub fn parse_iso_datetime(v: &Vec<char>) -> (r: Option<(u32, u32, u32, u32, u32, u32)>)
    ensures
        match r {
            Some(t) => parse_iso_datetime_spec(v@) == Some(
                (t.0 as int, t.1 as int, t.2 as int, t.3 as int, t.4 as int, t.5 as int),
            ),
            None => parse_iso_datetime_spec(v@) is None,
        },
{
    if v.len() != 19 {
        return None;
    }
    if !all_digits(v, 0, 4) || v[4] != '-' || !all_digits(v, 5, 7) || v[7] != '-' || !all_digits(
        v,
        8,
        10,
    ) {
        return None;
    }
    if v[10] != 'T' || !all_digits(v, 11, 13) || v[13] != ':' || !all_digits(v, 14, 16) || v[16]
        != ':' || !all_digits(v, 17, 19) {
        return None;
    }
    let y = read4(v, 0);
    let m = read2(v, 5);
    let d = read2(v, 8);
    let h = read2(v, 11);
    let mi = read2(v, 14);
    let s = read2(v, 17);
    if 1 <= m && m <= 12 && 1 <= d && d <= month_days(y, m) && h < 24 && mi < 60 && s < 60 {
        Some((y, m, d, h, mi, s))
    } else {
        None
    }
}

} // verus!
