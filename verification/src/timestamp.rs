//! Verified handling of the terminal's timestamps.
//!
//! The wire protocol and the offline buffer both carry instants as RFC 3339
//! text in UTC ("2024-01-15T08:00:00Z", optionally with fractional seconds).
//! This module defines that profile as a grammar over character sequences,
//! checks it (including the calendar: month lengths and leap years), renders
//! an epoch-millisecond clock reading into it, and extracts the wall-clock
//! "HH:MM:SS" part that the confirmation screens show.

use vstd::prelude::*;

use crate::strutil::{all_digits, append_2digits, append_3digits, append_4digits, dec2_digits,
    dec3_digits, dec4_digits, digits_val, lemma_dec2_val, lemma_dec3_val, lemma_dec4_val,
    lemma_digits_val_bound, lemma_digits_val_subrange, lemma_pow10_mono, pow10, spec_is_digit};

verus! {

/// Gregorian leap years.
pub open spec fn spec_is_leap_year(y: int) -> bool {
    y % 4 == 0 && (y % 100 != 0 || y % 400 == 0)
}

pub open spec fn spec_days_in_year(y: int) -> int {
    if spec_is_leap_year(y) {
        366
    } else {
        365
    }
}

/// Length of month `m` (1-based) in year `y`.
pub open spec fn spec_days_in_month(y: int, m: int) -> int {
    if m == 2 {
        if spec_is_leap_year(y) {
            29
        } else {
            28
        }
    } else if m == 4 || m == 6 || m == 9 || m == 11 {
        30
    } else {
        31
    }
}

/// The RFC 3339 UTC profile this terminal speaks: date, 'T', time, an
/// optional fraction, and a final 'Z'; the date must exist in the calendar.
pub open spec fn valid_rfc3339(s: Seq<char>) -> bool {
    let n = s.len() as int;
    &&& n >= 20
    &&& all_digits(s, 0, 4)
    &&& s[4] == '-'
    &&& all_digits(s, 5, 7)
    &&& s[7] == '-'
    &&& all_digits(s, 8, 10)
    &&& s[10] == 'T'
    &&& all_digits(s, 11, 13)
    &&& s[13] == ':'
    &&& all_digits(s, 14, 16)
    &&& s[16] == ':'
    &&& all_digits(s, 17, 19)
    &&& if n == 20 {
        s[19] == 'Z'
    } else {
        &&& s[19] == '.'
        &&& n >= 22
        &&& all_digits(s, 20, n - 1)
        &&& s[n - 1] == 'Z'
    }
    &&& 1 <= digits_val(s, 5, 7) <= 12
    &&& 1 <= digits_val(s, 8, 10) <= spec_days_in_month(digits_val(s, 0, 4), digits_val(s, 5, 7))
    &&& digits_val(s, 11, 13) < 24
    &&& digits_val(s, 14, 16) < 60
    &&& digits_val(s, 17, 19) < 60
}

fn is_digit(c: char) -> (b: bool)
    ensures
        b == spec_is_digit(c),
{
    '0' <= c && c <= '9'
}

/// Checks that `s[from..to]` is all digits.
fn check_digits(s: &str, from: usize, to: usize) -> (b: bool)
    requires
        from <= to <= s@.len(),
    ensures
        b == all_digits(s@, from as int, to as int),
{
    let mut i: usize = from;
    while i < to
        invariant
            from <= i <= to <= s@.len(),
            forall|j: int| from <= j < i ==> spec_is_digit(#[trigger] s@[j]),
        decreases to - i,
    {
        if !is_digit(s.get_char(i)) {
            return false;
        }
        i += 1;
    }
    true
}

/// Reads the number written at `s[from..to]`; at most nine digits.
fn read_num(s: &str, from: usize, to: usize) -> (v: u32)
    requires
        from <= to <= s@.len(),
        to - from <= 9,
        all_digits(s@, from as int, to as int),
    ensures
        v as int == digits_val(s@, from as int, to as int),
{
    let mut i: usize = from;
    let mut acc: u32 = 0;
    while i < to
        invariant
            from <= i <= to <= s@.len(),
            to - from <= 9,
            all_digits(s@, from as int, to as int),
            acc as int == digits_val(s@, from as int, i as int),
            (acc as int) < pow10((i - from) as nat),
        decreases to - i,
    {
        proof {
            lemma_pow10_mono((i - from) as nat, 8);
            reveal_with_fuel(pow10, 9);
            assert(pow10(8) == 100000000);
            lemma_digits_val_bound(s@, from as int, i as int + 1);
        }
        let c = s.get_char(i);
        let d = (c as u32) - ('0' as u32);
        acc = acc * 10 + d;
        i += 1;
    }
    acc
}

/// Checks the terminal's RFC 3339 UTC profile, calendar included.
pub fn is_valid_rfc3339(s: &str) -> (b: bool)
    ensures
        b == valid_rfc3339(s@),
{
    let n = s.unicode_len();
    if n < 20 {
        return false;
    }
    if !(check_digits(s, 0, 4) && s.get_char(4) == '-' && check_digits(s, 5, 7)
        && s.get_char(7) == '-' && check_digits(s, 8, 10) && s.get_char(10) == 'T'
        && check_digits(s, 11, 13) && s.get_char(13) == ':' && check_digits(s, 14, 16)
        && s.get_char(16) == ':' && check_digits(s, 17, 19)) {
        return false;
    }
    if n == 20 {
        if s.get_char(19) != 'Z' {
            return false;
        }
    } else {
        if s.get_char(19) != '.' || n < 22 || !check_digits(s, 20, n - 1)
            || s.get_char(n - 1) != 'Z' {
            return false;
        }
    }
    let month = read_num(s, 5, 7);
    let day = read_num(s, 8, 10);
    let hour = read_num(s, 11, 13);
    let minute = read_num(s, 14, 16);
    let second = read_num(s, 17, 19);
    if !(1 <= month && month <= 12) {
        return false;
    }
    let year = read_num(s, 0, 4);
    1 <= day && day <= days_in_month(year, month) && hour < 24 && minute < 60 && second < 60
}

fn is_leap_year(y: u32) -> (b: bool)
    ensures
        b == spec_is_leap_year(y as int),
{
    y % 4 == 0 && (y % 100 != 0 || y % 400 == 0)
}

fn days_in_month(y: u32, m: u32) -> (d: u32)
    requires
        1 <= m <= 12,
    ensures
        d as int == spec_days_in_month(y as int, m as int),
{
    if m == 2 {
        if is_leap_year(y) {
            29
        } else {
            28
        }
    } else if m == 4 || m == 6 || m == 9 || m == 11 {
        30
    } else {
        31
    }
}

/// The "HH:MM:SS" part of a well-formed timestamp.
pub open spec fn spec_hms_part(s: Seq<char>) -> Seq<char> {
    s.subrange(11, 19)
}

/// Extracts the wall-clock part the confirmation screens show.
pub fn hms_of_rfc3339(s: &str) -> (r: String)
    requires
        valid_rfc3339(s@),
    ensures
        r@ == spec_hms_part(s@),
{
    let sub = s.substring_char(11, 19);
    sub.to_owned()
}

/// The buffer keeps a stored timestamp only if it still reads back as a
/// well-formed instant; anything else is replaced by the current clock
/// reading, so a damaged row never fails a query.
pub fn restore_timestamp(stored: &str, now: &str) -> (r: String)
    ensures
        r@ == if valid_rfc3339(stored@) {
            stored@
        } else {
            now@
        },
{
    if is_valid_rfc3339(stored) {
        stored.to_owned()
    } else {
        now.to_owned()
    }
}

/// Leap years from 1970 (inclusive) up to year `y` (exclusive).
pub open spec fn spec_leap_years_before(y: int) -> int {
    (y - 1) / 4 - (y - 1) / 100 + (y - 1) / 400 - 477
}

/// Days from 1970-01-01 to the first day of year `y`.
pub open spec fn spec_days_from_1970(y: int) -> int {
    365 * (y - 1970) + spec_leap_years_before(y)
}

/// Days from the first of January to the first of month `m` in year `y`.
pub open spec fn spec_days_before_month(y: int, m: int) -> int
    decreases m,
{
    if m <= 1 {
        0
    } else {
        spec_days_before_month(y, m - 1) + spec_days_in_month(y, m - 1)
    }
}

proof fn lemma_days_year_step(y: int)
    requires
        y >= 1970,
    ensures
        spec_days_from_1970(y + 1) == spec_days_from_1970(y) + spec_days_in_year(y),
{
    assert(y / 4 - (y - 1) / 4 == if y % 4 == 0 { 1int } else { 0int });
    assert(y / 100 - (y - 1) / 100 == if y % 100 == 0 { 1int } else { 0int });
    assert(y / 400 - (y - 1) / 400 == if y % 400 == 0 { 1int } else { 0int });
}

proof fn lemma_days_mono(a: int, b: int)
    requires
        1970 <= a <= b,
    ensures
        spec_days_from_1970(a) <= spec_days_from_1970(b),
    decreases b - a,
{
    if a < b {
        lemma_days_mono(a, b - 1);
        lemma_days_year_step(b - 1);
    }
}

proof fn lemma_days_before_month_total(y: int)
    ensures
        spec_days_before_month(y, 13) == spec_days_in_year(y),
{
    reveal_with_fuel(spec_days_before_month, 14);
}

fn days_in_year(y: u32) -> (d: u32)
    ensures
        d as int == spec_days_in_year(y as int),
{
    if is_leap_year(y) {
        366
    } else {
        365
    }
}

/// First epoch millisecond of year 10000; the rendering covers clock
/// readings below it, which is every instant a terminal will ever see.
pub const RFC3339_MS_LIMIT: u64 = 253402300800000;

/// Renders an epoch-millisecond clock reading as RFC 3339 UTC text,
/// "YYYY-MM-DDTHH:MM:SS.mmmZ". The date fields are pinned by the verified
/// calendar: the day count of the written date equals `ms / 86400000`.
pub fn format_rfc3339(ms: u64) -> (r: String)
    requires
        ms < RFC3339_MS_LIMIT,
    ensures
        valid_rfc3339(r@),
        r@.len() == 24,
        spec_days_from_1970(digits_val(r@, 0, 4)) + spec_days_before_month(
            digits_val(r@, 0, 4),
            digits_val(r@, 5, 7),
        ) + digits_val(r@, 8, 10) - 1 == ms as int / 86400000,
        spec_hms_part(r@) == spec_hms_of_ms(ms as nat),
        digits_val(r@, 20, 23) == ms as int % 1000,
{
    let total_days: u32 = (ms / 86400000) as u32;
    let ghost td = total_days as int;
    let mut y: u32 = 1970;
    let mut rem: u32 = total_days;
    loop
        invariant
            1970 <= y <= 9999,
            spec_days_from_1970(y as int) + rem as int == td,
            td < 2932897,
        ensures
            1970 <= y <= 9999,
            spec_days_from_1970(y as int) + rem as int == td,
            (rem as int) < spec_days_in_year(y as int),
        decreases rem,
    {
        let diy = days_in_year(y);
        if rem < diy {
            break;
        }
        proof {
            lemma_days_year_step(y as int);
            if y as int + 1 >= 10000 {
                lemma_days_mono(10000, y as int + 1);
                assert(spec_days_from_1970(10000) == 2932897);
            }
        }
        rem = rem - diy;
        y = y + 1;
    }
    let ghost doy = rem as int;
    let mut m: u32 = 1;
    loop
        invariant
            1 <= m <= 12,
            spec_days_before_month(y as int, m as int) + rem as int == doy,
            doy < spec_days_in_year(y as int),
        ensures
            1 <= m <= 12,
            spec_days_before_month(y as int, m as int) + rem as int == doy,
            (rem as int) < spec_days_in_month(y as int, m as int),
        decreases 12 - m,
    {
        let dim = days_in_month(y, m);
        if m == 12 {
            proof {
                lemma_days_before_month_total(y as int);
            }
            break;
        }
        if rem < dim {
            break;
        }
        rem = rem - dim;
        m = m + 1;
    }
    let day: u32 = rem + 1;
    let secs: u64 = ms / 1000;
    let hour: u64 = secs / 3600 % 24;
    let minute: u64 = secs / 60 % 60;
    let second: u64 = secs % 60;
    let ms3: u64 = ms % 1000;
    proof {
        reveal_strlit("-");
        reveal_strlit("T");
        reveal_strlit(":");
        reveal_strlit(".");
        reveal_strlit("Z");
    }
    let mut r = String::new();
    append_4digits(&mut r, y as u64);
    r.append("-");
    append_2digits(&mut r, m as u64);
    r.append("-");
    append_2digits(&mut r, day as u64);
    r.append("T");
    append_2digits(&mut r, hour);
    r.append(":");
    append_2digits(&mut r, minute);
    r.append(":");
    append_2digits(&mut r, second);
    r.append(".");
    append_3digits(&mut r, ms3);
    r.append("Z");
    proof {
        lemma_dec4_val(y as nat);
        lemma_dec2_val(m as nat);
        lemma_dec2_val(day as nat);
        lemma_dec2_val(hour as nat);
        lemma_dec2_val(minute as nat);
        lemma_dec2_val(second as nat);
        lemma_dec3_val(ms3 as nat);
        assert(r@.len() == 24);
        assert(r@.subrange(0, 4) =~= dec4_digits(y as nat));
        assert(r@.subrange(5, 7) =~= dec2_digits(m as nat));
        assert(r@.subrange(8, 10) =~= dec2_digits(day as nat));
        assert(r@.subrange(11, 13) =~= dec2_digits(hour as nat));
        assert(r@.subrange(14, 16) =~= dec2_digits(minute as nat));
        assert(r@.subrange(17, 19) =~= dec2_digits(second as nat));
        assert(r@.subrange(20, 23) =~= dec3_digits(ms3 as nat));
        lemma_digits_val_subrange(r@, 0, 4);
        lemma_digits_val_subrange(r@, 5, 7);
        lemma_digits_val_subrange(r@, 8, 10);
        lemma_digits_val_subrange(r@, 11, 13);
        lemma_digits_val_subrange(r@, 14, 16);
        lemma_digits_val_subrange(r@, 17, 19);
        lemma_digits_val_subrange(r@, 20, 23);
        assert forall|i: int| 0 <= i < 4 implies spec_is_digit(#[trigger] r@[i]) by {
            assert(r@[i] == r@.subrange(0, 4)[i]);
        }
        assert forall|i: int| 5 <= i < 7 implies spec_is_digit(#[trigger] r@[i]) by {
            assert(r@[i] == r@.subrange(5, 7)[i - 5]);
        }
        assert forall|i: int| 8 <= i < 10 implies spec_is_digit(#[trigger] r@[i]) by {
            assert(r@[i] == r@.subrange(8, 10)[i - 8]);
        }
        assert forall|i: int| 11 <= i < 13 implies spec_is_digit(#[trigger] r@[i]) by {
            assert(r@[i] == r@.subrange(11, 13)[i - 11]);
        }
        assert forall|i: int| 14 <= i < 16 implies spec_is_digit(#[trigger] r@[i]) by {
            assert(r@[i] == r@.subrange(14, 16)[i - 14]);
        }
        assert forall|i: int| 17 <= i < 19 implies spec_is_digit(#[trigger] r@[i]) by {
            assert(r@[i] == r@.subrange(17, 19)[i - 17]);
        }
        assert forall|i: int| 20 <= i < 23 implies spec_is_digit(#[trigger] r@[i]) by {
            assert(r@[i] == r@.subrange(20, 23)[i - 20]);
        }
        assert(spec_hms_part(r@) =~= spec_hms_of_ms(ms as nat));
        assert(valid_rfc3339(r@));
    }
    r
}

/// "HH:MM:SS" of an epoch-millisecond clock reading, in UTC.
pub open spec fn spec_hms_of_ms(ms: nat) -> Seq<char> {
    let secs = ms / 1000;
    dec2_digits(secs / 3600 % 24) + seq![':'] + dec2_digits(secs / 60 % 60) + seq![':']
        + dec2_digits(secs % 60)
}

/// Renders the time of day of `ms` (epoch milliseconds, UTC) as "HH:MM:SS".
pub fn format_hms(ms: u64) -> (r: String)
    ensures
        r@ == spec_hms_of_ms(ms as nat),
{
    proof {
        reveal_strlit(":");
    }
    let secs = ms / 1000;
    let mut r = String::new();
    append_2digits(&mut r, secs / 3600 % 24);
    r.append(":");
    append_2digits(&mut r, secs / 60 % 60);
    r.append(":");
    append_2digits(&mut r, secs % 60);
    proof {
        assert(r@ =~= spec_hms_of_ms(ms as nat));
    }
    r
}

} // verus!
