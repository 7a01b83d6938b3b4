use vstd::prelude::*;
use crate::text::chars_of;

verus! {

pub open spec fn is_digit(c: char) -> bool {
    '0' <= c && c <= '9'
}

pub open spec fn digit_value(c: char) -> int {
    (c as int) - ('0' as int)
}

/// `s[i..i+len]` are all decimal digits.
pub open spec fn digits_at(s: Seq<char>, i: int, len: int) -> bool {
    forall|k: int| i <= k < i + len ==> #[trigger] is_digit(s[k])
}

/// The number written in decimal by `s[i..i+len]`.
pub open spec fn number_at(s: Seq<char>, i: int, len: int) -> int
    decreases len,
{
    if len <= 0 {
        0
    } else {
        number_at(s, i, len - 1) * 10 + digit_value(s[i + len - 1])
    }
}

pub open spec fn is_leap(y: int) -> bool {
    (y % 4 == 0 && y % 100 != 0) || y % 400 == 0
}

pub open spec fn year_days(y: int) -> int {
    if is_leap(y) { 366 } else { 365 }
}

pub open spec fn days_in_month(y: int, m: int) -> int {
    if m == 2 {
        if is_leap(y) { 29 } else { 28 }
    } else if m == 4 || m == 6 || m == 9 || m == 11 {
        30
    } else {
        31
    }
}

/// Days in the months of year `y` before month `m`.
pub open spec fn days_before_month(y: int, m: int) -> int
    decreases m,
{
    if m <= 1 {
        0
    } else {
        days_before_month(y, m - 1) + days_in_month(y, m - 1)
    }
}

/// Days from 1970-01-01 to the first of January of year `y` (negative before 1970), in
/// the proleptic Gregorian calendar.
pub open spec fn days_before_year(y: int) -> int
    decreases if y >= 1970 { y - 1970 } else { 1970 - y },
{
    if y == 1970 {
        0
    } else if y > 1970 {
        days_before_year(y - 1) + year_days(y - 1)
    } else {
        days_before_year(y + 1) - year_days(y)
    }
}

/// Days from 1970-01-01 to the given date.
pub open spec fn civil_days(y: int, m: int, d: int) -> int {
    days_before_year(y) + days_before_month(y, m) + d - 1
}

pub open spec fn valid_date(y: int, m: int, d: int) -> bool {
    1 <= m <= 12 && 1 <= d <= days_in_month(y, m)
}

/// `s` has the shape `YYYY-MM-DD` in its first ten characters.
pub open spec fn date_shape(s: Seq<char>) -> bool {
    &&& s.len() >= 10
    &&& digits_at(s, 0, 4) && s[4] == '-' && digits_at(s, 5, 2) && s[7] == '-' && digits_at(s, 8, 2)
}

/// `s` has the shape `YYYY-MM-DD HH:MM:SS`.
pub open spec fn date_time_shape(s: Seq<char>) -> bool {
    &&& s.len() == 19
    &&& date_shape(s)
    &&& s[10] == ' ' && digits_at(s, 11, 2) && s[13] == ':' && digits_at(s, 14, 2) && s[16] == ':' && digits_at(s, 17, 2)
}

/// Unix seconds (UTC) written by `s`: `YYYY-MM-DD HH:MM:SS` to the second; `YYYY-MM-DD`
/// stands for the start of that day, or for its last second (23:59:59) when
/// `end_of_day` holds. `None` when `s` has neither shape or names no real date or time.
pub open spec fn time_bound(s: Seq<char>, end_of_day: bool) -> Option<int> {
    let y = number_at(s, 0, 4);
    let m = number_at(s, 5, 2);
    let d = number_at(s, 8, 2);
    if s.len() == 10 && date_shape(s) && valid_date(y, m, d) {
        Some(civil_days(y, m, d) * 86400 + if end_of_day { 86399int } else { 0int })
    } else if date_time_shape(s) && valid_date(y, m, d) {
        let hh = number_at(s, 11, 2);
        let mm = number_at(s, 14, 2);
        let ss = number_at(s, 17, 2);
        if hh < 24 && mm < 60 && ss < 60 {
            Some(civil_days(y, m, d) * 86400 + hh * 3600 + mm * 60 + ss)
        } else {
            None
        }
    } else {
        None
    }
}

proof fn lemma_days_before_year_bounds(y: int)
    ensures
        y >= 1970 ==> 365 * (y - 1970) <= days_before_year(y) <= 366 * (y - 1970),
        y <= 1970 ==> -366 * (1970 - y) <= days_before_year(y) <= -365 * (1970 - y),
    decreases if y >= 1970 { y - 1970 } else { 1970 - y },
{
    if y > 1970 {
        lemma_days_before_year_bounds(y - 1);
    } else if y < 1970 {
        lemma_days_before_year_bounds(y + 1);
    }
}

proof fn lemma_days_before_month_bounds(y: int, m: int)
    requires
        1 <= m <= 12,
    ensures
        0 <= days_before_month(y, m) <= 31 * (m - 1),
    decreases m,
{
    if m > 1 {
        lemma_days_before_month_bounds(y, m - 1);
    }
}

fn is_leap_year(y: i64) -> (r: bool)
    ensures
        r == is_leap(y as int),
{
    (y % 4 == 0 && y % 100 != 0) || y % 400 == 0
}

fn month_days(y: i64, m: i64) -> (r: i64)
    ensures
        r == days_in_month(y as int, m as int),
{
    if m == 2 {
        if is_leap_year(y) { 29 } else { 28 }
    } else if m == 4 || m == 6 || m == 9 || m == 11 {
        30
    } else {
        31
    }
}

fn digits_value(c: &Vec<char>, i: usize, len: usize) -> (r: i64)
    requires
        i + len <= c@.len(),
        len <= 4,
        digits_at(c@, i as int, len as int),
    ensures
        r == number_at(c@, i as int, len as int),
        0 <= r < 10000,
{
    let mut r: i64 = 0;
    let mut k: usize = 0;
    let total = c.len();
    while k < len
        invariant
            k <= len <= 4,
            total == c@.len(),
            i + len <= total,
            digits_at(c@, i as int, len as int),
            r == number_at(c@, i as int, k as int),
            0 <= r < (if k == 0 { 1int } else if k == 1 { 10int } else if k == 2 { 100int } else if k == 3 { 1000int } else { 10000int }),
        decreases len - k,
    {
        assert(is_digit(c@[i + k]));
        r = r * 10 + ((c[i + k] as u32 - '0' as u32) as i64);
        k += 1;
    }
    r
}

fn all_digits(c: &Vec<char>, i: usize, len: usize) -> (r: bool)
    requires
        i + len <= c@.len(),
    ensures
        r == digits_at(c@, i as int, len as int),
{
    let mut k: usize = 0;
    let total = c.len();
    while k < len
        invariant
            k <= len,
            total == c@.len(),
            i + len <= total,
            forall|j: int| i <= j < i + k ==> #[trigger] is_digit(c@[j]),
        decreases len - k,
    {
        if !(c[i + k] >= '0' && c[i + k] <= '9') {
            assert(!is_digit(c@[i + k]));
            return false;
        }
        k += 1;
    }
    true
}

/// Days from 1970-01-01 to a valid date of years 0 to 9999.
fn days_from_epoch(y: i64, m: i64, d: i64) -> (r: i64)
    requires
        0 <= y <= 9999,
        valid_date(y as int, m as int, d as int),
    ensures
        r == civil_days(y as int, m as int, d as int),
        -800000 <= r <= 3000000,
{
    let mut days: i64 = 0;
    let mut yr: i64 = 1970;
    if y >= 1970 {
        while yr < y
            invariant
                1970 <= yr <= y <= 9999,
                days == days_before_year(yr as int),
            decreases y - yr,
        {
            proof {
                lemma_days_before_year_bounds(yr as int);
            }
            days = days + if is_leap_year(yr) { 366 } else { 365 };
            yr = yr + 1;
        }
    } else {
        while yr > y
            invariant
                0 <= y <= yr <= 1970,
                days == days_before_year(yr as int),
            decreases yr - y,
        {
            proof {
                lemma_days_before_year_bounds(yr as int);
            }
            yr = yr - 1;
            days = days - if is_leap_year(yr) { 366 } else { 365 };
        }
    }
    proof {
        lemma_days_before_year_bounds(y as int);
        lemma_days_before_month_bounds(y as int, m as int);
    }
    let mut mo: i64 = 1;
    let mut before: i64 = 0;
    while mo < m
        invariant
            1 <= mo <= m <= 12,
            before == days_before_month(y as int, mo as int),
        decreases m - mo,
    {
        proof {
            lemma_days_before_month_bounds(y as int, mo as int);
        }
        before = before + month_days(y, mo);
        mo = mo + 1;
    }
    days + before + d - 1
}

/// Parse a `--since` / `--until` value into Unix seconds (UTC): `YYYY-MM-DD HH:MM:SS`
/// exactly, or `YYYY-MM-DD` as the start of the day (the end of it, 23:59:59, when
/// `end_of_day` holds). `None` when the text is neither.
pub fn parse_time_bound(text: &str, end_of_day: bool) -> (r: Option<i64>)
    ensures
        r matches Some(t) ==> time_bound(text@, end_of_day) == Some(t as int),
        r is None ==> time_bound(text@, end_of_day) is None,
{
    let c = chars_of(text);
    let n = c.len();
    if n != 10 && n != 19 {
        return None;
    }
    if !(all_digits(&c, 0, 4) && c[4] == '-' && all_digits(&c, 5, 2) && c[7] == '-' && all_digits(&c, 8, 2)) {
        return None;
    }
    let y = digits_value(&c, 0, 4);
    let m = digits_value(&c, 5, 2);
    let d = digits_value(&c, 8, 2);
    if !(1 <= m && m <= 12 && 1 <= d && d <= month_days(y, m)) {
        return None;
    }
    let days = days_from_epoch(y, m, d);
    if n == 10 {
        let extra: i64 = if end_of_day { 86399 } else { 0 };
        return Some(days * 86400 + extra);
    }
    if !(c[10] == ' ' && all_digits(&c, 11, 2) && c[13] == ':' && all_digits(&c, 14, 2) && c[16] == ':' && all_digits(&c, 17, 2)) {
        return None;
    }
    let hh = digits_value(&c, 11, 2);
    let mm = digits_value(&c, 14, 2);
    let ss = digits_value(&c, 17, 2);
    if !(hh < 24 && mm < 60 && ss < 60) {
        return None;
    }
    Some(days * 86400 + hh * 3600 + mm * 60 + ss)
}

/// A bare date as `--until` stands for the last second of that day, as `--since` for the
/// first: the two bounds are 86399 seconds apart.
pub proof fn law_until_covers_whole_day(s: Seq<char>)
    requires
        s.len() == 10,
    ensures
        time_bound(s, false) is Some <==> time_bound(s, true) is Some,
        time_bound(s, false) matches Some(t) ==> time_bound(s, true) == Some(t + 86399),
{
}

/// A bare date means midnight: `YYYY-MM-DD` and `YYYY-MM-DD 00:00:00` give the same
/// lower bound.
pub proof fn law_date_is_midnight(s: Seq<char>)
    requires
        s.len() == 10,
    ensures
        time_bound(s + seq![' ', '0', '0', ':', '0', '0', ':', '0', '0'], false) == time_bound(s, false),
{
    let t = s + seq![' ', '0', '0', ':', '0', '0', ':', '0', '0'];
    assert(t.len() == 19);
    assert forall|k: int| 0 <= k < 10 implies t[k] == s[k] by {}
    assert(number_at(t, 0, 4) == number_at(s, 0, 4)) by {
        reveal_with_fuel(number_at, 5);
    }
    assert(number_at(t, 5, 2) == number_at(s, 5, 2)) by {
        reveal_with_fuel(number_at, 3);
    }
    assert(number_at(t, 8, 2) == number_at(s, 8, 2)) by {
        reveal_with_fuel(number_at, 3);
    }
    assert(date_shape(t) == date_shape(s)) by {
        assert(digits_at(t, 0, 4) == digits_at(s, 0, 4));
        assert(digits_at(t, 5, 2) == digits_at(s, 5, 2));
        assert(digits_at(t, 8, 2) == digits_at(s, 8, 2));
    }
    assert(number_at(t, 11, 2) == 0 && number_at(t, 14, 2) == 0 && number_at(t, 17, 2) == 0) by {
        reveal_with_fuel(number_at, 3);
    }
    assert(digits_at(t, 11, 2) && digits_at(t, 14, 2) && digits_at(t, 17, 2));
}

/// The Gregorian calendar's month lengths, as the days before the first of each month
/// (month 13 standing for the whole year): 0, 31, 59, 90, 120, 151, 181, 212, 243, 273,
/// 304, 334, 365, one more from March on in a leap year (a year divisible by 4 but not
/// by 100, or divisible by 400).
pub proof fn law_days_before_each_month(y: int, m: int)
    requires
        1 <= m <= 13,
    ensures
        days_before_month(y, m) == seq![0int, 31, 59, 90, 120, 151, 181, 212, 243, 273, 304, 334, 365][m - 1]
            + if m > 2 && ((y % 4 == 0 && y % 100 != 0) || y % 400 == 0) { 1int } else { 0int },
{
    reveal_with_fuel(days_before_month, 13);
}

/// Consecutive years are as many days apart as the months of the first add up to.
pub proof fn law_year_is_its_months(y: int)
    ensures
        days_before_year(y + 1) - days_before_year(y) == days_before_month(y, 13),
{
    law_days_before_each_month(y, 13);
    if y < 1969 {
        assert(days_before_year(y) == days_before_year(y + 1) - year_days(y));
    }
}

/// The last day of a month is followed by the first of the next (of the next year after
/// December): the calendar has no gaps and no overlaps.
pub proof fn law_month_end_then_next_first(y: int, m: int)
    requires
        1 <= m <= 12,
    ensures
        m < 12 ==> civil_days(y, m, days_in_month(y, m)) + 1 == civil_days(y, m + 1, 1),
        m == 12 ==> civil_days(y, 12, 31) + 1 == civil_days(y + 1, 1, 1),
{
    if m == 12 {
        law_year_is_its_months(y);
        law_days_before_each_month(y, 12);
        law_days_before_each_month(y, 13);
    }
}

} // verus!
