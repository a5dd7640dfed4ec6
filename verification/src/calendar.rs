//! Challenge keys: calendar days written as `YYYY-MM-DD`, and the number of
//! each day in the proleptic Gregorian calendar, counted from 1970-01-01.

use vstd::prelude::*;
use vstd::string::*;
use crate::errors::ValidationError;
use crate::text::{trim, trimmed};

verus! {

/// Whether `year` is a leap year of the Gregorian calendar.
pub open spec fn is_leap(year: int) -> bool {
    (year % 4 == 0 && year % 100 != 0) || year % 400 == 0
}

/// The number of days of a month, and 0 for a month outside 1..=12.
pub open spec fn month_length(year: int, month: int) -> int {
    if month == 2 {
        if is_leap(year) { 29 } else { 28 }
    } else if month == 4 || month == 6 || month == 9 || month == 11 {
        30
    } else if 1 <= month <= 12 {
        31
    } else {
        0
    }
}

/// Whether year, month and day name a day of the calendar.
pub open spec fn valid_date(year: int, month: int, day: int) -> bool {
    1 <= month <= 12 && 1 <= day <= month_length(year, month)
}

/// The day number by the era decomposition: years are counted from the first
/// of March and grouped in eras of 400 years, which all have 146097 days.
pub open spec fn civil_days(year: int, month: int, day: int) -> int {
    let y = if month <= 2 { year - 1 } else { year };
    let era = y / 400;
    let year_of_era = y - era * 400;
    let month_index = if month > 2 { month - 3 } else { month + 9 };
    let day_of_year = (153 * month_index + 2) / 5 + day - 1;
    let day_of_era = year_of_era * 365 + year_of_era / 4 - year_of_era / 100 + day_of_year;
    era * 146097 + day_of_era - 719468
}

/// The number of leap years from year 0 up to `year`, `year` itself left out.
pub open spec fn leap_years_before(year: int) -> int {
    (year + 3) / 4 - (year + 99) / 100 + (year + 399) / 400
}

/// The number of days from the start of year 0 to the start of `year`.
pub open spec fn days_before_year(year: int) -> int {
    365 * year + leap_years_before(year)
}

/// The number of days of `year` that lie before its month `month`.
pub open spec fn days_before_month(year: int, month: int) -> int
    decreases month,
{
    if month <= 1 {
        0
    } else {
        days_before_month(year, month - 1) + month_length(year, month - 1)
    }
}

/// The day number by counting: the days of the years before, of the months
/// before, and of the month so far, less those before 1970.
pub open spec fn day_count(year: int, month: int, day: int) -> int {
    days_before_year(year) + days_before_month(year, month) + (day - 1) - days_before_year(1970)
}

/// The day after a given day.
pub open spec fn next_date(year: int, month: int, day: int) -> (int, int, int) {
    if day < month_length(year, month) {
        (year, month, day + 1)
    } else if month < 12 {
        (year, month + 1, 1)
    } else {
        (year + 1, 1, 1)
    }
}

/// Whether the first date lies before the second.
pub open spec fn date_before(
    year: int,
    month: int,
    day: int,
    later_year: int,
    later_month: int,
    later_day: int,
) -> bool {
    ||| year < later_year
    ||| year == later_year && month < later_month
    ||| year == later_year && month == later_month && day < later_day
}

/// Whether `c` is one of the digits `0` to `9`.
pub open spec fn is_digit(c: char) -> bool {
    '0' <= c && c <= '9'
}

/// Whether `s` is made of digits only.
pub open spec fn all_digits(s: Seq<char>) -> bool {
    forall|i: int| 0 <= i < s.len() ==> is_digit(#[trigger] s[i])
}

/// The number that a string of digits writes in base ten.
pub open spec fn digits_value(s: Seq<char>) -> nat
    decreases s.len(),
{
    if s.len() == 0 {
        0
    } else {
        (digits_value(s.drop_last()) * 10 + (s.last() as nat - '0' as nat)) as nat
    }
}

/// Whether `s` has the shape `YYYY-MM-DD`: ten characters, dashes at 4 and 7,
/// digits everywhere else.
pub open spec fn key_shape(s: Seq<char>) -> bool {
    &&& s.len() == 10
    &&& s[4] == '-'
    &&& s[7] == '-'
    &&& all_digits(s.subrange(0, 4))
    &&& all_digits(s.subrange(5, 7))
    &&& all_digits(s.subrange(8, 10))
}

/// The year that a key of the right shape names.
pub open spec fn key_year(s: Seq<char>) -> int {
    digits_value(s.subrange(0, 4)) as int
}

/// The month that a key of the right shape names.
pub open spec fn key_month(s: Seq<char>) -> int {
    digits_value(s.subrange(5, 7)) as int
}

/// The day of the month that a key of the right shape names.
pub open spec fn key_day(s: Seq<char>) -> int {
    digits_value(s.subrange(8, 10)) as int
}

/// Whether `s` is a challenge key: of the right shape, and naming a day that
/// the calendar has.
pub open spec fn is_challenge_key(s: Seq<char>) -> bool {
    key_shape(s) && valid_date(key_year(s), key_month(s), key_day(s))
}

/// The day number of a challenge key, and `None` for any other text.
pub open spec fn key_day_number(s: Seq<char>) -> Option<int> {
    if is_challenge_key(s) {
        Some(civil_days(key_year(s), key_month(s), key_day(s)))
    } else {
        None
    }
}

/// Whether `next` names the day after `previous`.
pub open spec fn is_next_day(previous: Seq<char>, next: Seq<char>) -> bool {
    &&& key_day_number(previous) is Some
    &&& key_day_number(next) is Some
    &&& key_day_number(next)->Some_0 - key_day_number(previous)->Some_0 == 1
}

/// Whether `year` is a leap year.
pub fn is_leap_year(year: i32) -> (r: bool)
    ensures
        r == is_leap(year as int),
{
    (year % 4 == 0 && year % 100 != 0) || (year % 400 == 0)
}

/// The number of days of a month; 0 for a month outside 1..=12.
pub fn days_in_month(year: i32, month: u32) -> (r: u32)
    ensures
        r == month_length(year as int, month as int),
{
    if month == 2 {
        if is_leap_year(year) { 29 } else { 28 }
    } else if month == 4 || month == 6 || month == 9 || month == 11 {
        30
    } else if 1 <= month && month <= 12 {
        31
    } else {
        0
    }
}

/// The era of a year: the year divided by 400, rounded down.
fn era_of(y: i64) -> (r: i64)
    requires
        -2147483649 <= y <= 2147483647,
    ensures
        r == y as int / 400,
        -5368710 <= r <= 5368709,
        0 <= y - r * 400 < 400,
{
    if y >= 0 {
        y / 400
    } else {
        (y - 399) / 400
    }
}

/// The days from the first of March to the first of the month with this index,
/// March having the index 0.
fn days_to_month(month_index: i64) -> (r: i64)
    requires
        0 <= month_index <= 4294967304,
    ensures
        r == (153 * month_index + 2) / 5,
        0 <= r <= 200_000_000_000,
{
    (153 * month_index + 2) / 5
}

/// The day number of a date, counted from 1970-01-01.
pub fn days_from_civil(year: i32, month: u32, day: u32) -> (r: i64)
    ensures
        r == civil_days(year as int, month as int, day as int),
{
    let y: i64 = if month <= 2 { year as i64 - 1 } else { year as i64 };
    let era: i64 = era_of(y);
    let year_of_era: i64 = y - era * 400;
    let month_index: i64 = if month > 2 { month as i64 - 3 } else { month as i64 + 9 };
    let day_of_year: i64 = days_to_month(month_index) + day as i64 - 1;
    let day_of_era: i64 = year_of_era * 365 + year_of_era / 4 - year_of_era / 100 + day_of_year;
    era * 146097 + day_of_era - 719468
}

/// Reads a number written with digits only. Anything else, the empty text and
/// a number too large for `i32` give `None`.
pub fn parse_i32_digits(raw: &str) -> (r: Option<i32>)
    ensures
        r == (if raw@.len() > 0 && all_digits(raw@) && digits_value(raw@) <= i32::MAX {
            Some(digits_value(raw@) as i32)
        } else {
            None
        }),
{
    let n = raw.unicode_len();
    if n == 0 {
        return None;
    }
    let mut value: i32 = 0;
    let mut i: usize = 0;
    while i < n
        invariant
            n == raw@.len(),
            i <= n,
            all_digits(raw@.take(i as int)),
            value == digits_value(raw@.take(i as int)),
        decreases n - i,
    {
        let c = raw.get_char(i);
        proof {
            assert(raw@.take(i as int + 1).drop_last() == raw@.take(i as int));
            assert(raw@.take(i as int + 1).last() == c);
        }
        if !(c >= '0' && c <= '9') {
            return None;
        }
        let digit: i32 = (c as u32 - '0' as u32) as i32;
        if value > (i32::MAX - digit) / 10 {
            proof {
                if all_digits(raw@) {
                    lemma_digits_value_grows(raw@, i as int + 1);
                }
            }
            return None;
        }
        value = value * 10 + digit;
        i = i + 1;
        proof {
            assert forall|k: int| 0 <= k < i implies is_digit(#[trigger] raw@.take(i as int)[k]) by {
                if k < i - 1 {
                    assert(raw@.take(i as int)[k] == raw@.take(i as int - 1)[k]);
                }
            }
        }
    }
    proof {
        assert(raw@.take(n as int) == raw@);
    }
    Some(value)
}

/// The day number of a challenge key; `None` for any other text.
pub fn challenge_key_to_day_number(challenge_key: &str) -> (r: Option<i64>)
    ensures
        r is Some <==> is_challenge_key(challenge_key@),
        r matches Some(n) ==> key_day_number(challenge_key@) == Some(n as int),
{
    if challenge_key.unicode_len() != 10 {
        return None;
    }
    if challenge_key.get_char(4) != '-' || challenge_key.get_char(7) != '-' {
        return None;
    }
    let year = match parse_i32_digits(challenge_key.substring_char(0, 4)) {
        Some(v) => v,
        None => {
            proof {
                if all_digits(challenge_key@.subrange(0, 4)) {
                    lemma_digits_value_bound(challenge_key@.subrange(0, 4));
                }
            }
            return None;
        },
    };
    let month = match parse_i32_digits(challenge_key.substring_char(5, 7)) {
        Some(v) => v,
        None => {
            proof {
                if all_digits(challenge_key@.subrange(5, 7)) {
                    lemma_digits_value_bound(challenge_key@.subrange(5, 7));
                }
            }
            return None;
        },
    };
    let day = match parse_i32_digits(challenge_key.substring_char(8, 10)) {
        Some(v) => v,
        None => {
            proof {
                if all_digits(challenge_key@.subrange(8, 10)) {
                    lemma_digits_value_bound(challenge_key@.subrange(8, 10));
                }
            }
            return None;
        },
    };
    if month < 1 || month > 12 {
        return None;
    }
    let max_day = days_in_month(year, month as u32);
    if day < 1 || day as u32 > max_day {
        return None;
    }
    Some(days_from_civil(year, month as u32, day as u32))
}

/// Whether the text is a challenge key.
pub fn is_valid_daily_challenge_key(challenge_key: &str) -> (r: bool)
    ensures
        r == is_challenge_key(challenge_key@),
{
    challenge_key_to_day_number(challenge_key).is_some()
}

/// Whether `next` names the day after `previous`.
pub fn is_next_challenge_day(previous: &str, next: &str) -> (r: bool)
    ensures
        r == is_next_day(previous@, next@),
{
    match (challenge_key_to_day_number(previous), challenge_key_to_day_number(next)) {
        (Some(left), Some(right)) => {
            proof {
                lemma_key_day_number_range(previous@);
                lemma_key_day_number_range(next@);
            }
            right - left == 1
        },
        _ => false,
    }
}

/// Trims the text and accepts it where it is a challenge key.
pub fn normalize_daily_challenge_key(raw: &str) -> (r: Result<String, ValidationError>)
    ensures
        match r {
            Ok(key) => is_challenge_key(trimmed(raw@)) && key@ == trimmed(raw@),
            Err(error) => !is_challenge_key(trimmed(raw@)) && error
                == ValidationError::InvalidChallengeKey,
        },
{
    let key = trim(raw);
    if is_valid_daily_challenge_key(key) {
        Ok(key.to_owned())
    } else {
        Err(ValidationError::InvalidChallengeKey)
    }
}

/// A string of `n` digits writes a number below the `n`-th power of ten; here
/// for the lengths that occur in a key.
pub proof fn lemma_digits_value_bound(s: Seq<char>)
    requires
        all_digits(s),
        s.len() <= 4,
    ensures
        digits_value(s) <= 9999,
        s.len() <= 2 ==> digits_value(s) <= 99,
{
    reveal_with_fuel(digits_value, 5);
    if s.len() >= 1 {
        assert(is_digit(s[s.len() - 1]));
        assert(s.drop_last().len() == s.len() - 1);
        if s.len() >= 2 {
            assert(s.drop_last().last() == s[s.len() - 2]);
            assert(is_digit(s[s.len() - 2]));
            if s.len() >= 3 {
                assert(s.drop_last().drop_last().last() == s[s.len() - 3]);
                assert(is_digit(s[s.len() - 3]));
                if s.len() >= 4 {
                    assert(s.drop_last().drop_last().drop_last().last() == s[s.len() - 4]);
                    assert(is_digit(s[s.len() - 4]));
                }
            }
        }
    }
}

/// The number written by the first `k` digits is no larger than the number
/// written by all of them.
pub proof fn lemma_digits_value_grows(s: Seq<char>, k: int)
    requires
        all_digits(s),
        0 <= k <= s.len(),
    ensures
        digits_value(s.take(k)) <= digits_value(s),
    decreases s.len() - k,
{
    if k < s.len() {
        lemma_digits_value_grows(s, k + 1);
        assert(s.take(k + 1).drop_last() == s.take(k));
        assert(is_digit(s[k]));
        assert(s.take(k + 1).last() == s[k]);
    } else {
        assert(s.take(k) == s);
    }
}

/// The day numbers of challenge keys lie between those of 0000-01-01 and
/// 9999-12-31.
pub proof fn lemma_key_day_number_range(s: Seq<char>)
    requires
        is_challenge_key(s),
    ensures
        -719528 <= key_day_number(s)->Some_0 <= 2932896,
{
    lemma_digits_value_bound(s.subrange(0, 4));
    lemma_digits_value_bound(s.subrange(5, 7));
    lemma_digits_value_bound(s.subrange(8, 10));
    let y = key_year(s);
    let m = key_month(s);
    let d = key_day(s);
    lemma_civil_days_counts_days(y, m, d);
    lemma_days_before_month_values(y);
}

/// From one year to the next the count of days grows by the length of the
/// year: 366 days in a leap year, 365 in any other.
pub proof fn lemma_year_step(year: int)
    ensures
        days_before_year(year + 1) == days_before_year(year) + (if is_leap(year) { 366int } else { 365int }),
{
    lemma_round_up(year);
    lemma_round_up(year + 1);
    lemma_divisibility(year);
    lemma_divisibility(year + 1);
    lemma_floor_step(year);
}

/// Rounding a quotient up adds one unless the division is exact.
proof fn lemma_round_up(x: int)
    ensures
        (x + 3) / 4 == x / 4 + (if x % 4 == 0 { 0int } else { 1int }),
        (x + 99) / 100 == x / 100 + (if x % 100 == 0 { 0int } else { 1int }),
        (x + 399) / 400 == x / 400 + (if x % 400 == 0 { 0int } else { 1int }),
{
}

/// A multiple of 400 is a multiple of 100, and a multiple of 100 one of 4.
proof fn lemma_divisibility(x: int)
    ensures
        x % 400 == 0 ==> x % 100 == 0,
        x % 100 == 0 ==> x % 4 == 0,
{
    assert(x % 400 == 0 ==> x % 100 == 0) by {
        if x % 400 == 0 {
            assert(x == 100 * (4 * (x / 400)));
        }
    }
    assert(x % 100 == 0 ==> x % 4 == 0) by {
        if x % 100 == 0 {
            assert(x == 4 * (25 * (x / 100)));
        }
    }
}

/// A quotient grows by one exactly where the next number is a multiple.
proof fn lemma_floor_step(x: int)
    ensures
        (x + 1) / 4 == x / 4 + (if (x + 1) % 4 == 0 { 1int } else { 0int }),
        (x + 1) / 100 == x / 100 + (if (x + 1) % 100 == 0 { 1int } else { 0int }),
        (x + 1) / 400 == x / 400 + (if (x + 1) % 400 == 0 { 1int } else { 0int }),
{
}

/// The quotients of a year by 4 and by 100, from its era and its year of era.
proof fn lemma_era_parts(y: int)
    ensures
        ({
            let era = y / 400;
            let year_of_era = y - era * 400;
            &&& 0 <= year_of_era < 400
            &&& y / 4 == 100 * era + year_of_era / 4
            &&& y / 100 == 4 * era + year_of_era / 100
        }),
{
}

/// The days before each month, written out.
pub proof fn lemma_days_before_month_values(year: int)
    ensures
        days_before_month(year, 1) == 0,
        days_before_month(year, 2) == 31,
        days_before_month(year, 3) == 59 + (if is_leap(year) { 1int } else { 0int }),
        days_before_month(year, 4) == 90 + (if is_leap(year) { 1int } else { 0int }),
        days_before_month(year, 5) == 120 + (if is_leap(year) { 1int } else { 0int }),
        days_before_month(year, 6) == 151 + (if is_leap(year) { 1int } else { 0int }),
        days_before_month(year, 7) == 181 + (if is_leap(year) { 1int } else { 0int }),
        days_before_month(year, 8) == 212 + (if is_leap(year) { 1int } else { 0int }),
        days_before_month(year, 9) == 243 + (if is_leap(year) { 1int } else { 0int }),
        days_before_month(year, 10) == 273 + (if is_leap(year) { 1int } else { 0int }),
        days_before_month(year, 11) == 304 + (if is_leap(year) { 1int } else { 0int }),
        days_before_month(year, 12) == 334 + (if is_leap(year) { 1int } else { 0int }),
        days_before_month(year, 13) == 365 + (if is_leap(year) { 1int } else { 0int }),
{
    reveal_with_fuel(days_before_month, 14);
}

/// The era decomposition counts days: for every month of the calendar it gives
/// the number of days since 1970-01-01.
pub proof fn lemma_civil_days_counts_days(year: int, month: int, day: int)
    requires
        1 <= month <= 12,
    ensures
        civil_days(year, month, day) == day_count(year, month, day),
{
    lemma_days_before_month_values(year);
    let y = if month <= 2 { year - 1 } else { year };
    lemma_era_parts(y);
    let march_days = 365 * y + y / 4 - y / 100 + y / 400;
    assert(civil_days(year, month, day) == march_days + (153 * (if month > 2 {
        month - 3
    } else {
        month + 9
    }) + 2) / 5 + day - 1 - 719468);
    lemma_round_up(year);
    lemma_divisibility(year);
    if month <= 2 {
        lemma_floor_step(y);
        assert(days_before_year(year) == march_days + 366);
    } else {
        assert(days_before_year(year) + 59 + (if is_leap(year) { 1int } else { 0int })
            == march_days + 60);
    }
}

/// Between two years lie at least 365 days for each year from the first to
/// the second.
pub proof fn lemma_days_before_year_grows(year: int, later: int)
    requires
        year <= later,
    ensures
        days_before_year(later) - days_before_year(year) >= 365 * (later - year),
    decreases later - year,
{
    if year < later {
        lemma_days_before_year_grows(year, later - 1);
        lemma_year_step(later - 1);
    }
}

/// A later day of the calendar has a larger number.
pub proof fn lemma_later_date_has_larger_number(
    year: int,
    month: int,
    day: int,
    later_year: int,
    later_month: int,
    later_day: int,
)
    requires
        valid_date(year, month, day),
        valid_date(later_year, later_month, later_day),
        date_before(year, month, day, later_year, later_month, later_day),
    ensures
        civil_days(year, month, day) < civil_days(later_year, later_month, later_day),
{
    lemma_civil_days_counts_days(year, month, day);
    lemma_civil_days_counts_days(later_year, later_month, later_day);
    lemma_days_before_month_values(year);
    lemma_days_before_month_values(later_year);
    if year < later_year {
        lemma_year_step(year);
        lemma_days_before_year_grows(year + 1, later_year);
    }
}

/// Days of the calendar and their numbers stand one to one: two days with the
/// same number are the same day.
pub proof fn lemma_day_number_is_one_to_one(
    year: int,
    month: int,
    day: int,
    other_year: int,
    other_month: int,
    other_day: int,
)
    requires
        valid_date(year, month, day),
        valid_date(other_year, other_month, other_day),
        civil_days(year, month, day) == civil_days(other_year, other_month, other_day),
    ensures
        year == other_year,
        month == other_month,
        day == other_day,
{
    if date_before(year, month, day, other_year, other_month, other_day) {
        lemma_later_date_has_larger_number(year, month, day, other_year, other_month, other_day);
    }
    if date_before(other_year, other_month, other_day, year, month, day) {
        lemma_later_date_has_larger_number(other_year, other_month, other_day, year, month, day);
    }
}

/// Two strings of digits of one length that write the same number are the
/// same string.
pub proof fn lemma_digits_are_one_to_one(s: Seq<char>, t: Seq<char>)
    requires
        all_digits(s),
        all_digits(t),
        s.len() == t.len(),
        digits_value(s) == digits_value(t),
    ensures
        s == t,
    decreases s.len(),
{
    if s.len() > 0 {
        let a = s.drop_last();
        let b = t.drop_last();
        assert(is_digit(s[s.len() - 1]) && is_digit(t[t.len() - 1]));
        assert forall|i: int| 0 <= i < a.len() implies is_digit(#[trigger] a[i]) by {
            assert(a[i] == s[i]);
        }
        assert forall|i: int| 0 <= i < b.len() implies is_digit(#[trigger] b[i]) by {
            assert(b[i] == t[i]);
        }
        let x = s.last() as nat - '0' as nat;
        let y = t.last() as nat - '0' as nat;
        assert(digits_value(s) == digits_value(a) * 10 + x);
        assert(digits_value(t) == digits_value(b) * 10 + y);
        assert(digits_value(a) == digits_value(b) && x == y);
        lemma_digits_are_one_to_one(a, b);
        assert(s =~= a.push(s.last()));
        assert(t =~= b.push(t.last()));
    } else {
        assert(s =~= t);
    }
}

/// Challenge keys and day numbers stand one to one: two challenge keys with
/// the same day number are the same text.
pub proof fn lemma_key_is_one_to_one(a: Seq<char>, b: Seq<char>)
    requires
        is_challenge_key(a),
        is_challenge_key(b),
        key_day_number(a) == key_day_number(b),
    ensures
        a == b,
{
    lemma_day_number_is_one_to_one(
        key_year(a),
        key_month(a),
        key_day(a),
        key_year(b),
        key_month(b),
        key_day(b),
    );
    lemma_digits_are_one_to_one(a.subrange(0, 4), b.subrange(0, 4));
    lemma_digits_are_one_to_one(a.subrange(5, 7), b.subrange(5, 7));
    lemma_digits_are_one_to_one(a.subrange(8, 10), b.subrange(8, 10));
    assert forall|i: int| 0 <= i < 10 implies a[i] == b[i] by {
        if i < 4 {
            assert(a[i] == a.subrange(0, 4)[i] && b[i] == b.subrange(0, 4)[i]);
        } else if 5 <= i < 7 {
            assert(a[i] == a.subrange(5, 7)[i - 5] && b[i] == b.subrange(5, 7)[i - 5]);
        } else if 8 <= i {
            assert(a[i] == a.subrange(8, 10)[i - 8] && b[i] == b.subrange(8, 10)[i - 8]);
        }
    }
    assert(a =~= b);
}

/// The day after a day of the calendar is a day of the calendar, and its
/// number is one more.
pub proof fn lemma_next_day(year: int, month: int, day: int)
    requires
        valid_date(year, month, day),
    ensures
        ({
            let (y, m, d) = next_date(year, month, day);
            valid_date(y, m, d) && civil_days(y, m, d) == civil_days(year, month, day) + 1
        }),
{
    let (y, m, d) = next_date(year, month, day);
    lemma_civil_days_counts_days(year, month, day);
    lemma_civil_days_counts_days(y, m, d);
    lemma_days_before_month_values(year);
    lemma_days_before_month_values(year + 1);
    lemma_year_step(year);
}

} // verus!
