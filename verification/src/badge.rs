//! Streaks and badges: what the days with an accepted daily completion add up
//! to.
//!
//! A streak is a run of consecutive calendar days. A run of `2^p` days earns
//! the badge of power `p`; the highest power is 9.

use vstd::prelude::*;
use crate::calendar::{
    challenge_key_to_day_number, is_challenge_key, key_day_number, lemma_key_day_number_range,
};
use crate::text::{trim, trimmed};

verus! {

/// The highest badge power.
pub const DAILY_BADGE_MAX_POWER: i64 = 9;

/// The days of the highest badge.
pub const MAX_BADGE_DAYS: i64 = 512;

/// Streaks and badges of one device.
#[derive(Debug, Clone, PartialEq, Eq)]
pub struct DailyBadgeStatus {
    pub current_streak: i64,
    pub max_streak: i64,
    pub highest_badge_power: Option<i64>,
    pub highest_badge_days: Option<i64>,
    pub next_badge_power: Option<i64>,
    pub next_badge_days: Option<i64>,
    pub days_to_next_badge: Option<i64>,
}

/// The model of a [`DailyBadgeStatus`].
pub struct BadgeStatusView {
    pub current_streak: int,
    pub max_streak: int,
    pub highest_badge_power: Option<int>,
    pub highest_badge_days: Option<int>,
    pub next_badge_power: Option<int>,
    pub next_badge_days: Option<int>,
    pub days_to_next_badge: Option<int>,
}

/// An optional machine integer as an optional number.
pub open spec fn optional_int(value: Option<i64>) -> Option<int> {
    match value {
        Some(n) => Some(n as int),
        None => None,
    }
}

impl View for DailyBadgeStatus {
    type V = BadgeStatusView;

    open spec fn view(&self) -> BadgeStatusView {
        BadgeStatusView {
            current_streak: self.current_streak as int,
            max_streak: self.max_streak as int,
            highest_badge_power: optional_int(self.highest_badge_power),
            highest_badge_days: optional_int(self.highest_badge_days),
            next_badge_power: optional_int(self.next_badge_power),
            next_badge_days: optional_int(self.next_badge_days),
            days_to_next_badge: optional_int(self.days_to_next_badge),
        }
    }
}

/// Two to the power `p`.
pub open spec fn pow2(p: int) -> int
    decreases p,
{
    if p <= 0 {
        1
    } else {
        2 * pow2(p - 1)
    }
}

/// Whether `p` is the badge power of a streak: the largest power, 9 at most,
/// whose days the streak reaches.
pub open spec fn is_badge_power(streak: int, p: int) -> bool {
    &&& 0 <= p <= DAILY_BADGE_MAX_POWER
    &&& pow2(p) <= streak
    &&& p < DAILY_BADGE_MAX_POWER ==> streak < pow2(p + 1)
}

/// The largest power from `p` on, 9 at most, whose days the streak reaches.
pub open spec fn power_from(streak: int, p: int) -> int
    decreases DAILY_BADGE_MAX_POWER - p,
{
    if p < DAILY_BADGE_MAX_POWER && pow2(p + 1) <= streak {
        power_from(streak, p + 1)
    } else {
        p
    }
}

/// The badge power of a streak; none for a streak of less than a day.
pub open spec fn badge_power(streak: int) -> Option<int> {
    if streak < 1 {
        None
    } else {
        Some(power_from(streak, 0))
    }
}

/// The power of the badge to earn next: 0 without a badge, one more than the
/// highest earned, and none once the highest badge is earned.
pub open spec fn next_power(highest: Option<int>) -> Option<int> {
    match highest {
        None => Some(0),
        Some(p) => if p >= DAILY_BADGE_MAX_POWER {
            None
        } else {
            Some(p + 1)
        },
    }
}

/// The days of a badge power.
pub open spec fn badge_days(power: Option<int>) -> Option<int> {
    match power {
        Some(p) => Some(pow2(p)),
        None => None,
    }
}

/// The days still missing for the next badge, never below zero.
pub open spec fn days_missing(next_days: Option<int>, current_streak: int) -> Option<int> {
    match next_days {
        Some(days) => Some(if days - current_streak < 0 { 0 } else { days - current_streak }),
        None => None,
    }
}

/// The badge status that belongs to a current and a longest streak.
pub open spec fn badge_status(current_streak: int, max_streak: int) -> BadgeStatusView {
    let highest = badge_power(max_streak);
    let next = next_power(highest);
    BadgeStatusView {
        current_streak,
        max_streak,
        highest_badge_power: highest,
        highest_badge_days: badge_days(highest),
        next_badge_power: next,
        next_badge_days: badge_days(next),
        days_to_next_badge: days_missing(badge_days(next), current_streak),
    }
}

/// The texts of a list of strings, in order.
pub open spec fn text_views(texts: Seq<String>) -> Seq<Seq<char>> {
    Seq::new(texts.len(), |i: int| texts[i]@)
}

/// The days that the keys name. A key counts once trimmed; what is no
/// challenge key then names no day.
pub open spec fn accepted_days(keys: Seq<Seq<char>>) -> Set<int> {
    Set::new(
        |day: int|
            exists|i: int|
                0 <= i < keys.len() && key_day_number(trimmed(#[trigger] keys[i])) == Some(day),
    )
}

/// Whether the `length` days that end with `last` are all among `days`.
pub open spec fn is_run(days: Set<int>, last: int, length: int) -> bool {
    forall|k: int| 0 <= k < length ==> days.contains(#[trigger] (last - k))
}

/// Whether the run of days that ends with `last` has exactly this length.
pub open spec fn is_run_length(days: Set<int>, last: int, length: int) -> bool {
    length >= 0 && is_run(days, last, length) && !days.contains(last - length)
}

/// Whether `length` is the length of the longest run among `days`.
pub open spec fn is_longest_run(days: Set<int>, length: int) -> bool {
    &&& exists|last: int| days.contains(last) && #[trigger] is_run(days, last, length)
    &&& forall|last: int, n: int| #[trigger] is_run(days, last, n) ==> n <= length
}

/// Whether `day` is the latest of `days`.
pub open spec fn is_latest_day(days: Set<int>, day: int) -> bool {
    days.contains(day) && forall|other: int| days.contains(other) ==> other <= day
}

/// The latest of `days`.
pub open spec fn latest_day(days: Set<int>) -> int {
    choose|day: int| is_latest_day(days, day)
}

/// The length of the run of days that ends with `last`.
pub open spec fn run_length(days: Set<int>, last: int) -> int {
    choose|length: int| is_run_length(days, last, length)
}

/// The length of the longest run among `days`.
pub open spec fn longest_run(days: Set<int>) -> int {
    choose|length: int| is_longest_run(days, length)
}

/// The streak that is still running on the day `today`: the run that ends with
/// the latest day, where that day is today or the day before; else nothing.
pub open spec fn running_streak(days: Set<int>, today: Option<int>) -> int {
    if today == Some(latest_day(days)) || today == Some(latest_day(days) + 1) {
        run_length(days, latest_day(days))
    } else {
        0
    }
}

/// The badge status of a device from the days it completed and the day it is.
pub open spec fn badge_status_of(days: Set<int>, today: Option<int>) -> BadgeStatusView {
    if days == Set::<int>::empty() {
        badge_status(0, 0)
    } else {
        badge_status(running_streak(days, today), longest_run(days))
    }
}

/// Whether the numbers grow strictly from each to the next.
pub open spec fn strictly_increasing(numbers: Seq<i64>) -> bool {
    forall|i: int, j: int| 0 <= i < j < numbers.len() ==> numbers[i] < numbers[j]
}

/// Two to the power `power`.
fn power_of_two(power: i64) -> (r: i64)
    requires
        0 <= power <= DAILY_BADGE_MAX_POWER,
    ensures
        r == pow2(power as int),
        1 <= r <= MAX_BADGE_DAYS,
{
    proof {
        lemma_pow2_values();
    }
    let mut result: i64 = 1;
    let mut done: i64 = 0;
    while done < power
        invariant
            0 <= done <= power <= DAILY_BADGE_MAX_POWER,
            result == pow2(done as int),
            pow2(0) == 1 && pow2(1) == 2 && pow2(2) == 4 && pow2(3) == 8 && pow2(4) == 16,
            pow2(5) == 32 && pow2(6) == 64 && pow2(7) == 128 && pow2(8) == 256 && pow2(9) == 512,
        decreases power - done,
    {
        result = result * 2;
        done = done + 1;
    }
    result
}

/// The badge power of a streak: the largest power, 9 at most, whose days the
/// streak reaches; none for a streak of less than a day.
pub fn resolve_badge_power(streak: i64) -> (r: Option<i64>)
    ensures
        optional_int(r) == badge_power(streak as int),
{
    if streak < 1 {
        return None;
    }
    proof {
        lemma_pow2_values();
    }
    let mut power: i64 = 0;
    let mut reach: i64 = 2;
    while power < DAILY_BADGE_MAX_POWER && reach <= streak
        invariant
            0 <= power <= DAILY_BADGE_MAX_POWER,
            reach == pow2(power + 1),
            power_from(streak as int, 0) == power_from(streak as int, power as int),
            pow2(1) == 2 && pow2(2) == 4 && pow2(3) == 8 && pow2(4) == 16 && pow2(5) == 32,
            pow2(6) == 64 && pow2(7) == 128 && pow2(8) == 256 && pow2(9) == 512 && pow2(10) == 1024,
        decreases DAILY_BADGE_MAX_POWER - power,
    {
        power = power + 1;
        reach = reach * 2;
    }
    Some(power)
}

/// The badge status that belongs to a current and a longest streak.
pub fn badge_status_from_streaks(current_streak: i64, max_streak: i64) -> (r: DailyBadgeStatus)
    requires
        MAX_BADGE_DAYS - current_streak <= i64::MAX,
    ensures
        r@ == badge_status(current_streak as int, max_streak as int),
{
    let highest_badge_power = resolve_badge_power(max_streak);
    proof {
        if max_streak >= 1 {
            lemma_badge_power_is_largest(max_streak as int);
        }
    }
    let highest_badge_days = match highest_badge_power {
        Some(power) => Some(power_of_two(power)),
        None => None,
    };
    let next_badge_power = match highest_badge_power {
        None => Some(0),
        Some(power) => if power >= DAILY_BADGE_MAX_POWER {
            None
        } else {
            Some(power + 1)
        },
    };
    let next_badge_days = match next_badge_power {
        Some(power) => Some(power_of_two(power)),
        None => None,
    };
    let days_to_next_badge = match next_badge_days {
        Some(days) => Some(if days - current_streak < 0 { 0 } else { days - current_streak }),
        None => None,
    };
    DailyBadgeStatus {
        current_streak,
        max_streak,
        highest_badge_power,
        highest_badge_days,
        next_badge_power,
        next_badge_days,
        days_to_next_badge,
    }
}

/// Puts `day` into a strictly increasing list, unless the list has it.
fn insert_day(days: &mut Vec<i64>, day: i64)
    requires
        strictly_increasing(old(days)@),
    ensures
        strictly_increasing(final(days)@),
        forall|d: i64| final(days)@.contains(d) <==> (old(days)@.contains(d) || d == day),
{
    let ghost before = days@;
    let mut position: usize = days.len();
    while position > 0 && days[position - 1] > day
        invariant
            position <= days@.len(),
            days@ == before,
            strictly_increasing(before),
            forall|k: int| position <= k < before.len() ==> before[k] > day,
        decreases position,
    {
        position = position - 1;
    }
    if position > 0 && days[position - 1] == day {
        proof {
            assert(before.contains(day));
        }
        return ;
    }
    days.insert(position, day);
    proof {
        let after = days@;
        assert(after == before.insert(position as int, day));
        assert forall|i: int, j: int| 0 <= i < j < after.len() implies after[i] < after[j] by {
            let a = if i < position { i } else { i - 1 };
            let b = if j < position { j } else { j - 1 };
            if i != position && j != position {
                assert(after[i] == before[a] && after[j] == before[b]);
            } else if i == position {
                assert(after[j] == before[b]);
            } else {
                assert(after[i] == before[a]);
                if a < position - 1 {
                    assert(before[a] < before[position - 1]);
                }
            }
        }
        assert forall|d: i64| after.contains(d) <==> (before.contains(d) || d == day) by {
            if after.contains(d) {
                let k = choose|k: int| 0 <= k < after.len() && after[k] == d;
                if k != position {
                    let b = if k < position { k } else { k - 1 };
                    assert(before[b] == d);
                }
            }
            if before.contains(d) {
                let k = choose|k: int| 0 <= k < before.len() && before[k] == d;
                if k < position {
                    assert(after[k] == d);
                } else {
                    assert(after[k + 1] == d);
                }
            }
            if d == day {
                assert(after[position as int] == d);
            }
        }
    }
}

/// The days that the keys name, each once, the earliest first.
fn collect_days(keys: &Vec<String>) -> (r: Vec<i64>)
    ensures
        strictly_increasing(r@),
        forall|d: i64| r@.contains(d) <==> accepted_days(text_views(keys@)).contains(d as int),
        forall|d: int| accepted_days(text_views(keys@)).contains(d) ==> -719528 <= d <= 2932896,
        forall|k: int| 0 <= k < r@.len() ==> -719528 <= #[trigger] r@[k] <= 2932896,
{
    let ghost texts = text_views(keys@);
    let mut days: Vec<i64> = Vec::new();
    let mut i: usize = 0;
    while i < keys.len()
        invariant
            i <= keys@.len(),
            texts == text_views(keys@),
            strictly_increasing(days@),
            forall|d: i64|
                days@.contains(d) <==> accepted_days(texts.take(i as int)).contains(d as int),
            forall|d: int|
                accepted_days(texts.take(i as int)).contains(d) ==> -719528 <= d <= 2932896,
        decreases keys@.len() - i,
    {
        let key = trim(keys[i].as_str());
        let ghost before = days@;
        let number = challenge_key_to_day_number(key);
        proof {
            assert(texts[i as int] == keys@[i as int]@);
            if is_challenge_key(key@) {
                lemma_key_day_number_range(key@);
            }
            lemma_accepted_days_step(texts, i as int);
        }
        match number {
            Some(day) => {
                insert_day(&mut days, day);
            },
            None => {},
        }
        proof {
            assert forall|d: int| #[trigger]
                accepted_days(texts.take(i as int + 1)).contains(d) implies -719528 <= d && d
                <= 2932896 by {
                if !accepted_days(texts.take(i as int)).contains(d) {
                    assert(key_day_number(key@) == Some(d));
                }
            }
            assert forall|d: i64|
                days@.contains(d) <==> accepted_days(texts.take(i as int + 1)).contains(
                    d as int,
                ) by {
                if accepted_days(texts.take(i as int + 1)).contains(d as int)
                    && !accepted_days(texts.take(i as int)).contains(d as int) {
                    assert(key_day_number(key@) == Some(d as int));
                }
            }
        }
        i = i + 1;
    }
    proof {
        assert(texts.take(keys@.len() as int) == texts);
        assert forall|k: int| 0 <= k < days@.len() implies -719528 <= #[trigger] days@[k]
            && days@[k] <= 2932896 by {
            assert(days@.contains(days@[k]));
            assert(accepted_days(texts).contains(days@[k] as int));
        }
    }
    days
}

/// The badge status of a device from the keys of the daily challenges it
/// completed and the key of the current day. Keys are trimmed; what is no
/// challenge key then is passed over.
pub fn compute_daily_badge_status(accepted_challenge_keys: Vec<String>, challenge_key: &str) -> (r:
    DailyBadgeStatus)
    ensures
        r@ == badge_status_of(
            accepted_days(text_views(accepted_challenge_keys@)),
            key_day_number(challenge_key@),
        ),
{
    let ghost set = accepted_days(text_views(accepted_challenge_keys@));
    let days = collect_days(&accepted_challenge_keys);
    if days.len() == 0 {
        proof {
            assert forall|d: int| !set.contains(d) by {
                if set.contains(d) {
                    assert(days@.contains(d as i64));
                }
            }
            assert(set =~= Set::<int>::empty());
        }
        return badge_status_from_streaks(0, 0);
    }
    let mut max_streak: i64 = 1;
    let mut current_run: i64 = 1;
    let mut index: usize = 1;
    proof {
        assert(days@.contains(days@[0]));
        assert(is_run_length(set, days@[0] as int, 1)) by {
            assert forall|k: int| 0 <= k < 1 implies set.contains(#[trigger] (days@[0] - k)) by {}
            if set.contains(days@[0] - 1) {
                assert(days@.contains((days@[0] - 1) as i64));
            }
        }
    }
    while index < days.len()
        invariant
            1 <= index <= days@.len(),
            strictly_increasing(days@),
            forall|d: i64| days@.contains(d) <==> set.contains(d as int),
            forall|d: int| set.contains(d) ==> -719528 <= d <= 2932896,
            forall|k: int| 0 <= k < days@.len() ==> -719528 <= #[trigger] days@[k] <= 2932896,
            1 <= current_run <= max_streak,
            current_run <= days@[index as int - 1] - days@[0] + 1,
            max_streak <= days@[index as int - 1] - days@[0] + 1,
            is_run_length(set, days@[index as int - 1] as int, current_run as int),
            exists|t: int| 0 <= t < index && #[trigger] is_run(set, days@[t] as int, max_streak as int),
            forall|t: int, n: int|
                0 <= t < index && #[trigger] is_run(set, days@[t] as int, n) ==> n <= max_streak,
        decreases days@.len() - index,
    {
        let ghost previous = days@[index as int - 1] as int;
        let ghost day = days@[index as int] as int;
        let ghost run = current_run as int;
        proof {
            assert(days@.contains(days@[index as int]));
            assert(days@.contains(days@[index as int - 1]));
            assert(days@.contains(days@[0]));
        }
        if days[index] - days[index - 1] == 1 {
            current_run = current_run + 1;
            proof {
                assert forall|k: int| 0 <= k < run + 1 implies set.contains(#[trigger] (day - k)) by {
                    if k > 0 {
                        assert(day - k == previous - (k - 1));
                    }
                }
                assert(day - (run + 1) == previous - run);
            }
        } else {
            current_run = 1;
            proof {
                assert forall|k: int| 0 <= k < 1 implies set.contains(#[trigger] (day - k)) by {}
                if set.contains(day - 1) {
                    assert(days@.contains((day - 1) as i64));
                }
            }
        }
        let ghost witness = choose|t: int|
            0 <= t < index && #[trigger] is_run(set, days@[t] as int, max_streak as int);
        if current_run > max_streak {
            max_streak = current_run;
        }
        proof {
            lemma_run_is_bounded(set, day, current_run as int);
            if max_streak == current_run {
                assert(is_run(set, days@[index as int] as int, max_streak as int));
            } else {
                assert(is_run(set, days@[witness] as int, max_streak as int));
            }
        }
        index = index + 1;
    }
    let latest = days[days.len() - 1];
    let today = challenge_key_to_day_number(challenge_key);
    proof {
        lemma_key_day_number_range_or_none(challenge_key@);
        assert(days@.contains(latest));
        assert(is_latest_day(set, latest as int)) by {
            assert forall|other: int| set.contains(other) implies other <= latest by {
                assert(days@.contains(other as i64));
            }
        }
        lemma_latest_day_unique(set, latest as int, latest_day(set));
        lemma_run_length_unique(set, latest as int, current_run as int, run_length(set, latest as int));
        let witness = choose|t: int|
            0 <= t < days@.len() && #[trigger] is_run(set, days@[t] as int, max_streak as int);
        assert(days@.contains(days@[witness]));
        assert(is_longest_run(set, max_streak as int)) by {
            assert(set.contains(days@[witness] as int) && is_run(
                set,
                days@[witness] as int,
                max_streak as int,
            ));
            assert forall|last: int, n: int| #[trigger] is_run(set, last, n) implies n
                <= max_streak by {
                if n >= 1 {
                    assert(set.contains(last - 0));
                    assert(days@.contains(last as i64));
                    let p = choose|p: int| 0 <= p < days@.len() && days@[p] == last as i64;
                    assert(is_run(set, days@[p] as int, n));
                }
            }
        }
        lemma_longest_run_unique(set, max_streak as int, longest_run(set));
        assert(set.contains(latest as int));
        assert(set != Set::<int>::empty());
    }
    let running = match today {
        Some(day) => day == latest || day - latest == 1,
        None => false,
    };
    let current_streak = if running { current_run } else { 0 };
    badge_status_from_streaks(current_streak, max_streak)
}

/// The powers of two up to the tenth.
pub proof fn lemma_pow2_values()
    ensures
        pow2(0) == 1,
        pow2(1) == 2,
        pow2(2) == 4,
        pow2(3) == 8,
        pow2(4) == 16,
        pow2(5) == 32,
        pow2(6) == 64,
        pow2(7) == 128,
        pow2(8) == 256,
        pow2(9) == 512,
        pow2(10) == 1024,
{
    reveal_with_fuel(pow2, 12);
}

/// The badge power of a streak of a day or more is the largest power, 9 at
/// most, whose days the streak reaches, and no other power is.
pub proof fn lemma_badge_power_is_largest(streak: int)
    requires
        streak >= 1,
    ensures
        is_badge_power(streak, badge_power(streak)->Some_0),
        forall|p: int| is_badge_power(streak, p) ==> badge_power(streak) == Some(p),
{
    lemma_pow2_values();
    reveal_with_fuel(power_from, 11);
    assert forall|p: int| is_badge_power(streak, p) implies badge_power(streak) == Some(p) by {
        assert(0 <= p <= 9);
    }
}

/// One more key adds the day it names, if it names one.
proof fn lemma_accepted_days_step(texts: Seq<Seq<char>>, i: int)
    requires
        0 <= i < texts.len(),
    ensures
        forall|d: int|
            accepted_days(texts.take(i + 1)).contains(d) <==> (accepted_days(texts.take(i)).contains(d)
                || key_day_number(trimmed(texts[i])) == Some(d)),
{
    let more = texts.take(i + 1);
    let less = texts.take(i);
    assert forall|d: int|
        accepted_days(more).contains(d) <==> (accepted_days(less).contains(d) || key_day_number(
            trimmed(texts[i]),
        ) == Some(d)) by {
        if accepted_days(more).contains(d) {
            let k = choose|k: int|
                0 <= k < more.len() && key_day_number(trimmed(#[trigger] more[k])) == Some(d);
            if k < i {
                assert(less[k] == more[k]);
            } else {
                assert(more[k] == texts[i]);
            }
        }
        if accepted_days(less).contains(d) {
            let k = choose|k: int|
                0 <= k < less.len() && key_day_number(trimmed(#[trigger] less[k])) == Some(d);
            assert(more[k] == less[k]);
        }
        if key_day_number(trimmed(texts[i])) == Some(d) {
            assert(more[i] == texts[i]);
        }
    }
}

/// The day number of a text, where it has one, is that of a challenge key.
proof fn lemma_key_day_number_range_or_none(text: Seq<char>)
    ensures
        key_day_number(text) matches Some(d) ==> -719528 <= d <= 2932896,
{
    if is_challenge_key(text) {
        lemma_key_day_number_range(text);
    }
}

/// A run that stops at a day which is missing is no longer than up to that
/// day.
pub proof fn lemma_run_is_bounded(days: Set<int>, last: int, length: int)
    requires
        is_run_length(days, last, length),
    ensures
        forall|n: int| #[trigger] is_run(days, last, n) ==> n <= length,
{
    assert forall|n: int| #[trigger] is_run(days, last, n) implies n <= length by {
        if n > length {
            assert(days.contains(last - length));
        }
    }
}

/// A set of days has one latest day at most.
pub proof fn lemma_latest_day_unique(days: Set<int>, a: int, b: int)
    requires
        is_latest_day(days, a),
    ensures
        is_latest_day(days, latest_day(days)),
        is_latest_day(days, b) ==> a == b,
{
}

/// The run that ends with a day has one length.
pub proof fn lemma_run_length_unique(days: Set<int>, last: int, a: int, b: int)
    requires
        is_run_length(days, last, a),
    ensures
        is_run_length(days, last, run_length(days, last)),
        is_run_length(days, last, b) ==> a == b,
        run_length(days, last) == a,
{
    lemma_run_is_bounded(days, last, a);
    let c = run_length(days, last);
    lemma_run_is_bounded(days, last, c);
    if is_run_length(days, last, b) {
        lemma_run_is_bounded(days, last, b);
    }
}

/// The longest run among a set of days has one length.
pub proof fn lemma_longest_run_unique(days: Set<int>, a: int, b: int)
    requires
        is_longest_run(days, a),
    ensures
        is_longest_run(days, longest_run(days)),
        is_longest_run(days, b) ==> a == b,
        longest_run(days) == a,
{
}

} // verus!
