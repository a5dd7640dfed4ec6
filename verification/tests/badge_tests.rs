use scoreboard::badge::{
    badge_status_from_streaks, compute_daily_badge_status, resolve_badge_power, DailyBadgeStatus,
};

fn keys(list: &[&str]) -> Vec<String> {
    list.iter().map(|k| k.to_string()).collect()
}

#[test]
fn three_days_in_a_row_up_to_yesterday() {
    let status = compute_daily_badge_status(keys(&["2024-01-01", "2024-01-02", "2024-01-03"]), "2024-01-04");
    assert_eq!(
        status,
        DailyBadgeStatus {
            current_streak: 3,
            max_streak: 3,
            highest_badge_power: Some(1),
            highest_badge_days: Some(2),
            next_badge_power: Some(2),
            next_badge_days: Some(4),
            days_to_next_badge: Some(1),
        }
    );
}

#[test]
fn a_gap_ends_the_run_and_a_missed_day_ends_the_streak() {
    let status = compute_daily_badge_status(keys(&["2024-01-01", "2024-01-05"]), "2024-01-07");
    assert_eq!(status.current_streak, 0);
    assert_eq!(status.max_streak, 1);
    assert_eq!(status.highest_badge_power, Some(0));
    assert_eq!(status.highest_badge_days, Some(1));
    assert_eq!(status.next_badge_power, Some(1));
    assert_eq!(status.next_badge_days, Some(2));
    assert_eq!(status.days_to_next_badge, Some(2));
}

#[test]
fn a_completion_yesterday_keeps_the_streak_running() {
    let status = compute_daily_badge_status(keys(&["2024-01-01", "2024-01-05"]), "2024-01-06");
    assert_eq!(status.current_streak, 1);
    assert_eq!(status.max_streak, 1);
    let status = compute_daily_badge_status(keys(&["2024-01-01", "2024-01-05"]), "2024-01-05");
    assert_eq!(status.current_streak, 1);
}

#[test]
fn no_completion_means_no_badge() {
    let status = compute_daily_badge_status(Vec::new(), "2024-01-04");
    assert_eq!(
        status,
        DailyBadgeStatus {
            current_streak: 0,
            max_streak: 0,
            highest_badge_power: None,
            highest_badge_days: None,
            next_badge_power: Some(0),
            next_badge_days: Some(1),
            days_to_next_badge: Some(1),
        }
    );
    assert_eq!(compute_daily_badge_status(keys(&["", "soon", "2024-02-30"]), "2024-01-04"), status);
}

#[test]
fn keys_are_trimmed_and_counted_once_in_any_order() {
    let status = compute_daily_badge_status(
        keys(&[" 2024-03-02", "2024-02-29", "2024-03-01 ", "2024-02-29", "2023-02-29", "2024-03-02"]),
        "2024-03-02",
    );
    assert_eq!(status.current_streak, 3);
    assert_eq!(status.max_streak, 3);
}

#[test]
fn the_longest_run_may_lie_in_the_past() {
    let status = compute_daily_badge_status(
        keys(&["2023-12-30", "2023-12-31", "2024-01-01", "2024-01-02", "2024-01-10", "2024-01-11"]),
        "2024-01-12",
    );
    assert_eq!(status.current_streak, 2);
    assert_eq!(status.max_streak, 4);
    assert_eq!(status.highest_badge_power, Some(2));
    assert_eq!(status.next_badge_days, Some(8));
    assert_eq!(status.days_to_next_badge, Some(6));
}

#[test]
fn a_day_that_is_no_key_runs_no_streak() {
    let accepted = keys(&["2024-01-01", "2024-01-02"]);
    assert_eq!(compute_daily_badge_status(accepted.clone(), "").current_streak, 0);
    assert_eq!(compute_daily_badge_status(accepted.clone(), " 2024-01-02 ").current_streak, 0);
    assert_eq!(compute_daily_badge_status(accepted.clone(), "2024-01-01").current_streak, 0);
    assert_eq!(compute_daily_badge_status(accepted.clone(), "2024-01-02").current_streak, 2);
    assert_eq!(compute_daily_badge_status(accepted, "2024-01-03").max_streak, 2);
}

#[test]
fn badge_powers() {
    assert_eq!(resolve_badge_power(i64::MIN), None);
    assert_eq!(resolve_badge_power(-1), None);
    assert_eq!(resolve_badge_power(0), None);
    assert_eq!(resolve_badge_power(1), Some(0));
    assert_eq!(resolve_badge_power(2), Some(1));
    assert_eq!(resolve_badge_power(3), Some(1));
    assert_eq!(resolve_badge_power(4), Some(2));
    assert_eq!(resolve_badge_power(7), Some(2));
    assert_eq!(resolve_badge_power(8), Some(3));
    assert_eq!(resolve_badge_power(255), Some(7));
    assert_eq!(resolve_badge_power(256), Some(8));
    assert_eq!(resolve_badge_power(511), Some(8));
    assert_eq!(resolve_badge_power(512), Some(9));
    assert_eq!(resolve_badge_power(1024), Some(9));
    assert_eq!(resolve_badge_power(i64::MAX), Some(9));
}

#[test]
fn the_highest_badge_has_no_next() {
    let status = badge_status_from_streaks(5, 600);
    assert_eq!(
        status,
        DailyBadgeStatus {
            current_streak: 5,
            max_streak: 600,
            highest_badge_power: Some(9),
            highest_badge_days: Some(512),
            next_badge_power: None,
            next_badge_days: None,
            days_to_next_badge: None,
        }
    );
}

#[test]
fn days_to_the_next_badge_never_fall_below_zero() {
    let status = badge_status_from_streaks(20, 3);
    assert_eq!(status.next_badge_days, Some(4));
    assert_eq!(status.days_to_next_badge, Some(0));
    let status = badge_status_from_streaks(0, 300);
    assert_eq!(status.highest_badge_power, Some(8));
    assert_eq!(status.next_badge_power, Some(9));
    assert_eq!(status.days_to_next_badge, Some(512));
    let status = badge_status_from_streaks(-3, 0);
    assert_eq!(status.days_to_next_badge, Some(4));
}

#[test]
fn a_run_of_six_hundred_days() {
    let mut accepted = Vec::new();
    let lengths = [31u32, 29, 31, 30, 31, 30, 31, 31, 30, 31, 30, 31];
    for year in [2024, 2025] {
        for (index, length) in lengths.iter().enumerate() {
            let length = if year == 2025 && index == 1 { 28 } else { *length };
            for day in 1..=length {
                accepted.push(format!("{year:04}-{:02}-{day:02}", index + 1));
            }
        }
    }
    accepted.truncate(600);
    accepted.reverse();
    let last = accepted[0].clone();
    let status = compute_daily_badge_status(accepted, &last);
    assert_eq!(status.current_streak, 600);
    assert_eq!(status.max_streak, 600);
    assert_eq!(status.highest_badge_power, Some(9));
    assert_eq!(status.days_to_next_badge, None);
}
