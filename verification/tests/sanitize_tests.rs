use scoreboard::errors::ValidationError;
use scoreboard::records::{contains_usage, same_usage, same_usages, ScoreEntry, SkillUsage};
use scoreboard::sanitize::{sanitize_entry, sanitize_optional, sanitize_usage, sanitize_usages};

fn usage(name: &str, hotkey: Option<&str>, command: Option<&str>) -> SkillUsage {
    SkillUsage {
        name: name.to_string(),
        hotkey: hotkey.map(|s| s.to_string()),
        command: command.map(|s| s.to_string()),
    }
}

fn entry(user: &str, score: i64, level: i64, date: &str, skill_usage: Vec<SkillUsage>) -> ScoreEntry {
    ScoreEntry {
        user: user.to_string(),
        score,
        level,
        date: date.to_string(),
        skill_usage,
        is_me: true,
    }
}

#[test]
fn a_blank_user_name_is_rejected() {
    assert_eq!(
        sanitize_entry(entry("   \t\n", 5, 1, "2024-01-01", vec![])),
        Err(ValidationError::EmptyUserName)
    );
    assert_eq!(sanitize_entry(entry("", 5, 1, "2024-01-01", vec![])), Err(ValidationError::EmptyUserName));
}

#[test]
fn a_long_user_name_is_cut_to_twenty_characters() {
    let clean = sanitize_entry(entry("  abcdefghijklmnopqrstuvwxyz  ", 5, 1, "d", vec![])).unwrap();
    assert_eq!(clean.user, "abcdefghijklmnopqrst");
    let clean = sanitize_entry(entry("ééééééééééééééééééééééé", 5, 1, "d", vec![])).unwrap();
    assert_eq!(clean.user.chars().count(), 20);
}

#[test]
fn negative_score_and_level_become_zero() {
    let clean = sanitize_entry(entry("ann", -7, -1, "2024-01-01", vec![])).unwrap();
    assert_eq!(clean.score, 0);
    assert_eq!(clean.level, 0);
    let clean = sanitize_entry(entry("ann", i64::MIN, i64::MAX, "2024-01-01", vec![])).unwrap();
    assert_eq!(clean.score, 0);
    assert_eq!(clean.level, i64::MAX);
    let clean = sanitize_entry(entry("ann", 12, 3, "2024-01-01", vec![])).unwrap();
    assert_eq!((clean.score, clean.level), (12, 3));
}

#[test]
fn the_date_is_trimmed_and_the_mark_unset() {
    let clean = sanitize_entry(entry(" ann ", 1, 1, "  2024-01-01T10:00:00Z ", vec![])).unwrap();
    assert_eq!(clean.user, "ann");
    assert_eq!(clean.date, "2024-01-01T10:00:00Z");
    assert!(!clean.is_me);
}

#[test]
fn usages_beyond_the_twentieth_are_dropped() {
    let usages: Vec<SkillUsage> = (0..30).map(|i| usage(&format!("skill{i}"), None, None)).collect();
    let clean = sanitize_usages(&usages);
    assert_eq!(clean.len(), 20);
    for (i, kept) in clean.iter().enumerate() {
        assert_eq!(kept.name, format!("skill{i}"));
    }
}

#[test]
fn the_limit_applies_before_nameless_usages_are_dropped() {
    let mut usages: Vec<SkillUsage> = (0..19).map(|_| usage("  ", None, None)).collect();
    usages.push(usage("twentieth", None, None));
    usages.push(usage("twenty-first", None, None));
    let clean = sanitize_usages(&usages);
    assert_eq!(clean, vec![usage("twentieth", None, None)]);
}

#[test]
fn duplicate_usages_collapse_to_the_first() {
    let usages = vec![
        usage("dash", Some("q"), Some("/dash")),
        usage("jump", None, None),
        usage(" dash ", Some(" q"), Some("/dash ")),
        usage("dash", Some("w"), Some("/dash")),
        usage("jump", Some(" "), Some("")),
    ];
    let clean = sanitize_usages(&usages);
    assert_eq!(
        clean,
        vec![
            usage("dash", Some("q"), Some("/dash")),
            usage("jump", None, None),
            usage("dash", Some("w"), Some("/dash")),
        ]
    );
}

#[test]
fn usage_fields_are_trimmed_and_cut() {
    let long = "x".repeat(200);
    let clean = sanitize_usage(&usage(&format!("  {long}"), Some(&long), Some(&long))).unwrap();
    assert_eq!(clean.name, "x".repeat(20));
    assert_eq!(clean.hotkey, Some("x".repeat(16)));
    assert_eq!(clean.command, Some("x".repeat(120)));
}

#[test]
fn a_usage_without_a_name_is_dropped() {
    assert_eq!(sanitize_usage(&usage("   ", Some("q"), Some("/dash"))), None);
    assert_eq!(sanitize_usage(&usage("", None, None)), None);
}

#[test]
fn blank_optional_fields_become_absent() {
    assert_eq!(sanitize_optional(&Some("   ".to_string()), 16), None);
    assert_eq!(sanitize_optional(&None, 16), None);
    assert_eq!(sanitize_optional(&Some(" ctrl ".to_string()), 16), Some("ctrl".to_string()));
    assert_eq!(sanitize_optional(&Some("abcdef".to_string()), 3), Some("abc".to_string()));
}

#[test]
fn an_entry_is_sanitized_as_a_whole() {
    let raw = entry(
        "  Ann  ",
        -3,
        4,
        " 2024-05-06 ",
        vec![usage(" dash ", Some(" "), None), usage("dash", None, Some("  "))],
    );
    let clean = sanitize_entry(raw).unwrap();
    assert_eq!(
        clean,
        ScoreEntry {
            user: "Ann".to_string(),
            score: 0,
            level: 4,
            date: "2024-05-06".to_string(),
            skill_usage: vec![usage("dash", None, None)],
            is_me: false,
        }
    );
}

#[test]
fn usages_are_compared_by_name_hotkey_and_command() {
    let a = usage("dash", Some("q"), None);
    assert!(same_usage(&a, &usage("dash", Some("q"), None)));
    assert!(!same_usage(&a, &usage("dash", None, None)));
    assert!(!same_usage(&a, &usage("dash", Some("q"), Some(""))));
    assert!(!same_usage(&a, &usage("Dash", Some("q"), None)));
    assert!(contains_usage(&vec![usage("x", None, None), a.clone()], &a));
    assert!(!contains_usage(&vec![usage("x", None, None)], &a));
    assert!(same_usages(&vec![a.clone()], &vec![a.clone()]));
    assert!(!same_usages(&vec![a.clone()], &vec![]));
    assert!(!same_usages(&vec![a.clone(), usage("x", None, None)], &vec![usage("x", None, None), a]));
}
