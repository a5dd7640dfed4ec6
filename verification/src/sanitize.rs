//! The entry sanitizer: brings a submitted score record into the shape in
//! which it is cached and sent, or rejects it.

use vstd::prelude::*;
use crate::errors::ValidationError;
use crate::records::{
    contains_usage, optional_text, usage_views, ScoreEntry, ScoreEntryView, SkillUsage,
    SkillUsageView,
};
use crate::text::{all_white_space, lemma_trimmed_empty, prefix, trim, trim_and_limit, trimmed};

verus! {

/// The most characters of a user name.
pub const MAX_USER_NAME_LEN: usize = 20;

/// The most skill usages read from one entry.
pub const MAX_SKILL_USAGE_ITEMS: usize = 20;

/// The most characters of a skill's name.
pub const MAX_SKILL_NAME_LEN: usize = 20;

/// The most characters of a skill's hotkey.
pub const MAX_SKILL_HOTKEY_LEN: usize = 16;

/// The most characters of a skill's command.
pub const MAX_SKILL_COMMAND_LEN: usize = 120;

/// A text trimmed and cut to `limit` characters.
pub open spec fn clean_text(text: Seq<char>, limit: nat) -> Seq<char> {
    prefix(trimmed(text), limit)
}

/// An optional text trimmed and cut to `limit` characters; absent where nothing
/// is left of it.
pub open spec fn clean_optional(text: Option<Seq<char>>, limit: nat) -> Option<Seq<char>> {
    match text {
        Some(s) => if clean_text(s, limit).len() == 0 {
            None
        } else {
            Some(clean_text(s, limit))
        },
        None => None,
    }
}

/// One usage cleaned; `None` where nothing is left of its name.
pub open spec fn clean_usage(usage: SkillUsageView) -> Option<SkillUsageView> {
    if clean_text(usage.name, MAX_SKILL_NAME_LEN as nat).len() == 0 {
        None
    } else {
        Some(
            SkillUsageView {
                name: clean_text(usage.name, MAX_SKILL_NAME_LEN as nat),
                hotkey: clean_optional(usage.hotkey, MAX_SKILL_HOTKEY_LEN as nat),
                command: clean_optional(usage.command, MAX_SKILL_COMMAND_LEN as nat),
            },
        )
    }
}

/// The usages of `raw` cleaned, in order, each kept where it has a name and no
/// usage before it has the same name, hotkey and command.
pub open spec fn collect_usages(raw: Seq<SkillUsageView>) -> Seq<SkillUsageView>
    decreases raw.len(),
{
    if raw.len() == 0 {
        Seq::empty()
    } else {
        let before = collect_usages(raw.drop_last());
        match clean_usage(raw.last()) {
            Some(usage) => if before.contains(usage) {
                before
            } else {
                before.push(usage)
            },
            None => before,
        }
    }
}

/// The first `limit` items of a list, or all of it where it is shorter.
pub open spec fn first_items<T>(items: Seq<T>, limit: nat) -> Seq<T> {
    if items.len() <= limit {
        items
    } else {
        items.take(limit as int)
    }
}

/// The skill usages of a sanitized entry: only the first twenty are read.
pub open spec fn sanitized_usages(raw: Seq<SkillUsageView>) -> Seq<SkillUsageView> {
    collect_usages(first_items(raw, MAX_SKILL_USAGE_ITEMS as nat))
}

/// A number raised to zero where it is negative.
pub open spec fn floor_zero(n: int) -> int {
    if n < 0 { 0 } else { n }
}

/// Whether nothing is left of the entry's user name.
pub open spec fn user_name_is_empty(entry: ScoreEntryView) -> bool {
    clean_text(entry.user, MAX_USER_NAME_LEN as nat).len() == 0
}

/// The sanitized form of an entry.
pub open spec fn sanitized_entry(entry: ScoreEntryView) -> ScoreEntryView {
    ScoreEntryView {
        user: clean_text(entry.user, MAX_USER_NAME_LEN as nat),
        score: floor_zero(entry.score),
        level: floor_zero(entry.level),
        date: trimmed(entry.date),
        skill_usage: sanitized_usages(entry.skill_usage),
        is_me: false,
    }
}

/// Whether a usage is in shape: a name of 1 to 20 characters, and a hotkey and
/// a command that are absent or hold 1 to 16 and 1 to 120 characters.
pub open spec fn usage_is_clean(usage: SkillUsageView) -> bool {
    &&& 0 < usage.name.len() <= MAX_SKILL_NAME_LEN
    &&& usage.hotkey matches Some(hotkey) ==> 0 < hotkey.len() <= MAX_SKILL_HOTKEY_LEN
    &&& usage.command matches Some(command) ==> 0 < command.len() <= MAX_SKILL_COMMAND_LEN
}

/// Whether an entry is in the shape in which it is cached and sent: a user
/// name of 1 to 20 characters, score and level of at least zero, and at most
/// twenty skill usages, each in shape and no two of them the same.
pub open spec fn entry_is_clean(entry: ScoreEntryView) -> bool {
    &&& 0 < entry.user.len() <= MAX_USER_NAME_LEN
    &&& entry.score >= 0
    &&& entry.level >= 0
    &&& entry.skill_usage.len() <= MAX_SKILL_USAGE_ITEMS
    &&& distinct(entry.skill_usage)
    &&& forall|i: int| 0 <= i < entry.skill_usage.len() ==> usage_is_clean(#[trigger] entry.skill_usage[i])
}

/// No two items of the list are equal.
pub open spec fn distinct<T>(items: Seq<T>) -> bool {
    forall|i: int, j: int| 0 <= i < j < items.len() ==> items[i] != items[j]
}

/// Trims an optional text and cuts it to `limit` characters.
pub fn sanitize_optional(text: &Option<String>, limit: usize) -> (r: Option<String>)
    ensures
        optional_text(r) == clean_optional(optional_text(*text), limit as nat),
{
    match text {
        Some(value) => {
            let cleaned = trim_and_limit(value.as_str(), limit);
            if cleaned.as_str().is_empty() {
                None
            } else {
                Some(cleaned)
            }
        },
        None => None,
    }
}

/// Cleans one usage; `None` where nothing is left of its name.
pub fn sanitize_usage(usage: &SkillUsage) -> (r: Option<SkillUsage>)
    ensures
        match r {
            Some(cleaned) => clean_usage(usage@) == Some(cleaned@),
            None => clean_usage(usage@) is None,
        },
{
    let name = trim_and_limit(usage.name.as_str(), MAX_SKILL_NAME_LEN);
    if name.as_str().is_empty() {
        return None;
    }
    let hotkey = sanitize_optional(&usage.hotkey, MAX_SKILL_HOTKEY_LEN);
    let command = sanitize_optional(&usage.command, MAX_SKILL_COMMAND_LEN);
    Some(SkillUsage { name, hotkey, command })
}

/// Cleans the usages of an entry: reads the first twenty, drops those without a
/// name, and keeps the first of any that agree in name, hotkey and command.
pub fn sanitize_usages(raw: &Vec<SkillUsage>) -> (r: Vec<SkillUsage>)
    ensures
        usage_views(r@) == sanitized_usages(usage_views(raw@)),
        distinct(usage_views(r@)),
        r@.len() <= MAX_SKILL_USAGE_ITEMS,
{
    let limit = if raw.len() > MAX_SKILL_USAGE_ITEMS {
        MAX_SKILL_USAGE_ITEMS
    } else {
        raw.len()
    };
    let ghost read = first_items(usage_views(raw@), MAX_SKILL_USAGE_ITEMS as nat);
    let mut kept: Vec<SkillUsage> = Vec::new();
    let mut i: usize = 0;
    proof {
        assert(read.take(0) =~= Seq::empty());
    }
    while i < limit
        invariant
            i <= limit,
            limit == read.len(),
            limit <= raw@.len(),
            read == first_items(usage_views(raw@), MAX_SKILL_USAGE_ITEMS as nat),
            usage_views(kept@) == collect_usages(read.take(i as int)),
        decreases limit - i,
    {
        let cleaned = sanitize_usage(&raw[i]);
        proof {
            assert(read.take(i as int + 1).drop_last() == read.take(i as int));
            assert(read.take(i as int + 1).last() == raw@[i as int]@);
        }
        match cleaned {
            Some(usage) => {
                if !contains_usage(&kept, &usage) {
                    let ghost before = kept@;
                    kept.push(usage);
                    proof {
                        assert(usage_views(kept@) =~= usage_views(before).push(usage@));
                    }
                }
            },
            None => {},
        }
        i = i + 1;
    }
    proof {
        assert(read.take(limit as int) == read);
        lemma_collect_usages(read);
    }
    kept
}

/// Brings a submitted entry into shape: the user name trimmed and cut to twenty
/// characters, score and level no lower than zero, the date trimmed, the skill
/// usages cleaned, and `is_me` unset. An entry without a user name is rejected.
pub fn sanitize_entry(entry: ScoreEntry) -> (r: Result<ScoreEntry, ValidationError>)
    ensures
        match r {
            Ok(clean) => !user_name_is_empty(entry@) && clean@ == sanitized_entry(entry@)
                && entry_is_clean(clean@),
            Err(error) => user_name_is_empty(entry@) && error == ValidationError::EmptyUserName,
        },
{
    let user = trim_and_limit(entry.user.as_str(), MAX_USER_NAME_LEN);
    if user.as_str().is_empty() {
        return Err(ValidationError::EmptyUserName);
    }
    proof {
        lemma_sanitized_entry_is_clean(entry@);
    }
    let skill_usage = sanitize_usages(&entry.skill_usage);
    let score = if entry.score < 0 { 0 } else { entry.score };
    let level = if entry.level < 0 { 0 } else { entry.level };
    let date = trim(entry.date.as_str()).to_owned();
    Ok(ScoreEntry { user, score, level, date, skill_usage, is_me: false })
}

/// What `collect_usages` keeps is pairwise different and no longer than what
/// it read, and each kept usage is the cleaned form of one that was read.
pub proof fn lemma_collect_usages(raw: Seq<SkillUsageView>)
    ensures
        distinct(collect_usages(raw)),
        collect_usages(raw).len() <= raw.len(),
        forall|k: int|
            0 <= k < collect_usages(raw).len() ==> exists|i: int|
                0 <= i < raw.len() && clean_usage(raw[i]) == Some(#[trigger] collect_usages(raw)[k]),
    decreases raw.len(),
{
    if raw.len() > 0 {
        let rest = raw.drop_last();
        lemma_collect_usages(rest);
        let before = collect_usages(rest);
        let kept = collect_usages(raw);
        assert forall|k: int| 0 <= k < kept.len() implies exists|i: int|
            0 <= i < raw.len() && clean_usage(raw[i]) == Some(#[trigger] kept[k]) by {
            if k < before.len() {
                let i = choose|i: int| 0 <= i < rest.len() && clean_usage(rest[i]) == Some(before[k]);
                assert(raw[i] == rest[i]);
            } else {
                assert(clean_usage(raw[raw.len() - 1]) == Some(kept[k]));
            }
        }
    }
}

/// Every accepted entry is in shape once it is sanitized.
pub proof fn lemma_sanitized_entry_is_clean(entry: ScoreEntryView)
    requires
        !user_name_is_empty(entry),
    ensures
        entry_is_clean(sanitized_entry(entry)),
{
    let read = first_items(entry.skill_usage, MAX_SKILL_USAGE_ITEMS as nat);
    let kept = collect_usages(read);
    lemma_collect_usages(read);
    assert forall|k: int| 0 <= k < kept.len() implies usage_is_clean(#[trigger] kept[k]) by {
        let i = choose|i: int| 0 <= i < read.len() && clean_usage(read[i]) == Some(kept[k]);
        assert(clean_usage(read[i]) == Some(kept[k]));
    }
}

/// A user name of white space only is rejected.
pub proof fn lemma_blank_user_is_rejected(entry: ScoreEntryView)
    requires
        all_white_space(entry.user),
    ensures
        user_name_is_empty(entry),
{
    lemma_trimmed_empty(entry.user);
}

/// A user name that is still longer than twenty characters once trimmed is cut
/// to its first twenty, and the entry is accepted.
pub proof fn lemma_long_user_is_truncated(entry: ScoreEntryView)
    requires
        trimmed(entry.user).len() > MAX_USER_NAME_LEN,
    ensures
        !user_name_is_empty(entry),
        sanitized_entry(entry).user == trimmed(entry.user).take(MAX_USER_NAME_LEN as int),
{
}

/// Usages after the twentieth have no part in the result.
pub proof fn lemma_usages_beyond_limit_are_dropped(raw: Seq<SkillUsageView>)
    requires
        raw.len() >= MAX_SKILL_USAGE_ITEMS,
    ensures
        sanitized_usages(raw) == sanitized_usages(raw.take(MAX_SKILL_USAGE_ITEMS as int)),
{
    let head = raw.take(MAX_SKILL_USAGE_ITEMS as int);
    assert(first_items(raw, MAX_SKILL_USAGE_ITEMS as nat) =~= head);
    assert(first_items(head, MAX_SKILL_USAGE_ITEMS as nat) =~= head);
}

} // verus!
