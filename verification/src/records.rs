//! Score records as they are cached and sent, and their mathematical models.

use vstd::prelude::*;
use crate::text::same_text;

verus! {

/// One skill that a player used in a run.
#[derive(Debug, Clone, PartialEq, Eq)]
pub struct SkillUsage {
    pub name: String,
    pub hotkey: Option<String>,
    pub command: Option<String>,
}

/// One score as the board shows it. `is_me` marks a record of this device; it
/// is set locally and never taken over from outside.
#[derive(Debug, Clone, PartialEq, Eq)]
pub struct ScoreEntry {
    pub user: String,
    pub score: i64,
    pub level: i64,
    pub date: String,
    pub skill_usage: Vec<SkillUsage>,
    pub is_me: bool,
}

/// The model of a [`SkillUsage`]: the triple by which two usages are the same.
pub struct SkillUsageView {
    pub name: Seq<char>,
    pub hotkey: Option<Seq<char>>,
    pub command: Option<Seq<char>>,
}

/// The model of a [`ScoreEntry`].
pub struct ScoreEntryView {
    pub user: Seq<char>,
    pub score: int,
    pub level: int,
    pub date: Seq<char>,
    pub skill_usage: Seq<SkillUsageView>,
    pub is_me: bool,
}

/// The characters of an optional text.
pub open spec fn optional_text(text: Option<String>) -> Option<Seq<char>> {
    match text {
        Some(s) => Some(s@),
        None => None,
    }
}

/// The models of a list of usages, in order.
pub open spec fn usage_views(usages: Seq<SkillUsage>) -> Seq<SkillUsageView> {
    Seq::new(usages.len(), |i: int| usages[i]@)
}

/// The models of a list of entries, in order.
pub open spec fn entry_views(entries: Seq<ScoreEntry>) -> Seq<ScoreEntryView> {
    Seq::new(entries.len(), |i: int| entries[i]@)
}

impl View for SkillUsage {
    type V = SkillUsageView;

    open spec fn view(&self) -> SkillUsageView {
        SkillUsageView {
            name: self.name@,
            hotkey: optional_text(self.hotkey),
            command: optional_text(self.command),
        }
    }
}

impl View for ScoreEntry {
    type V = ScoreEntryView;

    open spec fn view(&self) -> ScoreEntryView {
        ScoreEntryView {
            user: self.user@,
            score: self.score as int,
            level: self.level as int,
            date: self.date@,
            skill_usage: usage_views(self.skill_usage@),
            is_me: self.is_me,
        }
    }
}

/// Whether two optional texts hold the same characters, or are both absent.
pub fn same_optional_text(a: &Option<String>, b: &Option<String>) -> (r: bool)
    ensures
        r == (optional_text(*a) == optional_text(*b)),
{
    match (a, b) {
        (Some(x), Some(y)) => same_text(x.as_str(), y.as_str()),
        (None, None) => true,
        _ => false,
    }
}

/// Whether two usages have the same name, hotkey and command.
pub fn same_usage(a: &SkillUsage, b: &SkillUsage) -> (r: bool)
    ensures
        r == (a@ == b@),
{
    same_text(a.name.as_str(), b.name.as_str()) && same_optional_text(&a.hotkey, &b.hotkey)
        && same_optional_text(&a.command, &b.command)
}

/// Whether two lists hold the same usages in the same order.
pub fn same_usages(a: &Vec<SkillUsage>, b: &Vec<SkillUsage>) -> (r: bool)
    ensures
        r == (usage_views(a@) == usage_views(b@)),
{
    if a.len() != b.len() {
        proof {
            assert(usage_views(a@).len() != usage_views(b@).len());
        }
        return false;
    }
    let mut i: usize = 0;
    while i < a.len()
        invariant
            i <= a@.len(),
            a@.len() == b@.len(),
            forall|k: int| 0 <= k < i ==> a@[k]@ == b@[k]@,
        decreases a@.len() - i,
    {
        if !same_usage(&a[i], &b[i]) {
            proof {
                assert(usage_views(a@)[i as int] == a@[i as int]@);
                assert(usage_views(b@)[i as int] == b@[i as int]@);
            }
            return false;
        }
        i = i + 1;
    }
    proof {
        assert(usage_views(a@) =~= usage_views(b@));
    }
    true
}

/// Whether `usages` holds a usage with the name, hotkey and command of `usage`.
pub fn contains_usage(usages: &Vec<SkillUsage>, usage: &SkillUsage) -> (r: bool)
    ensures
        r == usage_views(usages@).contains(usage@),
{
    let mut i: usize = 0;
    while i < usages.len()
        invariant
            i <= usages@.len(),
            forall|k: int| 0 <= k < i ==> usages@[k]@ != usage@,
        decreases usages@.len() - i,
    {
        if same_usage(&usages[i], usage) {
            proof {
                assert(usage_views(usages@)[i as int] == usage@);
            }
            return true;
        }
        i = i + 1;
    }
    proof {
        assert forall|k: int| 0 <= k < usage_views(usages@).len() implies usage_views(usages@)[k]
            != usage@ by {
            assert(usage_views(usages@)[k] == usages@[k]@);
        }
    }
    false
}

} // verus!
