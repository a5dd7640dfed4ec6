//! The local score cache: a ranked snapshot of the scores seen so far, without
//! duplicates and bounded in size.
//!
//! Entries are ranked by score, then level, then date, the higher first. Two
//! entries are duplicates when they agree in user, score, level, date and skill
//! usages; of a group of duplicates one entry is kept, and it is marked as this
//! device's own when any of the group was.

use vstd::prelude::*;
use vstd::string::*;
use vstd::utf8::encode_utf8;
use crate::records::{entry_views, same_usages, ScoreEntry, ScoreEntryView};
use crate::sanitize::first_items;
use crate::text::{
    bytes_lt, lemma_bytes_lt_irreflexive, lemma_bytes_lt_total, lemma_bytes_lt_transitive,
    same_text, text_lt,
};

verus! {

/// The most entries that the cache holds.
pub const CACHE_MAX_ENTRIES: usize = 100;

/// Whether `a` ranks strictly above `b`: by the higher score, then the higher
/// level, then the later date in the byte order of strings.
pub open spec fn ranks_before(a: ScoreEntryView, b: ScoreEntryView) -> bool {
    ||| a.score > b.score
    ||| a.score == b.score && a.level > b.level
    ||| a.score == b.score && a.level == b.level && bytes_lt(
        encode_utf8(b.date),
        encode_utf8(a.date),
    )
}

/// Whether two entries are duplicates of each other.
pub open spec fn same_record(a: ScoreEntryView, b: ScoreEntryView) -> bool {
    &&& a.user == b.user
    &&& a.score == b.score
    &&& a.level == b.level
    &&& a.date == b.date
    &&& a.skill_usage == b.skill_usage
}

/// Whether the list is in rank order: no entry ranks above one that stands
/// before it.
pub open spec fn ranked(entries: Seq<ScoreEntryView>) -> bool {
    forall|i: int, j: int|
        0 <= i < j < entries.len() ==> !ranks_before(#[trigger] entries[j], #[trigger] entries[i])
}

/// Whether no two entries of the list are duplicates.
pub open spec fn distinct_records(entries: Seq<ScoreEntryView>) -> bool {
    forall|i: int, j: int|
        0 <= i < j < entries.len() ==> !same_record(#[trigger] entries[i], #[trigger] entries[j])
}

/// Whether the list holds a duplicate of `entry`.
pub open spec fn has_record(entries: Seq<ScoreEntryView>, entry: ScoreEntryView) -> bool {
    exists|i: int| 0 <= i < entries.len() && same_record(#[trigger] entries[i], entry)
}

/// Where `entry` goes into a ranked list: behind every entry that it does not
/// rank above, so that of two entries of equal rank the earlier stays first.
pub open spec fn insert_position(entries: Seq<ScoreEntryView>, entry: ScoreEntryView) -> nat
    decreases entries.len(),
{
    if entries.len() > 0 && ranks_before(entry, entries.last()) {
        insert_position(entries.drop_last(), entry)
    } else {
        entries.len()
    }
}

/// The entries in rank order, entries of equal rank in the order they had.
pub open spec fn rank_sorted(entries: Seq<ScoreEntryView>) -> Seq<ScoreEntryView>
    decreases entries.len(),
{
    if entries.len() == 0 {
        Seq::empty()
    } else {
        let before = rank_sorted(entries.drop_last());
        before.insert(insert_position(before, entries.last()) as int, entries.last())
    }
}

/// `entry` with its mark set to `is_me`.
pub open spec fn with_is_me(entry: ScoreEntryView, is_me: bool) -> ScoreEntryView {
    ScoreEntryView {
        user: entry.user,
        score: entry.score,
        level: entry.level,
        date: entry.date,
        skill_usage: entry.skill_usage,
        is_me,
    }
}

/// The list after it has taken in a duplicate: the entries that `entry`
/// duplicates are marked where `entry` is.
pub open spec fn absorb(entries: Seq<ScoreEntryView>, entry: ScoreEntryView) -> Seq<
    ScoreEntryView,
> {
    Seq::new(
        entries.len(),
        |i: int|
            if same_record(entries[i], entry) {
                with_is_me(entries[i], entries[i].is_me || entry.is_me)
            } else {
                entries[i]
            },
    )
}

/// The list without duplicates: of each group the first entry stays, marked
/// where any of the group is.
pub open spec fn merge_duplicates(entries: Seq<ScoreEntryView>) -> Seq<ScoreEntryView>
    decreases entries.len(),
{
    if entries.len() == 0 {
        Seq::empty()
    } else {
        let before = merge_duplicates(entries.drop_last());
        if has_record(before, entries.last()) {
            absorb(before, entries.last())
        } else {
            before.push(entries.last())
        }
    }
}

/// The list in rank order and without duplicates.
pub open spec fn ranked_without_duplicates(entries: Seq<ScoreEntryView>) -> Seq<ScoreEntryView> {
    merge_duplicates(rank_sorted(entries))
}

/// The cache that results from taking `incoming` into `existing`.
pub open spec fn merged_cache(
    existing: Seq<ScoreEntryView>,
    incoming: Seq<ScoreEntryView>,
) -> Seq<ScoreEntryView> {
    first_items(ranked_without_duplicates(existing + incoming), CACHE_MAX_ENTRIES as nat)
}

/// Whether an entry of the list that duplicates `entry` is marked as this
/// device's own.
pub open spec fn group_is_marked(entries: Seq<ScoreEntryView>, entry: ScoreEntryView) -> bool {
    exists|i: int|
        0 <= i < entries.len() && same_record(#[trigger] entries[i], entry) && entries[i].is_me
}

/// Whether `a` ranks strictly above `b`.
pub fn outranks(a: &ScoreEntry, b: &ScoreEntry) -> (r: bool)
    ensures
        r == ranks_before(a@, b@),
{
    if a.score != b.score {
        a.score > b.score
    } else if a.level != b.level {
        a.level > b.level
    } else {
        text_lt(b.date.as_str(), a.date.as_str())
    }
}

/// Whether two entries are duplicates of each other.
pub fn is_same_record(a: &ScoreEntry, b: &ScoreEntry) -> (r: bool)
    ensures
        r == same_record(a@, b@),
{
    a.score == b.score && a.level == b.level && same_text(a.user.as_str(), b.user.as_str())
        && same_text(a.date.as_str(), b.date.as_str()) && same_usages(
        &a.skill_usage,
        &b.skill_usage,
    )
}

/// Puts `entry` into a list in rank order, behind the entries of its rank.
fn insert_by_rank(sorted: &mut Vec<ScoreEntry>, entry: ScoreEntry)
    ensures
        entry_views(final(sorted)@) == entry_views(old(sorted)@).insert(
            insert_position(entry_views(old(sorted)@), entry@) as int,
            entry@,
        ),
{
    let ghost before = entry_views(sorted@);
    let mut position: usize = sorted.len();
    proof {
        assert(before.take(position as int) == before);
    }
    while position > 0 && outranks(&entry, &sorted[position - 1])
        invariant
            position <= sorted@.len(),
            before == entry_views(sorted@),
            insert_position(before, entry@) == insert_position(
                before.take(position as int),
                entry@,
            ),
        decreases position,
    {
        proof {
            assert(before.take(position as int).last() == sorted@[position as int - 1]@);
            assert(before.take(position as int).drop_last() == before.take(position as int - 1));
        }
        position = position - 1;
    }
    proof {
        if position > 0 {
            assert(before.take(position as int).last() == sorted@[position as int - 1]@);
        }
    }
    sorted.insert(position, entry);
    proof {
        assert(entry_views(sorted@) =~= before.insert(position as int, entry@));
    }
}

/// The entries in rank order, entries of equal rank in the order they had.
pub fn sort_by_rank(entries: Vec<ScoreEntry>) -> (r: Vec<ScoreEntry>)
    ensures
        entry_views(r@) == rank_sorted(entry_views(entries@)),
{
    let ghost all = entry_views(entries@);
    let mut source = entries;
    let mut sorted: Vec<ScoreEntry> = Vec::new();
    let ghost mut done: int = 0;
    proof {
        assert(all.skip(0) == all);
        assert(all.take(0) =~= Seq::empty());
        assert(entry_views(sorted@) =~= Seq::empty());
    }
    while source.len() > 0
        invariant
            0 <= done <= all.len(),
            entry_views(source@) == all.skip(done),
            entry_views(sorted@) == rank_sorted(all.take(done)),
        decreases source@.len(),
    {
        let ghost rest = source@;
        let entry = source.remove(0);
        proof {
            lemma_views_after_first(rest, all, done);
            assert(all.take(done + 1).drop_last() == all.take(done));
            assert(all.take(done + 1).last() == entry@);
            done = done + 1;
        }
        insert_by_rank(&mut sorted, entry);
    }
    proof {
        assert(all.skip(done).len() == 0);
        assert(all.take(done) == all);
    }
    sorted
}

/// The place of the first duplicate of `entry` in the list, if it has one.
fn find_record(entries: &Vec<ScoreEntry>, entry: &ScoreEntry) -> (r: Option<usize>)
    ensures
        match r {
            Some(k) => k < entries@.len() && same_record(entries@[k as int]@, entry@),
            None => !has_record(entry_views(entries@), entry@),
        },
{
    let mut i: usize = 0;
    while i < entries.len()
        invariant
            i <= entries@.len(),
            forall|k: int| 0 <= k < i ==> !same_record(#[trigger] entries@[k]@, entry@),
        decreases entries@.len() - i,
    {
        if is_same_record(&entries[i], entry) {
            return Some(i);
        }
        i = i + 1;
    }
    proof {
        assert forall|k: int| 0 <= k < entry_views(entries@).len() implies !same_record(
            #[trigger] entry_views(entries@)[k],
            entry@,
        ) by {
            assert(entry_views(entries@)[k] == entries@[k]@);
        }
    }
    None
}

/// The list without duplicates: of each group the first entry stays, marked
/// where any of the group is.
pub fn merge_duplicate_records(entries: Vec<ScoreEntry>) -> (r: Vec<ScoreEntry>)
    ensures
        entry_views(r@) == merge_duplicates(entry_views(entries@)),
{
    let ghost all = entry_views(entries@);
    let mut source = entries;
    let mut merged: Vec<ScoreEntry> = Vec::new();
    let ghost mut done: int = 0;
    proof {
        assert(all.skip(0) == all);
        assert(all.take(0) =~= Seq::empty());
        assert(entry_views(merged@) =~= Seq::empty());
    }
    while source.len() > 0
        invariant
            0 <= done <= all.len(),
            entry_views(source@) == all.skip(done),
            entry_views(merged@) == merge_duplicates(all.take(done)),
        decreases source@.len(),
    {
        let ghost rest = source@;
        let ghost kept = entry_views(merged@);
        let entry = source.remove(0);
        proof {
            lemma_views_after_first(rest, all, done);
            assert(all.take(done + 1).drop_last() == all.take(done));
            assert(all.take(done + 1).last() == entry@);
            lemma_merge_duplicates_distinct(all.take(done));
            done = done + 1;
        }
        match find_record(&merged, &entry) {
            Some(k) => {
                proof {
                    assert(kept[k as int] == merged@[k as int]@);
                }
                let mut first = merged.remove(k);
                first.is_me = first.is_me || entry.is_me;
                merged.insert(k, first);
                proof {
                    assert(entry_views(merged@) =~= absorb(kept, entry@));
                }
            },
            None => {
                merged.push(entry);
                proof {
                    assert(entry_views(merged@) =~= kept.push(entry@));
                }
            },
        }
    }
    proof {
        assert(all.skip(done).len() == 0);
        assert(all.take(done) == all);
    }
    merged
}

/// Brings the list into rank order and merges its duplicates. What comes out
/// is in rank order, holds no two duplicates, and stays as it is when the
/// same is done to it again.
pub fn sort_and_dedupe(entries: &mut Vec<ScoreEntry>)
    ensures
        entry_views(final(entries)@) == ranked_without_duplicates(entry_views(old(entries)@)),
        ranked(entry_views(final(entries)@)),
        distinct_records(entry_views(final(entries)@)),
        final(entries)@.len() <= old(entries)@.len(),
        ranked_without_duplicates(entry_views(final(entries)@)) == entry_views(final(entries)@),
{
    let ghost given = entry_views(entries@);
    let mut taken: Vec<ScoreEntry> = Vec::new();
    std::mem::swap(entries, &mut taken);
    let sorted = sort_by_rank(taken);
    let mut merged = merge_duplicate_records(sorted);
    std::mem::swap(entries, &mut merged);
    proof {
        lemma_sort_and_dedupe_idempotent(given);
        lemma_rank_sorted(given);
        lemma_merge_duplicates_distinct(rank_sorted(given));
        assert(entry_views(entries@).len() == entries@.len());
        assert(given.len() == old(entries)@.len());
    }
}

/// Cuts the list to its first hundred entries. Of a list in rank order these
/// are the hundred that rank highest: no entry that is dropped ranks above one
/// that is kept.
pub fn truncate_cache(entries: &mut Vec<ScoreEntry>)
    ensures
        final(entries)@ == first_items(old(entries)@, CACHE_MAX_ENTRIES as nat),
        final(entries)@.len() <= CACHE_MAX_ENTRIES,
        ranked(entry_views(old(entries)@)) ==> forall|i: int, j: int|
            0 <= i < final(entries)@.len() <= j < old(entries)@.len() ==> !ranks_before(
                #[trigger] old(entries)@[j]@,
                #[trigger] final(entries)@[i]@,
            ),
{
    let ghost before = entry_views(entries@);
    if entries.len() > CACHE_MAX_ENTRIES {
        entries.truncate(CACHE_MAX_ENTRIES);
    }
    proof {
        if ranked(before) {
            assert forall|i: int, j: int|
                0 <= i < entries@.len() <= j < old(entries)@.len() implies !ranks_before(
                #[trigger] old(entries)@[j]@,
                #[trigger] entries@[i]@,
            ) by {
                assert(before[j] == old(entries)@[j]@);
                assert(before[i] == entries@[i]@);
            }
        }
    }
}

/// Takes `incoming` into the cache `existing`: both lists together, in rank
/// order, without duplicates, cut to a hundred entries.
pub fn merge_cache(existing: Vec<ScoreEntry>, incoming: Vec<ScoreEntry>) -> (r: Vec<ScoreEntry>)
    ensures
        entry_views(r@) == merged_cache(entry_views(existing@), entry_views(incoming@)),
        r@.len() <= CACHE_MAX_ENTRIES,
        ranked(entry_views(r@)),
        distinct_records(entry_views(r@)),
{
    let mut all = existing;
    let mut more = incoming;
    all.append(&mut more);
    proof {
        assert(entry_views(all@) =~= entry_views(existing@) + entry_views(incoming@));
    }
    sort_and_dedupe(&mut all);
    let ghost ranked_all = all@;
    truncate_cache(&mut all);
    proof {
        let whole = entry_views(ranked_all);
        let cut = entry_views(all@);
        assert(cut =~= first_items(whole, CACHE_MAX_ENTRIES as nat));
        assert forall|i: int, j: int| 0 <= i < j < cut.len() implies !ranks_before(
            #[trigger] cut[j],
            #[trigger] cut[i],
        ) && !same_record(cut[i], cut[j]) by {
            assert(cut[i] == whole[i] && cut[j] == whole[j]);
        }
    }
    all
}

/// The cache as it is read: what was stored, in rank order, without
/// duplicates, cut to a hundred entries.
pub fn load_cache(stored: Vec<ScoreEntry>) -> (r: Vec<ScoreEntry>)
    ensures
        entry_views(r@) == merged_cache(entry_views(stored@), Seq::empty()),
        r@.len() <= CACHE_MAX_ENTRIES,
{
    merge_cache(stored, Vec::new())
}

/// The cache from what was found of it. A cache that is missing or cannot be
/// read counts as empty.
pub fn restore_cache(stored: Option<Vec<ScoreEntry>>) -> (r: Vec<ScoreEntry>)
    ensures
        entry_views(r@) == merged_cache(
            match stored {
                Some(entries) => entry_views(entries@),
                None => Seq::empty(),
            },
            Seq::empty(),
        ),
        r@.len() <= CACHE_MAX_ENTRIES,
{
    match stored {
        Some(entries) => load_cache(entries),
        None => {
            let nothing: Vec<ScoreEntry> = Vec::new();
            proof {
                assert(entry_views(nothing@) =~= Seq::empty());
            }
            load_cache(nothing)
        },
    }
}

/// The cache after a score of this device was recorded in it.
pub fn record_local_score(cache: Vec<ScoreEntry>, entry: ScoreEntry) -> (r: Vec<ScoreEntry>)
    ensures
        entry_views(r@) == merged_cache(entry_views(cache@), seq![entry@]),
        r@.len() <= CACHE_MAX_ENTRIES,
{
    let mut incoming: Vec<ScoreEntry> = Vec::new();
    incoming.push(entry);
    proof {
        assert(entry_views(incoming@) =~= seq![entry@]);
    }
    merge_cache(cache, incoming)
}

/// The best `limit` entries of the cache: the list in rank order and without
/// duplicates, cut to `limit` entries.
pub fn top_entries(cache: Vec<ScoreEntry>, limit: usize) -> (r: Vec<ScoreEntry>)
    ensures
        entry_views(r@) == first_items(
            ranked_without_duplicates(entry_views(cache@)),
            limit as nat,
        ),
{
    let mut entries = cache;
    sort_and_dedupe(&mut entries);
    let ghost all = entries@;
    if entries.len() > limit {
        entries.truncate(limit);
    }
    proof {
        assert(entry_views(entries@) =~= first_items(entry_views(all), limit as nat));
    }
    entries
}

/// The models of a list from which the first entry was taken.
proof fn lemma_views_after_first(rest: Seq<ScoreEntry>, all: Seq<ScoreEntryView>, done: int)
    requires
        rest.len() > 0,
        0 <= done <= all.len(),
        entry_views(rest) == all.skip(done),
    ensures
        done < all.len(),
        rest[0]@ == all[done],
        entry_views(rest.remove(0)) == all.skip(done + 1),
{
    assert(entry_views(rest).len() == rest.len());
    assert(entry_views(rest)[0] == rest[0]@);
    assert(all.skip(done)[0] == all[done]);
    assert forall|i: int| 0 <= i < rest.len() - 1 implies entry_views(rest.remove(0))[i]
        == all.skip(done + 1)[i] by {
        assert(rest.remove(0)[i] == rest[i + 1]);
        assert(entry_views(rest)[i + 1] == rest[i + 1]@);
        assert(all.skip(done)[i + 1] == all[done + i + 1]);
    }
    assert(entry_views(rest.remove(0)) =~= all.skip(done + 1));
}

/// No entry ranks above itself, and of two entries at most one ranks above the
/// other.
pub proof fn lemma_rank_asymmetric(a: ScoreEntryView, b: ScoreEntryView)
    ensures
        !(ranks_before(a, b) && ranks_before(b, a)),
{
    if ranks_before(a, b) && ranks_before(b, a) {
        lemma_bytes_lt_transitive(encode_utf8(a.date), encode_utf8(b.date), encode_utf8(a.date));
        lemma_bytes_lt_irreflexive(encode_utf8(a.date));
    }
}

/// Ranking above is transitive.
pub proof fn lemma_rank_transitive(a: ScoreEntryView, b: ScoreEntryView, c: ScoreEntryView)
    requires
        ranks_before(a, b),
        ranks_before(b, c),
    ensures
        ranks_before(a, c),
{
    if a.score == b.score && b.score == c.score && a.level == b.level && b.level == c.level {
        lemma_bytes_lt_transitive(encode_utf8(c.date), encode_utf8(b.date), encode_utf8(a.date));
    }
}

/// Not ranking above is transitive: the rank order is a weak order.
pub proof fn lemma_rank_weak_order(a: ScoreEntryView, b: ScoreEntryView, c: ScoreEntryView)
    requires
        !ranks_before(a, b),
        !ranks_before(b, c),
    ensures
        !ranks_before(a, c),
{
    if ranks_before(a, c) {
        let x = encode_utf8(a.date);
        let y = encode_utf8(b.date);
        let z = encode_utf8(c.date);
        lemma_bytes_lt_total(y, x);
        lemma_bytes_lt_total(z, y);
        if bytes_lt(z, x) && bytes_lt(x, y) && bytes_lt(y, z) {
            lemma_bytes_lt_transitive(x, y, z);
            lemma_bytes_lt_transitive(x, z, x);
            lemma_bytes_lt_irreflexive(x);
        }
    }
}

/// Where an entry goes into a list: every entry behind that place is ranked
/// below it, and the entry just before that place is not.
pub proof fn lemma_insert_position(entries: Seq<ScoreEntryView>, entry: ScoreEntryView)
    ensures
        insert_position(entries, entry) <= entries.len(),
        forall|i: int|
            insert_position(entries, entry) <= i < entries.len() ==> ranks_before(
                entry,
                #[trigger] entries[i],
            ),
        insert_position(entries, entry) > 0 ==> !ranks_before(
            entry,
            entries[insert_position(entries, entry) - 1],
        ),
    decreases entries.len(),
{
    if entries.len() > 0 && ranks_before(entry, entries.last()) {
        lemma_insert_position(entries.drop_last(), entry);
        assert forall|i: int|
            insert_position(entries, entry) <= i < entries.len() implies ranks_before(
            entry,
            #[trigger] entries[i],
        ) by {
            if i < entries.len() - 1 {
                assert(entries[i] == entries.drop_last()[i]);
            }
        }
        if insert_position(entries, entry) > 0 {
            assert(entries[insert_position(entries, entry) - 1] == entries.drop_last()[insert_position(
                entries,
                entry,
            ) - 1]);
        }
    }
}

/// Putting an entry into a list in rank order leaves the list in rank order.
pub proof fn lemma_insert_keeps_ranked(entries: Seq<ScoreEntryView>, entry: ScoreEntryView)
    requires
        ranked(entries),
    ensures
        ranked(entries.insert(insert_position(entries, entry) as int, entry)),
{
    let p = insert_position(entries, entry) as int;
    lemma_insert_position(entries, entry);
    let after = entries.insert(p, entry);
    assert forall|i: int, j: int| 0 <= i < j < after.len() implies !ranks_before(
        #[trigger] after[j],
        #[trigger] after[i],
    ) by {
        if j < p {
            assert(after[i] == entries[i] && after[j] == entries[j]);
        } else if j == p {
            assert(after[i] == entries[i]);
            if i < p - 1 {
                assert(!ranks_before(entries[p - 1], entries[i]));
                lemma_rank_weak_order(entry, entries[p - 1], entries[i]);
            }
        } else if i == p {
            assert(after[j] == entries[j - 1]);
            lemma_rank_asymmetric(entry, entries[j - 1]);
        } else if i < p {
            assert(after[i] == entries[i] && after[j] == entries[j - 1]);
        } else {
            assert(after[i] == entries[i - 1] && after[j] == entries[j - 1]);
        }
    }
}

/// Sorting gives a list in rank order with the entries it was given.
pub proof fn lemma_rank_sorted(entries: Seq<ScoreEntryView>)
    ensures
        ranked(rank_sorted(entries)),
        rank_sorted(entries).len() == entries.len(),
        forall|entry: ScoreEntryView|
            #![trigger rank_sorted(entries).contains(entry)]
            rank_sorted(entries).contains(entry) <==> entries.contains(entry),
    decreases entries.len(),
{
    if entries.len() > 0 {
        let rest = entries.drop_last();
        let last = entries.last();
        lemma_rank_sorted(rest);
        let before = rank_sorted(rest);
        lemma_insert_position(before, last);
        lemma_insert_keeps_ranked(before, last);
        let p = insert_position(before, last) as int;
        let after = before.insert(p, last);
        assert forall|entry: ScoreEntryView| after.contains(entry) <==> entries.contains(
            entry,
        ) by {
            if after.contains(entry) {
                let k = choose|k: int| 0 <= k < after.len() && after[k] == entry;
                if k == p {
                    assert(entries[entries.len() - 1] == entry);
                } else {
                    let b = if k < p { k } else { k - 1 };
                    assert(before[b] == entry);
                    assert(before.contains(entry));
                    assert(rest.contains(entry));
                    let i = choose|i: int| 0 <= i < rest.len() && rest[i] == entry;
                    assert(entries[i] == entry);
                }
            }
            if entries.contains(entry) {
                let i = choose|i: int| 0 <= i < entries.len() && entries[i] == entry;
                if i == entries.len() - 1 {
                    assert(after[p] == entry);
                } else {
                    assert(rest[i] == entry);
                    assert(rest.contains(entry));
                    assert(before.contains(entry));
                    let b = choose|b: int| 0 <= b < before.len() && before[b] == entry;
                    if b < p {
                        assert(after[b] == entry);
                    } else {
                        assert(after[b + 1] == entry);
                    }
                }
            }
        }
    }
}

/// Merging leaves no two duplicates.
pub proof fn lemma_merge_duplicates_distinct(entries: Seq<ScoreEntryView>)
    ensures
        distinct_records(merge_duplicates(entries)),
        merge_duplicates(entries).len() <= entries.len(),
    decreases entries.len(),
{
    if entries.len() > 0 {
        lemma_merge_duplicates_distinct(entries.drop_last());
    }
}

/// A list in rank order is left as it is by sorting.
pub proof fn lemma_rank_sorted_fixes_ranked(entries: Seq<ScoreEntryView>)
    requires
        ranked(entries),
    ensures
        rank_sorted(entries) == entries,
    decreases entries.len(),
{
    if entries.len() > 0 {
        let rest = entries.drop_last();
        assert forall|i: int, j: int| 0 <= i < j < rest.len() implies !ranks_before(
            #[trigger] rest[j],
            #[trigger] rest[i],
        ) by {
            assert(rest[i] == entries[i] && rest[j] == entries[j]);
        }
        lemma_rank_sorted_fixes_ranked(rest);
        if rest.len() > 0 {
            assert(rest.last() == entries[entries.len() - 2]);
            assert(entries.last() == entries[entries.len() - 1]);
        }
        assert(insert_position(rest, entries.last()) == rest.len());
        assert(rest.insert(rest.len() as int, entries.last()) =~= entries);
    }
}

/// A list without duplicates is left as it is by merging.
pub proof fn lemma_merge_fixes_distinct(entries: Seq<ScoreEntryView>)
    requires
        distinct_records(entries),
    ensures
        merge_duplicates(entries) == entries,
    decreases entries.len(),
{
    if entries.len() > 0 {
        let rest = entries.drop_last();
        assert forall|i: int, j: int| 0 <= i < j < rest.len() implies !same_record(
            #[trigger] rest[i],
            #[trigger] rest[j],
        ) by {
            assert(rest[i] == entries[i] && rest[j] == entries[j]);
        }
        lemma_merge_fixes_distinct(rest);
        assert(!has_record(rest, entries.last())) by {
            if has_record(rest, entries.last()) {
                let i = choose|i: int| 0 <= i < rest.len() && same_record(#[trigger] rest[i], entries.last());
                assert(rest[i] == entries[i]);
                assert(entries.last() == entries[entries.len() - 1]);
            }
        }
        assert(rest.push(entries.last()) =~= entries);
    }
}

/// Merging the duplicates of a list in rank order leaves it in rank order, and
/// every entry kept is a duplicate of one that was given.
pub proof fn lemma_merge_keeps_ranked(entries: Seq<ScoreEntryView>)
    requires
        ranked(entries),
    ensures
        ranked(merge_duplicates(entries)),
        forall|k: int|
            0 <= k < merge_duplicates(entries).len() ==> has_record(
                entries,
                #[trigger] merge_duplicates(entries)[k],
            ),
    decreases entries.len(),
{
    if entries.len() > 0 {
        let rest = entries.drop_last();
        let last = entries.last();
        assert forall|i: int, j: int| 0 <= i < j < rest.len() implies !ranks_before(
            #[trigger] rest[j],
            #[trigger] rest[i],
        ) by {
            assert(rest[i] == entries[i] && rest[j] == entries[j]);
        }
        lemma_merge_keeps_ranked(rest);
        let before = merge_duplicates(rest);
        let after = merge_duplicates(entries);
        assert forall|k: int| 0 <= k < after.len() implies has_record(entries, #[trigger] after[k]) by {
            if k < before.len() {
                assert(has_record(rest, before[k]));
                let i = choose|i: int| 0 <= i < rest.len() && same_record(#[trigger] rest[i], before[k]);
                assert(entries[i] == rest[i]);
                assert(same_record(entries[i], after[k]));
            } else {
                assert(same_record(entries[entries.len() - 1], after[k]));
            }
        }
        assert forall|i: int, j: int| 0 <= i < j < after.len() implies !ranks_before(
            #[trigger] after[j],
            #[trigger] after[i],
        ) by {
            if j < before.len() {
                assert(!ranks_before(before[j], before[i]));
            } else {
                assert(has_record(rest, before[i]));
                let s = choose|s: int| 0 <= s < rest.len() && same_record(#[trigger] rest[s], before[i]);
                assert(entries[s] == rest[s]);
                assert(!ranks_before(entries[entries.len() - 1], entries[s]));
            }
        }
    }
}

/// What merging keeps: every entry given has a duplicate among the entries
/// kept, every entry kept duplicates one that was given, and an entry kept is
/// marked exactly where an entry of its group was.
pub proof fn lemma_merge_marks(entries: Seq<ScoreEntryView>)
    ensures
        forall|i: int|
            0 <= i < entries.len() ==> has_record(merge_duplicates(entries), #[trigger] entries[i]),
        forall|k: int|
            0 <= k < merge_duplicates(entries).len() ==> has_record(
                entries,
                #[trigger] merge_duplicates(entries)[k],
            ),
        forall|k: int|
            0 <= k < merge_duplicates(entries).len() ==> ((#[trigger] merge_duplicates(
                entries,
            )[k]).is_me <==> group_is_marked(entries, merge_duplicates(entries)[k])),
    decreases entries.len(),
{
    if entries.len() > 0 {
        let rest = entries.drop_last();
        let last = entries.last();
        lemma_merge_marks(rest);
        let before = merge_duplicates(rest);
        let after = merge_duplicates(entries);
        assert(after.len() >= before.len());
        assert forall|k: int| 0 <= k < before.len() implies same_record(
            #[trigger] after[k],
            before[k],
        ) by {}
        assert forall|i: int| 0 <= i < entries.len() implies has_record(
            after,
            #[trigger] entries[i],
        ) by {
            if i < rest.len() {
                assert(entries[i] == rest[i]);
                assert(has_record(before, rest[i]));
                let k = choose|k: int|
                    0 <= k < before.len() && same_record(#[trigger] before[k], rest[i]);
                assert(same_record(after[k], entries[i]));
            } else {
                if has_record(before, last) {
                    let k = choose|k: int|
                        0 <= k < before.len() && same_record(#[trigger] before[k], last);
                    assert(same_record(after[k], entries[i]));
                } else {
                    assert(same_record(after[before.len() as int], entries[i]));
                }
            }
        }
        assert forall|k: int| 0 <= k < after.len() implies has_record(entries, #[trigger] after[k]) by {
            if k < before.len() {
                assert(has_record(rest, before[k]));
                let i = choose|i: int| 0 <= i < rest.len() && same_record(#[trigger] rest[i], before[k]);
                assert(entries[i] == rest[i]);
                assert(same_record(entries[i], after[k]));
            } else {
                assert(same_record(entries[entries.len() - 1], after[k]));
            }
        }
        assert forall|k: int| 0 <= k < after.len() implies ((#[trigger] after[k]).is_me
            <==> group_is_marked(entries, after[k])) by {
            let kept = after[k];
            if k < before.len() {
                assert(before[k].is_me <==> group_is_marked(rest, before[k]));
                if group_is_marked(rest, before[k]) {
                    let i = choose|i: int|
                        0 <= i < rest.len() && same_record(#[trigger] rest[i], before[k])
                            && rest[i].is_me;
                    assert(entries[i] == rest[i]);
                    assert(same_record(entries[i], kept) && entries[i].is_me);
                }
                if same_record(before[k], last) && last.is_me && has_record(before, last) {
                    assert(same_record(entries[entries.len() - 1], kept) && entries[entries.len()
                        - 1].is_me);
                }
                if group_is_marked(entries, kept) {
                    let i = choose|i: int|
                        0 <= i < entries.len() && same_record(#[trigger] entries[i], kept)
                            && entries[i].is_me;
                    if i < rest.len() {
                        assert(rest[i] == entries[i]);
                        assert(same_record(rest[i], before[k]) && rest[i].is_me);
                        assert(group_is_marked(rest, before[k]));
                    } else {
                        assert(same_record(before[k], last));
                        assert(has_record(before, last));
                    }
                }
            } else {
                assert(!has_record(before, last));
                assert(kept == last);
                if last.is_me {
                    assert(same_record(entries[entries.len() - 1], kept) && entries[entries.len()
                        - 1].is_me);
                }
                if group_is_marked(entries, kept) {
                    let i = choose|i: int|
                        0 <= i < entries.len() && same_record(#[trigger] entries[i], kept)
                            && entries[i].is_me;
                    if i < rest.len() {
                        assert(rest[i] == entries[i]);
                        assert(has_record(before, rest[i]));
                        let j = choose|j: int|
                            0 <= j < before.len() && same_record(#[trigger] before[j], rest[i]);
                        assert(same_record(before[j], last));
                    }
                }
            }
        }
    }
}

/// What `sort_and_dedupe` keeps: every entry given has a duplicate among the
/// entries kept, every entry kept duplicates one that was given, and an entry
/// kept is marked as this device's own exactly where an entry of its group
/// was.
pub proof fn lemma_kept_entries(entries: Seq<ScoreEntryView>)
    ensures
        forall|i: int|
            0 <= i < entries.len() ==> has_record(
                ranked_without_duplicates(entries),
                #[trigger] entries[i],
            ),
        forall|k: int|
            0 <= k < ranked_without_duplicates(entries).len() ==> has_record(
                entries,
                #[trigger] ranked_without_duplicates(entries)[k],
            ),
        forall|k: int|
            0 <= k < ranked_without_duplicates(entries).len() ==> ((
            #[trigger] ranked_without_duplicates(entries)[k]).is_me <==> group_is_marked(
                entries,
                ranked_without_duplicates(entries)[k],
            )),
{
    let sorted = rank_sorted(entries);
    let kept = merge_duplicates(sorted);
    lemma_rank_sorted(entries);
    lemma_merge_marks(sorted);
    assert forall|i: int| 0 <= i < entries.len() implies has_record(kept, #[trigger] entries[i]) by {
        assert(entries.contains(entries[i]));
        assert(sorted.contains(entries[i]));
        let j = choose|j: int| 0 <= j < sorted.len() && sorted[j] == entries[i];
        assert(has_record(kept, sorted[j]));
    }
    assert forall|k: int| 0 <= k < kept.len() implies has_record(entries, #[trigger] kept[k]) by {
        assert(has_record(sorted, kept[k]));
        let j = choose|j: int| 0 <= j < sorted.len() && same_record(#[trigger] sorted[j], kept[k]);
        assert(sorted.contains(sorted[j]));
        assert(entries.contains(sorted[j]));
        let i = choose|i: int| 0 <= i < entries.len() && entries[i] == sorted[j];
        assert(same_record(entries[i], kept[k]));
    }
    assert forall|k: int| 0 <= k < kept.len() implies ((#[trigger] kept[k]).is_me
        <==> group_is_marked(entries, kept[k])) by {
        assert(kept[k].is_me <==> group_is_marked(sorted, kept[k]));
        if group_is_marked(sorted, kept[k]) {
            let j = choose|j: int|
                0 <= j < sorted.len() && same_record(#[trigger] sorted[j], kept[k]) && sorted[j].is_me;
            assert(sorted.contains(sorted[j]));
            assert(entries.contains(sorted[j]));
            let i = choose|i: int| 0 <= i < entries.len() && entries[i] == sorted[j];
            assert(same_record(entries[i], kept[k]) && entries[i].is_me);
        }
        if group_is_marked(entries, kept[k]) {
            let i = choose|i: int|
                0 <= i < entries.len() && same_record(#[trigger] entries[i], kept[k])
                    && entries[i].is_me;
            assert(entries.contains(entries[i]));
            assert(sorted.contains(entries[i]));
            let j = choose|j: int| 0 <= j < sorted.len() && sorted[j] == entries[i];
            assert(same_record(sorted[j], kept[k]) && sorted[j].is_me);
        }
    }
}

/// Sorting and merging once more changes nothing: what `sort_and_dedupe` gives
/// is a fixed point of it.
pub proof fn lemma_sort_and_dedupe_idempotent(entries: Seq<ScoreEntryView>)
    ensures
        ranked_without_duplicates(ranked_without_duplicates(entries)) == ranked_without_duplicates(
            entries,
        ),
        ranked(ranked_without_duplicates(entries)),
        distinct_records(ranked_without_duplicates(entries)),
{
    lemma_rank_sorted(entries);
    lemma_merge_keeps_ranked(rank_sorted(entries));
    lemma_merge_duplicates_distinct(rank_sorted(entries));
    let once = ranked_without_duplicates(entries);
    lemma_rank_sorted_fixes_ranked(once);
    lemma_merge_fixes_distinct(once);
}

/// Taking nothing into a cache that was ranked, merged and cut before leaves it
/// as it is.
pub proof fn lemma_merged_cache_idempotent(
    existing: Seq<ScoreEntryView>,
    incoming: Seq<ScoreEntryView>,
)
    ensures
        merged_cache(merged_cache(existing, incoming), Seq::empty()) == merged_cache(
            existing,
            incoming,
        ),
{
    let all = existing + incoming;
    let once = ranked_without_duplicates(all);
    let cut = first_items(once, CACHE_MAX_ENTRIES as nat);
    lemma_sort_and_dedupe_idempotent(all);
    assert(cut + Seq::<ScoreEntryView>::empty() =~= cut);
    assert(ranked(cut)) by {
        assert forall|i: int, j: int| 0 <= i < j < cut.len() implies !ranks_before(
            #[trigger] cut[j],
            #[trigger] cut[i],
        ) by {
            assert(cut[i] == once[i] && cut[j] == once[j]);
        }
    }
    assert(distinct_records(cut)) by {
        assert forall|i: int, j: int| 0 <= i < j < cut.len() implies !same_record(
            #[trigger] cut[i],
            #[trigger] cut[j],
        ) by {
            assert(cut[i] == once[i] && cut[j] == once[j]);
        }
    }
    lemma_rank_sorted_fixes_ranked(cut);
    lemma_merge_fixes_distinct(cut);
}

/// Two entries that differ in nothing but the mark collapse into one entry,
/// and that entry is marked.
pub proof fn lemma_duplicate_pair_collapses(a: ScoreEntryView, b: ScoreEntryView)
    requires
        same_record(a, b),
        a.is_me != b.is_me,
    ensures
        ranked_without_duplicates(seq![a, b]) == seq![with_is_me(a, true)],
{
    let pair = seq![a, b];
    lemma_rank_asymmetric(a, b);
    lemma_bytes_lt_irreflexive(encode_utf8(a.date));
    assert(pair.drop_last() =~= seq![a]);
    assert(seq![a].drop_last() =~= Seq::<ScoreEntryView>::empty());
    assert(rank_sorted(Seq::<ScoreEntryView>::empty()) =~= Seq::<ScoreEntryView>::empty());
    assert(rank_sorted(seq![a]) =~= seq![a]) by {
        assert(insert_position(Seq::<ScoreEntryView>::empty(), a) == 0);
        assert(Seq::<ScoreEntryView>::empty().insert(0, a) =~= seq![a]);
    }
    assert(!ranks_before(b, a));
    assert(insert_position(seq![a], b) == 1);
    assert(seq![a].insert(1, b) =~= pair);
    assert(rank_sorted(pair) == pair);
    assert(merge_duplicates(Seq::<ScoreEntryView>::empty()) =~= Seq::<ScoreEntryView>::empty());
    assert(merge_duplicates(seq![a]) =~= seq![a]) by {
        assert(!has_record(Seq::<ScoreEntryView>::empty(), a));
        assert(Seq::<ScoreEntryView>::empty().push(a) =~= seq![a]);
    }
    assert(has_record(seq![a], b)) by {
        assert(same_record(seq![a][0], b));
    }
    assert(absorb(seq![a], b) =~= seq![with_is_me(a, true)]);
}

} // verus!
