//! What merging does to every chapter, told by the fields of the chapters alone.
use crate::chapter::{ChapterError, ChapterMergeStrategy, ChapterModel};
use crate::chapter_laws::joined_keeps_every_chapter;
use crate::chapter_merge::{chapter_count, joined, merged_by, merged_lists, offset, shifted_list};
use vstd::prelude::*;

verus! {

// ---------------------------------------------------------------------------
// New chapters for a file
// ---------------------------------------------------------------------------

/// Replacing everything gives the new chapters, numbers, titles and times included, whatever the
/// existing ones are.
pub proof fn replacing_gives_the_new_chapters(existing: Seq<ChapterModel>, new: Seq<ChapterModel>)
    ensures
        merged_by(ChapterMergeStrategy::ReplaceAll, existing, new) is Ok,
        merged_by(ChapterMergeStrategy::ReplaceAll, existing, new)->Ok_0 == new,
{
}

/// Under every other strategy that merges, the existing chapters stay, every one with its number
/// and its times; the first of them get the titles of the new chapters at the same positions, and
/// the others keep theirs.
pub proof fn other_strategies_retitle_by_position(
    strategy: ChapterMergeStrategy,
    existing: Seq<ChapterModel>,
    new: Seq<ChapterModel>,
    i: int,
)
    requires
        strategy != ChapterMergeStrategy::ReplaceAll,
        strategy == ChapterMergeStrategy::SkipOnMismatch ==> existing.len() == new.len(),
    ensures
        merged_by(strategy, existing, new) is Ok,
        merged_by(strategy, existing, new)->Ok_0.len() == existing.len(),
        0 <= i < existing.len() ==> merged_by(strategy, existing, new)->Ok_0[i].number
            == existing[i].number,
        0 <= i < existing.len() ==> merged_by(strategy, existing, new)->Ok_0[i].start_time_ms
            == existing[i].start_time_ms,
        0 <= i < existing.len() ==> merged_by(strategy, existing, new)->Ok_0[i].end_time_ms
            == existing[i].end_time_ms,
        0 <= i < existing.len() && i < new.len() ==> merged_by(
            strategy,
            existing,
            new,
        )->Ok_0[i].title == new[i].title,
        new.len() <= i < existing.len() ==> merged_by(strategy, existing, new)->Ok_0[i].title
            == existing[i].title,
{
}

/// An update that is skipped because the counts differ names both counts.
pub proof fn a_skipped_update_names_both_counts(
    existing: Seq<ChapterModel>,
    new: Seq<ChapterModel>,
    a: usize,
    b: usize,
)
    requires
        existing.len() == a,
        new.len() == b,
        a != b,
    ensures
        merged_by(ChapterMergeStrategy::SkipOnMismatch, existing, new) == Err::<
            Seq<ChapterModel>,
            ChapterError,
        >(ChapterError::CountMismatch { existing: a, new: b }),
{
}

/// Only the titles of the new chapters matter where timestamps are kept.
pub proof fn kept_timestamps_do_not_depend_on_new_times(
    strategy: ChapterMergeStrategy,
    existing: Seq<ChapterModel>,
    new: Seq<ChapterModel>,
    other: Seq<ChapterModel>,
)
    requires
        strategy != ChapterMergeStrategy::ReplaceAll,
        new.len() == other.len(),
        forall|i: int| 0 <= i < new.len() ==> (#[trigger] new[i]).title == other[i].title,
    ensures
        merged_by(strategy, existing, new) == merged_by(strategy, existing, other),
{
    if merged_by(strategy, existing, new) is Ok {
        let m = merged_by(strategy, existing, new)->Ok_0;
        let o = merged_by(strategy, existing, other)->Ok_0;
        assert forall|i: int| 0 <= i < m.len() implies m[i] == o[i] by {
            other_strategies_retitle_by_position(strategy, existing, new, i);
            other_strategies_retitle_by_position(strategy, existing, other, i);
            if i < new.len() {
                assert(new[i].title == other[i].title);
            }
        }
        assert(m =~= o);
    }
}

// ---------------------------------------------------------------------------
// The chapters of several files
// ---------------------------------------------------------------------------

/// No files have no chapters, and a single file keeps its own, numbers included.
pub proof fn a_single_file_stays_as_it_is(list: Seq<ChapterModel>)
    ensures
        merged_lists(seq![list]) == list,
        merged_lists(Seq::<Seq<ChapterModel>>::empty()).len() == 0,
{
    assert(seq![list][0] == list);
}

/// The time at which the chapters of a merged list end.
pub open spec fn end_of(chapters: Seq<ChapterModel>) -> nat {
    if chapters.len() == 0 {
        0
    } else {
        chapters[chapters.len() - 1].end_time_ms
    }
}

proof fn lemma_totals_ignore_later_files(
    lists: Seq<Seq<ChapterModel>>,
    more: Seq<Seq<ChapterModel>>,
    n: int,
)
    requires
        0 <= n <= lists.len(),
    ensures
        offset(lists + more, n) == offset(lists, n),
        chapter_count(lists + more, n) == chapter_count(lists, n),
        joined(lists + more, n) == joined(lists, n),
    decreases n,
{
    if n > 0 {
        lemma_totals_ignore_later_files(lists, more, n - 1);
        assert((lists + more)[n - 1] == lists[n - 1]);
        assert(shifted_list(lists + more, n - 1) =~= shifted_list(lists, n - 1));
    }
}

proof fn lemma_offset_is_the_end(lists: Seq<Seq<ChapterModel>>, n: int)
    requires
        0 <= n <= lists.len(),
    ensures
        end_of(joined(lists, n)) == offset(lists, n),
    decreases n,
{
    if n > 0 {
        lemma_offset_is_the_end(lists, n - 1);
        let part = shifted_list(lists, n - 1);
        let all = joined(lists, n);
        if part.len() > 0 {
            assert(all[all.len() - 1] == part[part.len() - 1]);
            assert(lists[n - 1].last() == lists[n - 1][lists[n - 1].len() - 1]);
        } else {
            assert(all =~= joined(lists, n - 1));
        }
    }
}

/// Whether `merged` is `before` with the chapters of one more file behind: each with its title, the
/// next number, and its times later by the time at which `before` ends.
pub open spec fn appended(
    before: Seq<ChapterModel>,
    file: Seq<ChapterModel>,
    merged: Seq<ChapterModel>,
) -> bool {
    &&& merged.len() == before.len() + file.len()
    &&& forall|i: int| 0 <= i < before.len() ==> #[trigger] merged[i] == before[i]
    &&& forall|j: int|
        0 <= j < file.len() ==> {
            let m = #[trigger] merged[before.len() + j];
            &&& m.title == file[j].title
            &&& m.number == before.len() + j + 1
            &&& m.start_time_ms == end_of(before) + file[j].start_time_ms
            &&& m.end_time_ms == end_of(before) + file[j].end_time_ms
        }
}

proof fn lemma_joined_appends(lists: Seq<Seq<ChapterModel>>, n: int)
    requires
        0 < n <= lists.len(),
    ensures
        appended(joined(lists, n - 1), lists[n - 1], joined(lists, n)),
{
    let before = joined(lists, n - 1);
    let part = shifted_list(lists, n - 1);
    let all = joined(lists, n);
    lemma_offset_is_the_end(lists, n - 1);
    joined_keeps_every_chapter(lists, n - 1);
    assert(all =~= before + part);
    assert forall|j: int| 0 <= j < lists[n - 1].len() implies {
        let m = #[trigger] all[before.len() + j];
        &&& m.title == lists[n - 1][j].title
        &&& m.number == before.len() + j + 1
        &&& m.start_time_ms == end_of(before) + lists[n - 1][j].start_time_ms
        &&& m.end_time_ms == end_of(before) + lists[n - 1][j].end_time_ms
    } by {
        assert(all[before.len() + j] == part[j]);
    }
}

/// Merging one more file leaves what was merged before as it was, and puts the chapters of the
/// file behind it, later by the time at which it ends.
pub proof fn one_more_file_is_put_behind(
    lists: Seq<Seq<ChapterModel>>,
    file: Seq<ChapterModel>,
)
    requires
        lists.len() >= 2,
    ensures
        appended(merged_lists(lists), file, merged_lists(lists.push(file))),
{
    let all = lists.push(file);
    let n = all.len() as int;
    assert(all =~= lists + seq![file]);
    lemma_totals_ignore_later_files(lists, seq![file], n - 1);
    lemma_joined_appends(all, n);
}

/// Two files are merged by putting the chapters of the second behind those of the first, which
/// keep their titles and times and are numbered from one.
pub proof fn two_files_are_put_one_behind_the_other(
    first: Seq<ChapterModel>,
    second: Seq<ChapterModel>,
    i: int,
)
    ensures
        ({
            let merged = merged_lists(seq![first, second]);
            &&& merged.len() == first.len() + second.len()
            &&& 0 <= i < first.len() ==> merged[i].number == i + 1 && merged[i].title
                == first[i].title && merged[i].start_time_ms == first[i].start_time_ms
                && merged[i].end_time_ms == first[i].end_time_ms
            &&& 0 <= i < second.len() ==> merged[first.len() + i].number == first.len() + i + 1
                && merged[first.len() + i].title == second[i].title && merged[first.len()
                + i].start_time_ms == end_of(first) + second[i].start_time_ms && merged[first.len()
                + i].end_time_ms == end_of(first) + second[i].end_time_ms
        }),
{
    let lists = seq![first, second];
    lemma_joined_appends(lists, 1);
    lemma_joined_appends(lists, 2);
    let one = joined(lists, 1);
    let two = joined(lists, 2);
    assert(joined(lists, 0).len() == 0);
    assert(lists[0] == first && lists[1] == second);
    assert(one.len() == first.len());
    assert(two == merged_lists(lists));
    if first.len() > 0 {
        let l = first.len() - 1;
        assert(one[0 + l].end_time_ms == first[l].end_time_ms);
    }
    assert(end_of(one) == end_of(first));
    if 0 <= i < first.len() {
        assert(one[0 + i].title == first[i].title);
        assert(two[i] == one[i]);
    }
    if 0 <= i < second.len() {
        assert(two[one.len() + i].title == second[i].title);
    }
}

} // verus!
