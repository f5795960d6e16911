//! Merging chapter lists: new titles into existing chapters, and the chapters of several files
//! into one.
use crate::chapter::{
    copy_chapters, models, Chapter, ChapterComparison, ChapterError, ChapterMergeStrategy,
    ChapterModel,
};
use crate::chapter_import::result_models;
use vstd::prelude::*;

verus! {

// ---------------------------------------------------------------------------
// New titles for existing chapters
// ---------------------------------------------------------------------------

/// A chapter under another title.
pub open spec fn retitled(chapter: ChapterModel, title: Seq<char>) -> ChapterModel {
    ChapterModel {
        number: chapter.number,
        title,
        start_time_ms: chapter.start_time_ms,
        end_time_ms: chapter.end_time_ms,
    }
}

/// The existing chapters, each under the title of the new chapter at its position where there
/// is one.
pub open spec fn keep_timestamps(
    existing: Seq<ChapterModel>,
    new: Seq<ChapterModel>,
) -> Seq<ChapterModel> {
    Seq::new(
        existing.len(),
        |i: int|
            if i < new.len() {
                retitled(existing[i], new[i].title)
            } else {
                existing[i]
            },
    )
}

/// What a merge gives under each strategy.
pub open spec fn merged_by(
    strategy: ChapterMergeStrategy,
    existing: Seq<ChapterModel>,
    new: Seq<ChapterModel>,
) -> Result<Seq<ChapterModel>, ChapterError> {
    match strategy {
        ChapterMergeStrategy::SkipOnMismatch => if existing.len() != new.len() {
            Err(
                ChapterError::CountMismatch {
                    existing: existing.len() as usize,
                    new: new.len() as usize,
                },
            )
        } else {
            Ok(keep_timestamps(existing, new))
        },
        ChapterMergeStrategy::KeepTimestamps => Ok(keep_timestamps(existing, new)),
        ChapterMergeStrategy::ReplaceAll => Ok(new),
        ChapterMergeStrategy::Interactive => Ok(keep_timestamps(existing, new)),
    }
}

/// Keep existing timestamps, update names only
pub fn merge_keep_timestamps(existing: &[Chapter], new: &[Chapter]) -> (r: Vec<Chapter>)
    ensures
        models(r@) == keep_timestamps(models(existing@), models(new@)),
{
    let ghost expected = keep_timestamps(models(existing@), models(new@));
    let mut merged: Vec<Chapter> = Vec::new();
    let mut i: usize = 0;
    proof {
        assert(models(merged@) =~= expected.take(0));
    }
    while i < existing.len()
        invariant
            i <= existing.len(),
            expected == keep_timestamps(models(existing@), models(new@)),
            models(merged@) == expected.take(i as int),
        decreases existing.len() - i,
    {
        let old_chapter: &Chapter = &existing[i];
        let chapter: Chapter = if i < new.len() {
            Chapter::new(
                old_chapter.number,
                new[i].title.clone(),
                old_chapter.start_time_ms,
                old_chapter.end_time_ms,
            )
        } else {
            old_chapter.clone()
        };
        let ghost before = merged@;
        merged.push(chapter);
        proof {
            assert(models(merged@) =~= models(before).push(chapter@));
            assert(chapter@ =~= expected[i as int]);
            assert(expected.take(i + 1) =~= expected.take(i as int).push(expected[i as int]));
        }
        i = i + 1;
    }
    proof {
        assert(expected.take(expected.len() as int) =~= expected);
    }
    merged
}

/// Merge new chapters with existing chapters according to strategy
pub fn merge_chapters(
    existing: &[Chapter],
    new: &[Chapter],
    strategy: ChapterMergeStrategy,
) -> (r: Result<Vec<Chapter>, ChapterError>)
    ensures
        result_models(r) == merged_by(strategy, models(existing@), models(new@)),
{
    let comparison: ChapterComparison = ChapterComparison::new(existing, new);
    match strategy {
        ChapterMergeStrategy::SkipOnMismatch => {
            if !comparison.matches {
                return Err(
                    ChapterError::CountMismatch {
                        existing: comparison.existing_count,
                        new: comparison.new_count,
                    },
                );
            }
            Ok(merge_keep_timestamps(existing, new))
        },
        ChapterMergeStrategy::KeepTimestamps => Ok(merge_keep_timestamps(existing, new)),
        ChapterMergeStrategy::ReplaceAll => Ok(copy_chapters(new)),
        ChapterMergeStrategy::Interactive => Ok(merge_keep_timestamps(existing, new)),
    }
}

/// Keeping timestamps touches nothing but titles: count, numbers and times of the existing
/// chapters stay.
pub proof fn keep_timestamps_changes_titles_only(existing: Seq<ChapterModel>, new: Seq<ChapterModel>)
    ensures
        keep_timestamps(existing, new).len() == existing.len(),
        forall|i: int|
            0 <= i < existing.len() ==> {
                let m = #[trigger] keep_timestamps(existing, new)[i];
                &&& m.number == existing[i].number
                &&& m.start_time_ms == existing[i].start_time_ms
                &&& m.end_time_ms == existing[i].end_time_ms
                &&& m.title == if i < new.len() {
                    new[i].title
                } else {
                    existing[i].title
                }
            },
{
}

/// Merging the same titles a second time changes nothing more, under any strategy that merges
/// the first time.
pub proof fn merging_twice_is_merging_once(
    strategy: ChapterMergeStrategy,
    existing: Seq<ChapterModel>,
    new: Seq<ChapterModel>,
)
    requires
        merged_by(strategy, existing, new) is Ok,
    ensures
        merged_by(strategy, merged_by(strategy, existing, new)->Ok_0, new) == merged_by(
            strategy,
            existing,
            new,
        ),
{
    let once = keep_timestamps(existing, new);
    assert(keep_timestamps(once, new) =~= once);
}

/// A list merged with itself stays as it is, under every strategy.
pub proof fn merging_with_itself_changes_nothing(
    strategy: ChapterMergeStrategy,
    existing: Seq<ChapterModel>,
)
    ensures
        merged_by(strategy, existing, existing) == Ok::<Seq<ChapterModel>, ChapterError>(existing),
{
    assert(keep_timestamps(existing, existing) =~= existing);
}

/// Only the strategy that skips on a mismatch can fail, and it fails exactly where the counts
/// differ; where they agree it does what keeping timestamps does.
pub proof fn only_a_count_mismatch_fails(
    strategy: ChapterMergeStrategy,
    existing: Seq<ChapterModel>,
    new: Seq<ChapterModel>,
)
    ensures
        merged_by(strategy, existing, new) is Err <==> strategy
            == ChapterMergeStrategy::SkipOnMismatch && existing.len() != new.len(),
        existing.len() == new.len() ==> merged_by(
            ChapterMergeStrategy::SkipOnMismatch,
            existing,
            new,
        ) == merged_by(ChapterMergeStrategy::KeepTimestamps, existing, new),
        merged_by(ChapterMergeStrategy::Interactive, existing, new) == merged_by(
            ChapterMergeStrategy::KeepTimestamps,
            existing,
            new,
        ),
{
}

// ---------------------------------------------------------------------------
// The chapters of several files
// ---------------------------------------------------------------------------

/// The chapter lists as mathematical values.
pub open spec fn list_models(lists: Seq<Vec<Chapter>>) -> Seq<Seq<ChapterModel>> {
    lists.map_values(|l: Vec<Chapter>| models(l@))
}

/// How long a file is: it ends with its last chapter.
pub open spec fn duration(list: Seq<ChapterModel>) -> nat {
    if list.len() == 0 {
        0
    } else {
        list.last().end_time_ms
    }
}

/// The duration of the first `k` files together.
pub open spec fn offset(lists: Seq<Seq<ChapterModel>>, k: int) -> nat
    decreases k,
{
    if k <= 0 {
        0
    } else {
        offset(lists, k - 1) + duration(lists[k - 1])
    }
}

/// The number of chapters of the first `k` files.
pub open spec fn chapter_count(lists: Seq<Seq<ChapterModel>>, k: int) -> nat
    decreases k,
{
    if k <= 0 {
        0
    } else {
        chapter_count(lists, k - 1) + lists[k - 1].len()
    }
}

/// A chapter moved to a later time and given another number.
pub open spec fn shifted(chapter: ChapterModel, number: nat, by: nat) -> ChapterModel {
    ChapterModel {
        number,
        title: chapter.title,
        start_time_ms: chapter.start_time_ms + by,
        end_time_ms: chapter.end_time_ms + by,
    }
}

/// The chapters of file `k` as they stand in the merged list.
pub open spec fn shifted_list(lists: Seq<Seq<ChapterModel>>, k: int) -> Seq<ChapterModel> {
    Seq::new(
        lists[k].len(),
        |j: int| shifted(lists[k][j], chapter_count(lists, k) + j as nat + 1, offset(lists, k)),
    )
}

/// The chapters of the first `k` files, one file after the other, numbered through from one.
pub open spec fn joined(lists: Seq<Seq<ChapterModel>>, k: int) -> Seq<ChapterModel>
    decreases k,
{
    if k <= 0 {
        Seq::empty()
    } else {
        joined(lists, k - 1) + shifted_list(lists, k - 1)
    }
}

/// The merged list. A single list is taken over as it is, its own numbers included.
pub open spec fn merged_lists(lists: Seq<Seq<ChapterModel>>) -> Seq<ChapterModel> {
    if lists.len() == 1 {
        lists[0]
    } else {
        joined(lists, lists.len() as int)
    }
}

/// Whether the numbers and times of the merged list fit in their machine types.
pub open spec fn merge_fits(lists: Seq<Seq<ChapterModel>>) -> bool {
    lists.len() >= 2 ==> {
        &&& chapter_count(lists, lists.len() as int) < u32::MAX
        &&& offset(lists, lists.len() as int) <= u64::MAX
        &&& forall|k: int, j: int|
            0 <= k < lists.len() && 0 <= j < lists[k].len() ==> {
                &&& (#[trigger] lists[k][j]).start_time_ms + offset(lists, k) <= u64::MAX
                &&& lists[k][j].end_time_ms + offset(lists, k) <= u64::MAX
            }
    }
}

/// More files never make the total shorter.
proof fn lemma_totals_grow(lists: Seq<Seq<ChapterModel>>, a: int, b: int)
    requires
        0 <= a <= b <= lists.len(),
    ensures
        offset(lists, a) <= offset(lists, b),
        chapter_count(lists, a) <= chapter_count(lists, b),
    decreases b - a,
{
    if a < b {
        lemma_totals_grow(lists, a, b - 1);
    }
}

/// Merge chapter lists from multiple M4B files with adjusted timestamps
///
/// Takes a slice of chapter lists (one per M4B file) and combines them into
/// a single list with correctly offset timestamps. Each subsequent file's
/// chapters are offset by the cumulative duration of previous files.
pub fn merge_chapter_lists(chapter_lists: &[Vec<Chapter>]) -> (r: Vec<Chapter>)
    requires
        merge_fits(list_models(chapter_lists@)),
    ensures
        models(r@) == merged_lists(list_models(chapter_lists@)),
{
    let ghost lists = list_models(chapter_lists@);
    if chapter_lists.len() == 0 {
        let empty: Vec<Chapter> = Vec::new();
        proof {
            assert(models(empty@) =~= merged_lists(lists));
        }
        return empty;
    }
    if chapter_lists.len() == 1 {
        return copy_chapters(chapter_lists[0].as_slice());
    }
    let mut merged: Vec<Chapter> = Vec::new();
    let mut cumulative_offset: u64 = 0;
    let mut chapter_number: u32 = 1;
    let mut k: usize = 0;
    proof {
        assert(models(merged@) =~= joined(lists, 0));
    }
    while k < chapter_lists.len()
        invariant
            lists == list_models(chapter_lists@),
            lists.len() == chapter_lists@.len(),
            lists.len() >= 2,
            merge_fits(lists),
            k <= chapter_lists.len(),
            cumulative_offset == offset(lists, k as int),
            chapter_number == chapter_count(lists, k as int) + 1,
            models(merged@) == joined(lists, k as int),
        decreases chapter_lists.len() - k,
    {
        let chapters: &Vec<Chapter> = &chapter_lists[k];
        let ghost done = merged@;
        let ghost expected = shifted_list(lists, k as int);
        let mut j: usize = 0;
        proof {
            assert(lists[k as int] == models(chapters@));
            assert(models(done) + expected.take(0) =~= models(merged@));
            lemma_totals_grow(lists, k + 1, lists.len() as int);
        }
        while j < chapters.len()
            invariant
                lists == list_models(chapter_lists@),
                lists.len() == chapter_lists@.len(),
                lists.len() >= 2,
                merge_fits(lists),
                k < chapter_lists.len(),
                lists[k as int] == models(chapters@),
                chapter_count(lists, k + 1) < u32::MAX,
                j <= chapters.len(),
                cumulative_offset == offset(lists, k as int),
                chapter_number == chapter_count(lists, k as int) + 1 + j,
                expected == shifted_list(lists, k as int),
                models(merged@) == models(done) + expected.take(j as int),
            decreases chapters.len() - j,
        {
            let chapter: &Chapter = &chapters[j];
            proof {
                assert(lists[k as int][j as int] == chapter@);
                assert(chapter_count(lists, k + 1) == chapter_count(lists, k as int)
                    + chapters@.len());
            }
            let adjusted: Chapter = Chapter::new(
                chapter_number,
                chapter.title.clone(),
                chapter.start_time_ms + cumulative_offset,
                chapter.end_time_ms + cumulative_offset,
            );
            let ghost before = merged@;
            merged.push(adjusted);
            proof {
                assert(models(merged@) =~= models(before).push(adjusted@));
                assert(adjusted@ =~= expected[j as int]);
                assert(models(done) + expected.take(j + 1) =~= (models(done) + expected.take(
                    j as int,
                )).push(expected[j as int]));
            }
            chapter_number = chapter_number + 1;
            j = j + 1;
        }
        proof {
            assert(expected.take(expected.len() as int) =~= expected);
        }
        if chapters.len() > 0 {
            let last: &Chapter = &chapters[chapters.len() - 1];
            proof {
                assert(lists[k as int].last() == last@);
            }
            cumulative_offset = cumulative_offset + last.end_time_ms;
        }
        k = k + 1;
    }
    merged
}

} // verus!
