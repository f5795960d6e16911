//! What the operations give back, told of every result that they can have.
use crate::chapter::{
    copy_chapters, models, Chapter, ChapterComparison, ChapterError, ChapterMergeStrategy,
    TextFormat,
};
use crate::chapter_file_laws::{
    a_plain_list_has_a_chapter_per_title, a_timestamped_file_has_a_chapter_per_timed_line,
    an_hour_of_one_digit_is_read, increasing, probed_chapters_keep_what_is_reported,
    titles_are_numbered_by_position,
};
use crate::chapter_import::{
    detect_text_format, mp4box_result, parse_epub_chapters, parse_mp4box_format,
    parse_simple_format, parse_text_chapters, parse_timestamped_format, read_m4b_chapters,
    result_models, simple_result, timestamped_line, timestamped_result, ProbedChapter,
};
use crate::chapter_laws::{plain_title, two_digits};
use crate::chapter_merge::{list_models, merge_chapter_lists, merge_chapters, merge_keep_timestamps};
use crate::merge_laws::{
    a_single_file_stays_as_it_is, other_strategies_retitle_by_position,
    replacing_gives_the_new_chapters, two_files_are_put_one_behind_the_other,
};
use crate::patterns::{starts_with_clock, time_at};
use crate::text::{decimal_text, digit_char, lines_of, texts, trimmed};
use crate::text_laws::{lines_are_what_stands_between_line_feeds, trimming_takes_white_space_only};
use vstd::prelude::*;

verus! {

// ---------------------------------------------------------------------------
// Chapters of files
// ---------------------------------------------------------------------------

/// A chapter keeps what it is made of.
pub proof fn a_new_chapter_has_its_fields(
    number: u32,
    title: String,
    start_time_ms: u64,
    end_time_ms: u64,
    r: Chapter,
)
    requires
        call_ensures(Chapter::new, (number, title, start_time_ms, end_time_ms), r),
    ensures
        r == (Chapter { number, title, start_time_ms, end_time_ms }),
{
}

/// A text is an MP4Box listing if a chapter time stands anywhere in it, else timestamped if its first
/// line starts with a clock time, else a list of titles.
pub proof fn a_text_has_the_format_of_its_times(content: &str, r: TextFormat)
    requires
        call_ensures(detect_text_format, (content,), r),
    ensures
        r == TextFormat::Mp4Box <==> exists|i: int| time_at(content@, i),
        r == TextFormat::Timestamped <==> (forall|i: int| !time_at(content@, i)) && lines_of(
            content@,
        ).len() > 0 && starts_with_clock(trimmed(lines_of(content@)[0])),
{
}

/// A text is read in the one format that it has.
pub proof fn a_text_is_read_in_one_format(
    content: &str,
    format: TextFormat,
    r: Result<Vec<Chapter>, ChapterError>,
)
    requires
        call_ensures(detect_text_format, (content,), format),
        call_ensures(parse_text_chapters, (content,), r),
    ensures
        format == TextFormat::Simple ==> simple_result(lines_of(content@), result_models(r)),
        format == TextFormat::Timestamped ==> timestamped_result(
            lines_of(content@),
            result_models(r),
        ),
        format == TextFormat::Mp4Box ==> mp4box_result(lines_of(content@), result_models(r)),
{
}

/// Each format is read by its own rules, whatever the text looks like.
pub proof fn every_format_is_read_by_its_rules(
    content: &str,
    titles: Result<Vec<Chapter>, ChapterError>,
    timed: Result<Vec<Chapter>, ChapterError>,
    listed: Result<Vec<Chapter>, ChapterError>,
)
    requires
        call_ensures(parse_simple_format, (content,), titles),
        call_ensures(parse_timestamped_format, (content,), timed),
        call_ensures(parse_mp4box_format, (content,), listed),
    ensures
        simple_result(lines_of(content@), result_models(titles)),
        timestamped_result(lines_of(content@), result_models(timed)),
        mp4box_result(lines_of(content@), result_models(listed)),
{
}

/// A list of titles gives a chapter for every line that is not blank, in their order and numbered
/// from one, under the line without the white space around it and without times.
pub proof fn titles_are_read_line_by_line(content: &str, r: Result<Vec<Chapter>, ChapterError>) -> (at:
    Seq<int>)
    requires
        call_ensures(parse_simple_format, (content,), r),
    ensures
        increasing(at),
        forall|i: int|
            0 <= i < lines_of(content@).len() ==> (#[trigger] at.contains(i) <==> trimmed(
                lines_of(content@)[i],
            ).len() > 0),
        at.len() == 0 ==> r == Err::<Vec<Chapter>, ChapterError>(ChapterError::NoChapters),
        at.len() > 0 ==> r is Ok && r->Ok_0@.len() == at.len(),
        forall|k: int|
            0 <= k < at.len() ==> {
                let chapter = r->Ok_0@[k];
                &&& 0 <= #[trigger] at[k] < lines_of(content@).len()
                &&& chapter.title@ == trimmed(lines_of(content@)[at[k]])
                &&& chapter.start_time_ms == 0 && chapter.end_time_ms == 0
                &&& k < u32::MAX ==> chapter.number == k + 1
            },
{
    let at = a_plain_list_has_a_chapter_per_title(lines_of(content@), result_models(r));
    assert forall|k: int| 0 <= k < at.len() implies {
        let chapter = r->Ok_0@[k];
        &&& 0 <= #[trigger] at[k] < lines_of(content@).len()
        &&& chapter.title@ == trimmed(lines_of(content@)[at[k]])
        &&& chapter.start_time_ms == 0 && chapter.end_time_ms == 0
        &&& k < u32::MAX ==> chapter.number == k + 1
    } by {
        assert(result_models(r)->Ok_0[k] == r->Ok_0@[k]@);
    }
    at
}

/// A timestamped text whose times can all be read gives a chapter for every line that is one, in
/// their order, with the start and the title of the line; it ends where the next one starts.
pub proof fn timed_lines_are_read_line_by_line(
    content: &str,
    r: Result<Vec<Chapter>, ChapterError>,
) -> (at: Seq<int>)
    requires
        call_ensures(parse_timestamped_format, (content,), r),
        forall|i: int|
            0 <= i < lines_of(content@).len() ==> !(timestamped_line(
                trimmed(#[trigger] lines_of(content@)[i]),
            ) matches Some(Err(_))),
    ensures
        increasing(at),
        forall|i: int|
            0 <= i < lines_of(content@).len() ==> (#[trigger] at.contains(i) <==> timestamped_line(
                trimmed(lines_of(content@)[i]),
            ) is Some),
        at.len() == 0 ==> r == Err::<Vec<Chapter>, ChapterError>(
            ChapterError::NoTimestampedChapters,
        ),
        at.len() > 0 ==> r is Ok && r->Ok_0@.len() == at.len(),
        forall|k: int|
            0 <= k < at.len() ==> {
                let chapter = r->Ok_0@[k];
                &&& 0 <= #[trigger] at[k] < lines_of(content@).len()
                &&& timestamped_line(trimmed(lines_of(content@)[at[k]])) == Some(
                    Ok::<(nat, Seq<char>), ChapterError>(
                        (chapter.start_time_ms as nat, chapter.title@),
                    ),
                )
                &&& at[k] < u32::MAX ==> chapter.number == at[k] + 1
                &&& k + 1 < at.len() ==> chapter.end_time_ms == r->Ok_0@[k + 1].start_time_ms
                &&& k + 1 == at.len() ==> chapter.end_time_ms == 0
            },
{
    let at = a_timestamped_file_has_a_chapter_per_timed_line(
        lines_of(content@),
        result_models(r),
    );
    assert forall|k: int| 0 <= k < at.len() implies {
        let chapter = r->Ok_0@[k];
        &&& 0 <= #[trigger] at[k] < lines_of(content@).len()
        &&& timestamped_line(trimmed(lines_of(content@)[at[k]])) == Some(
            Ok::<(nat, Seq<char>), ChapterError>((chapter.start_time_ms as nat, chapter.title@)),
        )
        &&& at[k] < u32::MAX ==> chapter.number == at[k] + 1
        &&& k + 1 < at.len() ==> chapter.end_time_ms == r->Ok_0@[k + 1].start_time_ms
        &&& k + 1 == at.len() ==> chapter.end_time_ms == 0
    } by {
        assert(result_models(r)->Ok_0[k] == r->Ok_0@[k]@);
        if k + 1 < at.len() {
            assert(result_models(r)->Ok_0[k + 1] == r->Ok_0@[k + 1]@);
        }
    }
    at
}

/// A text that is one line `H:MM:SS Title`, its hour written with one digit, is read as one chapter
/// that starts at that time and has that title.
pub proof fn one_timed_line_is_one_chapter(
    content: &str,
    h: nat,
    m: nat,
    s: nat,
    title: Seq<char>,
    r: Result<Vec<Chapter>, ChapterError>,
)
    requires
        call_ensures(parse_timestamped_format, (content,), r),
        h < 10,
        m < 100,
        s < 100,
        plain_title(title),
        !title.contains('\n'),
        content@ == seq![digit_char(h), ':'] + two_digits(m) + seq![':'] + two_digits(s) + seq![' ']
            + title,
    ensures
        r is Ok,
        r->Ok_0@.len() == 1,
        r->Ok_0@[0].number == 1,
        r->Ok_0@[0].title@ == title,
        r->Ok_0@[0].start_time_ms == (h * 3600 + m * 60 + s) * 1000,
        r->Ok_0@[0].end_time_ms == 0,
{
    let line = content@;
    an_hour_of_one_digit_is_read(h, m, s, title);
    assert(line.len() == 8 + title.len());
    assert forall|i: int| 0 <= i < line.len() implies line[i] != '\n' by {
        if i >= 8 {
            assert(line[i] == title[i - 8]);
            assert(title.contains(title[i - 8]));
        }
    }
    lines_are_what_stands_between_line_feeds(line, Seq::empty());
    assert(lines_of(line) =~= seq![line]);
    assert(trimmed(line) == line) by {
        let none = Seq::<char>::empty();
        assert(line.last() == title.last());
        assert(line[0] == digit_char(h));
        trimming_takes_white_space_only(none, line, none);
        assert(none + line + none =~= line);
    }
    let at = timed_lines_are_read_line_by_line(content, r);
    assert(at.contains(0));
    let k = choose|k: int| 0 <= k < at.len() && at[k] == 0;
    assert(at.len() == 1) by {
        if at.len() > 1 {
            assert(at[0] < at[1]);
            assert(0 <= at[0] && at[1] < 1);
        }
    }
    assert(k == 0);
}

/// The labels of a table of contents are the titles of the chapters, in their order and numbered
/// from one, without times; without a label there is no list.
pub proof fn labels_are_read_in_their_order(
    labels: &[String],
    r: Result<Vec<Chapter>, ChapterError>,
    i: int,
)
    requires
        call_ensures(parse_epub_chapters, (labels,), r),
    ensures
        labels@.len() == 0 ==> r == Err::<Vec<Chapter>, ChapterError>(ChapterError::NoTocChapters),
        labels@.len() > 0 ==> r is Ok && r->Ok_0@.len() == labels@.len(),
        0 <= i < labels@.len() ==> {
            let chapter = r->Ok_0@[i];
            &&& chapter.title@ == labels@[i]@
            &&& chapter.start_time_ms == 0 && chapter.end_time_ms == 0
            &&& i < u32::MAX ==> chapter.number == i + 1
        },
{
    if labels@.len() > 0 {
        let chapters = r->Ok_0@;
        assert(models(chapters).len() == chapters.len());
        if 0 <= i < labels@.len() {
            assert(models(chapters)[i] == chapters[i]@);
            titles_are_numbered_by_position(texts(labels@), i);
        }
    }
}

/// The chapters of an M4B file are those that a probe reports, in their order and numbered from
/// one; a chapter without a title is named by its number, and a time that is not known is zero.
pub proof fn probed_chapters_are_read_in_their_order(
    probed: &[ProbedChapter],
    r: Vec<Chapter>,
    i: int,
)
    requires
        call_ensures(read_m4b_chapters, (probed,), r),
    ensures
        r@.len() == probed@.len(),
        0 <= i < probed@.len() && i < u32::MAX ==> {
            let chapter = r@[i];
            let p = probed@[i];
            &&& chapter.number == i + 1
            &&& p.title is Some ==> chapter.title@ == p.title->0@
            &&& p.title is None ==> chapter.title@ == "Chapter "@ + decimal_text((i + 1) as nat)
            &&& p.start_ms is Some ==> chapter.start_time_ms == p.start_ms->0
            &&& p.start_ms is None ==> chapter.start_time_ms == 0
            &&& p.end_ms is Some ==> chapter.end_time_ms == p.end_ms->0
            &&& p.end_ms is None ==> chapter.end_time_ms == 0
        },
{
    if 0 <= i < probed@.len() && i < u32::MAX {
        assert(r@[i]@.number == r@[i].number);
        probed_chapters_keep_what_is_reported(i, probed@[i]);
    }
}

// ---------------------------------------------------------------------------
// Merged chapters
// ---------------------------------------------------------------------------

/// A copy of a list is the list, and lists are compared by their lengths.
pub proof fn lists_are_copied_and_compared(
    existing: &[Chapter],
    new: &[Chapter],
    copied: Vec<Chapter>,
    compared: ChapterComparison,
)
    requires
        call_ensures(copy_chapters, (new,), copied),
        call_ensures(ChapterComparison::new, (existing, new), compared),
    ensures
        copied@ == new@,
        compared.existing_count == existing@.len(),
        compared.new_count == new@.len(),
        compared.matches <==> existing@.len() == new@.len(),
{
}

/// Replacing all chapters gives the new ones, with their numbers, titles and times, whatever the
/// existing ones are.
pub proof fn replaced_chapters_are_the_new_ones(
    existing: &[Chapter],
    new: &[Chapter],
    r: Result<Vec<Chapter>, ChapterError>,
    i: int,
)
    requires
        call_ensures(merge_chapters, (existing, new, ChapterMergeStrategy::ReplaceAll), r),
    ensures
        r is Ok,
        r->Ok_0@.len() == new@.len(),
        0 <= i < new@.len() ==> {
            let chapter = r->Ok_0@[i];
            &&& chapter.number == new@[i].number
            &&& chapter.title@ == new@[i].title@
            &&& chapter.start_time_ms == new@[i].start_time_ms
            &&& chapter.end_time_ms == new@[i].end_time_ms
        },
{
    replacing_gives_the_new_chapters(models(existing@), models(new@));
    assert(models(r->Ok_0@).len() == r->Ok_0@.len());
    if 0 <= i < new@.len() {
        assert(models(r->Ok_0@)[i] == r->Ok_0@[i]@);
        assert(models(new@)[i] == new@[i]@);
    }
}

/// Under every other strategy the existing chapters stay, with their numbers and times, and get the
/// titles of the new chapters at the same positions as far as there are any; but where the counts
/// differ, a strategy that asks for equal ones tells both counts and changes nothing.
pub proof fn kept_chapters_are_retitled(
    existing: &[Chapter],
    new: &[Chapter],
    strategy: ChapterMergeStrategy,
    r: Result<Vec<Chapter>, ChapterError>,
    i: int,
)
    requires
        call_ensures(merge_chapters, (existing, new, strategy), r),
        strategy != ChapterMergeStrategy::ReplaceAll,
    ensures
        strategy == ChapterMergeStrategy::SkipOnMismatch && existing@.len() != new@.len() ==> r
            == Err::<Vec<Chapter>, ChapterError>(
            ChapterError::CountMismatch {
                existing: existing@.len() as usize,
                new: new@.len() as usize,
            },
        ),
        strategy != ChapterMergeStrategy::SkipOnMismatch || existing@.len() == new@.len() ==> {
            &&& r is Ok
            &&& r->Ok_0@.len() == existing@.len()
            &&& 0 <= i < existing@.len() ==> {
                let chapter = r->Ok_0@[i];
                &&& chapter.number == existing@[i].number
                &&& chapter.start_time_ms == existing@[i].start_time_ms
                &&& chapter.end_time_ms == existing@[i].end_time_ms
                &&& i < new@.len() ==> chapter.title@ == new@[i].title@
                &&& i >= new@.len() ==> chapter.title@ == existing@[i].title@
            }
        },
{
    let old_models = models(existing@);
    let new_models = models(new@);
    assert(old_models.len() == existing@.len() && new_models.len() == new@.len());
    if strategy != ChapterMergeStrategy::SkipOnMismatch || existing@.len() == new@.len() {
        other_strategies_retitle_by_position(strategy, old_models, new_models, i);
        assert(models(r->Ok_0@).len() == r->Ok_0@.len());
        if 0 <= i < existing@.len() {
            assert(models(r->Ok_0@)[i] == r->Ok_0@[i]@);
            assert(old_models[i] == existing@[i]@);
            if i < new@.len() {
                assert(new_models[i] == new@[i]@);
            }
        }
    }
}

/// Keeping the timestamps is what the strategy of that name does.
pub proof fn kept_timestamps_are_those_of_the_strategy(
    existing: &[Chapter],
    new: &[Chapter],
    kept: Vec<Chapter>,
    r: Result<Vec<Chapter>, ChapterError>,
)
    requires
        call_ensures(merge_keep_timestamps, (existing, new), kept),
        call_ensures(merge_chapters, (existing, new, ChapterMergeStrategy::KeepTimestamps), r),
    ensures
        r is Ok,
        models(kept@) == models(r->Ok_0@),
{
}

/// No file and a single file are merged to what they are; two files are merged by putting the second
/// behind the first, all chapters numbered from one.
pub proof fn merged_files_follow_one_another(lists: &[Vec<Chapter>], r: Vec<Chapter>, i: int)
    requires
        call_ensures(merge_chapter_lists, (lists,), r),
        lists@.len() <= 2,
    ensures
        lists@.len() == 0 ==> r@.len() == 0,
        lists@.len() == 1 ==> models(r@) == models(lists@[0]@),
        lists@.len() == 2 ==> {
            let first = lists@[0]@;
            let second = lists@[1]@;
            let end = if first.len() > 0 {
                first.last().end_time_ms as int
            } else {
                0
            };
            &&& r@.len() == first.len() + second.len()
            &&& 0 <= i < first.len() ==> {
                let chapter = r@[i];
                &&& chapter.number == i + 1
                &&& chapter.title@ == first[i].title@
                &&& chapter.start_time_ms == first[i].start_time_ms
                &&& chapter.end_time_ms == first[i].end_time_ms
            }
            &&& 0 <= i < second.len() ==> {
                let chapter = r@[first.len() + i];
                &&& chapter.number == first.len() + i + 1
                &&& chapter.title@ == second[i].title@
                &&& chapter.start_time_ms == end + second[i].start_time_ms
                &&& chapter.end_time_ms == end + second[i].end_time_ms
            }
        },
{
    let all = list_models(lists@);
    assert(models(r@).len() == r@.len());
    if lists@.len() == 1 {
        a_single_file_stays_as_it_is(models(lists@[0]@));
        assert(all =~= seq![models(lists@[0]@)]);
    }
    if lists@.len() == 2 {
        let first = models(lists@[0]@);
        let second = models(lists@[1]@);
        assert(all =~= seq![first, second]);
        two_files_are_put_one_behind_the_other(first, second, i);
        assert(first.len() == lists@[0]@.len() && second.len() == lists@[1]@.len());
        if first.len() > 0 {
            assert(first.last() == lists@[0]@.last()@);
        }
        if 0 <= i < first.len() {
            assert(models(r@)[i] == r@[i]@);
            assert(first[i] == lists@[0]@[i]@);
        }
        if 0 <= i < second.len() {
            assert(models(r@)[first.len() + i] == r@[first.len() + i]@);
            assert(second[i] == lists@[1]@[i]@);
        }
    }
}

} // verus!
