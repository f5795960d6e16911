//! What reading a chapter file gives, told line by line and character by character.
use crate::chapter::{Chapter, ChapterError, ChapterModel};
use crate::chapter_import::{
    clock_ms, consecutive_chapters, mp4box_result, probed_model, simple_result, text_result,
    timestamped_entries, timestamped_line, timestamped_result, titles_of, untimed_chapters,
    ProbedChapter, TimedEntry,
};
use crate::chapter_laws::{plain_title, two_digits};
use crate::patterns::{
    clock_at, decimal_digit, starts_with_clock, time_at, timestamp_groups, title_after_clock,
};
use crate::text::{
    all_ascii_digits, ascii_digit, decimal_text, decimal_value, digit_char, lines_of, skip_white,
    trimmed, unsigned_digits, unsigned_value, white_space,
};
use crate::text_laws::{blank, tight, trimming_takes_white_space_only};
use vstd::prelude::*;

verus! {

// ---------------------------------------------------------------------------
// Formats
// ---------------------------------------------------------------------------

/// A file with a chapter time in it is read as an MP4Box listing; another one whose first line
/// starts with a clock time is read as timestamped lines; any other is read as a list of titles.
pub proof fn a_file_is_read_in_its_format(
    content: Seq<char>,
    r: Result<Seq<ChapterModel>, ChapterError>,
)
    requires
        text_result(content, r),
    ensures
        (exists|i: int| time_at(content, i)) ==> mp4box_result(lines_of(content), r),
        (forall|i: int| !time_at(content, i)) && lines_of(content).len() > 0 && starts_with_clock(
            trimmed(lines_of(content)[0]),
        ) ==> timestamped_result(lines_of(content), r),
        (forall|i: int| !time_at(content, i)) && !(lines_of(content).len() > 0
            && starts_with_clock(trimmed(lines_of(content)[0]))) ==> simple_result(
            lines_of(content),
            r,
        ),
{
}

// ---------------------------------------------------------------------------
// Chapters without times, and chapters of M4B files
// ---------------------------------------------------------------------------

/// A chapter is told by its four fields.
pub proof fn a_chapter_is_its_fields(c: Chapter)
    ensures
        c@.number == c.number,
        c@.title == c.title@,
        c@.start_time_ms == c.start_time_ms,
        c@.end_time_ms == c.end_time_ms,
{
}

/// A chapter that is known by its title is numbered by its position, from one on, and has no
/// times.
pub proof fn titles_are_numbered_by_position(titles: Seq<Seq<char>>, i: int)
    requires
        0 <= i < titles.len(),
    ensures
        untimed_chapters(titles).len() == titles.len(),
        untimed_chapters(titles)[i].title == titles[i],
        i < u32::MAX ==> untimed_chapters(titles)[i].number == i + 1,
        untimed_chapters(titles)[i].start_time_ms == 0,
        untimed_chapters(titles)[i].end_time_ms == 0,
{
    if i < u32::MAX {
        assert((i + 1) % 0x1_0000_0000 == i + 1);
    }
}

/// A chapter of an M4B file keeps the title and the times that a probe reports, and is numbered by
/// its position; what the probe does not report is `Chapter` with the number, and zero.
pub proof fn probed_chapters_keep_what_is_reported(i: int, p: ProbedChapter)
    requires
        0 <= i < u32::MAX,
    ensures
        probed_model(i, p).number == i + 1,
        p.title is Some ==> probed_model(i, p).title == p.title->0@,
        p.title is None ==> probed_model(i, p).title == "Chapter "@ + decimal_text((i + 1) as nat),
        p.start_ms is Some ==> probed_model(i, p).start_time_ms == p.start_ms->0,
        p.start_ms is None ==> probed_model(i, p).start_time_ms == 0,
        p.end_ms is Some ==> probed_model(i, p).end_time_ms == p.end_ms->0,
        p.end_ms is None ==> probed_model(i, p).end_time_ms == 0,
{
    assert((i + 1) % 0x1_0000_0000 == i + 1);
}

// ---------------------------------------------------------------------------
// Plain lists of titles
// ---------------------------------------------------------------------------

/// Whether positions come in ascending order, none twice.
pub open spec fn increasing(at: Seq<int>) -> bool {
    forall|i: int, j: int| #![trigger at[i], at[j]] 0 <= i < j < at.len() ==> at[i] < at[j]
}

/// Positions that a last one is put behind.
pub proof fn lemma_last_position(at: Seq<int>, n: int)
    requires
        increasing(at),
        forall|k: int| 0 <= k < at.len() ==> 0 <= #[trigger] at[k] < n,
    ensures
        increasing(at.push(n)),
        forall|i: int| #[trigger] at.push(n).contains(i) <==> at.contains(i) || i == n,
        !at.contains(n),
{
    let all = at.push(n);
    assert forall|i: int| #[trigger] all.contains(i) <==> at.contains(i) || i == n by {
        if at.contains(i) {
            let k = choose|k: int| 0 <= k < at.len() && at[k] == i;
            assert(all[k] == i);
        }
        if i == n {
            assert(all[at.len() as int] == n);
        }
        if all.contains(i) && i != n {
            let k = choose|k: int| 0 <= k < all.len() && all[k] == i;
            assert(at[k] == i);
        }
    }
}

proof fn lemma_title_positions(lines: Seq<Seq<char>>) -> (at: Seq<int>)
    ensures
        increasing(at),
        at.len() == titles_of(lines).len(),
        forall|k: int|
            0 <= k < at.len() ==> 0 <= #[trigger] at[k] < lines.len() && titles_of(lines)[k]
                == trimmed(lines[at[k]]),
        forall|i: int|
            0 <= i < lines.len() ==> (#[trigger] at.contains(i) <==> trimmed(lines[i]).len() > 0),
    decreases lines.len(),
{
    if lines.len() == 0 {
        Seq::empty()
    } else {
        let before = lines.drop_last();
        let n = lines.len() - 1;
        let at = lemma_title_positions(before);
        assert forall|k: int| 0 <= k < at.len() implies 0 <= #[trigger] at[k] < n by {}
        lemma_last_position(at, n);
        assert(forall|i: int| 0 <= i < n ==> #[trigger] lines[i] == before[i]);
        if trimmed(lines.last()).len() > 0 {
            let all = at.push(n);
            assert forall|k: int| 0 <= k < all.len() implies 0 <= #[trigger] all[k] < lines.len()
                && titles_of(lines)[k] == trimmed(lines[all[k]]) by {
                if k < at.len() {
                    assert(all[k] == at[k]);
                }
            }
            assert forall|i: int| 0 <= i < lines.len() implies (#[trigger] all.contains(i)
                <==> trimmed(lines[i]).len() > 0) by {
                if i < n {
                    assert(at.contains(i) <==> trimmed(before[i]).len() > 0);
                }
            }
            all
        } else {
            assert forall|i: int| 0 <= i < lines.len() implies (#[trigger] at.contains(i)
                <==> trimmed(lines[i]).len() > 0) by {
                if i < n {
                    assert(at.contains(i) <==> trimmed(before[i]).len() > 0);
                }
            }
            at
        }
    }
}

/// A plain list has one chapter for every line that is not blank, in their order: its title is the
/// line without the white space around it, and it is numbered among the chapters. Without such a
/// line there is no list.
pub proof fn a_plain_list_has_a_chapter_per_title(
    lines: Seq<Seq<char>>,
    r: Result<Seq<ChapterModel>, ChapterError>,
) -> (at: Seq<int>)
    requires
        simple_result(lines, r),
    ensures
        increasing(at),
        forall|i: int|
            0 <= i < lines.len() ==> (#[trigger] at.contains(i) <==> trimmed(lines[i]).len() > 0),
        at.len() == 0 ==> r == Err::<Seq<ChapterModel>, ChapterError>(ChapterError::NoChapters),
        at.len() > 0 ==> r is Ok && r->Ok_0.len() == at.len(),
        forall|k: int|
            0 <= k < at.len() ==> 0 <= #[trigger] at[k] < lines.len() && r->Ok_0[k].title == trimmed(
                lines[at[k]],
            ) && r->Ok_0[k].start_time_ms == 0 && r->Ok_0[k].end_time_ms == 0 && (k < u32::MAX
                ==> r->Ok_0[k].number == k + 1),
{
    let at = lemma_title_positions(lines);
    assert forall|k: int| 0 <= k < at.len() implies 0 <= #[trigger] at[k] < lines.len()
        && r->Ok_0[k].title == trimmed(lines[at[k]]) && r->Ok_0[k].start_time_ms == 0
        && r->Ok_0[k].end_time_ms == 0 && (k < u32::MAX ==> r->Ok_0[k].number == k + 1) by {
        titles_are_numbered_by_position(titles_of(lines), k);
    }
    at
}

// ---------------------------------------------------------------------------
// Clock times
// ---------------------------------------------------------------------------

/// What a digit counts.
pub open spec fn digit(c: char) -> int {
    c as int - 48
}

pub proof fn lemma_short_numbers(s: Seq<char>)
    requires
        1 <= s.len() <= 3,
        forall|i: int| 0 <= i < s.len() ==> ascii_digit(#[trigger] s[i]),
    ensures
        s.len() == 1 ==> unsigned_value(s, u64::MAX as nat) == Some(digit(s[0]) as nat),
        s.len() == 2 ==> unsigned_value(s, u64::MAX as nat) == Some(
            (digit(s[0]) * 10 + digit(s[1])) as nat,
        ),
        s.len() == 3 ==> unsigned_value(s, u64::MAX as nat) == Some(
            (digit(s[0]) * 100 + digit(s[1]) * 10 + digit(s[2])) as nat,
        ),
{
    reveal_with_fuel(decimal_value, 4);
    assert(ascii_digit(s[0]));
    assert(all_ascii_digits(s));
    assert(unsigned_digits(s) == s);
    if s.len() == 1 {
        assert(s.drop_last() =~= Seq::<char>::empty());
    } else if s.len() == 2 {
        assert(ascii_digit(s[1]));
        assert(s.drop_last() =~= seq![s[0]]);
        assert(seq![s[0]].drop_last() =~= Seq::<char>::empty());
    } else {
        assert(ascii_digit(s[1]) && ascii_digit(s[2]));
        assert(s.drop_last() =~= seq![s[0], s[1]]);
        assert(seq![s[0], s[1]].drop_last() =~= seq![s[0]]);
        assert(seq![s[0]].drop_last() =~= Seq::<char>::empty());
    }
}

pub proof fn lemma_foreign_number(s: Seq<char>, i: int, max: nat)
    requires
        0 <= i < s.len(),
        decimal_digit(s[0]),
        !ascii_digit(s[i]),
    ensures
        unsigned_value(s, max) is None,
{
    assert(s[0] != '+');
    assert(unsigned_digits(s) == s);
    assert(!all_ascii_digits(s));
}

/// Whether `t` starts with a clock time in ASCII digits, `h` of them for the hour.
pub open spec fn plain_clock(t: Seq<char>, h: int) -> bool {
    &&& t.len() >= h + 6
    &&& '0' <= t[0] <= '9'
    &&& '0' <= t[h - 1] <= '9'
    &&& t[h] == ':'
    &&& '0' <= t[h + 1] <= '9'
    &&& '0' <= t[h + 2] <= '9'
    &&& t[h + 3] == ':'
    &&& '0' <= t[h + 4] <= '9'
    &&& '0' <= t[h + 5] <= '9'
}

/// The milliseconds to the clock time that `t` starts with.
pub open spec fn clock_start(t: Seq<char>, h: int) -> int {
    let hours = if h == 1 {
        digit(t[0])
    } else {
        digit(t[0]) * 10 + digit(t[1])
    };
    let minutes = digit(t[h + 1]) * 10 + digit(t[h + 2]);
    let seconds = digit(t[h + 4]) * 10 + digit(t[h + 5]);
    hours * 3_600_000 + minutes * 60_000 + seconds * 1000
}

proof fn lemma_plain_clock(t: Seq<char>, h: int)
    requires
        h == 1 || h == 2,
        plain_clock(t, h),
    ensures
        clock_at(t, 0, h),
        h == 1 ==> !clock_at(t, 0, 2),
        clock_ms(t.subrange(0, h), t.subrange(h + 1, h + 3), t.subrange(h + 4, h + 6)) == Ok::<
            nat,
            ChapterError,
        >(clock_start(t, h) as nat),
{
    let a = t.subrange(0, h);
    let b = t.subrange(h + 1, h + 3);
    let c = t.subrange(h + 4, h + 6);
    assert(a[0] == t[0] && a[h - 1] == t[h - 1]);
    assert(b[0] == t[h + 1] && b[1] == t[h + 2] && c[0] == t[h + 4] && c[1] == t[h + 5]);
    assert(ascii_digit(t[0]) && ascii_digit(t[h - 1]));
    lemma_short_numbers(a);
    lemma_short_numbers(b);
    lemma_short_numbers(c);
    if h == 1 {
        assert(!decimal_digit(t[1]));
    }
}

/// A line that starts with a clock time, with an hour of one digit or of two, and goes on, is a
/// chapter that starts at that time: so many hours, minutes and seconds as the digits say.
pub proof fn a_line_starts_when_its_clock_says(t: Seq<char>, h: int)
    requires
        h == 1 || h == 2,
        plain_clock(t, h),
        t.len() > h + 6,
    ensures
        timestamped_line(t) is Some,
        timestamped_line(t)->0 is Ok,
        timestamped_line(t)->0->Ok_0.0 == clock_start(t, h),
{
    lemma_plain_clock(t, h);
    let g = timestamp_groups(t)->0;
    assert(g[1] == t.subrange(0, h));
}

/// Whether a text is what may stand between a clock time and a title: white space, with one dash
/// or colon in it or without.
pub open spec fn gap(before: Seq<char>, separator: Seq<char>, after: Seq<char>) -> bool {
    &&& blank(before)
    &&& separator.len() == 0 || separator == seq!['-'] || separator == seq![':']
    &&& blank(after)
}

proof fn lemma_skip_gap(a: Seq<char>, s: Seq<char>)
    requires
        blank(a),
        s.len() > 0 ==> !white_space(s[0]),
    ensures
        skip_white(a + s) == s,
    decreases a.len(),
{
    let all = a + s;
    if a.len() > 0 {
        assert(white_space(a[0]));
        assert(all[0] == a[0]);
        assert(all.drop_first() =~= a.drop_first() + s);
        assert forall|i: int| 0 <= i < a.drop_first().len() implies white_space(
            #[trigger] a.drop_first()[i],
        ) by {
            assert(white_space(a[i + 1]));
        }
        lemma_skip_gap(a.drop_first(), s);
    } else {
        assert(all =~= s);
    }
}

/// The title of a line is what follows the clock time, white space and one dash or colon between
/// them left out, with an hour of one digit as with one of two.
pub proof fn a_line_is_titled_by_what_follows_its_clock(
    clock: Seq<char>,
    h: int,
    before: Seq<char>,
    separator: Seq<char>,
    after: Seq<char>,
    title: Seq<char>,
)
    requires
        h == 1 || h == 2,
        clock.len() == h + 6,
        plain_clock(clock, h),
        gap(before, separator, after),
        title.len() > 0,
        tight(title),
        title[0] != '-',
        title[0] != ':',
    ensures
        timestamped_line(clock + before + separator + after + title) == Some(
            Ok::<(nat, Seq<char>), ChapterError>((clock_start(clock, h) as nat, title)),
        ),
{
    let t = clock + before + separator + after + title;
    assert(forall|i: int| 0 <= i < h + 6 ==> t[i] == #[trigger] clock[i]);
    assert(t[0] == clock[0] && t[h - 1] == clock[h - 1] && t[h] == clock[h] && t[h + 1] == clock[h
        + 1] && t[h + 2] == clock[h + 2] && t[h + 3] == clock[h + 3] && t[h + 4] == clock[h + 4]
        && t[h + 5] == clock[h + 5]);
    assert(plain_clock(t, h));
    assert(clock_start(t, h) == clock_start(clock, h));
    lemma_plain_clock(t, h);
    let rest = t.skip(h + 6);
    let tail = separator + after + title;
    assert(rest =~= before + tail);
    if separator.len() == 0 {
        let white = before + after;
        assert(rest =~= white + title);
        assert(blank(white)) by {
            assert forall|i: int| 0 <= i < white.len() implies white_space(#[trigger] white[i]) by {
                if i < before.len() {
                    assert(white_space(before[i]));
                } else {
                    assert(white_space(after[i - before.len()]));
                }
            }
        }
        lemma_skip_gap(white, title);
        assert(title_after_clock(rest) == title);
    } else {
        assert(tail[0] == separator[0]);
        lemma_skip_gap(before, tail);
        assert(tail.skip(1) =~= after + title);
        lemma_skip_gap(after, title);
        assert(title_after_clock(rest) == title);
    }
    trimming_takes_white_space_only(Seq::empty(), title, Seq::empty());
    assert(Seq::<char>::empty() + title + Seq::<char>::empty() =~= title);
    let g = timestamp_groups(t)->0;
    assert(g[1] == t.subrange(0, h));
    assert(g[4] == title);
}

/// A line `H:MM:SS Title`, its hour written with one digit, is read as a chapter that starts at
/// that time and has that title, as one with two digits is.
pub proof fn an_hour_of_one_digit_is_read(h: nat, m: nat, s: nat, title: Seq<char>)
    requires
        h < 10,
        m < 100,
        s < 100,
        plain_title(title),
    ensures
        ({
            let line = seq![digit_char(h), ':'] + two_digits(m) + seq![':'] + two_digits(s) + seq![' ']
                + title;
            timestamped_line(line) == Some(
                Ok::<(nat, Seq<char>), ChapterError>(((h * 3600 + m * 60 + s) * 1000, title)),
            )
        }),
{
    let clock = seq![digit_char(h), ':'] + two_digits(m) + seq![':'] + two_digits(s);
    assert(clock =~= seq![
        digit_char(h),
        ':',
        digit_char(m / 10),
        digit_char(m % 10),
        ':',
        digit_char(s / 10),
        digit_char(s % 10),
    ]);
    assert(clock_start(clock, 1) == (h * 3600 + m * 60 + s) * 1000);
    let empty = Seq::<char>::empty();
    a_line_is_titled_by_what_follows_its_clock(clock, 1, seq![' '], empty, empty, title);
    assert(clock + seq![' '] + empty + empty + title =~= clock + seq![' '] + title);
}

/// A line that does not start with a clock time, or holds nothing else, is no chapter.
pub proof fn a_line_without_clock_or_title_is_no_chapter(t: Seq<char>)
    ensures
        !clock_at(t, 0, 1) && !clock_at(t, 0, 2) ==> timestamped_line(t) is None,
        clock_at(t, 0, 2) && t.len() == 8 ==> timestamped_line(t) is None,
        !clock_at(t, 0, 2) && clock_at(t, 0, 1) && t.len() == 7 ==> timestamped_line(t) is None,
        (forall|i: int| 0 <= i < t.len() ==> #[trigger] t[i] != ':') ==> timestamped_line(t) is None,
{
    if forall|i: int| 0 <= i < t.len() ==> #[trigger] t[i] != ':' {
        assert(!clock_at(t, 0, 1) && !clock_at(t, 0, 2)) by {
            if clock_at(t, 0, 1) {
                assert(t[1] != ':');
            }
            if clock_at(t, 0, 2) {
                assert(t[2] != ':');
            }
        }
    }
}

/// A clock time in digits other than the ASCII ones cannot be read: the first of its parts that
/// has such a digit decides the error.
pub proof fn a_clock_in_foreign_digits_is_an_error(t: Seq<char>, h: int)
    requires
        h == 1 && !clock_at(t, 0, 2) || h == 2,
        clock_at(t, 0, h),
        t.len() > h + 6,
    ensures
        ({
            let hour = ascii_digit(t[0]) && ascii_digit(t[h - 1]);
            let minute = ascii_digit(t[h + 1]) && ascii_digit(t[h + 2]);
            let second = ascii_digit(t[h + 4]) && ascii_digit(t[h + 5]);
            &&& !hour ==> timestamped_line(t) == Some(
                Err::<(nat, Seq<char>), ChapterError>(ChapterError::InvalidHour),
            )
            &&& hour && !minute ==> timestamped_line(t) == Some(
                Err::<(nat, Seq<char>), ChapterError>(ChapterError::InvalidMinute),
            )
            &&& hour && minute && !second ==> timestamped_line(t) == Some(
                Err::<(nat, Seq<char>), ChapterError>(ChapterError::InvalidSecond),
            )
            &&& hour && minute && second ==> timestamped_line(t) matches Some(Ok(_))
        }),
{
    let a = t.subrange(0, h);
    let b = t.subrange(h + 1, h + 3);
    let c = t.subrange(h + 4, h + 6);
    assert(a[0] == t[0] && a[h - 1] == t[h - 1]);
    assert(b[0] == t[h + 1] && b[1] == t[h + 2] && c[0] == t[h + 4] && c[1] == t[h + 5]);
    assert(decimal_digit(t[0]) && decimal_digit(t[h + 1]) && decimal_digit(t[h + 4]));
    lemma_clock_part(a);
    lemma_clock_part(b);
    lemma_clock_part(c);
    let g = timestamp_groups(t)->0;
    assert(g[1] == a && g[2] == b && g[3] == c);
}

pub proof fn lemma_clock_part(s: Seq<char>)
    requires
        1 <= s.len() <= 2,
        decimal_digit(s[0]),
    ensures
        unsigned_value(s, u64::MAX as nat) is Some <==> ascii_digit(s[0]) && ascii_digit(
            s[s.len() - 1],
        ),
{
    if !ascii_digit(s[0]) {
        lemma_foreign_number(s, 0, u64::MAX as nat);
    } else if !ascii_digit(s[s.len() - 1]) {
        lemma_foreign_number(s, s.len() - 1, u64::MAX as nat);
    } else {
        lemma_short_numbers(s);
    }
}

// ---------------------------------------------------------------------------
// Timestamped files
// ---------------------------------------------------------------------------

/// Whether a line of a timestamped file is a chapter, and what it says.
proof fn lemma_entry_positions(lines: Seq<Seq<char>>) -> (at: Seq<int>)
    requires
        forall|i: int|
            0 <= i < lines.len() ==> !(timestamped_line(trimmed(#[trigger] lines[i])) matches Some(
                Err(_),
            )),
    ensures
        increasing(at),
        timestamped_entries(lines) is Ok,
        at.len() == timestamped_entries(lines)->Ok_0.len(),
        forall|k: int|
            0 <= k < at.len() ==> 0 <= #[trigger] at[k] < lines.len() && timestamped_line(
                trimmed(lines[at[k]]),
            ) == Some(
                Ok::<(nat, Seq<char>), ChapterError>(
                    (
                        timestamped_entries(lines)->Ok_0[k].start_time_ms,
                        timestamped_entries(lines)->Ok_0[k].title,
                    ),
                ),
            ) && timestamped_entries(lines)->Ok_0[k].number == (at[k] + 1) % 0x1_0000_0000,
        forall|i: int|
            0 <= i < lines.len() ==> (#[trigger] at.contains(i) <==> timestamped_line(
                trimmed(lines[i]),
            ) is Some),
    decreases lines.len(),
{
    if lines.len() == 0 {
        Seq::empty()
    } else {
        let before = lines.drop_last();
        let n = lines.len() - 1;
        assert(forall|i: int| 0 <= i < n ==> #[trigger] lines[i] == before[i]);
        assert forall|i: int| 0 <= i < before.len() implies !(timestamped_line(
            trimmed(#[trigger] before[i]),
        ) matches Some(Err(_))) by {
            assert(lines[i] == before[i]);
        }
        let at = lemma_entry_positions(before);
        lemma_last_position(at, n);
        let old_entries = timestamped_entries(before)->Ok_0;
        assert(lines[n] == lines.last());
        let entries = timestamped_entries(lines)->Ok_0;
        if timestamped_line(trimmed(lines.last())) is Some {
            let all = at.push(n);
            assert forall|k: int| 0 <= k < all.len() implies 0 <= #[trigger] all[k] < lines.len()
                && timestamped_line(trimmed(lines[all[k]])) == Some(
                Ok::<(nat, Seq<char>), ChapterError>((entries[k].start_time_ms, entries[k].title)),
            ) && entries[k].number == (all[k] + 1) % 0x1_0000_0000 by {
                if k < at.len() {
                    assert(all[k] == at[k]);
                    assert(entries[k] == old_entries[k]);
                }
            }
            assert forall|i: int| 0 <= i < lines.len() implies (#[trigger] all.contains(i)
                <==> timestamped_line(trimmed(lines[i])) is Some) by {
                if i < n {
                    assert(at.contains(i) <==> timestamped_line(trimmed(before[i])) is Some);
                }
            }
            all
        } else {
            assert forall|i: int| 0 <= i < lines.len() implies (#[trigger] at.contains(i)
                <==> timestamped_line(trimmed(lines[i])) is Some) by {
                if i < n {
                    assert(at.contains(i) <==> timestamped_line(trimmed(before[i])) is Some);
                }
            }
            at
        }
    }
}

/// A timestamped file has one chapter for every line that is one, in their order, numbered by its
/// line, with the start and the title of the line; it ends where the next chapter starts, and the
/// last one has no end yet. Without such a line there is no list.
pub proof fn a_timestamped_file_has_a_chapter_per_timed_line(
    lines: Seq<Seq<char>>,
    r: Result<Seq<ChapterModel>, ChapterError>,
) -> (at: Seq<int>)
    requires
        timestamped_result(lines, r),
        forall|i: int|
            0 <= i < lines.len() ==> !(timestamped_line(trimmed(#[trigger] lines[i])) matches Some(
                Err(_),
            )),
    ensures
        increasing(at),
        forall|i: int|
            0 <= i < lines.len() ==> (#[trigger] at.contains(i) <==> timestamped_line(
                trimmed(lines[i]),
            ) is Some),
        at.len() == 0 ==> r == Err::<Seq<ChapterModel>, ChapterError>(
            ChapterError::NoTimestampedChapters,
        ),
        at.len() > 0 ==> r is Ok && r->Ok_0.len() == at.len(),
        forall|k: int|
            0 <= k < at.len() ==> 0 <= #[trigger] at[k] < lines.len() && timestamped_line(
                trimmed(lines[at[k]]),
            ) == Some(
                Ok::<(nat, Seq<char>), ChapterError>(
                    (r->Ok_0[k].start_time_ms, r->Ok_0[k].title),
                ),
            ) && (at[k] < u32::MAX ==> r->Ok_0[k].number == at[k] + 1) && r->Ok_0[k].end_time_ms
                == if k + 1 < at.len() {
                r->Ok_0[k + 1].start_time_ms
            } else {
                0
            },
{
    let at = lemma_entry_positions(lines);
    let entries = timestamped_entries(lines)->Ok_0;
    assert forall|k: int| 0 <= k < at.len() implies 0 <= #[trigger] at[k] < lines.len()
        && timestamped_line(trimmed(lines[at[k]])) == Some(
        Ok::<(nat, Seq<char>), ChapterError>((r->Ok_0[k].start_time_ms, r->Ok_0[k].title)),
    ) && (at[k] < u32::MAX ==> r->Ok_0[k].number == at[k] + 1) && r->Ok_0[k].end_time_ms == if k + 1
        < at.len() {
        r->Ok_0[k + 1].start_time_ms
    } else {
        0
    } by {
        assert(r->Ok_0 == consecutive_chapters(entries));
        if at[k] < u32::MAX {
            assert((at[k] + 1) % 0x1_0000_0000 == at[k] + 1);
        }
    }
    at
}

proof fn lemma_entries_fail(lines: Seq<Seq<char>>, k: int)
    requires
        0 <= k < lines.len(),
        timestamped_line(trimmed(lines[k])) matches Some(Err(_)),
        forall|i: int|
            0 <= i < k ==> !(timestamped_line(trimmed(#[trigger] lines[i])) matches Some(Err(_))),
    ensures
        timestamped_entries(lines) == Err::<Seq<TimedEntry>, ChapterError>(
            timestamped_line(trimmed(lines[k]))->0->Err_0,
        ),
    decreases lines.len(),
{
    let before = lines.drop_last();
    assert(forall|i: int| 0 <= i < before.len() ==> #[trigger] lines[i] == before[i]);
    if k < before.len() {
        assert forall|i: int| 0 <= i < k implies !(timestamped_line(trimmed(#[trigger] before[i])) matches Some(
            Err(_),
        )) by {
            assert(lines[i] == before[i]);
        }
        lemma_entries_fail(before, k);
    } else {
        assert forall|i: int| 0 <= i < before.len() implies !(timestamped_line(
            trimmed(#[trigger] before[i]),
        ) matches Some(Err(_))) by {
            assert(lines[i] == before[i]);
        }
        let at = lemma_entry_positions(before);
    }
}

/// The first line whose time cannot be read decides the error of a timestamped file.
pub proof fn the_first_unreadable_time_decides(
    lines: Seq<Seq<char>>,
    r: Result<Seq<ChapterModel>, ChapterError>,
    k: int,
)
    requires
        timestamped_result(lines, r),
        0 <= k < lines.len(),
        timestamped_line(trimmed(lines[k])) matches Some(Err(_)),
        forall|i: int|
            0 <= i < k ==> !(timestamped_line(trimmed(#[trigger] lines[i])) matches Some(Err(_))),
    ensures
        r == Err::<Seq<ChapterModel>, ChapterError>(
            timestamped_line(trimmed(lines[k]))->0->Err_0,
        ),
{
    lemma_entries_fail(lines, k);
}

} // verus!
