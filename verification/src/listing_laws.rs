//! What reading an MP4Box listing gives, told line by line and character by character.
use crate::chapter::{ChapterError, ChapterModel};
use crate::chapter_file_laws::{digit, lemma_clock_part, lemma_foreign_number, lemma_short_numbers};
use crate::chapter_import::{
    ascending_numbers, chapter_number, lemma_first_where, listed_chapters, mp4box_listing,
    mp4box_result, name_entry, time_entry, Listing,
};
use crate::patterns::{
    clock_at, decimal_digit, digits_end, first_where, millis_time_at, millis_time_groups, name_at,
    name_groups, number_end, whole_time_at, whole_time_groups,
};
use crate::text::{
    all_ascii_digits, ascii_digit, decimal_text, decimal_value, trimmed, unsigned_digits,
    unsigned_value,
};
use vstd::prelude::*;

verus! {

// ---------------------------------------------------------------------------
// Time lines
// ---------------------------------------------------------------------------

/// The digits of the chapter number of an entry that starts at `i`.
pub open spec fn number_of(t: Seq<char>, i: int) -> Seq<char> {
    t.subrange(i + 7, number_end(t, i))
}

/// Whether a chapter number is one in ASCII digits that 32 bits can hold.
pub open spec fn readable_number(digits: Seq<char>) -> bool {
    &&& forall|k: int| 0 <= k < digits.len() ==> '0' <= #[trigger] digits[k] <= '9'
    &&& decimal_value(digits) <= u32::MAX
}

proof fn lemma_digits_end(t: Seq<char>, i: int)
    requires
        0 <= i <= t.len(),
    ensures
        i <= digits_end(t, i) <= t.len(),
        forall|k: int| i <= k < digits_end(t, i) ==> decimal_digit(#[trigger] t[k]),
    decreases t.len() - i,
{
    if i < t.len() && decimal_digit(t[i]) {
        lemma_digits_end(t, i + 1);
    }
}

proof fn lemma_number(t: Seq<char>, i: int)
    requires
        0 <= i,
        i + 7 <= t.len(),
        number_end(t, i) > i + 7,
    ensures
        readable_number(number_of(t, i)) ==> chapter_number(number_of(t, i)) == Some(
            decimal_value(number_of(t, i)) as u32,
        ),
        !readable_number(number_of(t, i)) ==> chapter_number(number_of(t, i)) is None,
{
    lemma_digits_end(t, i + 7);
    let d = number_of(t, i);
    assert(d[0] == t[i + 7]);
    assert(decimal_digit(d[0]));
    assert(unsigned_digits(d) == d);
    if all_ascii_digits(d) {
        assert forall|k: int| 0 <= k < d.len() implies '0' <= #[trigger] d[k] <= '9' by {
            assert(ascii_digit(d[k]));
        }
    } else {
        let k = choose|k: int| 0 <= k < d.len() && !ascii_digit(#[trigger] d[k]);
        assert(!('0' <= d[k] <= '9'));
    }
}

/// Whether two ASCII digits stand at `i`.
pub open spec fn plain_pair(t: Seq<char>, i: int) -> bool {
    '0' <= t[i] <= '9' && '0' <= t[i + 1] <= '9'
}

/// The milliseconds to a clock time in ASCII digits that stands at `i`.
pub open spec fn start_at(t: Seq<char>, i: int) -> int {
    (digit(t[i]) * 10 + digit(t[i + 1])) * 3_600_000 + (digit(t[i + 3]) * 10 + digit(t[i + 4]))
        * 60_000 + (digit(t[i + 6]) * 10 + digit(t[i + 7])) * 1000
}

proof fn lemma_pair(t: Seq<char>, i: int)
    requires
        0 <= i,
        i + 2 <= t.len(),
        decimal_digit(t[i]),
    ensures
        plain_pair(t, i) ==> unsigned_value(t.subrange(i, i + 2), u64::MAX as nat) == Some(
            (digit(t[i]) * 10 + digit(t[i + 1])) as nat,
        ),
        !plain_pair(t, i) ==> unsigned_value(t.subrange(i, i + 2), u64::MAX as nat) is None,
{
    let s = t.subrange(i, i + 2);
    assert(s[0] == t[i] && s[1] == t[i + 1]);
    lemma_clock_part(s);
    if plain_pair(t, i) {
        lemma_short_numbers(s);
    }
}

/// The chapter time with milliseconds that stands first in a line is read by its digits: the
/// chapter has that number and starts at that many hours, minutes, seconds and milliseconds. The
/// first of its parts that cannot be read decides the error.
pub proof fn a_time_with_milliseconds_is_read_by_its_digits(line: Seq<char>, i: int)
    requires
        0 <= i < line.len(),
        millis_time_at(line, i),
        forall|k: int| 0 <= k < i ==> !#[trigger] millis_time_at(line, k),
    ensures
        ({
            let e = number_end(line, i);
            let number = readable_number(number_of(line, i));
            let hour = plain_pair(line, e + 1);
            let minute = plain_pair(line, e + 4);
            let second = plain_pair(line, e + 7);
            let millis = plain_pair(line, e + 10) && '0' <= line[e + 12] <= '9';
            &&& !number ==> time_entry(line) == Some(
                Err::<(u32, nat), ChapterError>(ChapterError::InvalidNumber),
            )
            &&& number && !hour ==> time_entry(line) == Some(
                Err::<(u32, nat), ChapterError>(ChapterError::InvalidHour),
            )
            &&& number && hour && !minute ==> time_entry(line) == Some(
                Err::<(u32, nat), ChapterError>(ChapterError::InvalidMinute),
            )
            &&& number && hour && minute && !second ==> time_entry(line) == Some(
                Err::<(u32, nat), ChapterError>(ChapterError::InvalidSecond),
            )
            &&& number && hour && minute && second && !millis ==> time_entry(line) == Some(
                Err::<(u32, nat), ChapterError>(ChapterError::InvalidMillisecond),
            )
            &&& number && hour && minute && second && millis ==> time_entry(line) == Some(
                Ok::<(u32, nat), ChapterError>(
                    (
                        decimal_value(number_of(line, i)) as u32,
                        (start_at(line, e + 1) + digit(line[e + 10]) * 100 + digit(line[e + 11]) * 10
                            + digit(line[e + 12])) as nat,
                    ),
                ),
            )
        }),
{
    let p = |k: int| millis_time_at(line, k);
    lemma_first_where(line, p, 0);
    assert(p(i));
    if let Some(j) = first_where(line, p, 0) {
        assert(millis_time_at(line, j));
        assert(j == i) by {
            if j < i {
                assert(!millis_time_at(line, j));
            }
        }
    }
    let e = number_end(line, i);
    let g = millis_time_groups(line)->0;
    assert(first_where(line, p, 0) == Some(i));
    assert(g[1] == number_of(line, i));
    assert(g[2] == line.subrange(e + 1, e + 3) && g[3] == line.subrange(e + 4, e + 6) && g[4]
        == line.subrange(e + 7, e + 9) && g[5] == line.subrange(e + 10, e + 13));
    lemma_number(line, i);
    lemma_digits_end(line, i + 7);
    assert(clock_at(line, e + 1, 2));
    assert(decimal_digit(line[e + 1]) && decimal_digit(line[e + 4]) && decimal_digit(line[e + 7])
        && decimal_digit(line[e + 10]));
    lemma_pair(line, e + 1);
    lemma_pair(line, e + 4);
    lemma_pair(line, e + 7);
    let m = line.subrange(e + 10, e + 13);
    assert(m[0] == line[e + 10] && m[1] == line[e + 11] && m[2] == line[e + 12]);
    if plain_pair(line, e + 10) && '0' <= line[e + 12] <= '9' {
        assert(ascii_digit(m[0]) && ascii_digit(m[1]) && ascii_digit(m[2]));
        lemma_short_numbers(m);
    } else if !ascii_digit(m[0]) {
        lemma_foreign_number(m, 0, u64::MAX as nat);
    } else if !ascii_digit(m[1]) {
        lemma_foreign_number(m, 1, u64::MAX as nat);
    } else {
        lemma_foreign_number(m, 2, u64::MAX as nat);
    }
}

/// A line that is a chapter time in whole seconds, white space around it aside, is read by its
/// digits in the same way.
pub proof fn a_time_in_whole_seconds_is_read_by_its_digits(line: Seq<char>)
    requires
        forall|k: int| 0 <= k < line.len() ==> !#[trigger] millis_time_at(line, k),
        whole_time_at(trimmed(line), 0),
    ensures
        ({
            let t = trimmed(line);
            let e = number_end(t, 0);
            let number = readable_number(number_of(t, 0));
            let hour = plain_pair(t, e + 1);
            let minute = plain_pair(t, e + 4);
            let second = plain_pair(t, e + 7);
            &&& !number ==> time_entry(line) == Some(
                Err::<(u32, nat), ChapterError>(ChapterError::InvalidNumber),
            )
            &&& number && !hour ==> time_entry(line) == Some(
                Err::<(u32, nat), ChapterError>(ChapterError::InvalidHour),
            )
            &&& number && hour && !minute ==> time_entry(line) == Some(
                Err::<(u32, nat), ChapterError>(ChapterError::InvalidMinute),
            )
            &&& number && hour && minute && !second ==> time_entry(line) == Some(
                Err::<(u32, nat), ChapterError>(ChapterError::InvalidSecond),
            )
            &&& number && hour && minute && second ==> time_entry(line) == Some(
                Ok::<(u32, nat), ChapterError>(
                    (decimal_value(number_of(t, 0)) as u32, start_at(t, e + 1) as nat),
                ),
            )
        }),
{
    let t = trimmed(line);
    let p = |k: int| millis_time_at(line, k);
    lemma_first_where(line, p, 0);
    if let Some(j) = first_where(line, p, 0) {
        assert(millis_time_at(line, j));
    }
    let q = |k: int| whole_time_at(t, k);
    assert(q(0));
    lemma_first_where(t, q, 0);
    assert(first_where(t, q, 0) == Some(0int));
    let e = number_end(t, 0);
    let g = whole_time_groups(t)->0;
    assert(t.skip(0) =~= t);
    assert(g[0] == t);
    assert(g[1] == number_of(t, 0));
    assert(g[2] == t.subrange(e + 1, e + 3) && g[3] == t.subrange(e + 4, e + 6) && g[4]
        == t.subrange(e + 7, e + 9));
    lemma_number(t, 0);
    lemma_digits_end(t, 7);
    assert(clock_at(t, e + 1, 2));
    assert(decimal_digit(t[e + 1]) && decimal_digit(t[e + 4]) && decimal_digit(t[e + 7]));
    lemma_pair(t, e + 1);
    lemma_pair(t, e + 4);
    lemma_pair(t, e + 7);
    assert(ascii_digit('0'));
    lemma_short_numbers(seq!['0']);
}

/// The chapter name that stands first in a line is read with its number: it reaches to the end of
/// the line, without the white space around it. A line without one names no chapter.
pub proof fn a_name_reaches_to_the_end_of_its_line(line: Seq<char>, i: int)
    ensures
        0 <= i < line.len() && name_at(line, i) && (forall|k: int|
            0 <= k < i ==> !#[trigger] name_at(line, k)) && readable_number(number_of(line, i))
            ==> name_entry(line) == Some(
            Ok::<(u32, Seq<char>), ChapterError>(
                (
                    decimal_value(number_of(line, i)) as u32,
                    trimmed(line.skip(number_end(line, i) + 5)),
                ),
            ),
        ),
        0 <= i < line.len() && name_at(line, i) && (forall|k: int|
            0 <= k < i ==> !#[trigger] name_at(line, k)) && !readable_number(number_of(line, i))
            ==> name_entry(line) == Some(
            Err::<(u32, Seq<char>), ChapterError>(ChapterError::InvalidNumber),
        ),
        (forall|k: int| 0 <= k < line.len() ==> !#[trigger] name_at(line, k)) ==> name_entry(
            line,
        ) is None,
{
    let p = |k: int| name_at(line, k);
    lemma_first_where(line, p, 0);
    if 0 <= i < line.len() && name_at(line, i) && (forall|k: int|
        0 <= k < i ==> !#[trigger] name_at(line, k)) {
        assert(p(i));
        if let Some(j) = first_where(line, p, 0) {
            assert(name_at(line, j));
            assert(j == i) by {
                if j < i {
                    assert(!name_at(line, j));
                }
            }
        }
        lemma_number(line, i);
        let g = name_groups(line)->0;
        assert(g[1] == number_of(line, i));
    }
    if forall|k: int| 0 <= k < line.len() ==> !#[trigger] name_at(line, k) {
        if let Some(j) = first_where(line, p, 0) {
            assert(name_at(line, j));
        }
    }
}

// ---------------------------------------------------------------------------
// Whole listings
// ---------------------------------------------------------------------------

/// Whether what a line gives is for chapter `n`.
pub open spec fn gives<T>(entry: Option<Result<(u32, T), ChapterError>>, n: u32) -> bool {
    entry matches Some(Ok((m, _))) && m == n
}

/// Whether a line gives a time for chapter `n`.
pub open spec fn times_chapter(line: Seq<char>, n: u32) -> bool {
    gives(time_entry(line), n)
}

/// Whether a line names chapter `n`.
pub open spec fn names_chapter(line: Seq<char>, n: u32) -> bool {
    gives(name_entry(line), n)
}

/// Whether a line cannot be read.
pub open spec fn unreadable(line: Seq<char>) -> bool {
    time_entry(line) matches Some(Err(_)) || name_entry(line) matches Some(Err(_))
}

/// Whether a map holds for chapter `n` what the last line that gives something for it gives.
pub open spec fn told<T>(
    lines: Seq<Seq<char>>,
    entry: spec_fn(Seq<char>) -> Option<Result<(u32, T), ChapterError>>,
    found: Map<u32, T>,
    n: u32,
) -> bool {
    &&& found.contains_key(n) <==> exists|i: int|
        0 <= i < lines.len() && gives(entry(#[trigger] lines[i]), n)
    &&& forall|i: int|
        #![trigger lines[i]]
        0 <= i < lines.len() && gives(entry(lines[i]), n) && (forall|j: int|
            i < j < lines.len() ==> !gives(entry(#[trigger] lines[j]), n)) ==> entry(lines[i])
            == Some(Ok::<(u32, T), ChapterError>((n, found[n])))
}

proof fn lemma_last_line_decides<T>(
    lines: Seq<Seq<char>>,
    entry: spec_fn(Seq<char>) -> Option<Result<(u32, T), ChapterError>>,
    before: Map<u32, T>,
    after: Map<u32, T>,
    n: u32,
)
    requires
        lines.len() > 0,
        told(lines.drop_last(), entry, before, n),
        entry(lines.last()) matches Some(Ok((m, v))) ==> after == before.insert(m, v),
        entry(lines.last()) is None ==> after == before,
        !(entry(lines.last()) matches Some(Err(_))),
    ensures
        told(lines, entry, after, n),
{
    let old_lines = lines.drop_last();
    let l = lines.len() - 1;
    assert(lines[l] == lines.last());
    assert(forall|i: int| 0 <= i < l ==> #[trigger] lines[i] == old_lines[i]);
    if exists|i: int| 0 <= i < lines.len() && gives(entry(#[trigger] lines[i]), n) {
        let i = choose|i: int| 0 <= i < lines.len() && gives(entry(#[trigger] lines[i]), n);
        if i < l {
            assert(gives(entry(old_lines[i]), n));
        }
        assert(after.contains_key(n));
    }
    if after.contains_key(n) && !gives(entry(lines[l]), n) {
        assert(before.contains_key(n));
        let i = choose|i: int| 0 <= i < old_lines.len() && gives(entry(#[trigger] old_lines[i]), n);
        assert(gives(entry(lines[i]), n));
    }
    assert forall|i: int|
        #![trigger lines[i]]
        0 <= i < lines.len() && gives(entry(lines[i]), n) && (forall|j: int|
            i < j < lines.len() ==> !gives(entry(#[trigger] lines[j]), n)) implies entry(lines[i])
        == Some(Ok::<(u32, T), ChapterError>((n, after[n]))) by {
        if i < l {
            assert(!gives(entry(lines[l]), n));
            assert(gives(entry(old_lines[i]), n));
            assert forall|j: int| i < j < old_lines.len() implies !gives(
                entry(#[trigger] old_lines[j]),
                n,
            ) by {
                assert(lines[j] == old_lines[j]);
            }
            assert(entry(old_lines[i]) == Some(Ok::<(u32, T), ChapterError>((n, before[n]))));
        }
    }
}

proof fn lemma_listing_agrees(lines: Seq<Seq<char>>, n: u32)
    requires
        forall|i: int| 0 <= i < lines.len() ==> !unreadable(#[trigger] lines[i]),
    ensures
        mp4box_listing(lines) is Ok,
        told(lines, |l: Seq<char>| time_entry(l), mp4box_listing(lines)->Ok_0.times, n),
        told(lines, |l: Seq<char>| name_entry(l), mp4box_listing(lines)->Ok_0.names, n),
    decreases lines.len(),
{
    let times = |l: Seq<char>| time_entry(l);
    let names = |l: Seq<char>| name_entry(l);
    if lines.len() > 0 {
        let before = lines.drop_last();
        let l = lines.len() - 1;
        assert forall|i: int| 0 <= i < before.len() implies !unreadable(#[trigger] before[i]) by {
            assert(lines[i] == before[i]);
        }
        lemma_listing_agrees(before, n);
        assert(!unreadable(lines[l]));
        let old_listing = mp4box_listing(before)->Ok_0;
        let listing = mp4box_listing(lines)->Ok_0;
        lemma_last_line_decides(lines, times, old_listing.times, listing.times, n);
        lemma_last_line_decides(lines, names, old_listing.names, listing.names, n);
    }
}

/// The first line that cannot be read decides the error of a listing, its time before its name.
pub proof fn the_first_unreadable_line_decides(
    lines: Seq<Seq<char>>,
    r: Result<Seq<ChapterModel>, ChapterError>,
    k: int,
)
    requires
        mp4box_result(lines, r),
        0 <= k < lines.len(),
        unreadable(lines[k]),
        forall|i: int| 0 <= i < k ==> !unreadable(#[trigger] lines[i]),
    ensures
        time_entry(lines[k]) matches Some(Err(e)) ==> r == Err::<Seq<ChapterModel>, ChapterError>(e),
        !(time_entry(lines[k]) matches Some(Err(_))) ==> (name_entry(lines[k]) matches Some(Err(e))
            ==> r == Err::<Seq<ChapterModel>, ChapterError>(e)),
{
    lemma_listing_fails(lines, k);
}

proof fn lemma_listing_fails(lines: Seq<Seq<char>>, k: int)
    requires
        0 <= k < lines.len(),
        unreadable(lines[k]),
        forall|i: int| 0 <= i < k ==> !unreadable(#[trigger] lines[i]),
    ensures
        time_entry(lines[k]) matches Some(Err(e)) ==> mp4box_listing(lines) == Err::<
            Listing,
            ChapterError,
        >(e),
        !(time_entry(lines[k]) matches Some(Err(_))) ==> (name_entry(lines[k]) matches Some(Err(e))
            ==> mp4box_listing(lines) == Err::<Listing, ChapterError>(e)),
    decreases lines.len(),
{
    let before = lines.drop_last();
    assert(forall|i: int| 0 <= i < before.len() ==> #[trigger] lines[i] == before[i]);
    assert forall|i: int| 0 <= i < k && i < before.len() implies !unreadable(#[trigger] before[i]) by {
        assert(lines[i] == before[i]);
    }
    if k < before.len() {
        lemma_listing_fails(before, k);
    } else {
        lemma_listing_agrees(before, 0);
        assert(lines.last() == lines[k]);
    }
}

/// A listing that can be read has a chapter for every number that a line gives a time for, and
/// without such a line there is no list.
pub proof fn every_time_line_lists_a_chapter(
    lines: Seq<Seq<char>>,
    r: Result<Seq<ChapterModel>, ChapterError>,
    n: u32,
)
    requires
        mp4box_result(lines, r),
        forall|i: int| 0 <= i < lines.len() ==> !unreadable(#[trigger] lines[i]),
    ensures
        (exists|i: int| 0 <= i < lines.len() && times_chapter(#[trigger] lines[i], n)) ==> r is Ok
            && exists|k: int| 0 <= k < r->Ok_0.len() && (#[trigger] r->Ok_0[k]).number == n,
        (forall|i: int| 0 <= i < lines.len() ==> time_entry(#[trigger] lines[i]) is None) ==> r
            == Err::<Seq<ChapterModel>, ChapterError>(ChapterError::NoMp4BoxChapters),
{
    lemma_listing_agrees(lines, n);
    let listing = mp4box_listing(lines)->Ok_0;
    if exists|i: int| 0 <= i < lines.len() && times_chapter(#[trigger] lines[i], n) {
        assert(listing.times.contains_key(n));
        assert(listing.times.dom().contains(n));
        let numbers = choose|numbers: Seq<u32>|
            #![trigger listed_chapters(listing, numbers)]
            ascending_numbers(listing, numbers) && r == Ok::<Seq<ChapterModel>, ChapterError>(
                listed_chapters(listing, numbers),
            );
        assert(numbers.contains(n));
        let k = choose|k: int| 0 <= k < numbers.len() && numbers[k] == n;
        assert(r->Ok_0[k].number == n);
    }
    if forall|i: int| 0 <= i < lines.len() ==> time_entry(#[trigger] lines[i]) is None {
        assert forall|m: u32| !listing.times.dom().contains(m) by {
            lemma_listing_agrees(lines, m);
            if listing.times.contains_key(m) {
                let i = choose|i: int| 0 <= i < lines.len() && times_chapter(#[trigger] lines[i], m);
                assert(time_entry(lines[i]) is None);
            }
        }
        assert(listing.times.dom() =~= Set::<u32>::empty());
    }
}

/// Every chapter of a listing starts at the last time that a line gives for its number, and has
/// the last name that a line gives for it, or `Chapter` with the number; it ends where the next
/// chapter starts, and the last one has no end yet.
pub proof fn a_listed_chapter_is_what_its_last_lines_say(
    lines: Seq<Seq<char>>,
    r: Result<Seq<ChapterModel>, ChapterError>,
    k: int,
    n: u32,
    i: int,
)
    requires
        mp4box_result(lines, r),
        forall|j: int| 0 <= j < lines.len() ==> !unreadable(#[trigger] lines[j]),
        r is Ok,
        0 <= k < r->Ok_0.len(),
        r->Ok_0[k].number == n,
    ensures
        exists|j: int| 0 <= j < lines.len() && times_chapter(#[trigger] lines[j], n),
        0 <= i < lines.len() && times_chapter(lines[i], n) && (forall|j: int|
            i < j < lines.len() ==> !times_chapter(#[trigger] lines[j], n)) ==> time_entry(lines[i])
            == Some(Ok::<(u32, nat), ChapterError>((n, r->Ok_0[k].start_time_ms))),
        0 <= i < lines.len() && names_chapter(lines[i], n) && (forall|j: int|
            i < j < lines.len() ==> !names_chapter(#[trigger] lines[j], n)) ==> name_entry(lines[i])
            == Some(Ok::<(u32, Seq<char>), ChapterError>((n, r->Ok_0[k].title))),
        (forall|j: int| 0 <= j < lines.len() ==> !names_chapter(#[trigger] lines[j], n))
            ==> r->Ok_0[k].title == "Chapter "@ + decimal_text(n as nat),
        k + 1 < r->Ok_0.len() ==> r->Ok_0[k].end_time_ms == r->Ok_0[k + 1].start_time_ms
            && r->Ok_0[k].number < r->Ok_0[k + 1].number,
        k + 1 == r->Ok_0.len() ==> r->Ok_0[k].end_time_ms == 0,
{
    lemma_listing_agrees(lines, n);
    let listing = mp4box_listing(lines)->Ok_0;
    let numbers = choose|numbers: Seq<u32>|
        #![trigger listed_chapters(listing, numbers)]
        ascending_numbers(listing, numbers) && r == Ok::<Seq<ChapterModel>, ChapterError>(
            listed_chapters(listing, numbers),
        );
    let chapters = listed_chapters(listing, numbers);
    assert(r->Ok_0 == chapters);
    assert(chapters[k].number == numbers[k]);
    assert(numbers[k] == n);
    assert(numbers.contains(n));
    assert(listing.times.contains_key(n));
    assert(chapters[k].start_time_ms == listing.times[n]);
    if k + 1 < chapters.len() {
        assert(chapters[k + 1].number == numbers[k + 1]);
    }
}

} // verus!
