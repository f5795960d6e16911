//! What holds of chapter lists as a whole.
//!
//! The functions of `chapter_import` and `chapter_merge` say what each of them returns; here
//! stand the facts that users of those lists rely on.
use crate::chapter::{ChapterError, ChapterModel, TextFormat};
use crate::chapter_import::{
    ascending_numbers, clock_ms, lemma_first_where, listed_chapters, mp4box_listing, mp4box_result,
    name_entry, text_format, text_result, time_entry, timestamped_line, titles_of, Listing,
};
use crate::chapter_merge::{
    chapter_count, duration, joined, merged_lists, offset, shifted, shifted_list,
};
use crate::patterns::{
    chapter_word, clock_at, decimal_digit, digits_end, first_where, millis_time_at,
    millis_time_groups, name_at, name_groups, name_word, number_end, numbered_at, time_at,
    timestamp_groups, title_after_clock, whole_time_at, whole_time_groups,
};
use crate::text::{
    all_ascii_digits, ascii_digit, decimal_text, decimal_text_reads_back, decimal_value,
    digit_char, drop_white, lemma_drop_white_end, lemma_line_end_is, lines_from, lines_of, strip_carriage_return,
    skip_white, trimmed, unsigned_value, white_space,
};
use vstd::prelude::*;

verus! {

// ---------------------------------------------------------------------------
// Lists that were read
// ---------------------------------------------------------------------------

/// A chapter file that is read without an error gives at least one chapter.
pub proof fn a_read_list_is_not_empty(
    content: Seq<char>,
    r: Result<Seq<ChapterModel>, ChapterError>,
)
    requires
        text_result(content, r),
    ensures
        r matches Ok(chapters) ==> chapters.len() > 0,
{
    if text_format(content) == TextFormat::Mp4Box {
        if let Ok(listing) = mp4box_listing(lines_of(content)) {
            if !(listing.times.dom() =~= Set::<u32>::empty()) {
                let n = choose|n: u32| listing.times.dom().contains(n);
                let numbers = choose|numbers: Seq<u32>|
                    #![trigger listed_chapters(listing, numbers)]
                    ascending_numbers(listing, numbers) && r == Ok::<
                        Seq<ChapterModel>,
                        ChapterError,
                    >(listed_chapters(listing, numbers));
                assert(listing.times.contains_key(n));
                assert(numbers.contains(n));
                assert(listed_chapters(listing, numbers).len() == numbers.len());
            }
        }
    }
}

/// A file with a chapter time in it is an MP4Box listing, whatever its first line looks like.
pub proof fn a_chapter_time_makes_a_listing(content: Seq<char>, i: int)
    requires
        time_at(content, i),
    ensures
        text_format(content) == TextFormat::Mp4Box,
{
}

/// Whether each chapter ends where the next one starts and the end of the last one is open.
pub open spec fn follows_on(chapters: Seq<ChapterModel>) -> bool {
    &&& forall|i: int|
        0 <= i < chapters.len() - 1 ==> (#[trigger] chapters[i]).end_time_ms == chapters[i
            + 1].start_time_ms
    &&& chapters.len() > 0 ==> chapters.last().end_time_ms == 0
}

/// In a list read from timestamped lines or from an MP4Box listing, each chapter ends where the
/// next one starts, and the last one has no end yet.
pub proof fn timed_chapters_follow_on(
    content: Seq<char>,
    r: Result<Seq<ChapterModel>, ChapterError>,
)
    requires
        text_result(content, r),
        text_format(content) != TextFormat::Simple,
    ensures
        r matches Ok(chapters) ==> follows_on(chapters),
{
}

/// The chapters of an MP4Box listing come in ascending order of their numbers, whatever the
/// order of the lines.
pub proof fn listed_chapters_ascend(lines: Seq<Seq<char>>, r: Result<Seq<ChapterModel>, ChapterError>)
    requires
        mp4box_result(lines, r),
    ensures
        r matches Ok(chapters) ==> forall|i: int, j: int|
            0 <= i < j < chapters.len() ==> chapters[i].number < chapters[j].number,
{
    if let Ok(listing) = mp4box_listing(lines) {
        if !(listing.times.dom() =~= Set::<u32>::empty()) {
            let numbers = choose|numbers: Seq<u32>|
                #![trigger listed_chapters(listing, numbers)]
                ascending_numbers(listing, numbers) && r == Ok::<Seq<ChapterModel>, ChapterError>(
                    listed_chapters(listing, numbers),
                );
            let chapters = listed_chapters(listing, numbers);
            assert forall|i: int, j: int| 0 <= i < j < chapters.len() implies chapters[i].number
                < chapters[j].number by {
                assert(chapters[i].number == numbers[i]);
                assert(chapters[j].number == numbers[j]);
            }
        }
    }
}

// ---------------------------------------------------------------------------
// Lines that are written the usual way
// ---------------------------------------------------------------------------

/// Two digits.
pub open spec fn two_digits(n: nat) -> Seq<char> {
    seq![digit_char(n / 10), digit_char(n % 10)]
}

/// Three digits.
pub open spec fn three_digits(n: nat) -> Seq<char> {
    seq![digit_char(n / 100), digit_char(n / 10 % 10), digit_char(n % 10)]
}

/// `HH:MM:SS`.
pub open spec fn clock_text(h: nat, m: nat, s: nat) -> Seq<char> {
    two_digits(h) + seq![':'] + two_digits(m) + seq![':'] + two_digits(s)
}

/// Two and three digits are read as the number they were written from.
proof fn lemma_fixed_digits(n: nat)
    ensures
        n < 100 ==> unsigned_value(two_digits(n), u64::MAX as nat) == Some(n),
        n < 1000 ==> unsigned_value(three_digits(n), u64::MAX as nat) == Some(n),
        n < 100 ==> all_ascii_digits(two_digits(n)),
        n < 1000 ==> all_ascii_digits(three_digits(n)),
{
    reveal_with_fuel(decimal_value, 4);
    if n < 100 {
        let t = two_digits(n);
        assert(t.drop_last() =~= seq![t[0]]);
        assert(seq![t[0]].drop_last() =~= Seq::<char>::empty());
        assert(ascii_digit(t[0]) && ascii_digit(t[1]));
        assert(decimal_value(t) == n);
    }
    if n < 1000 {
        let t = three_digits(n);
        assert(t.drop_last() =~= seq![t[0], t[1]]);
        assert(seq![t[0], t[1]].drop_last() =~= seq![t[0]]);
        assert(seq![t[0]].drop_last() =~= Seq::<char>::empty());
        assert(ascii_digit(t[0]) && ascii_digit(t[1]) && ascii_digit(t[2]));
        assert(decimal_value(t) == n);
    }
}

/// A clock time stands where it was written.
proof fn lemma_clock_stands(t: Seq<char>, i: int, h: nat, m: nat, s: nat)
    requires
        0 <= i,
        i + 8 <= t.len(),
        t.subrange(i, i + 8) == clock_text(h, m, s),
        h < 100,
        m < 100,
        s < 100,
    ensures
        clock_at(t, i, 2),
        t.subrange(i, i + 2) == two_digits(h),
        t.subrange(i + 3, i + 5) == two_digits(m),
        t.subrange(i + 6, i + 8) == two_digits(s),
        clock_ms(t.subrange(i, i + 2), t.subrange(i + 3, i + 5), t.subrange(i + 6, i + 8)) == Ok::<
            nat,
            ChapterError,
        >((h * 3600 + m * 60 + s) * 1000),
{
    let c = clock_text(h, m, s);
    assert forall|k: int| 0 <= k < 8 implies t[i + k] == c[k] by {
        assert(t.subrange(i, i + 8)[k] == t[i + k]);
    }
    assert(c[0] == two_digits(h)[0] && c[1] == two_digits(h)[1]);
    assert(c[2] == ':' && c[5] == ':');
    assert(c[3] == two_digits(m)[0] && c[4] == two_digits(m)[1]);
    assert(c[6] == two_digits(s)[0] && c[7] == two_digits(s)[1]);
    assert(t[i + 0] == c[0] && t[i + 1] == c[1] && t[i + 2] == c[2] && t[i + 3] == c[3] && t[i + 4]
        == c[4] && t[i + 5] == c[5] && t[i + 6] == c[6] && t[i + 7] == c[7]);
    assert(t.subrange(i, i + 2) =~= two_digits(h));
    assert(t.subrange(i + 3, i + 5) =~= two_digits(m));
    assert(t.subrange(i + 6, i + 8) =~= two_digits(s));
    lemma_fixed_digits(h);
    lemma_fixed_digits(m);
    lemma_fixed_digits(s);
}

/// Whether a title is free of white space at its ends and does not start with a separator.
pub open spec fn plain_title(title: Seq<char>) -> bool {
    &&& title.len() > 0
    &&& !white_space(title[0])
    &&& !white_space(title.last())
    &&& title[0] != '-'
    &&& title[0] != ':'
}

/// A line `HH:MM:SS Title` is read as a chapter that starts at that time and has that title.
pub proof fn a_timestamped_line_is_read(h: nat, m: nat, s: nat, title: Seq<char>)
    requires
        h < 100,
        m < 100,
        s < 100,
        plain_title(title),
    ensures
        trimmed(clock_text(h, m, s) + seq![' '] + title) == clock_text(h, m, s) + seq![' '] + title,
        timestamped_line(clock_text(h, m, s) + seq![' '] + title) == Some(
            Ok::<(nat, Seq<char>), ChapterError>(((h * 3600 + m * 60 + s) * 1000, title)),
        ),
{
    let t = clock_text(h, m, s) + seq![' '] + title;
    assert(t.subrange(0, 8) =~= clock_text(h, m, s));
    lemma_clock_stands(t, 0, h, m, s);
    lemma_fixed_digits(h);
    assert(t[0] == two_digits(h)[0]);
    assert(ascii_digit(two_digits(h)[0]));
    assert(skip_white(t) == t);
    assert(t.last() == title.last());
    assert(drop_white(t) == t);
    let rest = t.skip(8);
    assert(rest =~= seq![' '] + title);
    assert(rest.drop_first() =~= title);
    assert(skip_white(title) == title);
    assert(skip_white(rest) == title);
    assert(title_after_clock(rest) == title);
    assert(drop_white(title) == title);
    let g = timestamp_groups(t)->0;
    assert(g[1] == t.subrange(0, 2) && g[2] == t.subrange(3, 5) && g[3] == t.subrange(6, 8));
}

/// Where a row of digits ends.
proof fn lemma_digits_end(t: Seq<char>, i: int, e: int)
    requires
        0 <= i <= e <= t.len(),
        forall|k: int| i <= k < e ==> decimal_digit(#[trigger] t[k]),
        e < t.len() ==> !decimal_digit(t[e]),
    ensures
        digits_end(t, i) == e,
    decreases e - i,
{
    if i < e {
        assert(decimal_digit(t[i]));
        lemma_digits_end(t, i + 1, e);
    }
}

/// The number of an entry is the row of digits behind the word.
proof fn lemma_number_stands(t: Seq<char>, n: nat)
    requires
        7 + decimal_text(n).len() < t.len(),
        t.subrange(0, 7) == chapter_word(),
        t.subrange(7, 7 + decimal_text(n).len() as int) == decimal_text(n),
        !decimal_digit(t[7 + decimal_text(n).len() as int]),
    ensures
        numbered_at(t, 0),
        number_end(t, 0) == 7 + decimal_text(n).len(),
{
    let d = decimal_text(n);
    decimal_text_reads_back(n);
    assert forall|k: int| 7 <= k < 7 + d.len() implies decimal_digit(#[trigger] t[k]) by {
        assert(t.subrange(7, 7 + d.len() as int)[k - 7] == t[k]);
        assert(ascii_digit(d[k - 7]));
    }
    lemma_digits_end(t, 7, 7 + d.len() as int);
}

/// A line `CHAPTERn=HH:MM:SS.mmm`.
pub open spec fn time_line(n: nat, h: nat, m: nat, s: nat, ms: nat) -> Seq<char> {
    chapter_word() + decimal_text(n) + seq!['='] + clock_text(h, m, s) + seq!['.'] + three_digits(ms)
}

/// A line `CHAPTERnNAME=name`.
pub open spec fn name_line(n: nat, name: Seq<char>) -> Seq<char> {
    chapter_word() + decimal_text(n) + name_word() + name
}

/// A line `CHAPTERn=HH:MM:SS.mmm` is read as the start of chapter `n`.
pub proof fn a_time_line_is_read(n: u32, h: nat, m: nat, s: nat, ms: nat)
    requires
        h < 100,
        m < 100,
        s < 100,
        ms < 1000,
    ensures
        time_entry(time_line(n as nat, h, m, s, ms)) == Some(
            Ok::<(u32, nat), ChapterError>((n, (h * 3600 + m * 60 + s) * 1000 + ms)),
        ),
{
    let d = decimal_text(n as nat);
    let t = time_line(n as nat, h, m, s, ms);
    let e = 7 + d.len() as int;
    decimal_text_reads_back(n as nat);
    assert(t.subrange(0, 7) =~= chapter_word());
    assert(t.subrange(7, e) =~= d);
    assert(t[e] == '=');
    lemma_number_stands(t, n as nat);
    assert(t.subrange(e + 1, e + 9) =~= clock_text(h, m, s));
    lemma_clock_stands(t, e + 1, h, m, s);
    assert(t[e + 9] == '.');
    assert(t.subrange(e + 10, e + 13) =~= three_digits(ms));
    lemma_fixed_digits(ms);
    assert forall|k: int| e + 10 <= k < e + 13 implies decimal_digit(#[trigger] t[k]) by {
        assert(t[k] == three_digits(ms)[k - e - 10]);
        assert(ascii_digit(three_digits(ms)[k - e - 10]));
    }
    assert(millis_time_at(t, 0));
    let p = |i: int| millis_time_at(t, i);
    assert(p(0));
    assert(first_where(t, p, 0) == Some(0int));
    assert(unsigned_value(d, u32::MAX as nat) == Some(n as nat));
    let g = millis_time_groups(t)->0;
    assert(g[1] == d);
    assert(g[2] == t.subrange(e + 1, e + 3) && g[3] == t.subrange(e + 4, e + 6) && g[4]
        == t.subrange(e + 7, e + 9));
    assert(g[5] == three_digits(ms));
}

/// A line `CHAPTERnNAME=name` is read as the name of chapter `n`, without the white space around
/// it.
pub proof fn a_name_line_is_read(n: u32, name: Seq<char>)
    requires
        name.len() > 0,
    ensures
        name_entry(name_line(n as nat, name)) == Some(
            Ok::<(u32, Seq<char>), ChapterError>((n, trimmed(name))),
        ),
{
    let d = decimal_text(n as nat);
    let t = name_line(n as nat, name);
    let e = 7 + d.len() as int;
    decimal_text_reads_back(n as nat);
    assert(t.subrange(0, 7) =~= chapter_word());
    assert(t.subrange(7, e) =~= d);
    assert(t[e] == 'N');
    lemma_number_stands(t, n as nat);
    assert(t.subrange(e, e + 5) =~= name_word());
    assert(name_at(t, 0));
    let p = |i: int| name_at(t, i);
    assert(p(0));
    assert(first_where(t, p, 0) == Some(0int));
    assert(t.skip(e + 5) =~= name);
    assert(unsigned_value(d, u32::MAX as nat) == Some(n as nat));
    let g = name_groups(t)->0;
    assert(g[1] == d);
    assert(g[2] == name);
}

/// The time behind a chapter number holds no letter.
proof fn lemma_time_has_no_letter(h: nat, m: nat, s: nat, ms: nat)
    requires
        h < 100,
        m < 100,
        s < 100,
        ms < 1000,
    ensures
        ({
            let tail = clock_text(h, m, s) + seq!['.'] + three_digits(ms);
            forall|k: int| 0 <= k < tail.len() ==> #[trigger] tail[k] != 'C'
        }),
{
    lemma_fixed_digits(h);
    lemma_fixed_digits(m);
    lemma_fixed_digits(s);
    lemma_fixed_digits(ms);
    let hh = two_digits(h);
    let mm = two_digits(m);
    let ss = two_digits(s);
    let kk = three_digits(ms);
    assert(ascii_digit(hh[0]) && ascii_digit(hh[1]) && ascii_digit(mm[0]) && ascii_digit(mm[1])
        && ascii_digit(ss[0]) && ascii_digit(ss[1]) && ascii_digit(kk[0]) && ascii_digit(kk[1])
        && ascii_digit(kk[2]));
    let tail = clock_text(h, m, s) + seq!['.'] + three_digits(ms);
    assert(tail =~= seq![hh[0], hh[1], ':', mm[0], mm[1], ':', ss[0], ss[1], '.', kk[0], kk[1], kk[2]]);
}

/// The first letter of the word occurs in a time line only at its start.
proof fn lemma_time_line_letters(n: u32, h: nat, m: nat, s: nat, ms: nat)
    requires
        h < 100,
        m < 100,
        s < 100,
        ms < 1000,
    ensures
        ({
            let t = time_line(n as nat, h, m, s, ms);
            forall|i: int| 0 < i < t.len() ==> #[trigger] t[i] != 'C'
        }),
{
    let d = decimal_text(n as nat);
    let tail = clock_text(h, m, s) + seq!['.'] + three_digits(ms);
    let t = time_line(n as nat, h, m, s, ms);
    assert(t =~= chapter_word() + d + seq!['='] + tail);
    decimal_text_reads_back(n as nat);
    lemma_time_has_no_letter(h, m, s, ms);
    assert forall|i: int| 0 < i < t.len() implies #[trigger] t[i] != 'C' by {
        if i < 7 {
            assert(t[i] == chapter_word()[i]);
        } else if i < 7 + d.len() {
            assert(t[i] == d[i - 7]);
            assert(ascii_digit(d[i - 7]));
        } else if i > 7 + d.len() {
            assert(t[i] == tail[i - 8 - d.len()]);
        }
    }
}

/// A chapter time is not a chapter name.
proof fn lemma_time_line_has_no_name(n: u32, h: nat, m: nat, s: nat, ms: nat)
    requires
        h < 100,
        m < 100,
        s < 100,
        ms < 1000,
    ensures
        name_entry(time_line(n as nat, h, m, s, ms)) is None,
{
    let d = decimal_text(n as nat);
    let t = time_line(n as nat, h, m, s, ms);
    let e = 7 + d.len() as int;
    assert(t.subrange(0, 7) =~= chapter_word());
    assert(t.subrange(7, e) =~= d);
    assert(t[e] == '=');
    lemma_number_stands(t, n as nat);
    lemma_time_line_letters(n, h, m, s, ms);
    let p = |i: int| name_at(t, i);
    lemma_first_where(t, p, 0);
    if let Some(i) = first_where(t, p, 0) {
        assert(name_at(t, i));
        assert(t.subrange(i, i + 7)[0] == t[i]);
        assert(i == 0);
        assert(t.subrange(e, e + 5)[0] == t[e]);
    }
}

/// A line `CHAPTERn=HH:MM:SS`.
pub open spec fn whole_time_line(n: nat, h: nat, m: nat, s: nat) -> Seq<char> {
    chapter_word() + decimal_text(n) + seq!['='] + clock_text(h, m, s)
}

/// How a line `CHAPTERn=HH:MM:SS` is made up: the first letter of the word occurs only at its
/// start, and the time in whole seconds is all of it.
proof fn lemma_whole_time_line(n: u32, h: nat, m: nat, s: nat)
    requires
        h < 100,
        m < 100,
        s < 100,
    ensures
        ({
            let t = whole_time_line(n as nat, h, m, s);
            let e = 7 + decimal_text(n as nat).len() as int;
            &&& t.len() == e + 9
            &&& number_end(t, 0) == e
            &&& t[e] == '='
            &&& whole_time_at(t, 0)
            &&& t.subrange(7, e) == decimal_text(n as nat)
            &&& trimmed(t) == t
            &&& forall|i: int| 0 < i < t.len() ==> #[trigger] t[i] != 'C'
        }),
{
    let d = decimal_text(n as nat);
    let c = clock_text(h, m, s);
    let t = whole_time_line(n as nat, h, m, s);
    let e = 7 + d.len() as int;
    decimal_text_reads_back(n as nat);
    lemma_fixed_digits(h);
    lemma_fixed_digits(m);
    lemma_fixed_digits(s);
    let hh = two_digits(h);
    let mm = two_digits(m);
    let ss = two_digits(s);
    assert(ascii_digit(hh[0]) && ascii_digit(hh[1]) && ascii_digit(mm[0]) && ascii_digit(mm[1])
        && ascii_digit(ss[0]) && ascii_digit(ss[1]));
    assert(c =~= seq![hh[0], hh[1], ':', mm[0], mm[1], ':', ss[0], ss[1]]);
    assert(t.subrange(0, 7) =~= chapter_word());
    assert(t.subrange(7, e) =~= d);
    assert(t[e] == '=');
    lemma_number_stands(t, n as nat);
    assert(t.subrange(e + 1, e + 9) =~= c);
    lemma_clock_stands(t, e + 1, h, m, s);
    assert(t[0] == 'C');
    assert(t.last() == c[7]);
    assert(skip_white(t) == t);
    assert(drop_white(t) == t);
    assert forall|i: int| 0 < i < t.len() implies #[trigger] t[i] != 'C' by {
        if i < 7 {
            assert(t[i] == chapter_word()[i]);
        } else if i < e {
            assert(t[i] == d[i - 7]);
            assert(ascii_digit(d[i - 7]));
        } else if i > e {
            assert(t[i] == c[i - e - 1]);
        }
    }
}

/// No time with milliseconds stands in a line that ends where they would begin.
proof fn lemma_no_millis(t: Seq<char>)
    requires
        t.len() == number_end(t, 0) + 9,
        forall|i: int| 0 < i < t.len() ==> #[trigger] t[i] != 'C',
    ensures
        millis_time_groups(t) is None,
{
    let p = |i: int| millis_time_at(t, i);
    lemma_first_where(t, p, 0);
    if let Some(i) = first_where(t, p, 0) {
        assert(millis_time_at(t, i));
        assert(t.subrange(i, i + 7)[0] == t[i]);
        assert(i == 0);
    }
}

/// The groups of a line `CHAPTERn=HH:MM:SS`.
proof fn lemma_whole_time_groups(n: u32, h: nat, m: nat, s: nat)
    requires
        h < 100,
        m < 100,
        s < 100,
    ensures
        ({
            let t = whole_time_line(n as nat, h, m, s);
            let e = 7 + decimal_text(n as nat).len() as int;
            whole_time_groups(t) == Some(
                seq![
                    t,
                    decimal_text(n as nat),
                    t.subrange(e + 1, e + 3),
                    t.subrange(e + 4, e + 6),
                    t.subrange(e + 7, e + 9),
                ],
            )
        }),
{
    let t = whole_time_line(n as nat, h, m, s);
    lemma_whole_time_line(n, h, m, s);
    let q = |i: int| whole_time_at(t, i);
    assert(q(0));
    assert(first_where(t, q, 0) == Some(0int));
    assert(t.skip(0) =~= t);
}

proof fn lemma_whole_entry(t: Seq<char>, e: int, d: Seq<char>, n: u32, h: nat, m: nat, s: nat)
    requires
        h < 100,
        m < 100,
        s < 100,
        0 <= e,
        t.len() == e + 9,
        trimmed(t) == t,
        millis_time_groups(t) is None,
        unsigned_value(d, u32::MAX as nat) == Some(n as nat),
        t.subrange(e + 1, e + 9) == clock_text(h, m, s),
        whole_time_groups(t) == Some(
            seq![
                t,
                d,
                t.subrange(e + 1, e + 3),
                t.subrange(e + 4, e + 6),
                t.subrange(e + 7, e + 9),
            ],
        ),
    ensures
        time_entry(t) == Some(
            Ok::<(u32, nat), ChapterError>((n, (h * 3600 + m * 60 + s) * 1000)),
        ),
{
    lemma_clock_stands(t, e + 1, h, m, s);
    assert(unsigned_value(seq!['0'], u64::MAX as nat) == Some(0nat)) by {
        reveal_with_fuel(decimal_value, 2);
        assert(seq!['0'].drop_last() =~= Seq::<char>::empty());
    }
}

/// A line `CHAPTERn=HH:MM:SS` is read as the start of chapter `n`.
pub proof fn a_whole_second_line_is_read(n: u32, h: nat, m: nat, s: nat)
    requires
        h < 100,
        m < 100,
        s < 100,
    ensures
        time_entry(whole_time_line(n as nat, h, m, s)) == Some(
            Ok::<(u32, nat), ChapterError>((n, (h * 3600 + m * 60 + s) * 1000)),
        ),
{
    let d = decimal_text(n as nat);
    let t = whole_time_line(n as nat, h, m, s);
    let e = 7 + d.len() as int;
    decimal_text_reads_back(n as nat);
    lemma_whole_time_line(n, h, m, s);
    lemma_no_millis(t);
    lemma_whole_time_groups(n, h, m, s);
    assert(t.subrange(e + 1, e + 9) =~= clock_text(h, m, s));
    lemma_whole_entry(t, e, d, n, h, m, s);
}

/// A chapter time in whole seconds is not a chapter name.
proof fn lemma_whole_time_line_has_no_name(n: u32, h: nat, m: nat, s: nat)
    requires
        h < 100,
        m < 100,
        s < 100,
    ensures
        name_entry(whole_time_line(n as nat, h, m, s)) is None,
{
    let t = whole_time_line(n as nat, h, m, s);
    let e = number_end(t, 0);
    lemma_whole_time_line(n, h, m, s);
    let p = |i: int| name_at(t, i);
    lemma_first_where(t, p, 0);
    if let Some(i) = first_where(t, p, 0) {
        assert(name_at(t, i));
        assert(t.subrange(i, i + 7)[0] == t[i]);
        assert(i == 0);
        assert(t.subrange(e, e + 5)[0] == t[e]);
    }
}

/// A line gives a chapter time if and only if a time with milliseconds stands in it, or it is,
/// but for white space around it, a time in whole seconds.
pub proof fn a_time_is_read_only_where_it_stands(line: Seq<char>)
    ensures
        time_entry(line) is Some <==> (exists|i: int| millis_time_at(line, i)) || whole_time_at(
            trimmed(line),
            0,
        ),
{
    let p = |i: int| millis_time_at(line, i);
    lemma_first_where(line, p, 0);
    if exists|i: int| millis_time_at(line, i) {
        let i = choose|i: int| millis_time_at(line, i);
        assert(p(i));
    }
    let t = trimmed(line);
    let q = |i: int| whole_time_at(t, i);
    lemma_first_where(t, q, 0);
    if let Some(i) = first_where(t, q, 0) {
        if i > 0 {
            assert(t.skip(i).len() != t.len());
            assert(!q(0));
        } else {
            assert(t.skip(0) =~= t);
        }
    } else if whole_time_at(t, 0) {
        assert(q(0));
    }
}

/// Text keeps what stands up to its last character that is not white space.
proof fn lemma_drop_white_keeps(s: Seq<char>, k: int)
    requires
        0 <= k < s.len(),
        !white_space(s[k]),
    ensures
        drop_white(s).len() > k,
        drop_white(s) == s.take(drop_white(s).len() as int),
    decreases s.len(),
{
    lemma_drop_white_end(s);
    if white_space(s.last()) {
        lemma_drop_white_keeps(s.drop_last(), k);
    }
}

/// Where a row of digits ends does not depend on what stands before it.
proof fn lemma_digits_end_shifts(before: Seq<char>, t: Seq<char>, i: int)
    requires
        0 <= i,
    ensures
        digits_end(before + t, before.len() + i) == before.len() + digits_end(t, i),
        i <= digits_end(t, i),
    decreases t.len() - i,
{
    let all = before + t;
    if i < t.len() {
        assert(all[before.len() + i] == t[i]);
        if decimal_digit(t[i]) {
            lemma_digits_end_shifts(before, t, i + 1);
        }
    }
}

/// A time with milliseconds behind some text is one also without that text.
proof fn lemma_millis_time_shifts(before: Seq<char>, t: Seq<char>, i: int)
    requires
        0 <= i,
        millis_time_at(before + t, before.len() + i),
    ensures
        millis_time_at(t, i),
{
    let all = before + t;
    let b = before.len() as int;
    lemma_digits_end_shifts(before, t, i + 7);
    let e = number_end(t, i);
    assert(number_end(all, b + i) == b + e);
    assert(forall|k: int| 0 <= k < t.len() ==> all[b + k] == #[trigger] t[k]);
    assert(all.subrange(b + i, b + i + 7) =~= t.subrange(i, i + 7));
    assert(clock_at(all, b + e + 1, 2));
    assert forall|k: int| e + 1 <= k < e + 3 || e + 4 <= k < e + 6 || e + 7 <= k < e + 9 || e + 10
        <= k < e + 13 implies decimal_digit(#[trigger] t[k]) by {
        assert(all[b + k] == t[k]);
        assert(decimal_digit(all[b + k]));
    }
    assert(all[b + e] == t[e] && all[b + e + 3] == t[e + 3] && all[b + e + 6] == t[e + 6] && all[b
        + e + 9] == t[e + 9]);
}

/// The parts of a name line before the name, and the number in it.
proof fn lemma_name_line(n: u32, name: Seq<char>)
    ensures
        ({
            let t = name_line(n as nat, name);
            let e = 7 + decimal_text(n as nat).len() as int;
            &&& t.len() == e + 5 + name.len()
            &&& t.subrange(0, 7) == chapter_word()
            &&& t.subrange(7, e) == decimal_text(n as nat)
            &&& number_end(t, 0) == e
            &&& t[0] == 'C'
            &&& t[e] == 'N'
            &&& t[e + 4] == '='
            &&& forall|i: int| 0 < i < e + 5 ==> #[trigger] t[i] != 'C'
        }),
{
    let d = decimal_text(n as nat);
    let t = name_line(n as nat, name);
    let e = 7 + d.len() as int;
    decimal_text_reads_back(n as nat);
    assert(t.subrange(0, 7) =~= chapter_word());
    assert(t.subrange(7, e) =~= d);
    assert(t[e] == name_word()[0]);
    assert(t[e + 4] == name_word()[4]);
    lemma_number_stands(t, n as nat);
    assert forall|i: int| 0 < i < e + 5 implies #[trigger] t[i] != 'C' by {
        if i < 7 {
            assert(t[i] == chapter_word()[i]);
        } else if i < e {
            assert(t[i] == d[i - 7]);
            assert(ascii_digit(d[i - 7]));
        } else {
            assert(t[i] == name_word()[i - e]);
        }
    }
}

/// A time with milliseconds in a name line stands in the name.
proof fn lemma_name_line_has_no_millis_time(n: u32, name: Seq<char>, i: int)
    requires
        forall|k: int| !millis_time_at(name, k),
    ensures
        !millis_time_at(name_line(n as nat, name), i),
{
    let t = name_line(n as nat, name);
    let before = chapter_word() + decimal_text(n as nat) + name_word();
    lemma_name_line(n, name);
    if millis_time_at(t, i) {
        assert(t =~= before + name);
        assert(t.subrange(i, i + 7)[0] == t[i]);
        if i >= before.len() {
            lemma_millis_time_shifts(before, name, i - before.len());
        } else {
            assert(i == 0);
        }
    }
}

/// A name line is not a time in whole seconds.
proof fn lemma_name_line_is_no_whole_time(n: u32, name: Seq<char>)
    ensures
        !whole_time_at(trimmed(name_line(n as nat, name)), 0),
{
    let t = name_line(n as nat, name);
    let e = 7 + decimal_text(n as nat).len() as int;
    lemma_name_line(n, name);
    assert(skip_white(t) == t);
    lemma_drop_white_keeps(t, e + 4);
    let w = trimmed(t);
    let l = w.len() as int;
    assert(l > e + 4 && l <= t.len()) by {
        lemma_drop_white_end(t);
    }
    assert forall|k: int| 0 <= k < l implies w[k] == t[k] by {
        assert(t.take(l)[k] == t[k]);
    }
    assert(w.subrange(0, 7) =~= t.subrange(0, 7));
    assert(w.subrange(7, e) =~= t.subrange(7, e));
    assert(w[e] == 'N');
    lemma_number_stands(w, n as nat);
}

/// A name line gives no chapter time, unless the name itself holds one with milliseconds: in
/// particular a name that is or ends in a time in whole seconds is a name and nothing else.
pub proof fn a_name_line_gives_no_time(n: u32, name: Seq<char>)
    requires
        forall|i: int| !millis_time_at(name, i),
    ensures
        time_entry(name_line(n as nat, name)) is None,
{
    let t = name_line(n as nat, name);
    assert forall|i: int| !millis_time_at(t, i) by {
        lemma_name_line_has_no_millis_time(n, name, i);
    }
    lemma_name_line_is_no_whole_time(n, name);
    a_time_is_read_only_where_it_stands(t);
}

/// The two lines `CHAPTERn=HH:MM:SS.mmm` and `CHAPTERnNAME=name` add chapter `n` to a listing,
/// with that start and that name. The name must not itself hold a time with milliseconds: such a
/// line would be read as that time too.
pub proof fn two_lines_list_a_chapter(
    lines: Seq<Seq<char>>,
    n: u32,
    h: nat,
    m: nat,
    s: nat,
    ms: nat,
    name: Seq<char>,
)
    requires
        mp4box_listing(lines) is Ok,
        h < 100,
        m < 100,
        s < 100,
        ms < 1000,
        name.len() > 0,
        forall|i: int| !millis_time_at(name, i),
    ensures
        ({
            let before = mp4box_listing(lines)->Ok_0;
            mp4box_listing(
                lines.push(time_line(n as nat, h, m, s, ms)).push(name_line(n as nat, name)),
            ) == Ok::<Listing, ChapterError>(
                Listing {
                    times: before.times.insert(n, (h * 3600 + m * 60 + s) * 1000 + ms),
                    names: before.names.insert(n, trimmed(name)),
                },
            )
        }),
{
    let a = lines.push(time_line(n as nat, h, m, s, ms));
    let b = a.push(name_line(n as nat, name));
    a_time_line_is_read(n, h, m, s, ms);
    lemma_time_line_has_no_name(n, h, m, s, ms);
    a_name_line_is_read(n, name);
    a_name_line_gives_no_time(n, name);
    assert(a.drop_last() =~= lines);
    assert(b.drop_last() =~= a);
    assert(mp4box_listing(a) is Ok);
}

/// The two lines `CHAPTERn=HH:MM:SS` and `CHAPTERnNAME=name` add chapter `n` to a listing in the
/// same way.
pub proof fn two_lines_list_a_chapter_in_whole_seconds(
    lines: Seq<Seq<char>>,
    n: u32,
    h: nat,
    m: nat,
    s: nat,
    name: Seq<char>,
)
    requires
        mp4box_listing(lines) is Ok,
        h < 100,
        m < 100,
        s < 100,
        name.len() > 0,
        forall|i: int| !millis_time_at(name, i),
    ensures
        ({
            let before = mp4box_listing(lines)->Ok_0;
            mp4box_listing(
                lines.push(whole_time_line(n as nat, h, m, s)).push(name_line(n as nat, name)),
            ) == Ok::<Listing, ChapterError>(
                Listing {
                    times: before.times.insert(n, (h * 3600 + m * 60 + s) * 1000),
                    names: before.names.insert(n, trimmed(name)),
                },
            )
        }),
{
    let a = lines.push(whole_time_line(n as nat, h, m, s));
    let b = a.push(name_line(n as nat, name));
    a_whole_second_line_is_read(n, h, m, s);
    lemma_whole_time_line_has_no_name(n, h, m, s);
    a_name_line_is_read(n, name);
    a_name_line_gives_no_time(n, name);
    assert(a.drop_last() =~= lines);
    assert(b.drop_last() =~= a);
    assert(mp4box_listing(a) is Ok);
}

// ---------------------------------------------------------------------------
// Files that are written line by line
// ---------------------------------------------------------------------------

/// The lines of a file, each followed by a line feed.
pub open spec fn written(lines: Seq<Seq<char>>) -> Seq<char>
    decreases lines.len(),
{
    if lines.len() == 0 {
        Seq::empty()
    } else {
        lines[0] + seq!['\n'] + written(lines.drop_first())
    }
}

/// Whether a text can stand on a line: it holds no line feed and does not end in a carriage
/// return.
pub open spec fn one_line(line: Seq<char>) -> bool {
    !line.contains('\n') && (line.len() > 0 ==> line.last() != '\r')
}

proof fn lemma_written_lines(before: Seq<char>, lines: Seq<Seq<char>>)
    requires
        forall|k: int| 0 <= k < lines.len() ==> one_line(#[trigger] lines[k]),
    ensures
        lines_from(before + written(lines), before.len() as int) == lines,
    decreases lines.len(),
{
    let s = before + written(lines);
    let from = before.len() as int;
    if lines.len() == 0 {
        assert(s =~= before);
        assert(lines_from(s, from) =~= lines);
    } else {
        let line = lines[0];
        let end = from + line.len();
        assert(one_line(lines[0]));
        assert forall|i: int| from <= i < end implies s[i] != '\n' by {
            assert(s[i] == line[i - from]);
            assert(line.contains(line[i - from]));
        }
        assert(s[end] == '\n');
        lemma_line_end_is(s, from, end);
        assert(s.subrange(from, end) =~= line);
        assert(strip_carriage_return(line) == line);
        let rest = lines.drop_first();
        assert forall|k: int| 0 <= k < rest.len() implies one_line(#[trigger] rest[k]) by {
            assert(one_line(lines[k + 1]));
        }
        let next = before + line + seq!['\n'];
        lemma_written_lines(next, rest);
        assert(next + written(rest) =~= s);
        assert(lines =~= seq![line] + rest);
    }
}

/// A file that is written line by line is split into those lines.
pub proof fn written_lines_are_read(lines: Seq<Seq<char>>)
    requires
        forall|k: int| 0 <= k < lines.len() ==> one_line(#[trigger] lines[k]),
    ensures
        lines_of(written(lines)) == lines,
{
    lemma_written_lines(Seq::empty(), lines);
    assert(Seq::<char>::empty() + written(lines) =~= written(lines));
}

/// Lines that are titles without white space at their ends are the titles of the list, in order.
pub proof fn one_title_per_line(lines: Seq<Seq<char>>)
    requires
        forall|k: int|
            0 <= k < lines.len() ==> (#[trigger] lines[k]).len() > 0 && trimmed(lines[k])
                == lines[k],
    ensures
        titles_of(lines) == lines,
    decreases lines.len(),
{
    if lines.len() > 0 {
        one_title_per_line(lines.drop_last());
        assert(lines =~= lines.drop_last().push(lines.last()));
    } else {
        assert(titles_of(lines) =~= lines);
    }
}

// ---------------------------------------------------------------------------
// Lists that were merged from several files
// ---------------------------------------------------------------------------

/// No chapter is lost and none is added.
pub proof fn joined_keeps_every_chapter(lists: Seq<Seq<ChapterModel>>, n: int)
    requires
        0 <= n <= lists.len(),
    ensures
        joined(lists, n).len() == chapter_count(lists, n),
    decreases n,
{
    if n > 0 {
        joined_keeps_every_chapter(lists, n - 1);
    }
}

/// Chapter `j` of file `k` stands behind the chapters of the files before, keeps its title, and
/// is moved by the duration of the files before.
pub proof fn joined_places_every_chapter(lists: Seq<Seq<ChapterModel>>, n: int, k: int, j: int)
    requires
        0 <= k < n <= lists.len(),
        0 <= j < lists[k].len(),
    ensures
        chapter_count(lists, k) + j < joined(lists, n).len(),
        joined(lists, n)[chapter_count(lists, k) + j] == shifted(
            lists[k][j],
            (chapter_count(lists, k) + j + 1) as nat,
            offset(lists, k),
        ),
    decreases n,
{
    joined_keeps_every_chapter(lists, n - 1);
    joined_keeps_every_chapter(lists, n);
    if k < n - 1 {
        joined_places_every_chapter(lists, n - 1, k, j);
    }
}

/// The merged chapters are numbered one, two, three and so on.
pub proof fn joined_numbers_through(lists: Seq<Seq<ChapterModel>>, n: int)
    requires
        0 <= n <= lists.len(),
    ensures
        forall|i: int|
            0 <= i < joined(lists, n).len() ==> (#[trigger] joined(lists, n)[i]).number == i + 1,
    decreases n,
{
    if n > 0 {
        joined_numbers_through(lists, n - 1);
        joined_keeps_every_chapter(lists, n - 1);
        let before = joined(lists, n - 1);
        assert forall|i: int| 0 <= i < joined(lists, n).len() implies (#[trigger] joined(
            lists,
            n,
        )[i]).number == i + 1 by {
            if i < before.len() {
                assert(joined(lists, n)[i] == before[i]);
            } else {
                assert(joined(lists, n)[i] == shifted_list(lists, n - 1)[i - before.len()]);
            }
        }
    }
}

/// Merging keeps how long each chapter is, and the chapters of the first file keep their times.
pub proof fn merging_keeps_chapter_lengths(lists: Seq<Seq<ChapterModel>>, n: int, k: int, j: int)
    requires
        0 <= k < n <= lists.len(),
        0 <= j < lists[k].len(),
    ensures
        ({
            let m = joined(lists, n)[chapter_count(lists, k) + j];
            let c = lists[k][j];
            &&& m.title == c.title
            &&& m.end_time_ms - m.start_time_ms == c.end_time_ms - c.start_time_ms
            &&& k == 0 ==> m.start_time_ms == c.start_time_ms && m.end_time_ms == c.end_time_ms
        }),
{
    joined_places_every_chapter(lists, n, k, j);
}

/// The merged list is as long as its files together: where the last file has chapters, the last
/// chapter ends at the sum of the durations.
pub proof fn joined_lasts_as_long_as_its_parts(lists: Seq<Seq<ChapterModel>>, n: int)
    requires
        0 < n <= lists.len(),
        lists[n - 1].len() > 0,
    ensures
        duration(joined(lists, n)) == offset(lists, n),
{
    let j = lists[n - 1].len() - 1;
    joined_places_every_chapter(lists, n, n - 1, j);
    joined_keeps_every_chapter(lists, n);
    assert(joined(lists, n).last() == joined(lists, n)[chapter_count(lists, n - 1) + j]);
}

/// Whether chapters fill the time from `start` on without a gap.
pub open spec fn gapless(chapters: Seq<ChapterModel>, start: nat) -> bool {
    &&& chapters.len() > 0 ==> chapters[0].start_time_ms == start
    &&& forall|i: int|
        0 <= i < chapters.len() - 1 ==> (#[trigger] chapters[i]).end_time_ms == chapters[i
            + 1].start_time_ms
}

/// Files whose chapters fill them without a gap make a merged list without a gap.
pub proof fn gapless_files_merge_gapless(lists: Seq<Seq<ChapterModel>>, n: int)
    requires
        0 <= n <= lists.len(),
        forall|k: int| 0 <= k < n ==> #[trigger] gapless(lists[k], 0),
    ensures
        gapless(joined(lists, n), 0),
        joined(lists, n).len() > 0 ==> joined(lists, n).last().end_time_ms == offset(lists, n),
        joined(lists, n).len() == 0 ==> offset(lists, n) == 0,
    decreases n,
{
    if n > 0 {
        gapless_files_merge_gapless(lists, n - 1);
        let before = joined(lists, n - 1);
        let part = shifted_list(lists, n - 1);
        let all = joined(lists, n);
        assert(gapless(lists[n - 1], 0));
        assert forall|i: int| 0 <= i < all.len() - 1 implies (#[trigger] all[i]).end_time_ms
            == all[i + 1].start_time_ms by {
            if i + 1 < before.len() {
                assert(all[i] == before[i]);
                assert(all[i + 1] == before[i + 1]);
            } else if i < before.len() {
                assert(all[i] == before.last());
                assert(all[i + 1] == part[0]);
            } else {
                let j = i - before.len();
                assert(all[i] == part[j]);
                assert(all[i + 1] == part[j + 1]);
                assert(lists[n - 1][j].end_time_ms == lists[n - 1][j + 1].start_time_ms);
            }
        }
        if all.len() > 0 {
            if before.len() > 0 {
                assert(all[0] == before[0]);
            } else {
                assert(all[0] == part[0]);
            }
            if part.len() > 0 {
                assert(all.last() == part.last());
            } else {
                assert(all =~= before);
            }
        }
    }
}

/// Whether no chapter ends before it starts, and every chapter starts after those before it have
/// ended.
pub open spec fn ordered(chapters: Seq<ChapterModel>) -> bool {
    &&& forall|i: int|
        0 <= i < chapters.len() ==> (#[trigger] chapters[i]).start_time_ms
            <= chapters[i].end_time_ms
    &&& forall|i: int, j: int|
        #![trigger chapters[i], chapters[j]]
        0 <= i < j < chapters.len() ==> chapters[i].end_time_ms <= chapters[j].start_time_ms
}

/// Files whose chapters are in order and do not overlap make a merged list whose chapters are in
/// order and do not overlap, and none of them ends after the files together do.
pub proof fn ordered_files_merge_ordered(lists: Seq<Seq<ChapterModel>>, n: int)
    requires
        0 <= n <= lists.len(),
        forall|k: int| 0 <= k < n ==> #[trigger] ordered(lists[k]),
    ensures
        ordered(joined(lists, n)),
        forall|i: int|
            0 <= i < joined(lists, n).len() ==> (#[trigger] joined(lists, n)[i]).end_time_ms
                <= offset(lists, n),
        n == lists.len() ==> ordered(merged_lists(lists)),
    decreases n,
{
    if n > 0 {
        ordered_files_merge_ordered(lists, n - 1);
        let before = joined(lists, n - 1);
        let file = lists[n - 1];
        let part = shifted_list(lists, n - 1);
        let all = joined(lists, n);
        assert(ordered(file));
        assert forall|j: int| 0 <= j < part.len() implies {
            &&& offset(lists, n - 1) <= (#[trigger] part[j]).start_time_ms
            &&& part[j].start_time_ms <= part[j].end_time_ms
            &&& part[j].end_time_ms <= offset(lists, n)
        } by {
            assert(file[j].start_time_ms <= file[j].end_time_ms);
            let last = file.len() - 1;
            assert(file[last].start_time_ms <= file[last].end_time_ms);
            if j < last {
                assert(file[j].end_time_ms <= file[last].start_time_ms);
            }
        }
        assert forall|i: int| 0 <= i < all.len() implies {
            &&& (#[trigger] all[i]).start_time_ms <= all[i].end_time_ms
            &&& all[i].end_time_ms <= offset(lists, n)
        } by {
            if i < before.len() {
                assert(all[i] == before[i]);
            } else {
                assert(all[i] == part[i - before.len()]);
            }
        }
        assert forall|i: int, j: int|
            #![trigger all[i], all[j]]
            0 <= i < j < all.len() implies all[i].end_time_ms <= all[j].start_time_ms by {
            if j < before.len() {
                assert(all[i] == before[i] && all[j] == before[j]);
            } else {
                assert(all[j] == part[j - before.len()]);
                if i < before.len() {
                    assert(all[i] == before[i]);
                } else {
                    assert(all[i] == part[i - before.len()]);
                    assert(file[i - before.len()].end_time_ms <= file[j
                        - before.len()].start_time_ms);
                }
            }
        }
    }
}

} // verus!
