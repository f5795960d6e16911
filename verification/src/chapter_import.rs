//! Reading chapters from text files, tables of contents and M4B files.
use crate::chapter::{models, Chapter, ChapterError, ChapterModel, TextFormat};
use crate::patterns::{
    captured, captures, first_where, is_match, millis_time_at, millis_time_groups, name_groups,
    no_white_end, starts_with_clock, time_at, timestamp_groups, whole_time_at, whole_time_groups,
    MP4BOX_MARKER, MP4BOX_NAME, MP4BOX_TIME, MP4BOX_WHOLE_TIME, TIMESTAMP_LINE, TIMESTAMP_START,
};
use crate::text::{
    decimal_text, lemma_drop_white_end, lemma_lines_have_no_line_feed, lemma_short_decimal_value,
    lines_of, parse_u64, same_text, skip_white, split_lines, texts, to_decimal, trim, trimmed,
    unsigned_digits, unsigned_value, white_space,
};
use std::collections::HashMap;
use vstd::prelude::*;

verus! {

// ---------------------------------------------------------------------------
// Format detection
// ---------------------------------------------------------------------------

/// The format of a chapter file: MP4Box if a chapter time occurs anywhere, else timestamped if
/// the first line starts with a clock time, else a plain list of titles.
pub open spec fn text_format(content: Seq<char>) -> TextFormat {
    if exists|i: int| time_at(content, i) {
        TextFormat::Mp4Box
    } else if lines_of(content).len() > 0 && starts_with_clock(trimmed(lines_of(content)[0])) {
        TextFormat::Timestamped
    } else {
        TextFormat::Simple
    }
}

/// Detect text file format
pub fn detect_text_format(content: &str) -> (r: TextFormat)
    ensures
        r == text_format(content@),
{
    if is_match(MP4BOX_MARKER, content) {
        return TextFormat::Mp4Box;
    }
    let lines: Vec<String> = split_lines(content);
    proof {
        assert(texts(lines@).len() == lines@.len());
    }
    if lines.len() > 0 {
        proof {
            assert(texts(lines@)[0] == lines@[0]@);
        }
        if is_match(TIMESTAMP_START, trim(lines[0].as_str())) {
            return TextFormat::Timestamped;
        }
    }
    TextFormat::Simple
}

// ---------------------------------------------------------------------------
// Plain lists of titles
// ---------------------------------------------------------------------------

/// The number that a chapter gets from its position: positions count from one, and the count is
/// kept in 32 bits.
pub open spec fn position_number(i: int) -> nat {
    ((i + 1) % 0x1_0000_0000) as nat
}

/// A chapter known by its title alone.
pub open spec fn untimed(i: int, title: Seq<char>) -> ChapterModel {
    ChapterModel { number: position_number(i), title, start_time_ms: 0, end_time_ms: 0 }
}

/// Chapters numbered by position, without times.
pub open spec fn untimed_chapters(titles: Seq<Seq<char>>) -> Seq<ChapterModel> {
    Seq::new(titles.len(), |i: int| untimed(i, titles[i]))
}

/// The trimmed lines that are not blank.
pub open spec fn titles_of(lines: Seq<Seq<char>>) -> Seq<Seq<char>>
    decreases lines.len(),
{
    if lines.len() == 0 {
        Seq::empty()
    } else {
        let before = titles_of(lines.drop_last());
        let title = trimmed(lines.last());
        if title.len() > 0 {
            before.push(title)
        } else {
            before
        }
    }
}

/// The number of the chapter at position `i`.
pub fn number_at(i: usize) -> (r: u32)
    requires
        i < usize::MAX,
    ensures
        r == position_number(i as int),
{
    let n: u64 = i as u64 + 1;
    assert(n as u32 == n % 0x1_0000_0000) by (bit_vector);
    n as u32
}

/// Parse simple format (one title per line)
pub fn parse_simple_format(content: &str) -> (r: Result<Vec<Chapter>, ChapterError>)
    ensures
        simple_result(lines_of(content@), result_models(r)),
{
    let lines: Vec<String> = split_lines(content);
    let ghost all = lines_of(content@);
    let mut chapters: Vec<Chapter> = Vec::new();
    let mut i: usize = 0;
    proof {
        assert(texts(lines@).len() == lines@.len());
        assert(all.take(0) =~= Seq::empty());
        assert(models(chapters@) =~= untimed_chapters(titles_of(all.take(0))));
    }
    while i < lines.len()
        invariant
            texts(lines@) == all,
            all.len() == lines@.len(),
            i <= lines.len(),
            chapters@.len() <= i,
            models(chapters@) == untimed_chapters(titles_of(all.take(i as int))),
        decreases lines.len() - i,
    {
        let title: &str = trim(lines[i].as_str());
        proof {
            assert(all[i as int] == lines@[i as int]@);
            assert(all.take(i + 1).drop_last() =~= all.take(i as int));
        }
        if !title.is_empty() {
            let ghost before = titles_of(all.take(i as int));
            proof {
                assert(models(chapters@).len() == chapters@.len());
            }
            let chapter: Chapter = Chapter::new(
                number_at(chapters.len()),
                title.to_owned(),
                0,
                0,
            );
            let ghost earlier = chapters@;
            chapters.push(chapter);
            proof {
                assert(models(chapters@) =~= models(earlier).push(chapter@));
                assert(chapter@ == untimed(before.len() as int, title@));
                assert(untimed_chapters(before.push(title@)) =~= untimed_chapters(before).push(
                    untimed(before.len() as int, title@),
                ));
            }
        }
        i = i + 1;
    }
    proof {
        assert(all.take(all.len() as int) =~= all);
        assert(models(chapters@).len() == chapters@.len());
    }
    if chapters.len() == 0 {
        Err(ChapterError::NoChapters)
    } else {
        Ok(chapters)
    }
}

// ---------------------------------------------------------------------------
// Clock times
// ---------------------------------------------------------------------------

/// The milliseconds from midnight to a clock time, its parts given in digits. A part in digits
/// other than the ASCII ones is not read.
pub open spec fn clock_ms(
    hours: Seq<char>,
    minutes: Seq<char>,
    seconds: Seq<char>,
) -> Result<nat, ChapterError> {
    match (
        unsigned_value(hours, u64::MAX as nat),
        unsigned_value(minutes, u64::MAX as nat),
        unsigned_value(seconds, u64::MAX as nat),
    ) {
        (None, _, _) => Err(ChapterError::InvalidHour),
        (Some(_), None, _) => Err(ChapterError::InvalidMinute),
        (Some(_), Some(_), None) => Err(ChapterError::InvalidSecond),
        (Some(h), Some(m), Some(s)) => Ok((h * 3600 + m * 60 + s) * 1000),
    }
}

/// A number of at most `s.len()` digits is small.
proof fn lemma_short_unsigned_value(s: Seq<char>, max: nat)
    ensures
        s.len() <= 2 ==> (unsigned_value(s, max) matches Some(v) ==> v < 100),
        s.len() <= 3 ==> (unsigned_value(s, max) matches Some(v) ==> v < 1000),
{
    if unsigned_value(s, max) is Some {
        lemma_short_decimal_value(unsigned_digits(s));
    }
}

/// Reads a clock time whose parts have at most two characters each.
fn read_clock(hours: &str, minutes: &str, seconds: &str) -> (r: Result<u64, ChapterError>)
    requires
        hours@.len() <= 2,
        minutes@.len() <= 2,
        seconds@.len() <= 2,
    ensures
        match r {
            Ok(ms) => clock_ms(hours@, minutes@, seconds@) == Ok::<nat, ChapterError>(ms as nat)
                && ms <= 362_439_000,
            Err(e) => clock_ms(hours@, minutes@, seconds@) == Err::<nat, ChapterError>(e),
        },
{
    proof {
        lemma_short_unsigned_value(hours@, u64::MAX as nat);
        lemma_short_unsigned_value(minutes@, u64::MAX as nat);
        lemma_short_unsigned_value(seconds@, u64::MAX as nat);
    }
    let h: u64 = match parse_u64(hours) {
        Some(v) => v,
        None => return Err(ChapterError::InvalidHour),
    };
    let m: u64 = match parse_u64(minutes) {
        Some(v) => v,
        None => return Err(ChapterError::InvalidMinute),
    };
    let s: u64 = match parse_u64(seconds) {
        Some(v) => v,
        None => return Err(ChapterError::InvalidSecond),
    };
    Ok((h * 3600 + m * 60 + s) * 1000)
}

/// The text of the captured group `i`.
fn group(groups: &Vec<Option<String>>, i: usize) -> (r: &str)
    requires
        i < groups@.len(),
        groups@[i as int] is Some,
    ensures
        r@ == groups@[i as int]->0@,
{
    match &groups[i] {
        Some(s) => s.as_str(),
        None => "",
    }
}

// ---------------------------------------------------------------------------
// Timestamped lines
// ---------------------------------------------------------------------------

/// A chapter that starts at a known time.
#[verifier::ext_equal]
pub struct TimedEntry {
    pub number: nat,
    pub title: Seq<char>,
    pub start_time_ms: nat,
}

/// What a trimmed line says: nothing if it is blank or malformed, else the start and the title
/// of a chapter or why the start cannot be read.
pub open spec fn timestamped_line(line: Seq<char>) -> Option<Result<(nat, Seq<char>), ChapterError>> {
    match timestamp_groups(line) {
        None => None,
        Some(g) => match clock_ms(g[1], g[2], g[3]) {
            Ok(start) => Some(Ok((start, trimmed(g[4])))),
            Err(e) => Some(Err(e)),
        },
    }
}

/// The chapters that the lines announce, each numbered by its line; the first line that cannot
/// be read decides the error.
pub open spec fn timestamped_entries(lines: Seq<Seq<char>>) -> Result<
    Seq<TimedEntry>,
    ChapterError,
>
    decreases lines.len(),
{
    if lines.len() == 0 {
        Ok(Seq::empty())
    } else {
        match timestamped_entries(lines.drop_last()) {
            Err(e) => Err(e),
            Ok(before) => match timestamped_line(trimmed(lines.last())) {
                None => Ok(before),
                Some(Err(e)) => Err(e),
                Some(Ok((start, title))) => Ok(
                    before.push(
                        TimedEntry {
                            number: position_number(lines.len() - 1),
                            title,
                            start_time_ms: start,
                        },
                    ),
                ),
            },
        }
    }
}

/// Chapters that follow one another: each ends where the next one starts, and the end of the
/// last one is not known.
pub open spec fn consecutive_chapters(entries: Seq<TimedEntry>) -> Seq<ChapterModel> {
    Seq::new(
        entries.len(),
        |i: int|
            ChapterModel {
                number: entries[i].number,
                title: entries[i].title,
                start_time_ms: entries[i].start_time_ms,
                end_time_ms: if i + 1 < entries.len() {
                    entries[i + 1].start_time_ms
                } else {
                    0
                },
            },
    )
}

/// The groups of a timestamped line that hold its time are one or two characters long.
proof fn lemma_timestamp_group_lengths(line: Seq<char>)
    ensures
        timestamp_groups(line) matches Some(g) ==> g.len() == 5 && g[1].len() <= 2 && g[2].len()
            == 2 && g[3].len() == 2,
{
}

/// An error in the first lines is the error of all lines.
proof fn lemma_timestamped_error_stays(lines: Seq<Seq<char>>, k: int)
    requires
        0 <= k <= lines.len(),
        timestamped_entries(lines.take(k)) is Err,
    ensures
        timestamped_entries(lines) == timestamped_entries(lines.take(k)),
    decreases lines.len(),
{
    if k < lines.len() {
        assert(lines.drop_last().take(k) =~= lines.take(k));
        lemma_timestamped_error_stays(lines.drop_last(), k);
    } else {
        assert(lines.take(k) =~= lines);
    }
}

/// Parse timestamped format (HH:MM:SS Title)
pub fn parse_timestamped_format(content: &str) -> (r: Result<Vec<Chapter>, ChapterError>)
    ensures
        timestamped_result(lines_of(content@), result_models(r)),
{
    let lines: Vec<String> = split_lines(content);
    let ghost all = lines_of(content@);
    let mut chapters: Vec<Chapter> = Vec::new();
    let ghost mut entries: Seq<TimedEntry> = Seq::empty();
    let mut i: usize = 0;
    proof {
        assert(texts(lines@).len() == lines@.len());
        assert(all.take(0) =~= Seq::empty());
        assert(models(chapters@) =~= consecutive_chapters(entries));
        lemma_lines_have_no_line_feed(content@, 0);
    }
    while i < lines.len()
        invariant
            texts(lines@) == all,
            all == lines_of(content@),
            all.len() == lines@.len(),
            i <= lines.len(),
            forall|k: int, j: int|
                0 <= k < all.len() && 0 <= j < all[k].len() ==> #[trigger] all[k][j] != '\n',
            timestamped_entries(all.take(i as int)) == Ok::<Seq<TimedEntry>, ChapterError>(entries),
            models(chapters@) == consecutive_chapters(entries),
        decreases lines.len() - i,
    {
        let line: &str = trim(lines[i].as_str());
        proof {
            assert(all[i as int] == lines@[i as int]@);
            assert(all.take(i + 1).drop_last() =~= all.take(i as int));
            assert(!all[i as int].contains('\n')) by {
                assert forall|j: int| 0 <= j < all[i as int].len() implies all[i as int][j]
                    != '\n' by {}
            }
            lemma_trimmed(all[i as int]);
            lemma_timestamp_group_lengths(line@);
        }
        if !line.is_empty() {
            if let Some(groups) = captures(TIMESTAMP_LINE, line) {
                let ghost g = timestamp_groups(line@)->0;
                proof {
                    assert(captured(Some(groups), timestamp_groups(line@)));
                    assert(groups@[1] is Some && groups@[2] is Some && groups@[3] is Some
                        && groups@[4] is Some);
                }
                let start_ms: u64 = match read_clock(
                    group(&groups, 1),
                    group(&groups, 2),
                    group(&groups, 3),
                ) {
                    Ok(ms) => ms,
                    Err(e) => {
                        proof {
                            lemma_timestamped_error_stays(all, i + 1);
                        }
                        return Err(e);
                    },
                };
                let title: String = trim(group(&groups, 4)).to_owned();
                let ghost before = chapters@;
                proof {
                    assert(models(before).len() == before.len());
                }
                if chapters.len() > 0 {
                    let last: usize = chapters.len() - 1;
                    chapters[last].end_time_ms = start_ms;
                }
                let ghost closed = chapters@;
                let chapter: Chapter = Chapter::new(number_at(i), title, start_ms, 0);
                chapters.push(chapter);
                proof {
                    let entry = TimedEntry {
                        number: position_number(i as int),
                        title: title@,
                        start_time_ms: start_ms as nat,
                    };
                    let n = entries.len() as int;
                    assert forall|k: int| 0 <= k < n + 1 implies models(chapters@)[k]
                        == #[trigger] consecutive_chapters(entries.push(entry))[k] by {
                        if k < n {
                            assert(models(before)[k] == consecutive_chapters(entries)[k]);
                            assert(models(before)[k] == before[k]@);
                            assert(models(chapters@)[k] == chapters@[k]@);
                        }
                    }
                    assert(models(chapters@) =~= consecutive_chapters(entries.push(entry)));
                    entries = entries.push(entry);
                }
            }
        }
        i = i + 1;
    }
    proof {
        assert(all.take(all.len() as int) =~= all);
        assert(models(chapters@).len() == chapters@.len());
    }
    if chapters.len() == 0 {
        Err(ChapterError::NoTimestampedChapters)
    } else {
        Ok(chapters)
    }
}

/// Trimming takes a part of the text that does not end in white space.
proof fn lemma_trimmed(s: Seq<char>)
    ensures
        no_white_end(trimmed(s)),
        forall|c: char| !s.contains(c) ==> !trimmed(s).contains(c),
{
    lemma_drop_white_end(skip_white(s));
    lemma_skip_white(s);
    let a = skip_white(s);
    let k = s.len() - a.len();
    assert forall|c: char| !s.contains(c) implies !trimmed(s).contains(c) by {
        if trimmed(s).contains(c) {
            let j = choose|j: int| 0 <= j < trimmed(s).len() && trimmed(s)[j] == c;
            assert(a[j] == c);
            assert(s[k + j] == c);
        }
    }
}

/// Skipping white space leaves the end of the text.
proof fn lemma_skip_white(s: Seq<char>)
    ensures
        skip_white(s).len() <= s.len(),
        skip_white(s) == s.skip(s.len() - skip_white(s).len()),
    decreases s.len(),
{
    if s.len() > 0 && white_space(s[0]) {
        lemma_skip_white(s.drop_first());
        let n = skip_white(s).len();
        assert(s.drop_first().skip(s.len() - 1 - n) =~= s.skip(s.len() - n));
    } else {
        assert(s.skip(0) =~= s);
    }
}

// ---------------------------------------------------------------------------
// MP4Box listings
// ---------------------------------------------------------------------------

/// The 32-bit chapter number that a row of digits writes.
pub open spec fn chapter_number(digits: Seq<char>) -> Option<u32> {
    match unsigned_value(digits, u32::MAX as nat) {
        Some(n) => Some(n as u32),
        None => None,
    }
}

/// A chapter number with its start, the start given in hours, minutes, seconds and milliseconds.
pub open spec fn numbered_time(
    number: Seq<char>,
    hours: Seq<char>,
    minutes: Seq<char>,
    seconds: Seq<char>,
    millis: Seq<char>,
) -> Result<(u32, nat), ChapterError> {
    match chapter_number(number) {
        None => Err(ChapterError::InvalidNumber),
        Some(n) => match clock_ms(hours, minutes, seconds) {
            Err(e) => Err(e),
            Ok(ms) => match unsigned_value(millis, u64::MAX as nat) {
                None => Err(ChapterError::InvalidMillisecond),
                Some(extra) => Ok((n, ms + extra)),
            },
        },
    }
}

/// The chapter time that a line gives, if it gives one: the first with milliseconds, anywhere in
/// the line, or else one in whole seconds that is the whole line but for white space around it.
pub open spec fn time_entry(line: Seq<char>) -> Option<Result<(u32, nat), ChapterError>> {
    match millis_time_groups(line) {
        Some(g) => Some(numbered_time(g[1], g[2], g[3], g[4], g[5])),
        None => match whole_time_groups(trimmed(line)) {
            Some(g) => if g[0] == trimmed(line) {
                Some(numbered_time(g[1], g[2], g[3], g[4], seq!['0']))
            } else {
                None
            },
            None => None,
        },
    }
}

/// The chapter name that a line gives, if it gives one.
pub open spec fn name_entry(line: Seq<char>) -> Option<Result<(u32, Seq<char>), ChapterError>> {
    match name_groups(line) {
        None => None,
        Some(g) => match chapter_number(g[1]) {
            None => Some(Err(ChapterError::InvalidNumber)),
            Some(n) => Some(Ok((n, trimmed(g[2])))),
        },
    }
}

/// The starts and the names that a listing gives, by chapter number.
#[verifier::ext_equal]
pub struct Listing {
    pub times: Map<u32, nat>,
    pub names: Map<u32, Seq<char>>,
}

/// A listing with one more chapter time.
pub open spec fn with_time(listing: Listing, entry: Option<Result<(u32, nat), ChapterError>>) -> Result<
    Listing,
    ChapterError,
> {
    match entry {
        None => Ok(listing),
        Some(Err(e)) => Err(e),
        Some(Ok((n, ms))) => Ok(
            Listing { times: listing.times.insert(n, ms), names: listing.names },
        ),
    }
}

/// A listing with one more chapter name.
pub open spec fn with_name(
    listing: Listing,
    entry: Option<Result<(u32, Seq<char>), ChapterError>>,
) -> Result<Listing, ChapterError> {
    match entry {
        None => Ok(listing),
        Some(Err(e)) => Err(e),
        Some(Ok((n, name))) => Ok(
            Listing { times: listing.times, names: listing.names.insert(n, name) },
        ),
    }
}

/// What the lines of an MP4Box file list. A later time or name replaces an earlier one of the
/// same number; the first line that cannot be read decides the error.
pub open spec fn mp4box_listing(lines: Seq<Seq<char>>) -> Result<Listing, ChapterError>
    decreases lines.len(),
{
    if lines.len() == 0 {
        Ok(Listing { times: Map::empty(), names: Map::empty() })
    } else {
        match mp4box_listing(lines.drop_last()) {
            Err(e) => Err(e),
            Ok(before) => match with_time(before, time_entry(lines.last())) {
                Err(e) => Err(e),
                Ok(timed) => with_name(timed, name_entry(lines.last())),
            },
        }
    }
}

/// The title of a listed chapter: its name, or its number in words.
pub open spec fn listed_title(listing: Listing, n: u32) -> Seq<char> {
    if listing.names.contains_key(n) {
        listing.names[n]
    } else {
        "Chapter "@ + decimal_text(n as nat)
    }
}

/// Whether each number is larger than the ones before it.
pub open spec fn ascending(numbers: Seq<u32>) -> bool {
    forall|i: int, j: int| 0 <= i < j < numbers.len() ==> numbers[i] < numbers[j]
}

/// Whether `numbers` are the numbers of the listed times, from the smallest to the largest.
pub open spec fn ascending_numbers(listing: Listing, numbers: Seq<u32>) -> bool {
    &&& ascending(numbers)
    &&& forall|n: u32| listing.times.contains_key(n) <==> numbers.contains(n)
}

/// The chapters of a listing, for its numbers in ascending order: each ends where the next one
/// starts, and the end of the last one is not known.
pub open spec fn listed_chapters(listing: Listing, numbers: Seq<u32>) -> Seq<ChapterModel> {
    consecutive_chapters(
        Seq::new(
            numbers.len(),
            |i: int|
                TimedEntry {
                    number: numbers[i] as nat,
                    title: listed_title(listing, numbers[i]),
                    start_time_ms: listing.times[numbers[i]],
                },
        ),
    )
}

/// An error in the first lines is the error of all lines.
proof fn lemma_listing_error_stays(lines: Seq<Seq<char>>, k: int)
    requires
        0 <= k <= lines.len(),
        mp4box_listing(lines.take(k)) is Err,
    ensures
        mp4box_listing(lines) == mp4box_listing(lines.take(k)),
    decreases lines.len(),
{
    if k < lines.len() {
        assert(lines.drop_last().take(k) =~= lines.take(k));
        lemma_listing_error_stays(lines.drop_last(), k);
    } else {
        assert(lines.take(k) =~= lines);
    }
}

/// What `first_where` finds satisfies the predicate.
pub proof fn lemma_first_where(t: Seq<char>, p: spec_fn(int) -> bool, i: int)
    requires
        0 <= i,
    ensures
        match first_where(t, p, i) {
            Some(j) => i <= j < t.len() && p(j) && forall|k: int| i <= k < j ==> !#[trigger] p(k),
            None => forall|k: int| i <= k < t.len() ==> !#[trigger] p(k),
        },
    decreases t.len() - i,
{
    if i < t.len() && !p(i) {
        lemma_first_where(t, p, i + 1);
    }
}

/// The groups of a chapter time that hold its parts have two and three characters.
proof fn lemma_time_group_lengths(t: Seq<char>)
    ensures
        millis_time_groups(t) matches Some(g) ==> g.len() == 6 && g[2].len() == 2 && g[3].len()
            == 2 && g[4].len() == 2 && g[5].len() == 3,
        whole_time_groups(t) matches Some(g) ==> g.len() == 5 && g[2].len() == 2 && g[3].len() == 2
            && g[4].len() == 2,
{
    lemma_first_where(t, |i: int| millis_time_at(t, i), 0);
    lemma_first_where(t, |i: int| whole_time_at(t, i), 0);
}

/// The 32-bit number that `s` writes.
fn parse_u32(s: &str) -> (r: Option<u32>)
    ensures
        r == chapter_number(s@),
{
    match parse_u64(s) {
        Some(v) => if v <= 0xffff_ffff {
            Some(v as u32)
        } else {
            None
        },
        None => None,
    }
}

/// Reads a chapter number and its start.
fn read_numbered_time(
    number: &str,
    hours: &str,
    minutes: &str,
    seconds: &str,
    millis: &str,
) -> (r: Result<(u32, u64), ChapterError>)
    requires
        hours@.len() <= 2,
        minutes@.len() <= 2,
        seconds@.len() <= 2,
        millis@.len() <= 3,
    ensures
        match r {
            Ok((n, ms)) => numbered_time(number@, hours@, minutes@, seconds@, millis@) == Ok::<
                (u32, nat),
                ChapterError,
            >((n, ms as nat)),
            Err(e) => numbered_time(number@, hours@, minutes@, seconds@, millis@) == Err::<
                (u32, nat),
                ChapterError,
            >(e),
        },
{
    proof {
        lemma_short_unsigned_value(millis@, u64::MAX as nat);
    }
    let n: u32 = match parse_u32(number) {
        Some(v) => v,
        None => return Err(ChapterError::InvalidNumber),
    };
    let ms: u64 = match read_clock(hours, minutes, seconds) {
        Ok(v) => v,
        Err(e) => return Err(e),
    };
    match parse_u64(millis) {
        Some(extra) => Ok((n, ms + extra)),
        None => Err(ChapterError::InvalidMillisecond),
    }
}

/// Reads the chapter time of a line, if it has one.
fn read_time_entry(line: &str) -> (r: Option<Result<(u32, u64), ChapterError>>)
    requires
        !line@.contains('\n'),
    ensures
        match r {
            None => time_entry(line@) is None,
            Some(Ok((n, ms))) => time_entry(line@) == Some(
                Ok::<(u32, nat), ChapterError>((n, ms as nat)),
            ),
            Some(Err(e)) => time_entry(line@) == Some(Err::<(u32, nat), ChapterError>(e)),
        },
{
    proof {
        lemma_time_group_lengths(line@);
        lemma_time_group_lengths(trimmed(line@));
        lemma_trimmed(line@);
    }
    if let Some(groups) = captures(MP4BOX_TIME, line) {
        proof {
            assert(captured(Some(groups), millis_time_groups(line@)));
            assert(groups@[1] is Some && groups@[2] is Some && groups@[3] is Some && groups@[4] is Some
                && groups@[5] is Some);
        }
        return Some(
            read_numbered_time(
                group(&groups, 1),
                group(&groups, 2),
                group(&groups, 3),
                group(&groups, 4),
                group(&groups, 5),
            ),
        );
    }
    let line: &str = trim(line);
    if let Some(groups) = captures(MP4BOX_WHOLE_TIME, line) {
        proof {
            assert(captured(Some(groups), whole_time_groups(line@)));
            assert(groups@[0] is Some && groups@[1] is Some && groups@[2] is Some && groups@[3] is Some
                && groups@[4] is Some);
            reveal_strlit("0");
            assert("0"@ =~= seq!['0']);
        }
        if !same_text(group(&groups, 0), line) {
            return None;
        }
        return Some(
            read_numbered_time(
                group(&groups, 1),
                group(&groups, 2),
                group(&groups, 3),
                group(&groups, 4),
                "0",
            ),
        );
    }
    None
}

/// Reads the chapter name of a line, if it has one.
fn read_name_entry(line: &str) -> (r: Option<Result<(u32, String), ChapterError>>)
    requires
        !line@.contains('\n'),
    ensures
        match r {
            None => name_entry(line@) is None,
            Some(Ok((n, name))) => name_entry(line@) == Some(
                Ok::<(u32, Seq<char>), ChapterError>((n, name@)),
            ),
            Some(Err(e)) => name_entry(line@) == Some(Err::<(u32, Seq<char>), ChapterError>(e)),
        },
{
    match captures(MP4BOX_NAME, line) {
        None => None,
        Some(groups) => {
            proof {
                assert(captured(Some(groups), name_groups(line@)));
                assert(groups@[1] is Some && groups@[2] is Some);
            }
            match parse_u32(group(&groups, 1)) {
                None => Some(Err(ChapterError::InvalidNumber)),
                Some(n) => Some(Ok((n, trim(group(&groups, 2)).to_owned()))),
            }
        },
    }
}

/// What two hash maps hold, as a listing.
spec fn listing_of(times: Map<u32, u64>, names: Map<u32, String>) -> Listing {
    Listing {
        times: times.map_values(|ms: u64| ms as nat),
        names: names.map_values(|s: String| s@),
    }
}

/// Puts `n` into an ascending list that does not hold it yet.
fn insert_ascending(numbers: &mut Vec<u32>, n: u32)
    requires
        ascending(old(numbers)@),
        !old(numbers)@.contains(n),
    ensures
        ascending(final(numbers)@),
        forall|m: u32| final(numbers)@.contains(m) <==> m == n || old(numbers)@.contains(m),
{
    let ghost before = numbers@;
    let mut at: usize = 0;
    while at < numbers.len() && numbers[at] < n
        invariant
            at <= numbers.len(),
            numbers@ == before,
            forall|i: int| 0 <= i < at ==> before[i] < n,
        decreases numbers.len() - at,
    {
        at = at + 1;
    }
    proof {
        if at < before.len() {
            assert(before[at as int] >= n);
            assert(before[at as int] != n);
        }
    }
    numbers.insert(at, n);
    proof {
        let after = numbers@;
        assert(after =~= before.insert(at as int, n));
        assert forall|m: u32| after.contains(m) <==> m == n || before.contains(m) by {
            assert(after[at as int] == n);
            if before.contains(m) {
                let k = choose|k: int| 0 <= k < before.len() && before[k] == m;
                if k < at {
                    assert(after[k] == m);
                } else {
                    assert(after[k + 1] == m);
                }
            }
            if after.contains(m) && m != n {
                let k = choose|k: int| 0 <= k < after.len() && after[k] == m;
                if k < at {
                    assert(before[k] == m);
                } else {
                    assert(before[k - 1] == m);
                }
            }
        }
    }
}

/// The chapters of a listing whose times and numbers are known.
fn chapters_of_listing(
    times: &HashMap<u32, u64>,
    names: &HashMap<u32, String>,
    numbers: &Vec<u32>,
) -> (r: Vec<Chapter>)
    requires
        ascending_numbers(listing_of(times@, names@), numbers@),
    ensures
        models(r@) == listed_chapters(listing_of(times@, names@), numbers@),
{
    broadcast use vstd::std_specs::hash::group_hash_axioms;

    let ghost listing = listing_of(times@, names@);
    let mut chapters: Vec<Chapter> = Vec::new();
    let mut i: usize = 0;
    proof {
        assert(models(chapters@) =~= listed_chapters(listing, numbers@).take(0));
    }
    while i < numbers.len()
        invariant
            listing == listing_of(times@, names@),
            ascending_numbers(listing, numbers@),
            i <= numbers.len(),
            models(chapters@) == listed_chapters(listing, numbers@).take(i as int),
        decreases numbers.len() - i,
    {
        let num: u32 = numbers[i];
        proof {
            assert(numbers@.contains(num));
            assert(listing.times.contains_key(num));
            assert(times@.contains_key(num));
        }
        let start_ms: u64 = *times.get(&num).unwrap();
        let title: String = match names.get(&num) {
            Some(name) => name.clone(),
            None => {
                let mut title: String = "Chapter ".to_owned();
                title.append(to_decimal(num as u64).as_str());
                title
            },
        };
        proof {
            assert(title@ == listed_title(listing, num));
        }
        let end_ms: u64 = if i + 1 < numbers.len() {
            proof {
                assert(numbers@.contains(numbers@[i + 1]));
                assert(listing.times.contains_key(numbers@[i + 1]));
            }
            *times.get(&numbers[i + 1]).unwrap()
        } else {
            0
        };
        let ghost before = chapters@;
        let chapter: Chapter = Chapter::new(num, title, start_ms, end_ms);
        chapters.push(chapter);
        proof {
            let all = listed_chapters(listing, numbers@);
            assert(models(chapters@) =~= models(before).push(chapter@));
            assert(chapter@ =~= all[i as int]);
            assert(all.take(i + 1) =~= all.take(i as int).push(all[i as int]));
        }
        i = i + 1;
    }
    proof {
        let all = listed_chapters(listing, numbers@);
        assert(all.take(all.len() as int) =~= all);
    }
    chapters
}

/// Parse MP4Box format
pub fn parse_mp4box_format(content: &str) -> (r: Result<Vec<Chapter>, ChapterError>)
    ensures
        mp4box_result(lines_of(content@), result_models(r)),
{
    broadcast use vstd::std_specs::hash::group_hash_axioms;

    let lines: Vec<String> = split_lines(content);
    let ghost all = lines_of(content@);
    let mut times: HashMap<u32, u64> = HashMap::new();
    let mut names: HashMap<u32, String> = HashMap::new();
    let mut numbers: Vec<u32> = Vec::new();
    let mut i: usize = 0;
    proof {
        assert(texts(lines@).len() == lines@.len());
        assert(all.take(0) =~= Seq::empty());
        assert(listing_of(times@, names@) =~= Listing { times: Map::empty(), names: Map::empty() });
        lemma_lines_have_no_line_feed(content@, 0);
    }
    while i < lines.len()
        invariant
            texts(lines@) == all,
            all == lines_of(content@),
            all.len() == lines@.len(),
            i <= lines.len(),
            forall|k: int, j: int|
                0 <= k < all.len() && 0 <= j < all[k].len() ==> #[trigger] all[k][j] != '\n',
            mp4box_listing(all.take(i as int)) == Ok::<Listing, ChapterError>(
                listing_of(times@, names@),
            ),
            ascending_numbers(listing_of(times@, names@), numbers@),
        decreases lines.len() - i,
    {
        let line: &str = lines[i].as_str();
        let ghost before = listing_of(times@, names@);
        proof {
            assert(all[i as int] == line@);
            assert(all.take(i + 1).drop_last() =~= all.take(i as int));
            assert(!line@.contains('\n')) by {
                assert forall|j: int| 0 <= j < all[i as int].len() implies all[i as int][j]
                    != '\n' by {}
            }
        }
        if let Some(entry) = read_time_entry(line) {
            match entry {
                Err(e) => {
                    proof {
                        lemma_listing_error_stays(all, i + 1);
                    }
                    return Err(e);
                },
                Ok((num, start_ms)) => {
                    let known: bool = times.contains_key(&num);
                    proof {
                        assert(known == times@.contains_key(num));
                        assert(before.times.contains_key(num) == times@.contains_key(num));
                    }
                    if !known {
                        insert_ascending(&mut numbers, num);
                    }
                    let ghost old_times = times@;
                    times.insert(num, start_ms);
                    proof {
                        assert(listing_of(times@, names@).times =~= before.times.insert(
                            num,
                            start_ms as nat,
                        ));
                        assert forall|n: u32|
                            listing_of(times@, names@).times.contains_key(n) <==> numbers@.contains(
                                n,
                            ) by {
                            assert(before.times.contains_key(n) <==> old_times.contains_key(n));
                        }
                    }
                },
            }
        }
        let ghost timed = listing_of(times@, names@);
        proof {
            assert(with_time(before, time_entry(line@)) == Ok::<Listing, ChapterError>(timed));
        }
        if let Some(entry) = read_name_entry(line) {
            match entry {
                Err(e) => {
                    proof {
                        lemma_listing_error_stays(all, i + 1);
                    }
                    return Err(e);
                },
                Ok((num, name)) => {
                    names.insert(num, name);
                    proof {
                        assert(listing_of(times@, names@).names =~= timed.names.insert(num, name@));
                    }
                },
            }
        }
        proof {
            assert(with_name(timed, name_entry(line@)) == Ok::<Listing, ChapterError>(
                listing_of(times@, names@),
            ));
        }
        i = i + 1;
    }
    let ghost listing = listing_of(times@, names@);
    proof {
        assert(all.take(all.len() as int) =~= all);
    }
    if numbers.len() == 0 {
        proof {
            assert forall|n: u32| !listing.times.dom().contains(n) by {
                assert(listing.times.contains_key(n) <==> numbers@.contains(n));
            }
            assert(listing.times.dom() =~= Set::<u32>::empty());
        }
        return Err(ChapterError::NoMp4BoxChapters);
    }
    proof {
        assert(numbers@.contains(numbers@[0]));
        assert(listing.times.dom().contains(numbers@[0]));
    }
    Ok(chapters_of_listing(&times, &names, &numbers))
}

/// A listing has its numbers in ascending order in one way only.
pub proof fn ascending_numbers_are_unique(listing: Listing, a: Seq<u32>, b: Seq<u32>)
    requires
        ascending_numbers(listing, a),
        ascending_numbers(listing, b),
    ensures
        a == b,
    decreases a.len(),
{
    if a.len() == 0 {
        if b.len() > 0 {
            assert(b.contains(b[0]));
            assert(a.contains(b[0]));
        }
        assert(a =~= b);
    } else {
        assert(a.contains(a.last()));
        assert(b.contains(a.last()));
        let k = choose|k: int| 0 <= k < b.len() && b[k] == a.last();
        assert(b.contains(b.last()));
        assert(a.contains(b.last()));
        let j = choose|j: int| 0 <= j < a.len() && a[j] == b.last();
        assert(a.last() == b.last());
        let smaller = Listing { times: listing.times.remove(a.last()), names: listing.names };
        lemma_shorter_numbers(listing, a);
        lemma_shorter_numbers(listing, b);
        ascending_numbers_are_unique(smaller, a.drop_last(), b.drop_last());
        assert(a =~= a.drop_last().push(a.last()));
        assert(b =~= b.drop_last().push(b.last()));
    }
}

/// Without its largest number a listing has the numbers before it.
proof fn lemma_shorter_numbers(listing: Listing, a: Seq<u32>)
    requires
        ascending_numbers(listing, a),
        a.len() > 0,
    ensures
        ascending_numbers(
            Listing { times: listing.times.remove(a.last()), names: listing.names },
            a.drop_last(),
        ),
{
    let smaller = Listing { times: listing.times.remove(a.last()), names: listing.names };
    assert forall|n: u32| smaller.times.contains_key(n) <==> a.drop_last().contains(n) by {
        assert(listing.times.contains_key(n) <==> a.contains(n));
        if a.contains(n) && n != a.last() {
            let k = choose|k: int| 0 <= k < a.len() && a[k] == n;
            assert(a.drop_last()[k] == n);
        }
        if a.drop_last().contains(n) {
            let k = choose|k: int| 0 <= k < a.drop_last().len() && a.drop_last()[k] == n;
            assert(a[k] == n);
        }
    }
}

// ---------------------------------------------------------------------------
// Chapter files
// ---------------------------------------------------------------------------

/// What reading a plain list of titles gives.
pub open spec fn simple_result(
    lines: Seq<Seq<char>>,
    r: Result<Seq<ChapterModel>, ChapterError>,
) -> bool {
    if titles_of(lines).len() == 0 {
        r == Err::<Seq<ChapterModel>, ChapterError>(ChapterError::NoChapters)
    } else {
        r == Ok::<Seq<ChapterModel>, ChapterError>(untimed_chapters(titles_of(lines)))
    }
}

/// What reading timestamped lines gives.
pub open spec fn timestamped_result(
    lines: Seq<Seq<char>>,
    r: Result<Seq<ChapterModel>, ChapterError>,
) -> bool {
    match timestamped_entries(lines) {
        Err(e) => r == Err::<Seq<ChapterModel>, ChapterError>(e),
        Ok(entries) => if entries.len() == 0 {
            r == Err::<Seq<ChapterModel>, ChapterError>(ChapterError::NoTimestampedChapters)
        } else {
            r == Ok::<Seq<ChapterModel>, ChapterError>(consecutive_chapters(entries))
        },
    }
}

/// What reading an MP4Box listing gives.
pub open spec fn mp4box_result(
    lines: Seq<Seq<char>>,
    r: Result<Seq<ChapterModel>, ChapterError>,
) -> bool {
    match mp4box_listing(lines) {
        Err(e) => r == Err::<Seq<ChapterModel>, ChapterError>(e),
        Ok(listing) => if listing.times.dom() =~= Set::<u32>::empty() {
            r == Err::<Seq<ChapterModel>, ChapterError>(ChapterError::NoMp4BoxChapters)
        } else {
            exists|numbers: Seq<u32>|
                #![trigger listed_chapters(listing, numbers)]
                ascending_numbers(listing, numbers) && r == Ok::<Seq<ChapterModel>, ChapterError>(
                    listed_chapters(listing, numbers),
                )
        },
    }
}

/// What reading a chapter file gives: the file is read in the format that it is detected to be
/// in.
pub open spec fn text_result(
    content: Seq<char>,
    r: Result<Seq<ChapterModel>, ChapterError>,
) -> bool {
    match text_format(content) {
        TextFormat::Simple => simple_result(lines_of(content), r),
        TextFormat::Timestamped => timestamped_result(lines_of(content), r),
        TextFormat::Mp4Box => mp4box_result(lines_of(content), r),
    }
}

/// A result with its chapters as mathematical values.
pub open spec fn result_models(r: Result<Vec<Chapter>, ChapterError>) -> Result<
    Seq<ChapterModel>,
    ChapterError,
> {
    match r {
        Ok(chapters) => Ok(models(chapters@)),
        Err(e) => Err(e),
    }
}

/// Parse chapters from the content of a text file
pub fn parse_text_chapters(content: &str) -> (r: Result<Vec<Chapter>, ChapterError>)
    ensures
        text_result(content@, result_models(r)),
{
    match detect_text_format(content) {
        TextFormat::Simple => parse_simple_format(content),
        TextFormat::Timestamped => parse_timestamped_format(content),
        TextFormat::Mp4Box => parse_mp4box_format(content),
    }
}

/// Chapters from the labels of an EPUB table of contents, in their order
pub fn parse_epub_chapters(labels: &[String]) -> (r: Result<Vec<Chapter>, ChapterError>)
    ensures
        match r {
            Ok(chapters) => labels@.len() > 0 && models(chapters@) == untimed_chapters(
                texts(labels@),
            ),
            Err(e) => labels@.len() == 0 && e == ChapterError::NoTocChapters,
        },
{
    if labels.len() == 0 {
        return Err(ChapterError::NoTocChapters);
    }
    let mut chapters: Vec<Chapter> = Vec::new();
    let mut i: usize = 0;
    let ghost expected = untimed_chapters(texts(labels@));
    proof {
        assert(models(chapters@) =~= expected.take(0));
    }
    while i < labels.len()
        invariant
            i <= labels.len(),
            expected == untimed_chapters(texts(labels@)),
            models(chapters@) == expected.take(i as int),
        decreases labels.len() - i,
    {
        let chapter: Chapter = Chapter::new(number_at(i), labels[i].clone(), 0, 0);
        let ghost before = chapters@;
        chapters.push(chapter);
        proof {
            assert(models(chapters@) =~= models(before).push(chapter@));
            assert(chapter@ =~= expected[i as int]);
            assert(expected.take(i + 1) =~= expected.take(i as int).push(expected[i as int]));
        }
        i = i + 1;
    }
    proof {
        assert(expected.take(expected.len() as int) =~= expected);
    }
    Ok(chapters)
}

// ---------------------------------------------------------------------------
// Chapters of M4B files
// ---------------------------------------------------------------------------

/// A chapter as a probe of an M4B file reports it.
#[derive(Debug)]
pub struct ProbedChapter {
    /// The title tag, if there is one
    pub title: Option<String>,
    /// The start, if it could be read
    pub start_ms: Option<u64>,
    /// The end, if it could be read
    pub end_ms: Option<u64>,
}

/// The chapter at position `i` of an M4B file: numbered by position, named by its number where
/// it has no title, and with zero for a time that could not be read.
pub open spec fn probed_model(i: int, p: ProbedChapter) -> ChapterModel {
    ChapterModel {
        number: position_number(i),
        title: match p.title {
            Some(t) => t@,
            None => "Chapter "@ + decimal_text((i + 1) as nat),
        },
        start_time_ms: match p.start_ms {
            Some(ms) => ms as nat,
            None => 0,
        },
        end_time_ms: match p.end_ms {
            Some(ms) => ms as nat,
            None => 0,
        },
    }
}

/// The existing chapters of an M4B file, from what a probe reports
pub fn read_m4b_chapters(probed: &[ProbedChapter]) -> (r: Vec<Chapter>)
    ensures
        r@.len() == probed@.len(),
        forall|i: int| 0 <= i < r@.len() ==> (#[trigger] r@[i])@ == probed_model(i, probed@[i]),
{
    let mut chapters: Vec<Chapter> = Vec::new();
    let mut i: usize = 0;
    while i < probed.len()
        invariant
            i <= probed.len(),
            chapters@.len() == i,
            forall|k: int|
                0 <= k < i ==> (#[trigger] chapters@[k])@ == probed_model(k, probed@[k]),
        decreases probed.len() - i,
    {
        let title: String = match &probed[i].title {
            Some(t) => t.clone(),
            None => {
                let mut t: String = "Chapter ".to_owned();
                t.append(to_decimal(i as u64 + 1).as_str());
                t
            },
        };
        let start_ms: u64 = match probed[i].start_ms {
            Some(ms) => ms,
            None => 0,
        };
        let end_ms: u64 = match probed[i].end_ms {
            Some(ms) => ms,
            None => 0,
        };
        chapters.push(Chapter::new(number_at(i), title, start_ms, end_ms));
        i = i + 1;
    }
    chapters
}

} // verus!
