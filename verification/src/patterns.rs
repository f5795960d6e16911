//! The line patterns of chapter files, and what the `regex` crate finds with them.
//!
//! A pattern is written once, as the text that the regex engine compiles; beside it stands a
//! spec function that says where the pattern occurs and what its groups hold.
use crate::text::{ascii_digit, skip_white, white_space};
use vstd::prelude::*;

verus! {

/// A chapter time as MP4Box writes it, anywhere in a file.
pub const MP4BOX_MARKER: &'static str = r"CHAPTER\d+=\d{2}:\d{2}:\d{2}";

/// A time of day at the start of a line.
pub const TIMESTAMP_START: &'static str = r"^\d{1,2}:\d{2}:\d{2}";

/// A whole line that holds a time of day and a title.
pub const TIMESTAMP_LINE: &'static str = r"^(\d{1,2}):(\d{2}):(\d{2})\s*[-:]?\s*(.+)$";

/// A chapter number and a time with milliseconds.
pub const MP4BOX_TIME: &'static str = r"CHAPTER(\d+)=(\d{2}):(\d{2}):(\d{2})\.(\d{3})";

/// A chapter number and a time in whole seconds, at the end of a line.
pub const MP4BOX_WHOLE_TIME: &'static str = r"CHAPTER(\d+)=(\d{2}):(\d{2}):(\d{2})\s*$";

/// A chapter number and a chapter name.
pub const MP4BOX_NAME: &'static str = r"CHAPTER(\d+)NAME=(.+)";

// ---------------------------------------------------------------------------
// Digits and clock times
// ---------------------------------------------------------------------------

/// The code points outside ASCII of the Unicode category `Decimal_Number`.
#[verifier::opaque]
pub open spec fn wide_decimal_number(n: u32) -> bool {
    ||| 0x660 <= n <= 0x669
    ||| 0x6f0 <= n <= 0x6f9
    ||| 0x7c0 <= n <= 0x7c9
    ||| 0x966 <= n <= 0x96f
    ||| 0x9e6 <= n <= 0x9ef
    ||| 0xa66 <= n <= 0xa6f
    ||| 0xae6 <= n <= 0xaef
    ||| 0xb66 <= n <= 0xb6f
    ||| 0xbe6 <= n <= 0xbef
    ||| 0xc66 <= n <= 0xc6f
    ||| 0xce6 <= n <= 0xcef
    ||| 0xd66 <= n <= 0xd6f
    ||| 0xde6 <= n <= 0xdef
    ||| 0xe50 <= n <= 0xe59
    ||| 0xed0 <= n <= 0xed9
    ||| 0xf20 <= n <= 0xf29
    ||| 0x1040 <= n <= 0x1049
    ||| 0x1090 <= n <= 0x1099
    ||| 0x17e0 <= n <= 0x17e9
    ||| 0x1810 <= n <= 0x1819
    ||| 0x1946 <= n <= 0x194f
    ||| 0x19d0 <= n <= 0x19d9
    ||| 0x1a80 <= n <= 0x1a89
    ||| 0x1a90 <= n <= 0x1a99
    ||| 0x1b50 <= n <= 0x1b59
    ||| 0x1bb0 <= n <= 0x1bb9
    ||| 0x1c40 <= n <= 0x1c49
    ||| 0x1c50 <= n <= 0x1c59
    ||| 0xa620 <= n <= 0xa629
    ||| 0xa8d0 <= n <= 0xa8d9
    ||| 0xa900 <= n <= 0xa909
    ||| 0xa9d0 <= n <= 0xa9d9
    ||| 0xa9f0 <= n <= 0xa9f9
    ||| 0xaa50 <= n <= 0xaa59
    ||| 0xabf0 <= n <= 0xabf9
    ||| 0xff10 <= n <= 0xff19
    ||| 0x104a0 <= n <= 0x104a9
    ||| 0x10d30 <= n <= 0x10d39
    ||| 0x10d40 <= n <= 0x10d49
    ||| 0x11066 <= n <= 0x1106f
    ||| 0x110f0 <= n <= 0x110f9
    ||| 0x11136 <= n <= 0x1113f
    ||| 0x111d0 <= n <= 0x111d9
    ||| 0x112f0 <= n <= 0x112f9
    ||| 0x11450 <= n <= 0x11459
    ||| 0x114d0 <= n <= 0x114d9
    ||| 0x11650 <= n <= 0x11659
    ||| 0x116c0 <= n <= 0x116c9
    ||| 0x116d0 <= n <= 0x116e3
    ||| 0x11730 <= n <= 0x11739
    ||| 0x118e0 <= n <= 0x118e9
    ||| 0x11950 <= n <= 0x11959
    ||| 0x11bf0 <= n <= 0x11bf9
    ||| 0x11c50 <= n <= 0x11c59
    ||| 0x11d50 <= n <= 0x11d59
    ||| 0x11da0 <= n <= 0x11da9
    ||| 0x11f50 <= n <= 0x11f59
    ||| 0x16130 <= n <= 0x16139
    ||| 0x16a60 <= n <= 0x16a69
    ||| 0x16ac0 <= n <= 0x16ac9
    ||| 0x16b50 <= n <= 0x16b59
    ||| 0x16d70 <= n <= 0x16d79
    ||| 0x1ccf0 <= n <= 0x1ccf9
    ||| 0x1d7ce <= n <= 0x1d7ff
    ||| 0x1e140 <= n <= 0x1e149
    ||| 0x1e2f0 <= n <= 0x1e2f9
    ||| 0x1e4f0 <= n <= 0x1e4f9
    ||| 0x1e5f1 <= n <= 0x1e5fa
    ||| 0x1e950 <= n <= 0x1e959
    ||| 0x1fbf0 <= n <= 0x1fbf9
}

/// Whether `c` is a decimal digit of any script, which is what `\d` stands for.
pub open spec fn decimal_digit(c: char) -> bool {
    ascii_digit(c) || (c as u32 > 127 && wide_decimal_number(c as u32))
}

/// Whether `n` decimal digits stand in `t` from position `i` on.
pub open spec fn digits_at(t: Seq<char>, i: int, n: int) -> bool {
    &&& 0 <= i
    &&& i + n <= t.len()
    &&& forall|k: int| i <= k < i + n ==> decimal_digit(#[trigger] t[k])
}

/// Whether the character `c` stands in `t` at position `i`.
pub open spec fn char_at(t: Seq<char>, i: int, c: char) -> bool {
    0 <= i < t.len() && t[i] == c
}

/// Whether `t` holds, from position `i` on, `h` digits, a colon, two digits, a colon and two
/// digits.
pub open spec fn clock_at(t: Seq<char>, i: int, h: int) -> bool {
    &&& digits_at(t, i, h)
    &&& char_at(t, i + h, ':')
    &&& digits_at(t, i + h + 1, 2)
    &&& char_at(t, i + h + 3, ':')
    &&& digits_at(t, i + h + 4, 2)
}

/// Whether `t` starts with a clock time whose hour has one digit or two.
pub open spec fn starts_with_clock(t: Seq<char>) -> bool {
    clock_at(t, 0, 1) || clock_at(t, 0, 2)
}

// ---------------------------------------------------------------------------
// Timestamped lines
// ---------------------------------------------------------------------------

/// The title behind a clock time: white space, one dash or colon and more white space are
/// skipped, but a dash or colon that nothing follows is itself the title.
pub open spec fn title_after_clock(rest: Seq<char>) -> Seq<char> {
    let a = skip_white(rest);
    let b = skip_white(a.skip(1));
    if a.len() > 0 && (a[0] == '-' || a[0] == ':') && b.len() > 0 {
        b
    } else {
        a
    }
}

/// Whether `t` does not end in white space.
pub open spec fn no_white_end(t: Seq<char>) -> bool {
    t.len() > 0 ==> !white_space(t.last())
}

/// The match and its groups (hours, minutes, seconds, title) of a timestamped line that does
/// not end in white space.
pub open spec fn timestamp_groups(t: Seq<char>) -> Option<Seq<Seq<char>>> {
    let h: int = if clock_at(t, 0, 2) {
        2
    } else {
        1
    };
    if clock_at(t, 0, h) && t.len() > h + 6 {
        Some(
            seq![
                t,
                t.subrange(0, h),
                t.subrange(h + 1, h + 3),
                t.subrange(h + 4, h + 6),
                title_after_clock(t.skip(h + 6)),
            ],
        )
    } else {
        None
    }
}

// ---------------------------------------------------------------------------
// MP4Box entries
// ---------------------------------------------------------------------------

pub open spec fn chapter_word() -> Seq<char> {
    seq!['C', 'H', 'A', 'P', 'T', 'E', 'R']
}

pub open spec fn name_word() -> Seq<char> {
    seq!['N', 'A', 'M', 'E', '=']
}

/// Whether the word `w` stands in `t` at position `i`.
pub open spec fn word_at(t: Seq<char>, i: int, w: Seq<char>) -> bool {
    0 <= i && i + w.len() <= t.len() && t.subrange(i, i + w.len()) == w
}

/// The position behind the row of decimal digits that starts at `i`.
pub open spec fn digits_end(t: Seq<char>, i: int) -> int
    decreases t.len() - i,
{
    if 0 <= i < t.len() && decimal_digit(t[i]) {
        digits_end(t, i + 1)
    } else {
        i
    }
}

/// The position behind the number of an entry that starts at `i`.
pub open spec fn number_end(t: Seq<char>, i: int) -> int {
    digits_end(t, i + 7)
}

/// Whether a numbered entry starts at `i`: the word and at least one digit.
pub open spec fn numbered_at(t: Seq<char>, i: int) -> bool {
    word_at(t, i, chapter_word()) && number_end(t, i) > i + 7
}

/// Whether a chapter time starts at `i`.
pub open spec fn time_at(t: Seq<char>, i: int) -> bool {
    let e = number_end(t, i);
    numbered_at(t, i) && char_at(t, e, '=') && clock_at(t, e + 1, 2)
}

/// Whether a chapter time with milliseconds starts at `i`.
pub open spec fn millis_time_at(t: Seq<char>, i: int) -> bool {
    let e = number_end(t, i);
    time_at(t, i) && char_at(t, e + 9, '.') && digits_at(t, e + 10, 3)
}

/// Whether a chapter time starts at `i` with nothing but white space behind it.
pub open spec fn whole_time_at(t: Seq<char>, i: int) -> bool {
    let e = number_end(t, i);
    time_at(t, i) && forall|k: int| e + 9 <= k < t.len() ==> white_space(#[trigger] t[k])
}

/// Whether a chapter name of at least one character starts at `i`.
pub open spec fn name_at(t: Seq<char>, i: int) -> bool {
    let e = number_end(t, i);
    numbered_at(t, i) && word_at(t, e, name_word()) && e + 5 < t.len()
}

/// The first position in `t` from `i` on at which `p` holds.
pub open spec fn first_where(t: Seq<char>, p: spec_fn(int) -> bool, i: int) -> Option<int>
    decreases t.len() - i,
{
    if i >= t.len() {
        None
    } else if p(i) {
        Some(i)
    } else {
        first_where(t, p, i + 1)
    }
}

/// The match and its groups (number, hours, minutes, seconds, milliseconds) of the leftmost
/// chapter time with milliseconds.
pub open spec fn millis_time_groups(t: Seq<char>) -> Option<Seq<Seq<char>>> {
    match first_where(t, |i: int| millis_time_at(t, i), 0) {
        None => None,
        Some(i) => {
            let e = number_end(t, i);
            Some(
                seq![
                    t.subrange(i, e + 13),
                    t.subrange(i + 7, e),
                    t.subrange(e + 1, e + 3),
                    t.subrange(e + 4, e + 6),
                    t.subrange(e + 7, e + 9),
                    t.subrange(e + 10, e + 13),
                ],
            )
        },
    }
}

/// The match and its groups (number, hours, minutes, seconds) of the leftmost chapter time that
/// ends its line.
pub open spec fn whole_time_groups(t: Seq<char>) -> Option<Seq<Seq<char>>> {
    match first_where(t, |i: int| whole_time_at(t, i), 0) {
        None => None,
        Some(i) => {
            let e = number_end(t, i);
            Some(
                seq![
                    t.skip(i),
                    t.subrange(i + 7, e),
                    t.subrange(e + 1, e + 3),
                    t.subrange(e + 4, e + 6),
                    t.subrange(e + 7, e + 9),
                ],
            )
        },
    }
}

/// The match and its groups (number, name) of the leftmost chapter name; the name reaches to
/// the end of the line.
pub open spec fn name_groups(t: Seq<char>) -> Option<Seq<Seq<char>>> {
    match first_where(t, |i: int| name_at(t, i), 0) {
        None => None,
        Some(i) => {
            let e = number_end(t, i);
            Some(seq![t.skip(i), t.subrange(i + 7, e), t.skip(e + 5)])
        },
    }
}

// ---------------------------------------------------------------------------
// The regex engine
// ---------------------------------------------------------------------------

/// `regex::Regex::new` followed by `Regex::is_match`, for the two patterns that are only tested
/// for: whether the pattern occurs in the text. The marker may occur anywhere, the time only at
/// the start.
#[verifier::external_body]
pub(crate) fn is_match(pattern: &str, text: &str) -> (r: bool)
    requires
        pattern@ == MP4BOX_MARKER@ || pattern@ == TIMESTAMP_START@,
    ensures
        pattern@ == MP4BOX_MARKER@ ==> (r <==> exists|i: int| time_at(text@, i)),
        pattern@ == TIMESTAMP_START@ ==> (r <==> starts_with_clock(text@)),
{
    regex::Regex::new(pattern).unwrap().is_match(text)
}

/// Whether captured groups hold the expected texts, each group having taken part.
pub open spec fn captured(r: Option<Vec<Option<String>>>, expected: Option<Seq<Seq<char>>>) -> bool {
    match (r, expected) {
        (None, None) => true,
        (Some(v), Some(e)) => {
            &&& v@.len() == e.len()
            &&& forall|i: int| 0 <= i < e.len() ==> (#[trigger] v@[i] matches Some(s) && s@ == e[i])
        },
        _ => false,
    }
}

/// `regex::Regex::new` followed by `Regex::captures` and the text of each group, for the four
/// patterns with groups and for text without line feeds: the leftmost match, with greedy
/// repetitions, or nothing if there is none. Of a timestamped line this is stated where the line
/// does not end in white space.
#[verifier::external_body]
pub(crate) fn captures(pattern: &str, text: &str) -> (r: Option<Vec<Option<String>>>)
    requires
        pattern@ == TIMESTAMP_LINE@ || pattern@ == MP4BOX_TIME@ || pattern@ == MP4BOX_WHOLE_TIME@
            || pattern@ == MP4BOX_NAME@,
        !text@.contains('\n'),
    ensures
        pattern@ == TIMESTAMP_LINE@ && no_white_end(text@) ==> captured(
            r,
            timestamp_groups(text@),
        ),
        pattern@ == MP4BOX_TIME@ ==> captured(r, millis_time_groups(text@)),
        pattern@ == MP4BOX_WHOLE_TIME@ ==> captured(r, whole_time_groups(text@)),
        pattern@ == MP4BOX_NAME@ ==> captured(r, name_groups(text@)),
{
    regex::Regex::new(pattern).unwrap().captures(text).map(
        |c| c.iter().map(|g| g.map(|m| m.as_str().to_string())).collect(),
    )
}

/// The patterns, letter for letter: what is stated of a search holds of these texts alone.
pub proof fn patterns_are_written_so()
    ensures
        MP4BOX_MARKER@ == r"CHAPTER\d+=\d{2}:\d{2}:\d{2}"@,
        TIMESTAMP_START@ == r"^\d{1,2}:\d{2}:\d{2}"@,
        TIMESTAMP_LINE@ == r"^(\d{1,2}):(\d{2}):(\d{2})\s*[-:]?\s*(.+)$"@,
        MP4BOX_TIME@ == r"CHAPTER(\d+)=(\d{2}):(\d{2}):(\d{2})\.(\d{3})"@,
        MP4BOX_WHOLE_TIME@ == r"CHAPTER(\d+)=(\d{2}):(\d{2}):(\d{2})\s*$"@,
        MP4BOX_NAME@ == r"CHAPTER(\d+)NAME=(.+)"@,
{
}

} // verus!
