//! What holds of text as a whole: white space, lines, lists, numbers and letter case.
use crate::text::{
    all_ascii_digits, ascii_digit, ascii_lower, comma_items, decimal_text, decimal_text_reads_back,
    decimal_value, drop_white, lemma_line_end, lemma_line_end_is, line_end, lines_from, lines_of,
    lowercase, same_ignoring_ascii_case, skip_white, strip_carriage_return, trimmed,
    unsigned_digits, unsigned_value, white_space,
};
use vstd::arithmetic::power::pow;
use vstd::prelude::*;

verus! {

// ---------------------------------------------------------------------------
// White space
// ---------------------------------------------------------------------------

/// Whether a text is nothing but white space.
pub open spec fn blank(s: Seq<char>) -> bool {
    forall|i: int| 0 <= i < s.len() ==> white_space(#[trigger] s[i])
}

/// Whether a text neither starts nor ends with white space.
pub open spec fn tight(s: Seq<char>) -> bool {
    s.len() > 0 ==> !white_space(s[0]) && !white_space(s[s.len() - 1])
}

proof fn lemma_skip_blank(a: Seq<char>, s: Seq<char>)
    requires
        blank(a),
        s.len() > 0 ==> !white_space(s[0]),
    ensures
        skip_white(a + s) == s,
    decreases a.len(),
{
    let all = a + s;
    if a.len() > 0 {
        assert(white_space(a[0]));
        assert(all[0] == a[0]);
        assert(all.drop_first() =~= a.drop_first() + s);
        assert forall|i: int| 0 <= i < a.drop_first().len() implies white_space(
            #[trigger] a.drop_first()[i],
        ) by {
            assert(white_space(a[i + 1]));
        }
        lemma_skip_blank(a.drop_first(), s);
    } else {
        assert(all =~= s);
    }
}

proof fn lemma_drop_blank(s: Seq<char>, b: Seq<char>)
    requires
        blank(b),
        s.len() > 0 ==> !white_space(s[s.len() - 1]),
    ensures
        drop_white(s + b) == s,
    decreases b.len(),
{
    let all = s + b;
    if b.len() > 0 {
        assert(white_space(b[b.len() - 1]));
        assert(all.last() == b[b.len() - 1]);
        assert(all.drop_last() =~= s + b.drop_last());
        assert forall|i: int| 0 <= i < b.drop_last().len() implies white_space(
            #[trigger] b.drop_last()[i],
        ) by {
            assert(white_space(b[i]));
        }
        lemma_drop_blank(s, b.drop_last());
    } else {
        assert(all =~= s);
    }
}

/// Trimming takes away the white space around a text and nothing of the text itself.
pub proof fn trimming_takes_white_space_only(before: Seq<char>, core: Seq<char>, after: Seq<char>)
    requires
        blank(before),
        tight(core),
        blank(after),
    ensures
        trimmed(before + core + after) == core,
{
    let all = before + core + after;
    if core.len() == 0 {
        let w = before + after;
        assert(all =~= w + core);
        assert forall|i: int| 0 <= i < w.len() implies white_space(#[trigger] w[i]) by {
            if i < before.len() {
                assert(white_space(before[i]));
            } else {
                assert(white_space(after[i - before.len()]));
            }
        }
        lemma_skip_blank(w, core);
        assert(drop_white(core) == core);
    } else {
        let rest = core + after;
        assert(all =~= before + rest);
        assert(rest[0] == core[0]);
        lemma_skip_blank(before, rest);
        lemma_drop_blank(core, after);
    }
}

proof fn lemma_skipped(s: Seq<char>) -> (k: int)
    ensures
        0 <= k <= s.len(),
        skip_white(s) == s.skip(k),
        blank(s.take(k)),
        k < s.len() ==> !white_space(s[k]),
    decreases s.len(),
{
    if s.len() > 0 && white_space(s[0]) {
        let k = lemma_skipped(s.drop_first());
        let t = s.drop_first();
        assert(t.skip(k) =~= s.skip(k + 1));
        assert forall|i: int| 0 <= i < k + 1 implies white_space(#[trigger] s.take(k + 1)[i]) by {
            if i > 0 {
                assert(white_space(t.take(k)[i - 1]));
            }
        }
        k + 1
    } else {
        assert(s.skip(0) =~= s);
        0
    }
}

proof fn lemma_dropped(s: Seq<char>) -> (k: int)
    ensures
        0 <= k <= s.len(),
        drop_white(s) == s.take(k),
        blank(s.skip(k)),
        k > 0 ==> !white_space(s[k - 1]),
    decreases s.len(),
{
    if s.len() > 0 && white_space(s.last()) {
        let t = s.drop_last();
        let k = lemma_dropped(t);
        assert(t.take(k) =~= s.take(k));
        assert forall|i: int| 0 <= i < s.skip(k).len() implies white_space(#[trigger] s.skip(k)[i]) by {
            if k + i < t.len() {
                assert(white_space(t.skip(k)[i]));
            }
        }
        k
    } else {
        assert(s.take(s.len() as int) =~= s);
        s.len() as int
    }
}

/// Every text is its trimmed text with white space before and after.
pub proof fn every_text_has_a_core(s: Seq<char>) -> (ends: (Seq<char>, Seq<char>))
    ensures
        blank(ends.0),
        tight(trimmed(s)),
        blank(ends.1),
        s == ends.0 + trimmed(s) + ends.1,
{
    let k = lemma_skipped(s);
    let t = s.skip(k);
    let j = lemma_dropped(t);
    assert(s =~= s.take(k) + t.take(j) + t.skip(j));
    if t.take(j).len() > 0 {
        assert(t[0] == s[k]);
    }
    (s.take(k), t.skip(j))
}

/// White space is the same for code points as the Unicode property says: none lies beyond the
/// ideographic space, and of ASCII it is the space and the five controls from tab on.
pub proof fn white_space_is_what_unicode_says(c: char)
    ensures
        c as u32 > 0x3000 ==> !white_space(c),
        c as u32 <= 0x7f ==> (white_space(c) <==> c as u32 == 0x20 || 9 <= c as u32 <= 13),
{
}

// ---------------------------------------------------------------------------
// Lines
// ---------------------------------------------------------------------------

proof fn lemma_line_end_shifts(before: Seq<char>, s: Seq<char>, i: int)
    requires
        0 <= i,
    ensures
        line_end(before + s, before.len() + i) == before.len() + line_end(s, i),
    decreases s.len() - i,
{
    if i < s.len() {
        assert((before + s)[before.len() + i] == s[i]);
        if s[i] != '\n' {
            lemma_line_end_shifts(before, s, i + 1);
        }
    }
}

proof fn lemma_lines_shift(before: Seq<char>, s: Seq<char>, i: int)
    requires
        0 <= i,
    ensures
        lines_from(before + s, before.len() + i) == lines_from(s, i),
    decreases s.len() - i,
{
    let all = before + s;
    if i < s.len() {
        lemma_line_end_shifts(before, s, i);
        lemma_line_end(s, i);
        let end = line_end(s, i);
        let b = before.len();
        if end >= s.len() {
            assert(all.subrange(b + i, all.len() as int) =~= s.subrange(i, s.len() as int));
        } else {
            assert(all.subrange(b + i, b + end) =~= s.subrange(i, end));
            lemma_lines_shift(before, s, end + 1);
        }
    }
}

proof fn lemma_first_line(raw: Seq<char>, rest: Seq<char>)
    requires
        !raw.contains('\n'),
    ensures
        lines_of(raw + seq!['\n'] + rest) == seq![strip_carriage_return(raw)] + lines_of(rest),
{
    let s = raw + seq!['\n'] + rest;
    let before = raw + seq!['\n'];
    assert forall|i: int| 0 <= i < raw.len() implies s[i] != '\n' by {
        assert(s[i] == raw[i]);
        assert(raw.contains(raw[i]));
    }
    assert(s[raw.len() as int] == '\n');
    lemma_line_end_is(s, 0, raw.len() as int);
    assert(s.subrange(0, raw.len() as int) =~= raw);
    assert(s =~= before + rest);
    lemma_lines_shift(before, rest, 0);
}

/// Lines are told apart by line feeds, a carriage return before a line feed belongs to the line
/// ending, and the last line needs none.
pub proof fn lines_are_what_stands_between_line_feeds(line: Seq<char>, rest: Seq<char>)
    requires
        !line.contains('\n'),
    ensures
        lines_of(line + seq!['\r', '\n'] + rest) == seq![line] + lines_of(rest),
        line.len() == 0 || line[line.len() - 1] != '\r' ==> lines_of(line + seq!['\n'] + rest)
            == seq![line] + lines_of(rest),
        line.len() > 0 ==> lines_of(line) == seq![line],
        lines_of(Seq::<char>::empty()).len() == 0,
{
    let raw = line.push('\r');
    assert(!raw.contains('\n')) by {
        assert forall|i: int| 0 <= i < raw.len() implies raw[i] != '\n' by {
            if i < line.len() {
                assert(line.contains(line[i]));
            }
        }
    }
    lemma_first_line(raw, rest);
    assert(raw + seq!['\n'] + rest =~= line + seq!['\r', '\n'] + rest);
    assert(raw.drop_last() =~= line);
    lemma_first_line(line, rest);
    if line.len() > 0 {
        assert forall|i: int| 0 <= i < line.len() implies line[i] != '\n' by {
            assert(line.contains(line[i]));
        }
        lemma_line_end_is(line, 0, line.len() as int);
        assert(line.subrange(0, line.len() as int) =~= line);
    }
}

// ---------------------------------------------------------------------------
// Lists
// ---------------------------------------------------------------------------

/// The items of a list put together again, with a comma between every two of them.
pub open spec fn put_together(items: Seq<Seq<char>>) -> Seq<char>
    decreases items.len(),
{
    if items.len() == 0 {
        Seq::empty()
    } else if items.len() == 1 {
        items[0]
    } else {
        put_together(items.drop_last()) + seq![','] + items.last()
    }
}

/// A list is split exactly at its commas: no item holds one, and put together with commas between
/// them the items are the list again.
pub proof fn a_list_is_its_items(s: Seq<char>)
    ensures
        comma_items(s).len() > 0,
        put_together(comma_items(s)) == s,
        forall|k: int| 0 <= k < comma_items(s).len() ==> !(#[trigger] comma_items(s)[k]).contains(','),
    decreases s.len(),
{
    let items = comma_items(s);
    if s.len() == 0 {
        assert(items[0] =~= s);
    } else {
        let head = s.drop_last();
        let c = s.last();
        let before = comma_items(head);
        a_list_is_its_items(head);
        assert(s =~= head.push(c));
        if c == ',' {
            assert(items.drop_last() =~= before);
            assert(put_together(items) =~= head + seq![','] + Seq::<char>::empty());
            assert(put_together(items) =~= s);
        } else {
            let n = before.len() - 1;
            assert(items.len() == before.len());
            assert(items[n] == before[n].push(c));
            if items.len() == 1 {
                assert(put_together(before) == before[0]);
                assert(put_together(items) =~= s);
            } else {
                assert(items.drop_last() =~= before.drop_last());
                assert(before.last() == before[n]);
                assert(put_together(items) =~= put_together(before.drop_last()) + seq![','] + before[
                n].push(c));
                assert(put_together(items) =~= s);
            }
            assert forall|k: int| 0 <= k < items.len() implies !(#[trigger] items[k]).contains(',') by {
                if k < n {
                    assert(items[k] == before[k]);
                } else {
                    assert(!before[n].contains(','));
                    assert forall|i: int| 0 <= i < items[n].len() implies items[n][i] != ',' by {
                        if i < before[n].len() {
                            assert(before[n].contains(before[n][i]));
                        }
                    }
                }
            }
        }
    }
}

// ---------------------------------------------------------------------------
// Numbers
// ---------------------------------------------------------------------------

/// Digits count by their place: those in front count ten times as much for every digit behind
/// them.
pub proof fn digits_count_by_their_place(a: Seq<char>, b: Seq<char>)
    ensures
        decimal_value(a + b) == decimal_value(a) * pow(10, b.len()) + decimal_value(b),
    decreases b.len(),
{
    if b.len() == 0 {
        assert(a + b =~= a);
        vstd::arithmetic::power::lemma_pow0(10);
    } else {
        let h = b.drop_last();
        digits_count_by_their_place(a, h);
        assert((a + b).drop_last() =~= a + h);
        assert((a + b).last() == b.last());
        reveal(pow);
        let v = decimal_value(a) as int;
        let p = pow(10, h.len());
        assert(pow(10, b.len()) == 10 * p);
        assert(v * (10 * p) == (v * p) * 10) by (nonlinear_arith);
    }
}

/// A single digit counts what it says.
pub proof fn a_digit_is_its_value(c: char)
    requires
        '0' <= c <= '9',
    ensures
        decimal_value(seq![c]) == c as int - 48,
        ascii_digit(c),
{
    reveal_with_fuel(decimal_value, 2);
    assert(seq![c].drop_last() =~= Seq::<char>::empty());
    assert(seq![c].last() == c);
}

/// A number is read if and only if it is one or more ASCII digits, with or without a plus sign
/// before them, and is not too large; what is read is its value.
pub proof fn numbers_are_read_as_written(digits: Seq<char>, s: Seq<char>, max: nat)
    requires
        digits.len() > 0,
        forall|i: int| 0 <= i < digits.len() ==> '0' <= #[trigger] digits[i] <= '9',
    ensures
        decimal_value(digits) <= max ==> unsigned_value(digits, max) == Some(decimal_value(digits)),
        decimal_value(digits) <= max ==> unsigned_value(seq!['+'] + digits, max) == Some(
            decimal_value(digits),
        ),
        decimal_value(digits) > max ==> unsigned_value(digits, max) is None,
        decimal_value(digits) > max ==> unsigned_value(seq!['+'] + digits, max) is None,
        unsigned_value(Seq::<char>::empty(), max) is None,
        unsigned_value(seq!['+'], max) is None,
        (exists|i: int| 0 <= i < s.len() && (i > 0 || s[i] != '+') && !('0' <= #[trigger] s[i] <= '9'))
            ==> unsigned_value(s, max) is None,
{
    assert(all_ascii_digits(digits)) by {
        assert forall|i: int| 0 <= i < digits.len() implies ascii_digit(#[trigger] digits[i]) by {}
    }
    assert('0' <= digits[0] <= '9');
    let p = seq!['+'] + digits;
    assert(p.skip(1) =~= digits);
    assert(seq!['+'].skip(1) =~= Seq::<char>::empty());
    if exists|i: int| 0 <= i < s.len() && (i > 0 || s[i] != '+') && !('0' <= #[trigger] s[i] <= '9') {
        let i = choose|i: int|
            0 <= i < s.len() && (i > 0 || s[i] != '+') && !('0' <= #[trigger] s[i] <= '9');
        let d = unsigned_digits(s);
        if s[0] == '+' {
            assert(d[i - 1] == s[i]);
            assert(!ascii_digit(d[i - 1]));
        } else {
            assert(!ascii_digit(d[i]));
        }
    }
}

/// A number is written in ASCII digits without a zero in front, unless it is zero itself.
pub proof fn numbers_are_written_without_leading_zeros(n: nat)
    ensures
        decimal_text(n).len() > 0,
        n > 0 ==> decimal_text(n)[0] != '0',
        n < 10 ==> decimal_text(n) == seq![(48 + n) as char],
        forall|i: int|
            0 <= i < decimal_text(n).len() ==> '0' <= #[trigger] decimal_text(n)[i] <= '9',
        decimal_value(decimal_text(n)) == n,
    decreases n,
{
    decimal_text_reads_back(n);
    if n >= 10 {
        numbers_are_written_without_leading_zeros(n / 10);
        assert(decimal_text(n)[0] == decimal_text(n / 10)[0]);
    }
    assert forall|i: int| 0 <= i < decimal_text(n).len() implies '0' <= #[trigger] decimal_text(n)[i]
        <= '9' by {
        assert(ascii_digit(decimal_text(n)[i]));
    }
}

// ---------------------------------------------------------------------------
// Letter case
// ---------------------------------------------------------------------------

/// Whether two characters are the same, or are an ASCII letter once capital and once small.
pub open spec fn alike(a: char, b: char) -> bool {
    ||| a == b
    ||| 'A' <= a <= 'Z' && b as int == a as int + 32
    ||| 'A' <= b <= 'Z' && a as int == b as int + 32
}

/// Whether two texts are alike character by character.
pub open spec fn alike_texts(a: Seq<char>, b: Seq<char>) -> bool {
    a.len() == b.len() && forall|i: int| 0 <= i < a.len() ==> alike(#[trigger] a[i], b[i])
}

/// A comparison that ignores case takes two texts for the same if and only if they are alike.
pub proof fn ignoring_case_means_alike(a: Seq<char>, b: Seq<char>)
    ensures
        same_ignoring_ascii_case(a, b) <==> alike_texts(a, b),
{
    let la = a.map_values(|c: char| ascii_lower(c));
    let lb = b.map_values(|c: char| ascii_lower(c));
    if la == lb {
        assert(la.len() == a.len() && lb.len() == b.len());
        assert forall|i: int| 0 <= i < a.len() implies alike(#[trigger] a[i], b[i]) by {
            assert(la[i] == lb[i]);
        }
    }
    if alike_texts(a, b) {
        assert forall|i: int| 0 <= i < a.len() implies la[i] == lb[i] by {
            assert(alike(a[i], b[i]));
        }
        assert(la =~= lb);
    }
}

/// The lowercase of ASCII text has no capital letter, and is alike to the text.
pub proof fn lowercase_makes_capitals_small(s: Seq<char>)
    requires
        forall|i: int| 0 <= i < s.len() ==> #[trigger] s[i] as nat <= 127,
    ensures
        alike_texts(lowercase(s), s),
        forall|i: int|
            0 <= i < lowercase(s).len() ==> !('A' <= #[trigger] lowercase(s)[i] <= 'Z'),
{
    let l = lowercase(s);
    assert forall|i: int| 0 <= i < l.len() implies alike(#[trigger] l[i], s[i]) && !('A' <= l[i]
        <= 'Z') by {
        assert(s[i] as nat <= 127);
    }
}

} // verus!
