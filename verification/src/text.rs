//! Text buffers: what a key appends to them, how wide they are on the
//! display, and the number that a buffer of digits spells.

use unicode_width::UnicodeWidthStr;
use vstd::prelude::*;

verus! {

/// `String::push` appends one character.
pub assume_specification[ String::push ](text: &mut String, c: char)
    ensures
        final(text)@ == old(text)@.push(c),
;

/// `String::pop` removes the last character and returns it, or returns
/// `None` and changes nothing where the text is empty.
pub assume_specification[ String::pop ](text: &mut String) -> (r: Option<char>)
    ensures
        final(text)@ == (if old(text)@.len() > 0 {
            old(text)@.drop_last()
        } else {
            old(text)@
        }),
        r == (if old(text)@.len() > 0 {
            Some(old(text)@.last())
        } else {
            None
        }),
;

/// A name for the number of terminal columns that unicode-width's
/// `UnicodeWidthStr::width` gives a text.
pub uninterp spec fn display_width(text: Seq<char>) -> nat;

/// `unicode_width::UnicodeWidthStr::width`, which depends on the text alone.
#[verifier::external_body]
pub(crate) fn width_of(text: &str) -> (columns: usize)
    ensures
        columns == display_width(text@),
{
    UnicodeWidthStr::width(text)
}

/// Columns of a display line that are kept free of text.
pub const MARGIN: u16 = 3;

/// The columns that text may fill on a display `width` columns wide.
pub open spec fn text_columns(width: u16) -> nat {
    if width > MARGIN {
        (width - MARGIN) as nat
    } else {
        0
    }
}

/// The buffer after the key `n`, where the buffer with `n` appended would be
/// `rendered` columns wide: `n` is appended if that fits the display.
pub open spec fn pushed_if_fits(text: Seq<char>, width: u16, n: char, rendered: nat) -> Seq<char> {
    if rendered <= text_columns(width) {
        text.push(n)
    } else {
        text
    }
}

/// Appends `n` to `input` where `rendered`, the width of `input` with `n`
/// appended, fits a display `width` columns wide; leaves `input` as it is
/// otherwise.
pub fn push_if_fits(input: &mut String, width: u16, n: char, rendered: usize)
    ensures
        final(input)@ == pushed_if_fits(old(input)@, width, n, rendered as nat),
{
    if rendered <= width.saturating_sub(MARGIN) as usize {
        input.push(n);
    }
}

/// Appends `n` to `input` unless the text would then be wider than a display
/// of `width` columns allows. A buffer that fitted before still fits.
pub fn input(input: &mut String, width: u16, n: char)
    ensures
        final(input)@ == pushed_if_fits(
            old(input)@,
            width,
            n,
            display_width(old(input)@.push(n)),
        ),
        final(input)@ != old(input)@ ==> display_width(final(input)@) <= text_columns(width),
        display_width(old(input)@) <= text_columns(width) ==> display_width(final(input)@)
            <= text_columns(width),
{
    let mut candidate = input.clone();
    candidate.push(n);
    let rendered = width_of(candidate.as_str());
    push_if_fits(input, width, n, rendered);
}

/// Where the last line of a text starts: behind its last line break.
pub open spec fn line_start(text: Seq<char>) -> int
    decreases text.len(),
{
    if text.len() == 0 {
        0
    } else if text.last() == '\n' {
        text.len() as int
    } else {
        line_start(text.drop_last())
    }
}

/// The text behind the last line break.
pub open spec fn last_line(text: Seq<char>) -> Seq<char> {
    text.skip(line_start(text))
}

/// The number of line breaks in a text.
pub open spec fn line_breaks(text: Seq<char>) -> nat
    decreases text.len(),
{
    if text.len() == 0 {
        0
    } else if text.last() == '\n' {
        line_breaks(text.drop_last()) + 1
    } else {
        line_breaks(text.drop_last())
    }
}

/// The last line starts inside the text.
pub proof fn lemma_line_start_bounds(text: Seq<char>)
    ensures
        0 <= line_start(text) <= text.len(),
    decreases text.len(),
{
    if text.len() > 0 && text.last() != '\n' {
        lemma_line_start_bounds(text.drop_last());
    }
}

/// The width of the last line of a text, in columns.
pub fn last_line_width(text: &str) -> (columns: usize)
    ensures
        columns == display_width(last_line(text@)),
{
    let n = text.unicode_len();
    let mut start: usize = 0;
    let mut i: usize = 0;
    let chars = text.chars();
    for c in it: chars
        invariant
            it.seq() == text@,
            n == text@.len(),
            i == it.index(),
            i <= n,
            start == line_start(text@.take(i as int)),
    {
        assert(text@.take(i + 1).drop_last() == text@.take(i as int));
        i += 1;
        if c == '\n' {
            start = i;
        }
    }
    proof {
        assert(text@.take(i as int) == text@);
        lemma_line_start_bounds(text@);
        assert(text@.subrange(start as int, n as int) == text@.skip(start as int));
    }
    width_of(text.substring_char(start, n))
}

/// The row of the last line of a text: the number of its line breaks, not
/// counting one that ends the text.
pub open spec fn last_row(text: Seq<char>) -> nat {
    if text.len() > 0 && text.last() == '\n' {
        (line_breaks(text) - 1) as nat
    } else {
        line_breaks(text)
    }
}

/// The row of the last line of a text.
pub fn last_row_of(text: &str) -> (row: usize)
    ensures
        row == last_row(text@),
{
    let n = text.unicode_len();
    let mut breaks: usize = 0;
    let mut ended = false;
    let mut i: usize = 0;
    let chars = text.chars();
    for c in it: chars
        invariant
            it.seq() == text@,
            n == text@.len(),
            i == it.index(),
            i <= n,
            breaks == line_breaks(text@.take(i as int)),
            breaks <= i,
            ended == (i > 0 && text@[i - 1] == '\n'),
    {
        assert(text@.take(i + 1).drop_last() == text@.take(i as int));
        i += 1;
        ended = c == '\n';
        if ended {
            breaks += 1;
        }
    }
    proof {
        assert(text@.take(i as int) == text@);
    }
    if ended {
        breaks - 1
    } else {
        breaks
    }
}

/// The text without its last character; an empty text stays empty.
pub open spec fn without_last(text: Seq<char>) -> Seq<char> {
    if text.len() > 0 {
        text.drop_last()
    } else {
        text
    }
}

/// A number of columns or rows as a display coordinate: itself, or the
/// largest coordinate where it is beyond.
pub open spec fn coordinate(n: nat) -> u16 {
    if n > u16::MAX {
        u16::MAX
    } else {
        n as u16
    }
}

/// A number of columns or rows as a display coordinate.
pub fn to_coordinate(n: usize) -> (c: u16)
    ensures
        c == coordinate(n as nat),
{
    if n > u16::MAX as usize {
        u16::MAX
    } else {
        n as u16
    }
}

/// Whether `c` is a decimal digit.
pub open spec fn is_digit(c: char) -> bool {
    '0' <= c <= '9'
}

/// The value of a decimal digit.
pub open spec fn digit_value(c: char) -> nat {
    (c as u32 - '0' as u32) as nat
}

/// The number that a sequence of decimal digits spells.
pub open spec fn decimal_value(digits: Seq<char>) -> nat
    decreases digits.len(),
{
    if digits.len() == 0 {
        0
    } else {
        decimal_value(digits.drop_last()) * 10 + digit_value(digits.last())
    }
}

/// Every character is a decimal digit.
pub open spec fn all_digits(digits: Seq<char>) -> bool {
    forall|i: int| 0 <= i < digits.len() ==> is_digit(#[trigger] digits[i])
}

/// The text without a leading plus sign.
pub open spec fn unsigned_part(text: Seq<char>) -> Seq<char> {
    if text.len() > 0 && text[0] == '+' {
        text.drop_first()
    } else {
        text
    }
}

/// The number that a text spells: one or more decimal digits, with or
/// without a plus sign in front. `None` for any other text, and for a number
/// above `u32::MAX`.
pub open spec fn parsed_u32(text: Seq<char>) -> Option<u32> {
    let digits = unsigned_part(text);
    if digits.len() > 0 && all_digits(digits) && decimal_value(digits) <= u32::MAX {
        Some(decimal_value(digits) as u32)
    } else {
        None
    }
}

/// A number of digits is worth no less than the digits it starts with.
pub proof fn lemma_decimal_value_grows(digits: Seq<char>, n: int)
    requires
        0 <= n <= digits.len(),
    ensures
        decimal_value(digits.take(n)) <= decimal_value(digits),
    decreases digits.len(),
{
    if n == digits.len() {
        assert(digits.take(n) == digits);
    } else {
        lemma_decimal_value_grows(digits.drop_last(), n);
        assert(digits.drop_last().take(n) == digits.take(n));
    }
}

/// Reads an unsigned number from a text.
pub fn parse_u32(text: &str) -> (r: Option<u32>)
    ensures
        r == parsed_u32(text@),
{
    let n = text.unicode_len();
    let mut value: u64 = 0;
    let mut i: usize = 0;
    let mut signed = false;
    let ghost digits = unsigned_part(text@);
    let chars = text.chars();
    for c in it: chars
        invariant
            it.seq() == text@,
            n == text@.len(),
            i == it.index(),
            i <= n,
            digits == unsigned_part(text@),
            signed == (i > 0 && text@[0] == '+'),
            value <= u32::MAX,
            ({
                let k = if signed {
                    i - 1
                } else {
                    i as int
                };
                &&& 0 <= k <= digits.len()
                &&& all_digits(digits.take(k))
                &&& value == decimal_value(digits.take(k))
            }),
    {
        let ghost k = if signed {
            i - 1
        } else {
            i as int
        };
        if i == 0 && c == '+' {
            signed = true;
            assert(digits.take(0) =~= Seq::<char>::empty());
        } else {
            assert(digits[k] == c);
            assert(digits.take(k + 1).drop_last() == digits.take(k));
            if !('0' <= c && c <= '9') {
                return None;
            }
            let next = value * 10 + (c as u32 - '0' as u32) as u64;
            if next > u32::MAX as u64 {
                proof {
                    lemma_decimal_value_grows(digits, k + 1);
                }
                return None;
            }
            value = next;
        }
        i += 1;
    }
    proof {
        let k = if signed {
            i - 1
        } else {
            i as int
        };
        assert(digits.take(k) == digits);
    }
    if (signed && i == 1) || i == 0 {
        None
    } else {
        Some(value as u32)
    }
}

} // verus!
