//! The extent of a text: how long it is, how many line breaks it holds, and how long its last line
//! is.
use vstd::prelude::*;
use vstd::string::*;
use vstd::utf8::*;

verus! {

/// A place in a text. `column` counts bytes from the start of the row.
#[derive(Clone, Copy, Debug, PartialEq, Eq, Structural)]
pub struct Point {
    pub row: u32,
    pub column: u32,
}

/// A summary of a text, from which summaries of longer texts can be put together.
#[derive(Clone, Copy, Debug, PartialEq, Eq, Structural)]
pub struct TextSummary {
    /// The length of the text, in bytes.
    pub len: usize,
    /// Where the text ends.
    pub lines: Point,
}

/// The number of line breaks in `text`.
pub open spec fn line_breaks(text: Seq<char>) -> nat
    decreases text.len(),
{
    if text.len() == 0 {
        0
    } else if text.last() == '\n' {
        line_breaks(text.drop_last()) + 1
    } else {
        line_breaks(text.drop_last())
    }
}

/// What follows the last line break of `text`; all of `text` if it holds none.
pub open spec fn last_line(text: Seq<char>) -> Seq<char>
    decreases text.len(),
{
    if text.len() == 0 || text.last() == '\n' {
        Seq::empty()
    } else {
        last_line(text.drop_last()).push(text.last())
    }
}

/// The length of the last line of `text`, in bytes.
pub open spec fn last_column(text: Seq<char>) -> nat {
    crate::text::byte_len(last_line(text))
}

/// Whether the length of `text` and the place where it ends can be written as a [`TextSummary`].
pub open spec fn summarizable(text: Seq<char>) -> bool {
    &&& crate::text::byte_len(text) <= usize::MAX
    &&& line_breaks(text) <= u32::MAX
    &&& last_column(text) <= u32::MAX
}

/// The summary of `text`.
pub open spec fn summary_of(text: Seq<char>) -> TextSummary {
    TextSummary {
        len: crate::text::byte_len(text) as usize,
        lines: Point { row: line_breaks(text) as u32, column: last_column(text) as u32 },
    }
}

impl Point {
    /// Whether the place `other` past this one can be written as a [`Point`].
    pub open spec fn can_advance(self, other: Point) -> bool {
        if other.row == 0 {
            self.column + other.column <= u32::MAX
        } else {
            self.row + other.row <= u32::MAX
        }
    }

    /// The place `other` past this one: a step over rows starts in the first column again.
    pub open spec fn advanced(self, other: Point) -> Point {
        if other.row == 0 {
            Point { row: self.row, column: (self.column + other.column) as u32 }
        } else {
            Point { row: (self.row + other.row) as u32, column: other.column }
        }
    }

    /// The place at the start of a text.
    pub fn zero() -> (point: Point)
        ensures
            point == (Point { row: 0, column: 0 }),
    {
        Point { row: 0, column: 0 }
    }

    /// The place `other` past this one.
    pub fn advance(self, other: Point) -> (point: Point)
        requires
            self.can_advance(other),
        ensures
            point == self.advanced(other),
    {
        if other.row == 0 {
            Point { row: self.row, column: self.column + other.column }
        } else {
            Point { row: self.row + other.row, column: other.column }
        }
    }
}

/// The number of bytes that `c` takes in UTF-8.
fn char_byte_len(c: char) -> (len: u128)
    ensures
        len == encode_scalar(c as u32).len(),
        1 <= len <= 4,
{
    let code: u32 = c as u32;
    if code <= 0x7F {
        1
    } else if code <= 0x7FF {
        2
    } else if code <= 0xFFFF {
        3
    } else {
        4
    }
}

impl TextSummary {
    /// The summary of `text`.
    pub fn of(text: &str) -> (summary: TextSummary)
        requires
            summarizable(text@),
        ensures
            summary == summary_of(text@),
    {
        match TextSummary::checked_of(text) {
            Some(summary) => summary,
            None => TextSummary::zero(),
        }
    }

    /// The summary of `text`, if its extent can be written as one.
    pub fn checked_of(text: &str) -> (summary: Option<TextSummary>)
        ensures
            summary == (if summarizable(text@) {
                Some(summary_of(text@))
            } else {
                None
            }),
    {
        let len = text.unicode_len();
        let mut bytes: u128 = 0;
        let mut row: u64 = 0;
        let mut column: u128 = 0;
        for c in it: text.chars()
            invariant
                it.seq() == text@,
                len == text@.len(),
                bytes == crate::text::byte_len(text@.take(it.index() as int)),
                bytes <= 4 * it.index(),
                row == line_breaks(text@.take(it.index() as int)),
                row <= it.index(),
                column == last_column(text@.take(it.index() as int)),
                column <= 4 * it.index(),
        {
            proof {
                let i = it.index() as int;
                assert(text@.take(i + 1).drop_last() =~= text@.take(i));
                assert(text@.take(i + 1).last() == text@[i]);
                assert(text@.take(i + 1) =~= text@.take(i).push(c));
                lemma_push_byte_len(text@.take(i), c);
                lemma_push_byte_len(last_line(text@.take(i)), c);
            }
            bytes = bytes + char_byte_len(c);
            if c == '\n' {
                row = row + 1;
                column = 0;
            } else {
                column = column + char_byte_len(c);
            }
        }
        proof {
            assert(text@.take(len as int) =~= text@);
        }
        if bytes <= usize::MAX as u128 && row <= u32::MAX as u64 && column <= u32::MAX as u128 {
            Some(
                TextSummary {
                    len: bytes as usize,
                    lines: Point { row: row as u32, column: column as u32 },
                },
            )
        } else {
            None
        }
    }

    /// The summary of a text that holds nothing.
    pub fn zero() -> (summary: TextSummary)
        ensures
            summary == (TextSummary { len: 0, lines: Point { row: 0, column: 0 } }),
    {
        TextSummary { len: 0, lines: Point::zero() }
    }

    /// Whether the extent of the text that this summarises, followed by the one that `other`
    /// summarises, can be written as a [`TextSummary`].
    pub open spec fn can_append(self, other: TextSummary) -> bool {
        self.len + other.len <= usize::MAX && self.lines.can_advance(other.lines)
    }

    /// The summary of the text that this summarises, followed by the one that `other` summarises.
    pub open spec fn appended(self, other: TextSummary) -> TextSummary {
        TextSummary {
            len: (self.len + other.len) as usize,
            lines: self.lines.advanced(other.lines),
        }
    }

    /// Appends the text that `other` summarises.
    pub fn append(&mut self, other: &TextSummary)
        requires
            old(self).can_append(*other),
        ensures
            *final(self) == old(self).appended(*other),
    {
        self.len = self.len + other.len;
        self.lines = self.lines.advance(other.lines);
    }
}

proof fn lemma_push_byte_len(text: Seq<char>, c: char)
    ensures
        crate::text::byte_len(text.push(c)) == crate::text::byte_len(text) + encode_scalar(
            c as u32,
        ).len(),
        crate::text::byte_len(Seq::<char>::empty()) == 0,
{
    let one = seq![c];
    crate::text::lemma_encode_concat(text, one);
    assert(text.push(c) =~= text + one);
    reveal_with_fuel(encode_utf8, 2);
    assert(encode_utf8(one) =~= encode_scalar(c as u32));
}

/// A line break is a single byte, and nothing follows it.
pub proof fn lemma_line_break()
    ensures
        crate::text::byte_len("\n"@) == 1,
        line_breaks("\n"@) == 1,
        last_line("\n"@) == Seq::<char>::empty(),
{
    reveal_strlit("\n");
    assert("\n"@ =~= seq!['\n']);
    reveal_with_fuel(encode_utf8, 2);
    assert("\n"@.drop_last() =~= Seq::<char>::empty());
    assert("\n"@.drop_first() =~= Seq::<char>::empty());
    reveal_with_fuel(line_breaks, 2);
}

/// The line breaks and the last line of two texts one after the other.
pub proof fn lemma_lines_concat(first: Seq<char>, second: Seq<char>)
    ensures
        line_breaks(first + second) == line_breaks(first) + line_breaks(second),
        last_line(first + second) == if line_breaks(second) == 0 {
            last_line(first) + second
        } else {
            last_line(second)
        },
        line_breaks(second) == 0 ==> last_line(second) == second,
    decreases second.len(),
{
    if second.len() == 0 {
        assert(first + second =~= first);
        assert(last_line(first) + second =~= last_line(first));
    } else {
        let rest = second.drop_last();
        lemma_lines_concat(first, rest);
        assert((first + second).drop_last() =~= first + rest);
        assert((first + second).last() == second.last());
        if second.last() != '\n' {
            assert((last_line(first) + rest).push(second.last()) =~= last_line(first) + second);
            assert(rest.push(second.last()) =~= second);
        }
    }
}

/// A text has neither more line breaks nor a longer last line than it has bytes.
pub proof fn lemma_extent_is_bounded(text: Seq<char>)
    ensures
        line_breaks(text) <= crate::text::byte_len(text),
        last_column(text) <= crate::text::byte_len(text),
    decreases text.len(),
{
    lemma_push_byte_len(Seq::empty(), 'a');
    if text.len() > 0 {
        let rest = text.drop_last();
        lemma_extent_is_bounded(rest);
        assert(rest.push(text.last()) =~= text);
        lemma_push_byte_len(rest, text.last());
        lemma_push_byte_len(last_line(rest), text.last());
    }
}

/// The last line of a text does not get longer when its lines are ended with line feeds. No line
/// breaks come into a text that has no carriage returns.
pub proof fn lemma_normalized_last_line(text: Seq<char>)
    ensures
        last_column(crate::text::normalized(text)) <= last_column(text),
        line_breaks(crate::text::normalized(text)) == 0 ==> crate::text::plain(text),
    decreases text.len(),
{
    lemma_push_byte_len(Seq::empty(), 'a');
    if text.len() > 0 {
        let rest = text.drop_last();
        let before = crate::text::normalized(rest);
        lemma_normalized_last_line(rest);
        if text.last() == '\n' && text.len() > 1 && text[text.len() - 2] == '\r' {
            assert(rest.last() == '\r');
            let ended = crate::text::normalized(rest);
            assert(ended.last() == '\n');
        } else if text.last() == '\r' {
            assert(before.push('\n').drop_last() =~= before);
        } else {
            assert(before.push(text.last()).drop_last() =~= before);
            lemma_push_byte_len(last_line(before), text.last());
            lemma_push_byte_len(last_line(rest), text.last());
            if line_breaks(crate::text::normalized(text)) == 0 {
                assert forall|i: int| 0 <= i < text.len() implies #[trigger] text[i] != '\r' by {
                    if i < rest.len() {
                        assert(rest[i] != '\r');
                    }
                }
            }
        }
    }
}

/// The summary of two texts one after the other is put together from the summaries of both.
pub proof fn lemma_summary_concat(first: Seq<char>, second: Seq<char>)
    requires
        summarizable(first),
        summarizable(second),
        summarizable(first + second),
    ensures
        summary_of(first).can_append(summary_of(second)),
        summary_of(first + second) == summary_of(first).appended(summary_of(second)),
{
    crate::text::lemma_encode_concat(first, second);
    lemma_lines_concat(first, second);
    crate::text::lemma_encode_concat(last_line(first), second);
}

} // verus!
