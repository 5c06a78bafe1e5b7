//! Operations on text: joining lines, decimal numbers, and positions in bytes.
use vstd::prelude::*;
use vstd::string::*;
use vstd::utf8::*;

verus! {

/// The texts of `strings`, in order.
pub open spec fn texts(strings: Seq<String>) -> Seq<Seq<char>> {
    strings.map_values(|s: String| s@)
}

/// The text of an optional string.
pub open spec fn optional_text(string: Option<String>) -> Option<Seq<char>> {
    match string {
        Some(s) => Some(s@),
        None => None,
    }
}

/// `parts` one after the other, with `separator` between any two neighbours.
pub open spec fn joined(parts: Seq<Seq<char>>, separator: Seq<char>) -> Seq<char>
    decreases parts.len(),
{
    if parts.len() == 0 {
        Seq::empty()
    } else if parts.len() == 1 {
        parts[0]
    } else {
        joined(parts.drop_last(), separator) + separator + parts.last()
    }
}

/// `line` without the line break at its end, if it has one there.
pub open spec fn without_line_break(line: Seq<char>) -> Seq<char> {
    if line.len() > 0 && line.last() == '\n' {
        line.drop_last()
    } else {
        line
    }
}

/// The character of the decimal digit `digit`.
pub open spec fn digit_char(digit: nat) -> char {
    ('0' as u8 + digit) as char
}

/// `number` in decimal, without leading zeros.
pub open spec fn decimal(number: nat) -> Seq<char>
    decreases number,
{
    if number < 10 {
        seq![digit_char(number)]
    } else {
        decimal(number / 10).push(digit_char(number % 10))
    }
}

/// The number of bytes that `text` takes in UTF-8.
pub open spec fn byte_len(text: Seq<char>) -> nat {
    encode_utf8(text).len()
}

/// Whether `text` can be split in front of its byte `offset`.
pub open spec fn splits_at(text: Seq<char>, offset: int) -> bool {
    is_char_boundary(encode_utf8(text), offset)
}

/// The characters of `text` before its byte `offset`.
pub open spec fn text_before(text: Seq<char>, offset: int) -> Seq<char> {
    decode_utf8(encode_utf8(text).subrange(0, offset))
}

/// The characters of `text` from its byte `offset` on.
pub open spec fn text_after(text: Seq<char>, offset: int) -> Seq<char> {
    decode_utf8(encode_utf8(text).subrange(offset, encode_utf8(text).len() as int))
}

/// The characters of `text` from its byte `start` on, before its byte `end`.
pub open spec fn text_between(text: Seq<char>, start: int, end: int) -> Seq<char> {
    decode_utf8(encode_utf8(text).subrange(start, end))
}

/// Whether the lines of `text` end with nothing but line feeds.
pub open spec fn plain(text: Seq<char>) -> bool {
    forall|i: int| 0 <= i < text.len() ==> #[trigger] text[i] != '\r'
}

/// `text` with a line feed at the end of each line, where it has a carriage return there, with or
/// without a line feed behind it.
pub open spec fn normalized(text: Seq<char>) -> Seq<char>
    decreases text.len(),
{
    if text.len() == 0 {
        text
    } else if text.last() == '\n' && text.len() > 1 && text[text.len() - 2] == '\r' {
        normalized(text.drop_last())
    } else if text.last() == '\r' {
        normalized(text.drop_last()).push('\n')
    } else {
        normalized(text.drop_last()).push(text.last())
    }
}

/// `text` with a line feed at the end of each line.
pub fn normalize(text: String) -> (lines: String)
    ensures
        lines@ == normalized(text@),
{
    let source = text.as_str();
    let length = source.unicode_len();
    let mut lines = String::new();
    let mut from: usize = 0;
    let mut i: usize = 0;
    let mut after_return = false;
    for c in it: source.chars()
        invariant
            it.seq() == text@,
            source@ == text@,
            length == text@.len(),
            i == it.index(),
            from <= i,
            lines@ + text@.subrange(from as int, i as int) == normalized(text@.take(i as int)),
            after_return == (i > 0 && text@[i - 1] == '\r'),
            after_return ==> from == i,
    {
        proof {
            let next = text@.take(i + 1);
            assert(next.drop_last() =~= text@.take(i as int));
            assert(next.last() == c);
            if i > 0 {
                assert(next[i - 1] == text@[i - 1]);
            }
        }
        if c == '\r' {
            lines.append(source.substring_char(from, i));
            lines.append("\n");
            proof {
                reveal_strlit("\n");
                assert(lines@ =~= normalized(text@.take(i as int)).push('\n'));
                assert(lines@ + text@.subrange(i + 1, i + 1) =~= lines@);
            }
            from = i + 1;
        } else if c == '\n' && after_return {
            assert(lines@ + text@.subrange(from as int, i as int) =~= lines@);
            assert(lines@ + text@.subrange(i + 1, i + 1) =~= lines@);
            from = i + 1;
        } else {
            assert(lines@ + text@.subrange(from as int, i + 1) =~= (lines@ + text@.subrange(
                from as int,
                i as int,
            )).push(c));
        }
        after_return = c == '\r';
        i += 1;
    }
    assert(text@.take(i as int) =~= text@);
    lines.append(source.substring_char(from, length));
    lines
}

/// What was given line feeds has nothing but line feeds.
pub proof fn lemma_normalized_is_plain(text: Seq<char>)
    ensures
        plain(normalized(text)),
    decreases text.len(),
{
    if text.len() > 0 {
        lemma_normalized_is_plain(text.drop_last());
    }
}

/// A text whose lines end with line feeds stays as it is.
pub proof fn lemma_plain_stays(text: Seq<char>)
    requires
        plain(text),
    ensures
        normalized(text) == text,
    decreases text.len(),
{
    if text.len() > 0 {
        let rest = text.drop_last();
        assert forall|i: int| 0 <= i < rest.len() implies #[trigger] rest[i] != '\r' by {
            assert(text[i] != '\r');
        }
        lemma_plain_stays(rest);
        assert(text[text.len() - 1] != '\r');
        assert(normalized(text) =~= text);
    }
}

/// Joins `parts`, with `separator` between any two neighbours.
pub fn join(parts: &Vec<String>, separator: &str) -> (joint: String)
    ensures
        joint@ == joined(texts(parts@), separator@),
{
    let mut joint = String::new();
    let mut i: usize = 0;
    while i < parts.len()
        invariant
            i <= parts.len(),
            joint@ == joined(texts(parts@).take(i as int), separator@),
        decreases parts.len() - i,
    {
        if i > 0 {
            joint.append(separator);
        }
        joint.append(parts[i].as_str());
        proof {
            let all = texts(parts@);
            assert(all.take(i + 1).drop_last() =~= all.take(i as int));
            assert(all.take(i + 1).last() == parts@[i as int]@);
            if i == 0 {
                assert(joint@ =~= all.take(1)[0]);
            }
        }
        i += 1;
    }
    proof {
        assert(texts(parts@).take(parts.len() as int) =~= texts(parts@));
    }
    joint
}

/// `line` without the line break at its end, if it has one there.
pub fn strip_line_break(line: &str) -> (stripped: String)
    ensures
        stripped@ == without_line_break(line@),
{
    let len = line.unicode_len();
    if len > 0 && line.get_char(len - 1) == '\n' {
        let stripped = line.substring_char(0, len - 1);
        proof {
            assert(stripped@ =~= line@.drop_last());
        }
        stripped.to_owned()
    } else {
        line.to_owned()
    }
}

fn digit_string(digit: u64) -> (s: String)
    requires
        digit < 10,
    ensures
        s@ == seq![digit_char(digit as nat)],
{
    proof {
        reveal_strlit("0");
        reveal_strlit("1");
        reveal_strlit("2");
        reveal_strlit("3");
        reveal_strlit("4");
        reveal_strlit("5");
        reveal_strlit("6");
        reveal_strlit("7");
        reveal_strlit("8");
        reveal_strlit("9");
    }
    let s = match digit {
        0 => "0",
        1 => "1",
        2 => "2",
        3 => "3",
        4 => "4",
        5 => "5",
        6 => "6",
        7 => "7",
        8 => "8",
        _ => "9",
    };
    assert(s@ =~= seq![digit_char(digit as nat)]);
    s.to_owned()
}

/// `number` in decimal.
pub fn decimal_string(number: u64) -> (s: String)
    ensures
        s@ == decimal(number as nat),
    decreases number,
{
    if number < 10 {
        digit_string(number)
    } else {
        let mut s = decimal_string(number / 10);
        let last = digit_string(number % 10);
        s.append(last.as_str());
        assert(s@ =~= decimal(number as nat));
        s
    }
}

/// Whether `left` and `right` hold the same characters.
pub fn same_text(left: &str, right: &str) -> (same: bool)
    ensures
        same == (left@ == right@),
{
    left.to_owned() == right.to_owned()
}

/// The texts before and from byte `offset` on.
pub fn split_text(text: &str, offset: usize) -> (parts: (String, String))
    requires
        splits_at(text@, offset as int),
    ensures
        parts.0@ == text_before(text@, offset as int),
        parts.1@ == text_after(text@, offset as int),
{
    let (before, after) = text.split_at(offset);
    proof {
        encode_utf8_decode_utf8(before@);
        encode_utf8_decode_utf8(after@);
    }
    (before.to_owned(), after.to_owned())
}

/// Two texts one after the other take the bytes of the first and then those of the second.
pub proof fn lemma_encode_concat(first: Seq<char>, second: Seq<char>)
    ensures
        encode_utf8(first + second) == encode_utf8(first) + encode_utf8(second),
        byte_len(first + second) == byte_len(first) + byte_len(second),
    decreases first.len(),
{
    if first.len() == 0 {
        assert(first + second =~= second);
        assert(encode_utf8(first + second) =~= encode_utf8(first) + encode_utf8(second));
    } else {
        lemma_encode_concat(first.drop_first(), second);
        assert((first + second).drop_first() =~= first.drop_first() + second);
        assert((first + second)[0] == first[0]);
        assert(encode_utf8(first + second) =~= encode_utf8(first) + encode_utf8(second));
    }
}

/// A text is what stands before any place at which it splits, followed by what stands after.
pub proof fn lemma_split_covers(text: Seq<char>, offset: int)
    requires
        splits_at(text, offset),
    ensures
        text == text_before(text, offset) + text_after(text, offset),
{
    let bytes = encode_utf8(text);
    encode_utf8_valid_utf8(text);
    encode_utf8_decode_utf8(text);
    decode_utf8_split(bytes, offset);
}

/// A text splits at its end, and all of it stands before that place.
pub proof fn lemma_split_at_end(text: Seq<char>)
    ensures
        splits_at(text, byte_len(text) as int),
        text_before(text, byte_len(text) as int) == text,
        text_after(text, byte_len(text) as int) == Seq::<char>::empty(),
{
    let bytes = encode_utf8(text);
    encode_utf8_valid_utf8(text);
    encode_utf8_decode_utf8(text);
    is_char_boundary_start_end_of_seq(bytes);
    assert(bytes.subrange(0, bytes.len() as int) =~= bytes);
    assert(bytes.subrange(bytes.len() as int, bytes.len() as int) =~= Seq::<u8>::empty());
}

/// Different numbers differ in decimal.
pub proof fn lemma_decimal_injective(left: nat, right: nat)
    ensures
        decimal(left) == decimal(right) ==> left == right,
    decreases left + right,
{
    if decimal(left) == decimal(right) {
        assert(decimal(left).last() == digit_char(left % 10));
        assert(decimal(right).last() == digit_char(right % 10));
        assert(left % 10 == right % 10);
        if left >= 10 && right >= 10 {
            assert(decimal(left).drop_last() =~= decimal(left / 10));
            assert(decimal(right).drop_last() =~= decimal(right / 10));
            lemma_decimal_injective(left / 10, right / 10);
        } else if left >= 10 {
            lemma_decimal_nonempty(left / 10);
        } else if right >= 10 {
            lemma_decimal_nonempty(right / 10);
        }
    }
}

/// Every number has at least one digit.
pub proof fn lemma_decimal_nonempty(number: nat)
    ensures
        decimal(number).len() >= 1,
    decreases number,
{
    if number >= 10 {
        lemma_decimal_nonempty(number / 10);
    }
}

/// What is joined holds each of its parts.
pub proof fn lemma_joined_holds_part(parts: Seq<Seq<char>>, separator: Seq<char>, i: int) -> (
    around: (Seq<char>, Seq<char>))
    requires
        0 <= i < parts.len(),
    ensures
        joined(parts, separator) == around.0 + parts[i] + around.1,
    decreases parts.len(),
{
    if parts.len() == 1 {
        assert(joined(parts, separator) =~= Seq::empty() + parts[i] + Seq::empty());
        (Seq::empty(), Seq::empty())
    } else if i == parts.len() - 1 {
        let before = joined(parts.drop_last(), separator) + separator;
        assert(joined(parts, separator) =~= before + parts[i] + Seq::empty());
        (before, Seq::empty())
    } else {
        let around = lemma_joined_holds_part(parts.drop_last(), separator, i);
        let after = around.1 + separator + parts.last();
        assert(joined(parts, separator) =~= around.0 + parts[i] + after);
        (around.0, after)
    }
}

/// A text that splits at two places falls into what stands before the first, between them, and
/// after the second.
pub proof fn lemma_split_in_three(text: Seq<char>, start: int, end: int)
    requires
        splits_at(text, start),
        splits_at(text, end),
        start <= end,
    ensures
        splits_at(text_after(text, start), end - start),
        text_before(text_after(text, start), end - start) == text_between(text, start, end),
        text_after(text_after(text, start), end - start) == text_after(text, end),
        text == text_before(text, start) + text_between(text, start, end) + text_after(text, end),
{
    let bytes = encode_utf8(text);
    let len = bytes.len() as int;
    encode_utf8_valid_utf8(text);
    lemma_boundary_in_range(text, start);
    lemma_boundary_in_range(text, end);
    valid_utf8_split(bytes, start);
    let rest = bytes.subrange(start, len);
    decode_utf8_encode_utf8(rest);
    assert(encode_utf8(text_after(text, start)) == rest);
    if end == len {
        is_char_boundary_start_end_of_seq(rest);
    } else if end == start {
        is_char_boundary_start_end_of_seq(rest);
    } else {
        is_char_boundary_iff_not_is_continuation_byte(bytes, end);
        is_char_boundary_iff_not_is_continuation_byte(rest, end - start);
        assert(rest[end - start] == bytes[end]);
    }
    assert(rest.subrange(0, end - start) =~= bytes.subrange(start, end));
    assert(rest.subrange(end - start, rest.len() as int) =~= bytes.subrange(end, len));
    lemma_split_covers(text, start);
    lemma_split_covers(text_after(text, start), end - start);
    assert(text =~= text_before(text, start) + text_between(text, start, end) + text_after(
        text,
        end,
    ));
}

proof fn lemma_boundary_in_range(text: Seq<char>, offset: int)
    requires
        splits_at(text, offset),
    ensures
        0 <= offset <= byte_len(text),
{
    encode_utf8_valid_utf8(text);
}

/// The parts of a text whose lines end with line feeds are such texts too.
pub proof fn lemma_parts_are_plain(text: Seq<char>, start: int, end: int)
    requires
        plain(text),
        splits_at(text, start),
        splits_at(text, end),
        start <= end,
    ensures
        plain(text_before(text, start)),
        plain(text_between(text, start, end)),
        plain(text_after(text, end)),
{
    lemma_split_in_three(text, start, end);
    let before = text_before(text, start);
    let between = text_between(text, start, end);
    let after = text_after(text, end);
    assert forall|i: int| 0 <= i < before.len() implies #[trigger] before[i] != '\r' by {
        assert(text[i] != '\r');
    }
    assert forall|i: int| 0 <= i < between.len() implies #[trigger] between[i] != '\r' by {
        assert(text[before.len() + i] != '\r');
    }
    assert forall|i: int| 0 <= i < after.len() implies #[trigger] after[i] != '\r' by {
        assert(text[before.len() + between.len() + i] != '\r');
    }
}

} // verus!
