//! What holds of texts and of the values that are read from documents.
use crate::json::{JsonNumberView, JsonView, ParseError};
use vstd::prelude::*;
use vstd::utf8::*;

verus! {

/// The line breaks of a text are its line feeds, no more and no fewer.
pub proof fn lemma_line_breaks_are_counted(text: Seq<char>)
    ensures
        crate::summary::line_breaks(text) == text.filter(|c: char| c == '\n').len(),
    decreases text.len(),
{
    let is_break = |c: char| c == '\n';
    if text.len() > 0 {
        let front = text.drop_last();
        lemma_line_breaks_are_counted(front);
        front.lemma_filter_push(text.last(), is_break);
        assert(front.push(text.last()) =~= text);
    } else {
        assert(text.filter(is_break).len() == 0) by {
            crate::cells::lemma_filter_none(text, is_break);
        }
    }
}

/// The last line of a text is the end of it: it holds no line feed, and where something comes
/// before it, that ends with one.
pub proof fn lemma_last_line_is_the_end(text: Seq<char>)
    ensures
        ({
            let last = crate::summary::last_line(text);
            &&& last.len() <= text.len()
            &&& text == text.take(text.len() - last.len()) + last
            &&& !last.contains('\n')
            &&& last.len() < text.len() ==> text[text.len() - last.len() - 1] == '\n'
        }),
    decreases text.len(),
{
    let last = crate::summary::last_line(text);
    if text.len() > 0 && text.last() != '\n' {
        let front = text.drop_last();
        lemma_last_line_is_the_end(front);
        let before = crate::summary::last_line(front);
        assert(text =~= text.take(text.len() - last.len()) + last) by {
            assert forall|i: int| 0 <= i < last.len() implies last[i] == text[text.len()
                - last.len() + i] by {
                if i < before.len() {
                    assert(front[front.len() - before.len() + i] == (front.take(
                        front.len() - before.len(),
                    ) + before)[front.len() - before.len() + i]);
                }
            }
        }
        assert forall|i: int| 0 <= i < last.len() implies last[i] != '\n' by {
            if i < before.len() {
                assert(before.contains(before[i]));
            }
        }
    } else {
        assert(text =~= text.take(text.len() - last.len()) + last);
    }
}

/// The extent of a text is the number of its bytes, the number of its line feeds, and the number
/// of bytes of its last line.
pub proof fn lemma_extent_of_a_text(text: Seq<char>)
    requires
        crate::text::byte_len(text) <= u32::MAX,
    ensures
        ({
            let summary = crate::summary::summary_of(text);
            &&& crate::summary::summarizable(text)
            &&& summary.len == encode_utf8(text).len()
            &&& summary.lines.row == text.filter(|c: char| c == '\n').len()
            &&& summary.lines.column == encode_utf8(crate::summary::last_line(text)).len()
        }),
{
    lemma_line_breaks_are_counted(text);
    crate::summary::lemma_extent_is_bounded(text);
}

/// A carriage return ends a line, with or without a line feed behind it, and a line feed takes its
/// place. What comes before and after it is treated as if it stood alone.
pub proof fn lemma_line_endings(before: Seq<char>, after: Seq<char>)
    requires
        !before.contains('\r'),
    ensures
        crate::text::normalized(before) == before,
        crate::text::normalized(before + seq!['\r', '\n'] + after) == before + seq!['\n']
            + crate::text::normalized(after),
        (after.len() > 0 ==> after[0] != '\n') ==> crate::text::normalized(
            before + seq!['\r'] + after,
        ) == before + seq!['\n'] + crate::text::normalized(after),
    decreases after.len(),
{
    assert forall|i: int| 0 <= i < before.len() implies #[trigger] before[i] != '\r' by {
        assert(before.contains(before[i]));
    }
    crate::text::lemma_plain_stays(before);
    let long = before + seq!['\r', '\n'] + after;
    let short = before + seq!['\r'] + after;
    if after.len() == 0 {
        assert(short.drop_last() =~= before);
        assert(long.drop_last() =~= short);
        assert(long[long.len() - 2] == '\r');
        assert(crate::text::normalized(short) =~= before + seq!['\n']);
        assert(before + seq!['\n'] + crate::text::normalized(after) =~= before + seq!['\n']);
    } else {
        let front = after.drop_last();
        lemma_line_endings(before, front);
        assert(long.drop_last() =~= before + seq!['\r', '\n'] + front);
        assert(short.drop_last() =~= before + seq!['\r'] + front);
        let here = crate::text::normalized(after);
        let there = crate::text::normalized(front);
        if after.len() > 1 {
            assert(long[long.len() - 2] == after[after.len() - 2]);
            assert(short[short.len() - 2] == after[after.len() - 2]);
            assert(front[0] == after[0]);
        } else {
            assert(long[long.len() - 2] == '\n');
        }
        assert(before + seq!['\n'] + there.push('\n') =~= (before + seq!['\n'] + there).push('\n'));
        assert(before + seq!['\n'] + there.push(after.last()) =~= (before + seq!['\n']
            + there).push(after.last()));
        assert(crate::text::normalized(long) =~= before + seq!['\n'] + here);
        if after[0] != '\n' {
            assert(crate::text::normalized(short) =~= before + seq!['\n'] + here);
        }
    }
}

/// The number that decimal digits stand for.
pub open spec fn value_of(digits: Seq<char>) -> int
    decreases digits.len(),
{
    if digits.len() == 0 {
        0
    } else {
        value_of(digits.drop_last()) * 10 + (digits.last() as int - '0' as int)
    }
}

/// A number in decimal is made of digits that stand for it, without leading zeros.
pub proof fn lemma_decimal_stands_for_its_number(number: nat)
    ensures
        ({
            let digits = crate::text::decimal(number);
            &&& value_of(digits) == number
            &&& digits.len() >= 1
            &&& forall|i: int| 0 <= i < digits.len() ==> '0' <= #[trigger] digits[i] <= '9'
            &&& digits[0] == '0' ==> number == 0 && digits.len() == 1
        }),
    decreases number,
{
    let digits = crate::text::decimal(number);
    if number >= 10 {
        lemma_decimal_stands_for_its_number(number / 10);
        let front = crate::text::decimal(number / 10);
        assert(digits.drop_last() =~= front);
        assert(digits[0] == front[0]);
    } else {
        assert(digits.drop_last() =~= Seq::<char>::empty());
        assert(value_of(digits.drop_last()) == 0);
    }
}

/// Joining: nothing comes of nothing, a single part stays as it is, and between what is joined of
/// two lists of parts stands the separator, once.
pub proof fn lemma_joining(first: Seq<Seq<char>>, second: Seq<Seq<char>>, separator: Seq<char>)
    ensures
        first.len() == 0 ==> crate::text::joined(first, separator).len() == 0,
        first.len() == 1 ==> crate::text::joined(first, separator) == first[0],
        first.len() > 0 && second.len() > 0 ==> crate::text::joined(first + second, separator)
            == crate::text::joined(first, separator) + separator + crate::text::joined(
            second,
            separator,
        ),
    decreases second.len(),
{
    if first.len() > 0 && second.len() > 0 {
        let front = second.drop_last();
        assert((first + second).drop_last() =~= first + front);
        assert((first + second).last() == second.last());
        if front.len() == 0 {
            assert(first + front =~= first);
        } else {
            lemma_joining(first, front, separator);
            assert(crate::text::joined(first + second, separator) =~= crate::text::joined(
                first,
                separator,
            ) + separator + crate::text::joined(second, separator));
        }
    }
}

/// Of a line that ends with a line feed, that one line feed is taken off. Any other line stays as
/// it is.
pub proof fn lemma_line_break_is_taken_off(line: Seq<char>)
    ensures
        crate::text::without_line_break(line.push('\n')) == line,
        line.len() == 0 ==> crate::text::without_line_break(line) == line,
        line.len() > 0 && line.last() != '\n' ==> crate::text::without_line_break(line) == line,
{
    assert(line.push('\n').drop_last() =~= line);
}

/// A text that is made of three parts splits into them at their lengths in bytes.
pub proof fn lemma_parts_of_a_text(first: Seq<char>, second: Seq<char>, third: Seq<char>)
    ensures
        ({
            let text = first + second + third;
            let start = encode_utf8(first).len() as int;
            let end = start + encode_utf8(second).len();
            &&& crate::text::byte_len(text) == end + encode_utf8(third).len()
            &&& crate::text::splits_at(text, start)
            &&& crate::text::splits_at(text, end)
            &&& crate::text::text_before(text, start) == first
            &&& crate::text::text_between(text, start, end) == second
            &&& crate::text::text_after(text, end) == third
        }),
{
    let text = first + second + third;
    let start = encode_utf8(first).len() as int;
    let end = start + encode_utf8(second).len();
    crate::text::lemma_encode_concat(first + second, third);
    crate::text::lemma_encode_concat(first, second);
    let bytes = encode_utf8(text);
    assert(bytes.subrange(0, start) =~= encode_utf8(first));
    assert(bytes.subrange(start, end) =~= encode_utf8(second));
    assert(bytes.subrange(end, bytes.len() as int) =~= encode_utf8(third));
    encode_utf8_decode_utf8(first);
    encode_utf8_decode_utf8(second);
    encode_utf8_decode_utf8(third);
    lemma_splits_between(first, second + third);
    assert(first + (second + third) =~= text);
    lemma_splits_between(first + second, third);
}

proof fn lemma_splits_between(first: Seq<char>, second: Seq<char>)
    ensures
        crate::text::splits_at(first + second, encode_utf8(first).len() as int),
{
    let bytes = encode_utf8(first + second);
    let place = encode_utf8(first).len() as int;
    crate::text::lemma_encode_concat(first, second);
    encode_utf8_valid_utf8(first + second);
    if second.len() == 0 {
        assert(first + second =~= first);
        crate::text::lemma_split_at_end(first);
    } else if first.len() == 0 {
        is_char_boundary_start_end_of_seq(bytes);
    } else {
        let rest = encode_utf8(second);
        encode_utf8_valid_utf8(second);
        is_char_boundary_start_end_of_seq(rest);
        crate::laws::text::lemma_nonempty_encoding(second);
        is_char_boundary_iff_not_is_continuation_byte(rest, 0);
        assert(bytes[place] == rest[0]);
        is_char_boundary_iff_not_is_continuation_byte(bytes, place);
    }
}

proof fn lemma_nonempty_encoding(text: Seq<char>)
    requires
        text.len() > 0,
    ensures
        encode_utf8(text).len() > 0,
{
    crate::text::lemma_encode_concat(seq![text[0]], text.drop_first());
    assert(text =~= seq![text[0]] + text.drop_first());
    reveal_with_fuel(encode_utf8, 2);
}

/// The value under a key is that of the first entry with the key. There is none if no entry has
/// it.
pub proof fn lemma_first_entry_counts(
    entries: Seq<(Seq<char>, JsonView)>,
    key: Seq<char>,
    i: int,
)
    ensures
        crate::laws::document::absent(entries, key) <==> crate::json::lookup(entries, key) is None,
        0 <= i < entries.len() && entries[i].0 == key && crate::laws::document::absent(
            entries.take(i),
            key,
        ) ==> crate::json::lookup(entries, key) == Some(entries[i].1),
    decreases entries.len(),
{
    lemma_entry_index(entries, key);
    let found = crate::json::entry_index(entries, key);
    if crate::json::lookup(entries, key) is None {
        assert(crate::laws::document::absent(entries, key));
    }
    if 0 <= i < entries.len() && entries[i].0 == key && crate::laws::document::absent(
        entries.take(i),
        key,
    ) {
        if found < i {
            assert(entries.take(i)[found] == entries[found]);
        }
    }
}

proof fn lemma_entry_index(entries: Seq<(Seq<char>, JsonView)>, key: Seq<char>)
    ensures
        ({
            let found = crate::json::entry_index(entries, key);
            &&& 0 <= found <= entries.len()
            &&& found < entries.len() ==> entries[found].0 == key
            &&& forall|j: int| 0 <= j < found ==> (#[trigger] entries[j]).0 != key
        }),
    decreases entries.len(),
{
    if entries.len() > 0 && entries[0].0 != key {
        let rest = entries.drop_first();
        lemma_entry_index(rest, key);
        let found = crate::json::entry_index(entries, key);
        assert forall|j: int| 0 <= j < found implies (#[trigger] entries[j]).0 != key by {
            if j > 0 {
                assert(rest[j - 1] == entries[j]);
            }
        }
        if found < entries.len() {
            assert(rest[found - 1] == entries[found]);
        }
    }
}

/// Where the keys differ, the value under the key of an entry is that of the entry.
pub proof fn lemma_entry_is_found_by_its_key(entries: Seq<(Seq<char>, JsonView)>, i: int)
    requires
        crate::laws::document::distinct_keys(entries),
        0 <= i < entries.len(),
    ensures
        crate::json::lookup(entries, entries[i].0) == Some(entries[i].1),
{
    assert forall|j: int| 0 <= j < entries.take(i).len() implies (#[trigger] entries.take(i)[j]).0
        != entries[i].0 by {
        assert(entries.take(i)[j] == entries[j]);
    }
    lemma_first_entry_counts(entries, entries[i].0, i);
}

/// A value is read in the form that it has, and in no other: a string as its text, `null` as
/// nothing, an integer that is not negative as a count, an object as its entries.
pub proof fn lemma_forms_of_values(value: JsonView)
    ensures
        value.as_text() == (match value {
            JsonView::String(text) => Ok::<Seq<char>, ParseError>(text),
            _ => Err(ParseError),
        }),
        value.as_optional_entries() == (match value {
            JsonView::Null => Ok::<Option<Seq<(Seq<char>, JsonView)>>, ParseError>(None),
            JsonView::Object(entries) => Ok(Some(entries)),
            _ => Err(ParseError),
        }),
        value is Null ==> value.as_optional_count() == Ok::<Option<usize>, ParseError>(None),
        value matches JsonView::Number(JsonNumberView::Unsigned(number)) ==> if number
            <= usize::MAX {
            value.as_optional_count() matches Ok(Some(count)) && count == number
        } else {
            value.as_optional_count() is Err
        },
        !(value is Null) && !(value matches JsonView::Number(JsonNumberView::Unsigned(_)))
            ==> value.as_optional_count() is Err,
        !(value is Array) ==> value.as_texts() is Err && value.as_objects() is Err,
        value matches JsonView::Array(items) ==> forall|i: int|
            0 <= i < items.len() && !((#[trigger] items[i]) is String) ==> value.as_texts()
                is Err,
        value matches JsonView::Array(items) ==> forall|i: int|
            0 <= i < items.len() && !((#[trigger] items[i]) is Object) ==> value.as_objects()
                is Err,
{
}

/// An array of objects is read as the entries of its objects.
pub proof fn lemma_objects_of_array(objects: Seq<Seq<(Seq<char>, JsonView)>>)
    ensures
        JsonView::Array(
            objects.map_values(|entries: Seq<(Seq<char>, JsonView)>| JsonView::Object(entries)),
        ).as_objects() == Ok::<Seq<Seq<(Seq<char>, JsonView)>>, ParseError>(objects),
{
    let items = objects.map_values(
        |entries: Seq<(Seq<char>, JsonView)>| JsonView::Object(entries),
    );
    assert(crate::json::all_objects(items));
    assert(items.map_values(|item: JsonView| item->Object_0) =~= objects);
}

} // verus!
