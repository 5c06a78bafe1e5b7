//! What holds of the outputs that a document gives.
use crate::json::{JsonNumberView, JsonView, ParseError};
use crate::output::{
    IpynbCodeOutputView, MimeDataView, MimeType, StreamOutputTarget, StreamOutputTextView,
};
use vstd::prelude::*;

verus! {

/// Whether `line` is `body`, with a line feed at its end or, where `body` does not end with one,
/// without.
pub open spec fn is_line(line: Seq<char>, body: Seq<char>) -> bool {
    ||| line == body.push('\n')
    ||| line == body && (body.len() > 0 ==> body.last() != '\n')
}

/// Lines make up the text of their bodies, with a line break between any two neighbours: of each
/// line one line feed at its end is dropped, if it has one there, and nothing else.
pub proof fn lemma_text_of_lines(lines: Seq<Seq<char>>, bodies: Seq<Seq<char>>)
    requires
        lines.len() == bodies.len(),
        forall|i: int| 0 <= i < lines.len() ==> is_line(#[trigger] lines[i], bodies[i]),
    ensures
        crate::output::lines_text(lines) == crate::text::joined(bodies, seq!['\n']),
{
    reveal_strlit("\n");
    assert("\n"@ =~= seq!['\n']);
    let stripped = lines.map_values(|line: Seq<char>| crate::text::without_line_break(line));
    assert forall|i: int| 0 <= i < lines.len() implies #[trigger] stripped[i] == bodies[i] by {
        assert(is_line(lines[i], bodies[i]));
        crate::laws::text::lemma_line_break_is_taken_off(bodies[i]);
    }
    assert(stripped =~= bodies);
}

/// The source of a cell is given as a string or as an array of lines. Its text is that string, or
/// the text that the lines make up, with a line break after it. Nothing else is a source.
pub proof fn lemma_forms_of_a_source(
    value: JsonView,
    text: Seq<char>,
    lines: Seq<Seq<char>>,
    bodies: Seq<Seq<char>>,
)
    requires
        lines.len() == bodies.len(),
        forall|i: int| 0 <= i < lines.len() ==> is_line(#[trigger] lines[i], bodies[i]),
    ensures
        value == JsonView::String(text) ==> crate::cell::source_text(value) == Some(
            text.push('\n'),
        ),
        value == crate::laws::array_of(lines) ==> crate::cell::source_text(value) == Some(
            crate::text::joined(bodies, seq!['\n']).push('\n'),
        ),
        !(value is String) && !(value is Array) ==> crate::cell::source_text(value) is None,
        value matches JsonView::Array(items) ==> forall|i: int|
            0 <= i < items.len() && !((#[trigger] items[i]) is String)
                ==> crate::cell::source_text(value) is None,
{
    reveal_strlit("\n");
    assert("\n"@ =~= seq!['\n']);
    assert(text + seq!['\n'] =~= text.push('\n'));
    let whole = crate::text::joined(bodies, seq!['\n']);
    assert(whole + seq!['\n'] =~= whole.push('\n'));
    lemma_text_of_lines(lines, bodies);
    crate::laws::lemma_texts_of_array(lines);
    crate::laws::text::lemma_forms_of_values(value);
}

/// Of a single output, what was written to the standard output is shown, with a line break after
/// it. Nothing else is: neither what was written to the standard error, nor what was displayed, nor
/// what came of an execution.
pub proof fn lemma_what_an_output_shows(output: IpynbCodeOutputView)
    ensures
        crate::output::shown_text(seq![output]) == (match output {
            IpynbCodeOutputView::Stream { name, text } => if name == StreamOutputTarget::Stdout {
                match text {
                    StreamOutputTextView::Text(text) => text.push('\n'),
                    StreamOutputTextView::MultiLineText(lines) => crate::output::lines_text(
                        lines,
                    ).push('\n'),
                }
            } else {
                Seq::empty()
            },
            _ => Seq::empty(),
        }),
        crate::output::shown_text(Seq::empty()).len() == 0,
{
    reveal_strlit("\n");
    assert(seq![output].drop_last() =~= Seq::empty());
    assert(crate::output::shown_text(Seq::empty()) =~= Seq::<char>::empty());
    if let IpynbCodeOutputView::Stream { name: StreamOutputTarget::Stdout, text } = output {
        assert(Seq::empty() + text.text() + "\n"@ =~= text.text().push('\n'));
    }
}

/// Each nature of data goes by one name. All other names are of other natures.
#[verifier::rlimit(60)]
pub proof fn lemma_names_of_natures(name: Seq<char>)
    ensures
        MimeType::named(name) == MimeType::Plain <==> name == "text/plain"@,
        MimeType::named(name) == MimeType::Html <==> name == "text/html"@,
        MimeType::named(name) == MimeType::Latex <==> name == "text/latex"@,
        MimeType::named(name) == MimeType::Javascript <==> name == "application/javascript"@,
        MimeType::named(name) == MimeType::Markdown <==> name == "text/markdown"@,
        MimeType::named(name) == MimeType::Svg <==> name == "image/svg+xml"@,
        MimeType::named(name) == MimeType::Png <==> name == "image/png"@,
        MimeType::named(name) == MimeType::Jpeg <==> name == "image/jpeg"@,
        MimeType::named(name) == MimeType::Gif <==> name == "image/gif"@,
        MimeType::named(name) == MimeType::Json <==> name == "application/json"@,
        MimeType::named(name) == MimeType::GeoJson <==> name == "application/geo+json"@,
        MimeType::named(name) == MimeType::DataTable <==> name
            == "application/vnd.dataresource+json"@,
        MimeType::named(name) == MimeType::Plotly <==> name == "application/vnd.plotly.v1+json"@,
        MimeType::named(name) == MimeType::WidgetView <==> name
            == "application/vnd.jupyter.widget-view+json"@,
        MimeType::named(name) == MimeType::WidgetState <==> name
            == "application/vnd.jupyter.widget-state+json"@,
        MimeType::named(name) == MimeType::VegaLiteV2 <==> name
            == "application/vnd.vegalite.v2+json"@,
        MimeType::named(name) == MimeType::VegaLiteV3 <==> name
            == "application/vnd.vegalite.v3+json"@,
        MimeType::named(name) == MimeType::VegaLiteV4 <==> name
            == "application/vnd.vegalite.v4+json"@,
        MimeType::named(name) == MimeType::VegaLiteV5 <==> name
            == "application/vnd.vegalite.v5+json"@,
        MimeType::named(name) == MimeType::VegaLiteV6 <==> name
            == "application/vnd.vegalite.v6+json"@,
        MimeType::named(name) == MimeType::VegaV3 <==> name == "application/vnd.vega.v3+json"@,
        MimeType::named(name) == MimeType::VegaV4 <==> name == "application/vnd.vega.v4+json"@,
        MimeType::named(name) == MimeType::VegaV5 <==> name == "application/vnd.vega.v5+json"@,
        MimeType::named(name) == MimeType::Vdom <==> name == "application/vdom.v1+json"@,
{
    reveal_strlit("text/plain");
    reveal_strlit("text/html");
    reveal_strlit("text/latex");
    reveal_strlit("application/javascript");
    reveal_strlit("text/markdown");
    reveal_strlit("image/svg+xml");
    reveal_strlit("image/png");
    reveal_strlit("image/jpeg");
    reveal_strlit("image/gif");
    reveal_strlit("application/json");
    reveal_strlit("application/geo+json");
    reveal_strlit("application/vnd.dataresource+json");
    reveal_strlit("application/vnd.plotly.v1+json");
    reveal_strlit("application/vnd.jupyter.widget-view+json");
    reveal_strlit("application/vnd.jupyter.widget-state+json");
    reveal_strlit("application/vnd.vegalite.v2+json");
    reveal_strlit("application/vnd.vegalite.v3+json");
    reveal_strlit("application/vnd.vegalite.v4+json");
    reveal_strlit("application/vnd.vegalite.v5+json");
    reveal_strlit("application/vnd.vegalite.v6+json");
    reveal_strlit("application/vnd.vega.v3+json");
    reveal_strlit("application/vnd.vega.v4+json");
    reveal_strlit("application/vnd.vega.v5+json");
    reveal_strlit("application/vdom.v1+json");
    assert("text/plain"@.len() == 10);
    assert("text/html"@.len() == 9);
    assert("text/latex"@.len() == 10);
    assert("application/javascript"@.len() == 22);
    assert("text/markdown"@.len() == 13);
    assert("image/svg+xml"@.len() == 13);
    assert("image/png"@.len() == 9);
    assert("image/jpeg"@.len() == 10);
    assert("image/gif"@.len() == 9);
    assert("application/json"@.len() == 16);
    assert("application/geo+json"@.len() == 20);
    assert("application/vnd.dataresource+json"@.len() == 33);
    assert("application/vnd.plotly.v1+json"@.len() == 30);
    assert("application/vnd.jupyter.widget-view+json"@.len() == 40);
    assert("application/vnd.jupyter.widget-state+json"@.len() == 41);
    assert("application/vnd.vegalite.v2+json"@.len() == 32);
    assert("application/vnd.vegalite.v3+json"@.len() == 32);
    assert("application/vnd.vegalite.v4+json"@.len() == 32);
    assert("application/vnd.vegalite.v5+json"@.len() == 32);
    assert("application/vnd.vegalite.v6+json"@.len() == 32);
    assert("application/vnd.vega.v3+json"@.len() == 28);
    assert("application/vnd.vega.v4+json"@.len() == 28);
    assert("application/vnd.vega.v5+json"@.len() == 28);
    assert("application/vdom.v1+json"@.len() == 24);
    assert("text/plain"@[5] == 'p');
    assert("text/latex"@[5] == 'l');
    assert("image/jpeg"@[5] == '/');
    assert("text/html"@[6] == 't');
    assert("image/png"@[6] == 'p');
    assert("image/gif"@[6] == 'g');
    assert("text/markdown"@[0] == 't');
    assert("image/svg+xml"@[0] == 'i');
    assert("application/vnd.vegalite.v2+json"@[26] == '2');
    assert("application/vnd.vegalite.v3+json"@[26] == '3');
    assert("application/vnd.vegalite.v4+json"@[26] == '4');
    assert("application/vnd.vegalite.v5+json"@[26] == '5');
    assert("application/vnd.vegalite.v6+json"@[26] == '6');
    assert("application/vnd.vega.v3+json"@[22] == '3');
    assert("application/vnd.vega.v4+json"@[22] == '4');
    assert("application/vnd.vega.v5+json"@[22] == '5');
}

/// The two streams go by their names in lower case or with a capital letter, and by no other. A
/// name may also stand as the only key of an object with nothing under it.
pub proof fn lemma_names_of_streams(name: Seq<char>)
    ensures
        StreamOutputTarget::read(JsonView::String(name)) == Some(StreamOutputTarget::Stdout)
            <==> name == "stdout"@ || name == "Stdout"@,
        StreamOutputTarget::read(JsonView::String(name)) == Some(StreamOutputTarget::Stderr)
            <==> name == "stderr"@ || name == "Stderr"@,
        StreamOutputTarget::read(JsonView::Object(seq![(name, JsonView::Null)]))
            == StreamOutputTarget::read(JsonView::String(name)),
        StreamOutputTarget::read(
            JsonView::Object(seq![(name, JsonView::Object(Seq::empty()))]),
        ) == StreamOutputTarget::read(JsonView::String(name)),
{
    reveal_strlit("stdout");
    reveal_strlit("Stdout");
    reveal_strlit("stderr");
    reveal_strlit("Stderr");
    assert("stdout"@[3] == 'o');
    assert("Stdout"@[3] == 'o');
    assert("stderr"@[3] == 'e');
    assert("Stderr"@[3] == 'e');
}

/// The text of a stream is a string or an array of lines; data are an object or an array of lines.
pub proof fn lemma_forms_of_texts_and_data(
    value: JsonView,
    text: Seq<char>,
    lines: Seq<Seq<char>>,
    entries: Seq<(Seq<char>, JsonView)>,
)
    ensures
        value == JsonView::String(text) ==> StreamOutputTextView::read(value) == Some(
            StreamOutputTextView::Text(text),
        ) && MimeDataView::read(value) is None,
        value == crate::laws::array_of(lines) ==> StreamOutputTextView::read(value) == Some(
            StreamOutputTextView::MultiLineText(lines),
        ) && MimeDataView::read(value) == Some(MimeDataView::MultiLineText(lines)),
        value == JsonView::Object(entries) ==> MimeDataView::read(value) == Some(
            MimeDataView::Json(entries),
        ) && StreamOutputTextView::read(value) is None,
        value is Null || value is Bool || value is Number ==> StreamOutputTextView::read(value)
            is None && MimeDataView::read(value) is None,
{
    crate::laws::lemma_texts_of_array(lines);
}

/// Putting a value under a key leaves the values under all other keys and their order as they are.
/// The value takes the place of the one under that key, or comes last.
pub proof fn lemma_value_is_put_under_its_key<V>(
    list: Seq<(MimeType, V)>,
    key: MimeType,
    value: V,
    at: int,
)
    requires
        0 <= at <= list.len(),
        forall|i: int| 0 <= i < at ==> (#[trigger] list[i]).0 != key,
        at < list.len() ==> list[at].0 == key,
    ensures
        crate::output_reading::with_value(list, key, value) == (if at < list.len() {
            list.update(at, (key, value))
        } else {
            list.push((key, value))
        }),
{
    crate::output_reading::lemma_with_value_at(list, key, value, at);
}

proof fn lemma_value_under_key<V>(list: Seq<(MimeType, V)>, key: MimeType, value: V)
    ensures
        ({
            let after = crate::output_reading::with_value(list, key, value);
            &&& list.len() <= after.len() <= list.len() + 1
            &&& after.contains((key, value))
            &&& forall|i: int|
                0 <= i < list.len() && (#[trigger] list[i]).0 != key ==> after[i] == list[i]
        }),
    decreases list.len(),
{
    let after = crate::output_reading::with_value(list, key, value);
    if list.len() == 0 || list[0].0 == key {
        assert(after[0] == (key, value));
    } else {
        let rest = list.drop_first();
        lemma_value_under_key(rest, key, value);
        let rest_after = crate::output_reading::with_value(rest, key, value);
        let at = rest_after.index_of((key, value));
        assert(after[at + 1] == (key, value));
        assert forall|i: int| 0 <= i < list.len() && (#[trigger] list[i]).0 != key implies after[i]
            == list[i] by {
            if i > 0 {
                assert(rest[i - 1] == list[i]);
                assert(after[i] == rest_after[i - 1]);
            }
        }
    }
}

/// Of data with names of the same nature the last count: an entry that is added gives the data of
/// its nature, and those of all other natures stay as they are. The same holds of metadata.
pub proof fn lemma_last_of_a_nature_counts(
    entries: Seq<(Seq<char>, JsonView)>,
    name: Seq<char>,
    value: JsonView,
)
    ensures
        crate::output_reading::data_of_entries(entries) matches Some(before) ==> (
        MimeDataView::read(value) matches Some(data) ==> {
            let key = MimeType::named(name);
            &&& crate::output_reading::data_of_entries(entries.push((name, value))) matches Some(
                after,
            )
            &&& after.contains((key, data))
            &&& before.len() <= after.len() <= before.len() + 1
            &&& forall|i: int|
                0 <= i < before.len() && (#[trigger] before[i]).0 != key ==> after[i] == before[i]
        }),
        crate::output_reading::metadata_of_entries(entries) matches Some(before) ==> (value matches
            JsonView::Object(metadata) ==> {
            let key = MimeType::named(name);
            &&& crate::output_reading::metadata_of_entries(
                entries.push((name, value)),
            ) matches Some(after)
            &&& after.contains((key, metadata))
            &&& before.len() <= after.len() <= before.len() + 1
            &&& forall|i: int|
                0 <= i < before.len() && (#[trigger] before[i]).0 != key ==> after[i] == before[i]
        }),
{
    let key = MimeType::named(name);
    assert(entries.push((name, value)).drop_last() =~= entries);
    if let Some(before) = crate::output_reading::data_of_entries(entries) {
        if let Some(data) = MimeDataView::read(value) {
            lemma_value_under_key(before, key, data);
        }
    }
    if let Some(before) = crate::output_reading::metadata_of_entries(entries) {
        if let JsonView::Object(metadata) = value {
            lemma_value_under_key(before, key, metadata);
        }
    }
}

/// Data are read entry by entry, in order: each under the nature of its name. They are unreadable
/// as soon as one of them is.
pub proof fn lemma_data_are_read_by_their_names(entries: Seq<(Seq<char>, JsonView)>)
    requires
        forall|i: int, j: int|
            0 <= i < j < entries.len() ==> MimeType::named((#[trigger] entries[i]).0)
                != MimeType::named((#[trigger] entries[j]).0),
    ensures
        match crate::output_reading::data_of_entries(entries) {
            Some(data) => {
                &&& data.len() == entries.len()
                &&& forall|i: int|
                    0 <= i < entries.len() ==> (#[trigger] data[i]).0 == MimeType::named(
                        entries[i].0,
                    ) && MimeDataView::read(entries[i].1) == Some(data[i].1)
            },
            None => exists|i: int|
                0 <= i < entries.len() && MimeDataView::read((#[trigger] entries[i]).1) is None,
        },
    decreases entries.len(),
{
    if entries.len() > 0 {
        let front = entries.drop_last();
        let last = entries.last();
        assert forall|i: int, j: int| 0 <= i < j < front.len() implies MimeType::named(
            (#[trigger] front[i]).0,
        ) != MimeType::named((#[trigger] front[j]).0) by {
            assert(MimeType::named(entries[i].0) != MimeType::named(entries[j].0));
        }
        lemma_data_are_read_by_their_names(front);
        match crate::output_reading::data_of_entries(front) {
            Some(before) => {
                match MimeDataView::read(last.1) {
                    Some(data) => {
                        let key = MimeType::named(last.0);
                        assert forall|i: int| 0 <= i < before.len() implies (
                        #[trigger] before[i]).0 != key by {
                            assert(before[i].0 == MimeType::named(front[i].0));
                            assert(MimeType::named(entries[i].0) != MimeType::named(
                                entries[entries.len() - 1].0,
                            ));
                        }
                        lemma_value_is_put_under_its_key(before, key, data, before.len() as int);
                        let after = before.push((key, data));
                        assert forall|i: int| 0 <= i < entries.len() implies (
                        #[trigger] after[i]).0 == MimeType::named(entries[i].0)
                            && MimeDataView::read(entries[i].1) == Some(after[i].1) by {
                            if i < front.len() {
                                assert(after[i] == before[i]);
                                assert(front[i] == entries[i]);
                            }
                        }
                    },
                    None => {
                        assert(MimeDataView::read(entries[entries.len() - 1].1) is None);
                    },
                }
            },
            None => {
                let i = choose|i: int|
                    0 <= i < front.len() && MimeDataView::read((#[trigger] front[i]).1) is None;
                assert(MimeDataView::read(entries[i].1) is None);
            },
        }
    }
}

/// Metadata are read entry by entry, in order: each is an object, under the nature of its name.
/// They are unreadable as soon as one of them is no object.
pub proof fn lemma_metadata_are_read_by_their_names(entries: Seq<(Seq<char>, JsonView)>)
    requires
        forall|i: int, j: int|
            0 <= i < j < entries.len() ==> MimeType::named((#[trigger] entries[i]).0)
                != MimeType::named((#[trigger] entries[j]).0),
    ensures
        match crate::output_reading::metadata_of_entries(entries) {
            Some(metadata) => {
                &&& metadata.len() == entries.len()
                &&& forall|i: int|
                    0 <= i < entries.len() ==> (#[trigger] metadata[i]).0 == MimeType::named(
                        entries[i].0,
                    ) && entries[i].1 == JsonView::Object(metadata[i].1)
            },
            None => exists|i: int| 0 <= i < entries.len() && !((#[trigger] entries[i]).1 is Object),
        },
    decreases entries.len(),
{
    if entries.len() > 0 {
        let front = entries.drop_last();
        let last = entries.last();
        assert forall|i: int, j: int| 0 <= i < j < front.len() implies MimeType::named(
            (#[trigger] front[i]).0,
        ) != MimeType::named((#[trigger] front[j]).0) by {
            assert(MimeType::named(entries[i].0) != MimeType::named(entries[j].0));
        }
        lemma_metadata_are_read_by_their_names(front);
        match crate::output_reading::metadata_of_entries(front) {
            Some(before) => {
                match last.1 {
                    JsonView::Object(inner) => {
                        let key = MimeType::named(last.0);
                        assert forall|i: int| 0 <= i < before.len() implies (
                        #[trigger] before[i]).0 != key by {
                            assert(before[i].0 == MimeType::named(front[i].0));
                            assert(MimeType::named(entries[i].0) != MimeType::named(
                                entries[entries.len() - 1].0,
                            ));
                        }
                        lemma_value_is_put_under_its_key(before, key, inner, before.len() as int);
                        let after = before.push((key, inner));
                        assert forall|i: int| 0 <= i < entries.len() implies (
                        #[trigger] after[i]).0 == MimeType::named(entries[i].0) && entries[i].1
                            == JsonView::Object(after[i].1) by {
                            if i < front.len() {
                                assert(after[i] == before[i]);
                                assert(front[i] == entries[i]);
                            }
                        }
                    },
                    _ => {
                        assert(!(entries[entries.len() - 1].1 is Object));
                    },
                }
            },
            None => {
                let i = choose|i: int|
                    0 <= i < front.len() && !((#[trigger] front[i]).1 is Object);
                assert(!(entries[i].1 is Object));
            },
        }
    }
}

/// An object under whose `output_type` a stream is named is what was written to that stream: the
/// stream is the one under `name`, and the text the one under `text`. It is unreadable without
/// either of them.
pub proof fn lemma_stream_is_read(entries: Seq<(Seq<char>, JsonView)>, kind: Seq<char>)
    requires
        kind == "stream"@ || kind == "Stream"@,
        crate::json::lookup(entries, "output_type"@) == Some(JsonView::String(kind)),
    ensures
        IpynbCodeOutputView::read(JsonView::Object(entries)) == (match (
            crate::json::lookup(entries, "name"@),
            crate::json::lookup(entries, "text"@),
        ) {
            (Some(name), Some(text)) => match (
                StreamOutputTarget::read(name),
                StreamOutputTextView::read(text),
            ) {
                (Some(name), Some(text)) => Some(IpynbCodeOutputView::Stream { name, text }),
                _ => None,
            },
            _ => None,
        }),
{
    lemma_kinds_differ();
}

/// An object under whose `output_type` displayed data are named holds the data under `data` and the
/// metadata under `metadata`, each of which is an object. It is unreadable without either of them.
pub proof fn lemma_display_is_read(entries: Seq<(Seq<char>, JsonView)>, kind: Seq<char>)
    requires
        kind == "display_data"@ || kind == "DisplayData"@,
        crate::json::lookup(entries, "output_type"@) == Some(JsonView::String(kind)),
    ensures
        IpynbCodeOutputView::read(JsonView::Object(entries)) == (match (
            crate::json::lookup(entries, "data"@),
            crate::json::lookup(entries, "metadata"@),
        ) {
            (Some(JsonView::Object(data)), Some(JsonView::Object(metadata))) => match (
                crate::output_reading::data_of_entries(data),
                crate::output_reading::metadata_of_entries(metadata),
            ) {
                (Some(data), Some(metadata)) => Some(
                    IpynbCodeOutputView::DisplayData { data, metadata },
                ),
                _ => None,
            },
            _ => None,
        }),
{
    lemma_kinds_differ();
}

/// An object under whose `output_type` the result of an execution is named holds a count under
/// `execution_count`, and data and metadata as displayed data do. It is unreadable without any of
/// them.
pub proof fn lemma_result_is_read(
    entries: Seq<(Seq<char>, JsonView)>,
    kind: Seq<char>,
    count: u64,
    data: Seq<(Seq<char>, JsonView)>,
    metadata: Seq<(Seq<char>, JsonView)>,
)
    requires
        kind == "execute_result"@ || kind == "ExecutionResult"@,
        crate::json::lookup(entries, "output_type"@) == Some(JsonView::String(kind)),
    ensures
        ({
            let output = IpynbCodeOutputView::read(JsonView::Object(entries));
            let given = (
                crate::json::lookup(entries, "execution_count"@),
                crate::json::lookup(entries, "data"@),
                crate::json::lookup(entries, "metadata"@),
            );
            &&& given == (
                Some(JsonView::Number(JsonNumberView::Unsigned(count))),
                Some(JsonView::Object(data)),
                Some(JsonView::Object(metadata)),
            ) && count <= usize::MAX ==> output == (match (
                crate::output_reading::data_of_entries(data),
                crate::output_reading::metadata_of_entries(metadata),
            ) {
                (Some(data), Some(metadata)) => Some(
                    IpynbCodeOutputView::ExecutionResult {
                        execution_count: count as usize,
                        data,
                        metadata,
                    },
                ),
                _ => None,
            })
            &&& !(given.0 matches Some(JsonView::Number(JsonNumberView::Unsigned(_)))) || !(given.1
                matches Some(JsonView::Object(_))) || !(given.2 matches Some(JsonView::Object(_)))
                ==> output is None
        }),
{
    lemma_kinds_differ();
}

/// An object is unreadable unless its `output_type` names a stream, displayed data or the result of
/// an execution, and so is all that is neither an object nor an array.
pub proof fn lemma_other_outputs_are_unreadable(value: JsonView)
    requires
        match value {
            JsonView::Object(entries) => match crate::json::lookup(entries, "output_type"@) {
                Some(JsonView::String(kind)) => kind != "stream"@ && kind != "Stream"@ && kind
                    != "display_data"@ && kind != "DisplayData"@ && kind != "execute_result"@
                    && kind != "ExecutionResult"@,
                _ => true,
            },
            JsonView::Array(items) => items.len() < 3 || items.len() > 4 || !(items[0] is String),
            _ => true,
        },
    ensures
        IpynbCodeOutputView::read(value) is None,
{
}

/// An output may also be given as an array: the name of its kind and then its fields, in order. It
/// is then what an object with these fields is.
pub proof fn lemma_output_as_an_array(
    kind: Seq<char>,
    first: JsonView,
    second: JsonView,
    third: JsonView,
)
    ensures
        kind == "stream"@ || kind == "Stream"@ ==> IpynbCodeOutputView::read(
            JsonView::Array(seq![JsonView::String(kind), first, second]),
        ) == IpynbCodeOutputView::read(
            JsonView::Object(
                seq![
                    ("output_type"@, JsonView::String(kind)),
                    ("name"@, first),
                    ("text"@, second),
                ],
            ),
        ),
        kind == "display_data"@ || kind == "DisplayData"@ ==> IpynbCodeOutputView::read(
            JsonView::Array(seq![JsonView::String(kind), first, second]),
        ) == IpynbCodeOutputView::read(
            JsonView::Object(
                seq![
                    ("output_type"@, JsonView::String(kind)),
                    ("data"@, first),
                    ("metadata"@, second),
                ],
            ),
        ),
        kind == "execute_result"@ || kind == "ExecutionResult"@ ==> IpynbCodeOutputView::read(
            JsonView::Array(seq![JsonView::String(kind), first, second, third]),
        ) == IpynbCodeOutputView::read(
            JsonView::Object(
                seq![
                    ("output_type"@, JsonView::String(kind)),
                    ("execution_count"@, first),
                    ("data"@, second),
                    ("metadata"@, third),
                ],
            ),
        ),
{
    lemma_kinds_differ();
    lemma_fields_differ();
    let stream = seq![
        ("output_type"@, JsonView::String(kind)),
        ("name"@, first),
        ("text"@, second),
    ];
    let display = seq![
        ("output_type"@, JsonView::String(kind)),
        ("data"@, first),
        ("metadata"@, second),
    ];
    let result = seq![
        ("output_type"@, JsonView::String(kind)),
        ("execution_count"@, first),
        ("data"@, second),
        ("metadata"@, third),
    ];
    assert(crate::laws::document::distinct_keys(stream));
    assert(crate::laws::document::distinct_keys(display));
    assert(crate::laws::document::distinct_keys(result));
    crate::laws::text::lemma_entry_is_found_by_its_key(stream, 0);
    crate::laws::text::lemma_entry_is_found_by_its_key(stream, 1);
    crate::laws::text::lemma_entry_is_found_by_its_key(stream, 2);
    crate::laws::text::lemma_entry_is_found_by_its_key(display, 0);
    crate::laws::text::lemma_entry_is_found_by_its_key(display, 1);
    crate::laws::text::lemma_entry_is_found_by_its_key(display, 2);
    crate::laws::text::lemma_entry_is_found_by_its_key(result, 0);
    crate::laws::text::lemma_entry_is_found_by_its_key(result, 1);
    crate::laws::text::lemma_entry_is_found_by_its_key(result, 2);
    crate::laws::text::lemma_entry_is_found_by_its_key(result, 3);
}

proof fn lemma_kinds_differ()
    ensures
        "stream"@ != "display_data"@ && "stream"@ != "DisplayData"@ && "stream"@
            != "execute_result"@ && "stream"@ != "ExecutionResult"@,
        "Stream"@ != "display_data"@ && "Stream"@ != "DisplayData"@ && "Stream"@
            != "execute_result"@ && "Stream"@ != "ExecutionResult"@,
        "display_data"@ != "execute_result"@ && "display_data"@ != "ExecutionResult"@,
        "DisplayData"@ != "execute_result"@ && "DisplayData"@ != "ExecutionResult"@,
{
    reveal_strlit("stream");
    reveal_strlit("Stream");
    reveal_strlit("display_data");
    reveal_strlit("DisplayData");
    reveal_strlit("execute_result");
    reveal_strlit("ExecutionResult");
    assert("stream"@.len() == 6 && "Stream"@.len() == 6);
    assert("display_data"@.len() == 12 && "DisplayData"@.len() == 11);
    assert("execute_result"@.len() == 14 && "ExecutionResult"@.len() == 15);
}

proof fn lemma_fields_differ()
    ensures
        "output_type"@ != "name"@ && "output_type"@ != "text"@ && "output_type"@ != "data"@
            && "output_type"@ != "metadata"@ && "output_type"@ != "execution_count"@,
        "name"@ != "text"@,
        "data"@ != "metadata"@ && "data"@ != "execution_count"@,
        "metadata"@ != "execution_count"@,
{
    reveal_strlit("output_type");
    reveal_strlit("name");
    reveal_strlit("text");
    reveal_strlit("data");
    reveal_strlit("metadata");
    reveal_strlit("execution_count");
    assert("output_type"@.len() == 11 && "name"@.len() == 4 && "text"@.len() == 4);
    assert("data"@.len() == 4 && "metadata"@.len() == 8 && "execution_count"@.len() == 15);
    assert("name"@[0] == 'n');
    assert("text"@[0] == 't');
}

/// A list of outputs is read output by output, in order, and none is left out. It is unreadable as
/// soon as one of them is, and so is all that is no list; `null` stands for no list.
pub proof fn lemma_outputs_are_read_one_by_one(items: Seq<JsonView>)
    ensures
        match IpynbCodeOutputView::read_all(JsonView::Array(items)) {
            Ok(Some(outputs)) => {
                &&& outputs.len() == items.len()
                &&& forall|i: int|
                    0 <= i < items.len() ==> IpynbCodeOutputView::read(items[i]) == Some(
                        #[trigger] outputs[i],
                    )
            },
            Ok(None) => false,
            Err(_) => exists|i: int|
                0 <= i < items.len() && IpynbCodeOutputView::read(#[trigger] items[i]) is None,
        },
        IpynbCodeOutputView::read_all(JsonView::Null) == Ok::<
            Option<Seq<IpynbCodeOutputView>>,
            ParseError,
        >(None),
        forall|value: JsonView|
            !(value is Array) && !(value is Null) ==> #[trigger] IpynbCodeOutputView::read_all(
                value,
            ) is Err,
    decreases items.len(),
{
    if items.len() > 0 {
        let front = items.drop_last();
        lemma_outputs_are_read_one_by_one(front);
        match IpynbCodeOutputView::read_each(front) {
            Some(before) => match IpynbCodeOutputView::read(items.last()) {
                Some(output) => {
                    let after = before.push(output);
                    assert forall|i: int| 0 <= i < items.len() implies IpynbCodeOutputView::read(
                        items[i],
                    ) == Some(#[trigger] after[i]) by {
                        if i < front.len() {
                            assert(after[i] == before[i]);
                            assert(front[i] == items[i]);
                        }
                    }
                },
                None => {
                    assert(IpynbCodeOutputView::read(items[items.len() - 1]) is None);
                },
            },
            None => {
                let i = choose|i: int|
                    0 <= i < front.len() && IpynbCodeOutputView::read(#[trigger] front[i]) is None;
                assert(IpynbCodeOutputView::read(items[i]) is None);
            },
        }
    }
}

} // verus!
