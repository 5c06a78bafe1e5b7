//! How the outputs of a cell are read from a document.
use crate::json::{get_entry, Json, JsonNumber, JsonNumberView, JsonView, ParseError};
use crate::output::{
    IpynbCodeOutput, IpynbCodeOutputView, MimeData, MimeDataView, MimeType, StreamOutputTarget,
    StreamOutputText, StreamOutputTextView,
};
use vstd::prelude::*;

verus! {

impl MimeType {
    /// The nature of the name `name`.
    pub open spec fn named(name: Seq<char>) -> MimeType {
        if name == "text/plain"@ {
            MimeType::Plain
        } else if name == "text/html"@ {
            MimeType::Html
        } else if name == "text/latex"@ {
            MimeType::Latex
        } else if name == "application/javascript"@ {
            MimeType::Javascript
        } else if name == "text/markdown"@ {
            MimeType::Markdown
        } else if name == "image/svg+xml"@ {
            MimeType::Svg
        } else if name == "image/png"@ {
            MimeType::Png
        } else if name == "image/jpeg"@ {
            MimeType::Jpeg
        } else if name == "image/gif"@ {
            MimeType::Gif
        } else if name == "application/json"@ {
            MimeType::Json
        } else if name == "application/geo+json"@ {
            MimeType::GeoJson
        } else if name == "application/vnd.dataresource+json"@ {
            MimeType::DataTable
        } else if name == "application/vnd.plotly.v1+json"@ {
            MimeType::Plotly
        } else if name == "application/vnd.jupyter.widget-view+json"@ {
            MimeType::WidgetView
        } else if name == "application/vnd.jupyter.widget-state+json"@ {
            MimeType::WidgetState
        } else if name == "application/vnd.vegalite.v2+json"@ {
            MimeType::VegaLiteV2
        } else if name == "application/vnd.vegalite.v3+json"@ {
            MimeType::VegaLiteV3
        } else if name == "application/vnd.vegalite.v4+json"@ {
            MimeType::VegaLiteV4
        } else if name == "application/vnd.vegalite.v5+json"@ {
            MimeType::VegaLiteV5
        } else if name == "application/vnd.vegalite.v6+json"@ {
            MimeType::VegaLiteV6
        } else if name == "application/vnd.vega.v3+json"@ {
            MimeType::VegaV3
        } else if name == "application/vnd.vega.v4+json"@ {
            MimeType::VegaV4
        } else if name == "application/vnd.vega.v5+json"@ {
            MimeType::VegaV5
        } else if name == "application/vdom.v1+json"@ {
            MimeType::Vdom
        } else {
            MimeType::Other
        }
    }

    /// The nature of the name `name`.
    pub fn from_name(name: &str) -> (mime: MimeType)
        ensures
            mime == MimeType::named(name@),
    {
        if crate::text::same_text(name, "text/plain") {
            MimeType::Plain
        } else if crate::text::same_text(name, "text/html") {
            MimeType::Html
        } else if crate::text::same_text(name, "text/latex") {
            MimeType::Latex
        } else if crate::text::same_text(name, "application/javascript") {
            MimeType::Javascript
        } else if crate::text::same_text(name, "text/markdown") {
            MimeType::Markdown
        } else if crate::text::same_text(name, "image/svg+xml") {
            MimeType::Svg
        } else if crate::text::same_text(name, "image/png") {
            MimeType::Png
        } else if crate::text::same_text(name, "image/jpeg") {
            MimeType::Jpeg
        } else if crate::text::same_text(name, "image/gif") {
            MimeType::Gif
        } else if crate::text::same_text(name, "application/json") {
            MimeType::Json
        } else if crate::text::same_text(name, "application/geo+json") {
            MimeType::GeoJson
        } else if crate::text::same_text(name, "application/vnd.dataresource+json") {
            MimeType::DataTable
        } else if crate::text::same_text(name, "application/vnd.plotly.v1+json") {
            MimeType::Plotly
        } else if crate::text::same_text(name, "application/vnd.jupyter.widget-view+json") {
            MimeType::WidgetView
        } else if crate::text::same_text(name, "application/vnd.jupyter.widget-state+json") {
            MimeType::WidgetState
        } else if crate::text::same_text(name, "application/vnd.vegalite.v2+json") {
            MimeType::VegaLiteV2
        } else if crate::text::same_text(name, "application/vnd.vegalite.v3+json") {
            MimeType::VegaLiteV3
        } else if crate::text::same_text(name, "application/vnd.vegalite.v4+json") {
            MimeType::VegaLiteV4
        } else if crate::text::same_text(name, "application/vnd.vegalite.v5+json") {
            MimeType::VegaLiteV5
        } else if crate::text::same_text(name, "application/vnd.vegalite.v6+json") {
            MimeType::VegaLiteV6
        } else if crate::text::same_text(name, "application/vnd.vega.v3+json") {
            MimeType::VegaV3
        } else if crate::text::same_text(name, "application/vnd.vega.v4+json") {
            MimeType::VegaV4
        } else if crate::text::same_text(name, "application/vnd.vega.v5+json") {
            MimeType::VegaV5
        } else if crate::text::same_text(name, "application/vdom.v1+json") {
            MimeType::Vdom
        } else {
            MimeType::Other
        }
    }
}

/// `list` with `value` under `key`, in place of what was there.
pub open spec fn with_value<V>(list: Seq<(MimeType, V)>, key: MimeType, value: V) -> Seq<
    (MimeType, V),
>
    decreases list.len(),
{
    if list.len() == 0 {
        seq![(key, value)]
    } else if list[0].0 == key {
        list.update(0, (key, value))
    } else {
        seq![list[0]] + with_value(list.drop_first(), key, value)
    }
}

pub(crate) proof fn lemma_with_value_at<V>(list: Seq<(MimeType, V)>, key: MimeType, value: V, at: int)
    requires
        0 <= at <= list.len(),
        forall|i: int| 0 <= i < at ==> (#[trigger] list[i]).0 != key,
        at < list.len() ==> list[at].0 == key,
    ensures
        with_value(list, key, value) == if at < list.len() {
            list.update(at, (key, value))
        } else {
            list.push((key, value))
        },
    decreases list.len(),
{
    if list.len() == 0 {
        assert(seq![(key, value)] =~= list.push((key, value)));
    } else if at > 0 {
        let rest = list.drop_first();
        assert(list[0].0 != key);
        assert forall|i: int| 0 <= i < at - 1 implies (#[trigger] rest[i]).0 != key by {
            assert(list[i + 1].0 != key);
        }
        lemma_with_value_at(rest, key, value, at - 1);
        if at < list.len() {
            assert(seq![list[0]] + rest.update(at - 1, (key, value)) =~= list.update(
                at,
                (key, value),
            ));
        } else {
            assert(seq![list[0]] + rest.push((key, value)) =~= list.push((key, value)));
        }
    }
}

proof fn lemma_with_value_mapped<V, W>(
    list: Seq<(MimeType, V)>,
    key: MimeType,
    value: V,
    f: spec_fn(V) -> W,
)
    ensures
        crate::output::mapped(with_value(list, key, value), f) == with_value(
            crate::output::mapped(list, f),
            key,
            f(value),
        ),
    decreases list.len(),
{
    let whole = crate::output::mapped(list, f);
    if list.len() == 0 {
        assert(crate::output::mapped(seq![(key, value)], f) =~= seq![(key, f(value))]);
    } else if list[0].0 == key {
        assert(crate::output::mapped(list.update(0, (key, value)), f) =~= whole.update(
            0,
            (key, f(value)),
        ));
    } else {
        let rest = list.drop_first();
        lemma_with_value_mapped(rest, key, value, f);
        assert(whole.drop_first() =~= crate::output::mapped(rest, f));
        let after = with_value(rest, key, value);
        assert(crate::output::mapped(seq![list[0]] + after, f) =~= seq![whole[0]]
            + crate::output::mapped(after, f));
    }
}

/// Puts `value` under `key`, in place of what was there.
fn put_value<V>(list: &mut Vec<(MimeType, V)>, key: MimeType, value: V)
    ensures
        final(list)@ == with_value(old(list)@, key, value),
{
    let mut at: usize = 0;
    while at < list.len() && list[at].0 != key
        invariant
            at <= list.len(),
            list@ == old(list)@,
            forall|i: int| 0 <= i < at ==> (#[trigger] list@[i]).0 != key,
        decreases list.len() - at,
    {
        at += 1;
    }
    proof {
        lemma_with_value_at(list@, key, value, at as int);
    }
    if at < list.len() {
        list.set(at, (key, value));
    } else {
        list.push((key, value));
    }
}

/// Whether `value` holds nothing.
pub open spec fn is_nothing(value: JsonView) -> bool {
    match value {
        JsonView::Null => true,
        JsonView::Object(entries) => entries.len() == 0,
        _ => false,
    }
}

impl StreamOutputTarget {
    /// The stream of the name `name`, if there is one.
    pub open spec fn named(name: Seq<char>) -> Option<StreamOutputTarget> {
        if name == "Stdout"@ || name == "stdout"@ {
            Some(StreamOutputTarget::Stdout)
        } else if name == "Stderr"@ || name == "stderr"@ {
            Some(StreamOutputTarget::Stderr)
        } else {
            None
        }
    }

    /// The stream that `value` stands for, if it has the form of one: its name, or an object with
    /// nothing but nothing under its name.
    pub open spec fn read(value: JsonView) -> Option<StreamOutputTarget> {
        match value {
            JsonView::String(name) => StreamOutputTarget::named(name),
            JsonView::Object(entries) => if entries.len() == 1 && is_nothing(entries[0].1) {
                StreamOutputTarget::named(entries[0].0)
            } else {
                None
            },
            _ => None,
        }
    }

    fn from_name(name: &str) -> (target: Option<StreamOutputTarget>)
        ensures
            target == StreamOutputTarget::named(name@),
    {
        if crate::text::same_text(name, "Stdout") || crate::text::same_text(name, "stdout") {
            Some(StreamOutputTarget::Stdout)
        } else if crate::text::same_text(name, "Stderr") || crate::text::same_text(name, "stderr") {
            Some(StreamOutputTarget::Stderr)
        } else {
            None
        }
    }

    /// Reads a stream.
    pub fn from_json(value: &Json) -> (target: Option<StreamOutputTarget>)
        ensures
            target == StreamOutputTarget::read(value@),
    {
        match value {
            Json::String(name) => StreamOutputTarget::from_name(name.as_str()),
            Json::Object(entries) => {
                proof {
                    crate::json::lemma_object_view(*entries);
                }
                if entries.len() != 1 {
                    return None;
                }
                let nothing = match &entries[0].1 {
                    Json::Null => true,
                    Json::Object(inner) => inner.len() == 0,
                    _ => false,
                };
                assert(crate::json::entries_view(entries@)[0] == (
                    entries@[0].0@,
                    entries@[0].1@,
                ));
                if nothing {
                    StreamOutputTarget::from_name(entries[0].0.as_str())
                } else {
                    None
                }
            },
            _ => None,
        }
    }
}

impl StreamOutputTextView {
    /// The text that `value` stands for, if it has the form of one: a string, or an array of lines.
    pub open spec fn read(value: JsonView) -> Option<StreamOutputTextView> {
        match value {
            JsonView::String(text) => Some(StreamOutputTextView::Text(text)),
            _ => match value.as_texts() {
                Ok(lines) => Some(StreamOutputTextView::MultiLineText(lines)),
                Err(_) => None,
            },
        }
    }
}

impl StreamOutputText {
    /// Reads the text of a stream.
    pub fn from_json(value: &Json) -> (text: Option<StreamOutputText>)
        ensures
            optional_text_view(text) == StreamOutputTextView::read(value@),
    {
        match value {
            Json::String(text) => Some(StreamOutputText::Text(text.clone())),
            _ => match value.clone().parse_strings() {
                Ok(lines) => Some(StreamOutputText::MultiLineText(lines)),
                Err(_) => None,
            },
        }
    }
}

impl MimeDataView {
    /// The data that `value` stands for, if it has the form of some: an array of lines, or an
    /// object.
    pub open spec fn read(value: JsonView) -> Option<MimeDataView> {
        match value {
            JsonView::Object(entries) => Some(MimeDataView::Json(entries)),
            _ => match value.as_texts() {
                Ok(lines) => Some(MimeDataView::MultiLineText(lines)),
                Err(_) => None,
            },
        }
    }
}

impl MimeData {
    /// Reads the data of one nature.
    pub fn from_json(value: &Json) -> (data: Option<MimeData>)
        ensures
            optional_data_view(data) == MimeDataView::read(value@),
    {
        match value.clone() {
            Json::Object(entries) => {
                proof {
                    crate::json::lemma_object_view(entries);
                }
                Some(MimeData::Json(entries))
            },
            other => match other.parse_strings() {
                Ok(lines) => Some(MimeData::MultiLineText(lines)),
                Err(_) => None,
            },
        }
    }
}

/// What an optional text holds.
pub open spec fn optional_text_view(text: Option<StreamOutputText>) -> Option<
    StreamOutputTextView,
> {
    match text {
        Some(text) => Some(text@),
        None => None,
    }
}

/// What optional data hold.
pub open spec fn optional_data_view(data: Option<MimeData>) -> Option<MimeDataView> {
    match data {
        Some(data) => Some(data@),
        None => None,
    }
}

/// The data under `entries`, if each has the form of data. Of those with names of the same nature
/// the last counts.
pub open spec fn data_of_entries(entries: Seq<(Seq<char>, JsonView)>) -> Option<
    Seq<(MimeType, MimeDataView)>,
>
    decreases entries.len(),
{
    if entries.len() == 0 {
        Some(Seq::empty())
    } else {
        match (data_of_entries(entries.drop_last()), MimeDataView::read(entries.last().1)) {
            (Some(list), Some(data)) => Some(
                with_value(list, MimeType::named(entries.last().0), data),
            ),
            _ => None,
        }
    }
}

/// The data that a field must have. There are none if the field is left out.
pub open spec fn required_data(field: Option<JsonView>) -> Option<Seq<(MimeType, MimeDataView)>> {
    match field {
        Some(JsonView::Object(entries)) => data_of_entries(entries),
        _ => None,
    }
}

/// The metadata under `entries`, if each is an object. Of those with names of the same nature the
/// last counts.
pub open spec fn metadata_of_entries(entries: Seq<(Seq<char>, JsonView)>) -> Option<
    Seq<(MimeType, Seq<(Seq<char>, JsonView)>)>,
>
    decreases entries.len(),
{
    if entries.len() == 0 {
        Some(Seq::empty())
    } else {
        match (metadata_of_entries(entries.drop_last()), entries.last().1) {
            (Some(list), JsonView::Object(inner)) => Some(
                with_value(list, MimeType::named(entries.last().0), inner),
            ),
            _ => None,
        }
    }
}

/// The metadata that a field must have. There are none if the field is left out.
pub open spec fn required_metadata(field: Option<JsonView>) -> Option<
    Seq<(MimeType, Seq<(Seq<char>, JsonView)>)>,
> {
    match field {
        Some(JsonView::Object(entries)) => metadata_of_entries(entries),
        _ => None,
    }
}

/// The count that a field must have.
pub open spec fn required_count(field: Option<JsonView>) -> Option<usize> {
    match field {
        Some(JsonView::Number(JsonNumberView::Unsigned(number))) => if number <= usize::MAX {
            Some(number as usize)
        } else {
            None
        },
        _ => None,
    }
}

proof fn lemma_unreadable_data(entries: Seq<(Seq<char>, JsonView)>, count: int)
    requires
        0 <= count <= entries.len(),
        data_of_entries(entries.take(count)) is None,
    ensures
        data_of_entries(entries) is None,
    decreases entries.len(),
{
    if count == entries.len() {
        assert(entries.take(count) =~= entries);
    } else {
        assert(entries.drop_last().take(count) =~= entries.take(count));
        lemma_unreadable_data(entries.drop_last(), count);
    }
}

proof fn lemma_unreadable_metadata(entries: Seq<(Seq<char>, JsonView)>, count: int)
    requires
        0 <= count <= entries.len(),
        metadata_of_entries(entries.take(count)) is None,
    ensures
        metadata_of_entries(entries) is None,
    decreases entries.len(),
{
    if count == entries.len() {
        assert(entries.take(count) =~= entries);
    } else {
        assert(entries.drop_last().take(count) =~= entries.take(count));
        lemma_unreadable_metadata(entries.drop_last(), count);
    }
}

fn read_data(field: Option<&Json>) -> (data: Option<Vec<(MimeType, MimeData)>>)
    ensures
        match data {
            Some(data) => required_data(crate::kernel_spec::field_view(field)) == Some(
                crate::output::data_view(data@),
            ),
            None => required_data(crate::kernel_spec::field_view(field)) is None,
        },
{
    let Some(Json::Object(entries)) = field else {
        return None;
    };
    let ghost views = crate::json::entries_view(entries@);
    proof {
        crate::json::lemma_object_view(*entries);
    }
    let mut list: Vec<(MimeType, MimeData)> = Vec::new();
    assert(crate::output::data_view(list@) =~= Seq::empty());
    let mut i: usize = 0;
    while i < entries.len()
        invariant
            i <= entries.len(),
            views == crate::json::entries_view(entries@),
            crate::kernel_spec::field_view(field) == Some(JsonView::Object(views)),
            data_of_entries(views.take(i as int)) == Some(crate::output::data_view(list@)),
        decreases entries.len() - i,
    {
        proof {
            assert(views[i as int] == (entries@[i as int].0@, entries@[i as int].1@));
            assert(views.take(i + 1).drop_last() =~= views.take(i as int));
            assert(views.take(i + 1).last() == views[i as int]);
        }
        let Some(data) = MimeData::from_json(&entries[i].1) else {
            proof {
                lemma_unreadable_data(views, i + 1);
            }
            return None;
        };
        let mime = MimeType::from_name(entries[i].0.as_str());
        proof {
            lemma_with_value_mapped(list@, mime, data, |data: MimeData| data@);
        }
        put_value(&mut list, mime, data);
        i += 1;
    }
    assert(views.take(i as int) =~= views);
    Some(list)
}

fn read_metadata(field: Option<&Json>) -> (metadata: Option<
    Vec<(MimeType, Vec<(String, Json)>)>,
>)
    ensures
        match metadata {
            Some(metadata) => required_metadata(crate::kernel_spec::field_view(field)) == Some(
                crate::output::metadata_view(metadata@),
            ),
            None => required_metadata(crate::kernel_spec::field_view(field)) is None,
        },
{
    let Some(Json::Object(entries)) = field else {
        return None;
    };
    let ghost views = crate::json::entries_view(entries@);
    proof {
        crate::json::lemma_object_view(*entries);
    }
    let mut list: Vec<(MimeType, Vec<(String, Json)>)> = Vec::new();
    assert(crate::output::metadata_view(list@) =~= Seq::empty());
    let mut i: usize = 0;
    while i < entries.len()
        invariant
            i <= entries.len(),
            views == crate::json::entries_view(entries@),
            crate::kernel_spec::field_view(field) == Some(JsonView::Object(views)),
            metadata_of_entries(views.take(i as int)) == Some(crate::output::metadata_view(list@)),
        decreases entries.len() - i,
    {
        proof {
            assert(views[i as int] == (entries@[i as int].0@, entries@[i as int].1@));
            assert(views.take(i + 1).drop_last() =~= views.take(i as int));
            assert(views.take(i + 1).last() == views[i as int]);
        }
        let Json::Object(inner) = entries[i].1.clone() else {
            proof {
                lemma_unreadable_metadata(views, i + 1);
            }
            return None;
        };
        proof {
            crate::json::lemma_object_view(inner);
        }
        let mime = MimeType::from_name(entries[i].0.as_str());
        proof {
            lemma_with_value_mapped(
                list@,
                mime,
                inner,
                |entries: Vec<(String, Json)>| crate::json::entries_view(entries@),
            );
        }
        put_value(&mut list, mime, inner);
        i += 1;
    }
    assert(views.take(i as int) =~= views);
    Some(list)
}

fn read_count(field: Option<&Json>) -> (count: Option<usize>)
    ensures
        count == required_count(crate::kernel_spec::field_view(field)),
{
    match field {
        Some(Json::Number(JsonNumber::Unsigned(number))) => if *number <= usize::MAX as u64 {
            Some(*number as usize)
        } else {
            None
        },
        _ => None,
    }
}

/// The kinds of outputs.
#[derive(Clone, Copy, Debug, PartialEq, Eq, Structural)]
pub enum OutputKind {
    Stream,
    DisplayData,
    ExecutionResult,
}

impl OutputKind {
    /// The kind of the name `name`, if there is one.
    pub open spec fn named(name: Seq<char>) -> Option<OutputKind> {
        if name == "Stream"@ || name == "stream"@ {
            Some(OutputKind::Stream)
        } else if name == "DisplayData"@ || name == "display_data"@ {
            Some(OutputKind::DisplayData)
        } else if name == "ExecutionResult"@ || name == "execute_result"@ {
            Some(OutputKind::ExecutionResult)
        } else {
            None
        }
    }

    fn from_name(name: &str) -> (kind: Option<OutputKind>)
        ensures
            kind == OutputKind::named(name@),
    {
        if crate::text::same_text(name, "Stream") || crate::text::same_text(name, "stream") {
            Some(OutputKind::Stream)
        } else if crate::text::same_text(name, "DisplayData") || crate::text::same_text(
            name,
            "display_data",
        ) {
            Some(OutputKind::DisplayData)
        } else if crate::text::same_text(name, "ExecutionResult") || crate::text::same_text(
            name,
            "execute_result",
        ) {
            Some(OutputKind::ExecutionResult)
        } else {
            None
        }
    }
}

impl IpynbCodeOutputView {
    /// What was written to a stream, if the fields have their forms.
    pub open spec fn of_stream(name: Option<JsonView>, text: Option<JsonView>) -> Option<
        IpynbCodeOutputView,
    > {
        match (name, text) {
            (Some(name), Some(text)) => match (
                StreamOutputTarget::read(name),
                StreamOutputTextView::read(text),
            ) {
                (Some(name), Some(text)) => Some(IpynbCodeOutputView::Stream { name, text }),
                _ => None,
            },
            _ => None,
        }
    }

    /// What was displayed, if the fields have their forms.
    pub open spec fn of_display(data: Option<JsonView>, metadata: Option<JsonView>) -> Option<
        IpynbCodeOutputView,
    > {
        match (required_data(data), required_metadata(metadata)) {
            (Some(data), Some(metadata)) => Some(
                IpynbCodeOutputView::DisplayData { data, metadata },
            ),
            _ => None,
        }
    }

    /// What came of an execution, if the fields have their forms.
    pub open spec fn of_result(
        execution_count: Option<JsonView>,
        data: Option<JsonView>,
        metadata: Option<JsonView>,
    ) -> Option<IpynbCodeOutputView> {
        match (required_count(execution_count), required_data(data), required_metadata(metadata)) {
            (Some(execution_count), Some(data), Some(metadata)) => Some(
                IpynbCodeOutputView::ExecutionResult { execution_count, data, metadata },
            ),
            _ => None,
        }
    }

    /// The output that `value` stands for, if it has the form of one: an object with the name of
    /// its kind under `output_type` and its fields under their names, or an array of the name of
    /// its kind and all of its fields in order.
    pub open spec fn read(value: JsonView) -> Option<IpynbCodeOutputView> {
        match value {
            JsonView::Object(entries) => match crate::json::lookup(entries, "output_type"@) {
                Some(JsonView::String(name)) => match OutputKind::named(name) {
                    Some(OutputKind::Stream) => IpynbCodeOutputView::of_stream(
                        crate::json::lookup(entries, "name"@),
                        crate::json::lookup(entries, "text"@),
                    ),
                    Some(OutputKind::DisplayData) => IpynbCodeOutputView::of_display(
                        crate::json::lookup(entries, "data"@),
                        crate::json::lookup(entries, "metadata"@),
                    ),
                    Some(OutputKind::ExecutionResult) => IpynbCodeOutputView::of_result(
                        crate::json::lookup(entries, "execution_count"@),
                        crate::json::lookup(entries, "data"@),
                        crate::json::lookup(entries, "metadata"@),
                    ),
                    None => None,
                },
                _ => None,
            },
            JsonView::Array(items) => if items.len() > 0 && items[0] is String {
                match OutputKind::named(items[0]->String_0) {
                    Some(OutputKind::Stream) => if items.len() == 3 {
                        IpynbCodeOutputView::of_stream(Some(items[1]), Some(items[2]))
                    } else {
                        None
                    },
                    Some(OutputKind::DisplayData) => if items.len() == 3 {
                        IpynbCodeOutputView::of_display(Some(items[1]), Some(items[2]))
                    } else {
                        None
                    },
                    Some(OutputKind::ExecutionResult) => if items.len() == 4 {
                        IpynbCodeOutputView::of_result(
                            Some(items[1]),
                            Some(items[2]),
                            Some(items[3]),
                        )
                    } else {
                        None
                    },
                    None => None,
                }
            } else {
                None
            },
            _ => None,
        }
    }

    /// The outputs that `items` stand for, if each has the form of one.
    pub open spec fn read_each(items: Seq<JsonView>) -> Option<Seq<IpynbCodeOutputView>>
        decreases items.len(),
    {
        if items.len() == 0 {
            Some(Seq::empty())
        } else {
            match (
                IpynbCodeOutputView::read_each(items.drop_last()),
                IpynbCodeOutputView::read(items.last()),
            ) {
                (Some(outputs), Some(output)) => Some(outputs.push(output)),
                _ => None,
            }
        }
    }

    /// The outputs that `value` stands for: an array of outputs, or no list of them for `null`.
    pub open spec fn read_all(value: JsonView) -> Result<
        Option<Seq<IpynbCodeOutputView>>,
        ParseError,
    > {
        match value {
            JsonView::Null => Ok(None),
            JsonView::Array(items) => match IpynbCodeOutputView::read_each(items) {
                Some(outputs) => Ok(Some(outputs)),
                None => Err(ParseError),
            },
            _ => Err(ParseError),
        }
    }
}

proof fn lemma_unreadable_item(items: Seq<JsonView>, count: int)
    requires
        0 <= count <= items.len(),
        IpynbCodeOutputView::read_each(items.take(count)) is None,
    ensures
        IpynbCodeOutputView::read_each(items) is None,
    decreases items.len(),
{
    if count == items.len() {
        assert(items.take(count) =~= items);
    } else {
        assert(items.drop_last().take(count) =~= items.take(count));
        lemma_unreadable_item(items.drop_last(), count);
    }
}

/// What an optional output holds.
pub open spec fn optional_output_view(output: Option<IpynbCodeOutput>) -> Option<
    IpynbCodeOutputView,
> {
    match output {
        Some(output) => Some(output@),
        None => None,
    }
}

/// What an optional list of outputs holds.
pub open spec fn optional_outputs_view(outputs: Option<Vec<IpynbCodeOutput>>) -> Option<
    Seq<IpynbCodeOutputView>,
> {
    match outputs {
        Some(outputs) => Some(crate::output::outputs_view(outputs@)),
        None => None,
    }
}

impl IpynbCodeOutput {
    fn read_stream(name: Option<&Json>, text: Option<&Json>) -> (output: Option<IpynbCodeOutput>)
        ensures
            optional_output_view(output) == IpynbCodeOutputView::of_stream(
                crate::kernel_spec::field_view(name),
                crate::kernel_spec::field_view(text),
            ),
    {
        let name = StreamOutputTarget::from_json(name?)?;
        let text = StreamOutputText::from_json(text?)?;
        Some(IpynbCodeOutput::Stream { name, text })
    }

    fn read_display(data: Option<&Json>, metadata: Option<&Json>) -> (output: Option<
        IpynbCodeOutput,
    >)
        ensures
            optional_output_view(output) == IpynbCodeOutputView::of_display(
                crate::kernel_spec::field_view(data),
                crate::kernel_spec::field_view(metadata),
            ),
    {
        let data = read_data(data)?;
        let metadata = read_metadata(metadata)?;
        Some(IpynbCodeOutput::DisplayData { data, metadata })
    }

    fn read_result(
        execution_count: Option<&Json>,
        data: Option<&Json>,
        metadata: Option<&Json>,
    ) -> (output: Option<IpynbCodeOutput>)
        ensures
            optional_output_view(output) == IpynbCodeOutputView::of_result(
                crate::kernel_spec::field_view(execution_count),
                crate::kernel_spec::field_view(data),
                crate::kernel_spec::field_view(metadata),
            ),
    {
        let execution_count: usize = read_count(execution_count)?;
        let data = read_data(data)?;
        let metadata = read_metadata(metadata)?;
        Some(IpynbCodeOutput::ExecutionResult { execution_count, data, metadata })
    }

    /// Reads an output.
    pub fn from_json(value: &Json) -> (output: Option<IpynbCodeOutput>)
        ensures
            optional_output_view(output) == IpynbCodeOutputView::read(value@),
    {
        match value {
            Json::Object(entries) => {
                proof {
                    crate::json::lemma_object_view(*entries);
                }
                let Some(Json::String(name)) = get_entry(entries, "output_type") else {
                    return None;
                };
                match OutputKind::from_name(name.as_str())? {
                    OutputKind::Stream => IpynbCodeOutput::read_stream(
                        get_entry(entries, "name"),
                        get_entry(entries, "text"),
                    ),
                    OutputKind::DisplayData => IpynbCodeOutput::read_display(
                        get_entry(entries, "data"),
                        get_entry(entries, "metadata"),
                    ),
                    OutputKind::ExecutionResult => IpynbCodeOutput::read_result(
                        get_entry(entries, "execution_count"),
                        get_entry(entries, "data"),
                        get_entry(entries, "metadata"),
                    ),
                }
            },
            Json::Array(items) => {
                proof {
                    crate::json::lemma_array_view(*items);
                }
                if items.len() == 0 {
                    return None;
                }
                let Json::String(name) = &items[0] else {
                    return None;
                };
                match OutputKind::from_name(name.as_str())? {
                    OutputKind::Stream => if items.len() == 3 {
                        IpynbCodeOutput::read_stream(Some(&items[1]), Some(&items[2]))
                    } else {
                        None
                    },
                    OutputKind::DisplayData => if items.len() == 3 {
                        IpynbCodeOutput::read_display(Some(&items[1]), Some(&items[2]))
                    } else {
                        None
                    },
                    OutputKind::ExecutionResult => if items.len() == 4 {
                        IpynbCodeOutput::read_result(
                            Some(&items[1]),
                            Some(&items[2]),
                            Some(&items[3]),
                        )
                    } else {
                        None
                    },
                }
            },
            _ => None,
        }
    }

    /// Reads the outputs of a cell.
    pub fn list_from_json(value: &Json) -> (outputs: Result<
        Option<Vec<IpynbCodeOutput>>,
        ParseError,
    >)
        ensures
            match outputs {
                Ok(outputs) => IpynbCodeOutputView::read_all(value@) == Ok::<
                    Option<Seq<IpynbCodeOutputView>>,
                    ParseError,
                >(optional_outputs_view(outputs)),
                Err(_) => IpynbCodeOutputView::read_all(value@) is Err,
            },
    {
        match value {
            Json::Null => Ok(None),
            Json::Array(items) => {
                let ghost views = items@.map_values(|item: Json| item@);
                proof {
                    crate::json::lemma_array_view(*items);
                }
                let mut outputs: Vec<IpynbCodeOutput> = Vec::new();
                assert(crate::output::outputs_view(outputs@) =~= Seq::empty());
                let mut i: usize = 0;
                while i < items.len()
                    invariant
                        i <= items.len(),
                        views == items@.map_values(|item: Json| item@),
                        value@ == JsonView::Array(views),
                        IpynbCodeOutputView::read_each(views.take(i as int)) == Some(
                            crate::output::outputs_view(outputs@),
                        ),
                    decreases items.len() - i,
                {
                    proof {
                        assert(views.take(i + 1).drop_last() =~= views.take(i as int));
                        assert(views.take(i + 1).last() == items@[i as int]@);
                    }
                    let Some(output) = IpynbCodeOutput::from_json(&items[i]) else {
                        proof {
                            lemma_unreadable_item(views, i + 1);
                        }
                        return Err(ParseError);
                    };
                    let ghost before = outputs@;
                    outputs.push(output);
                    assert(crate::output::outputs_view(outputs@) =~= crate::output::outputs_view(
                        before,
                    ).push(output@));
                    i += 1;
                }
                assert(views.take(i as int) =~= views);
                Ok(Some(outputs))
            },
            _ => Err(ParseError),
        }
    }
}

} // verus!
