//! What a document says of the kernel that it was written for.
use crate::json::{get_entry, Json, JsonView, ParseError};
use vstd::prelude::*;

verus! {

/// What a document says of the kernel that it was written for.
#[derive(Debug)]
pub struct KernelSpec {
    pub argv: Option<Vec<String>>,
    pub display_name: String,
    pub language: String,
    pub interrup_mode: Option<String>,
    pub env: Option<Vec<(String, String)>>,
    pub metadata: Option<Vec<(String, Json)>>,
}

/// What a [`KernelSpec`] holds.
pub struct KernelSpecView {
    pub argv: Option<Seq<Seq<char>>>,
    pub display_name: Seq<char>,
    pub language: Seq<char>,
    pub interrup_mode: Option<Seq<char>>,
    pub env: Option<Seq<(Seq<char>, Seq<char>)>>,
    pub metadata: Option<Seq<(Seq<char>, JsonView)>>,
}

/// What pairs of strings stand for.
pub open spec fn pairs_view(pairs: Seq<(String, String)>) -> Seq<(Seq<char>, Seq<char>)> {
    pairs.map_values(|pair: (String, String)| (pair.0@, pair.1@))
}

impl View for KernelSpec {
    type V = KernelSpecView;

    open spec fn view(&self) -> KernelSpecView {
        KernelSpecView {
            argv: match self.argv {
                Some(argv) => Some(crate::text::texts(argv@)),
                None => None,
            },
            display_name: self.display_name@,
            language: self.language@,
            interrup_mode: crate::text::optional_text(self.interrup_mode),
            env: match self.env {
                Some(env) => Some(pairs_view(env@)),
                None => None,
            },
            metadata: crate::json::optional_entries_view(self.metadata),
        }
    }
}

/// Whether the values of `entries` are strings.
pub open spec fn all_text_entries(entries: Seq<(Seq<char>, JsonView)>) -> bool {
    forall|i: int| 0 <= i < entries.len() ==> (#[trigger] entries[i]).1 is String
}

/// The text that a field must have. Fails if the field is left out.
pub open spec fn required_text(field: Option<JsonView>) -> Result<Seq<char>, ParseError> {
    match field {
        Some(value) => value.as_text(),
        None => Err(ParseError),
    }
}

/// The text that a field may have: none if it is left out or `null`.
pub open spec fn allowed_text(field: Option<JsonView>) -> Result<Option<Seq<char>>, ParseError> {
    match field {
        None | Some(JsonView::Null) => Ok(None),
        Some(JsonView::String(text)) => Ok(Some(text)),
        _ => Err(ParseError),
    }
}

/// The texts that a field may have: none if it is left out or `null`.
pub open spec fn allowed_texts(field: Option<JsonView>) -> Result<
    Option<Seq<Seq<char>>>,
    ParseError,
> {
    match field {
        None | Some(JsonView::Null) => Ok(None),
        Some(value) => match value.as_texts() {
            Ok(texts) => Ok(Some(texts)),
            Err(error) => Err(error),
        },
    }
}

/// The texts under keys that a field may have: none if it is left out or `null`.
pub open spec fn allowed_pairs(field: Option<JsonView>) -> Result<
    Option<Seq<(Seq<char>, Seq<char>)>>,
    ParseError,
> {
    match field {
        None | Some(JsonView::Null) => Ok(None),
        Some(JsonView::Object(entries)) => if all_text_entries(entries) {
            Ok(
                Some(
                    entries.map_values(
                        |entry: (Seq<char>, JsonView)| (entry.0, entry.1->String_0),
                    ),
                ),
            )
        } else {
            Err(ParseError)
        },
        _ => Err(ParseError),
    }
}

/// The entries that a field may have: none if it is left out or `null`.
pub open spec fn allowed_entries(field: Option<JsonView>) -> Result<
    Option<Seq<(Seq<char>, JsonView)>>,
    ParseError,
> {
    match field {
        None => Ok(None),
        Some(value) => value.as_optional_entries(),
    }
}

impl KernelSpecView {
    /// What the fields say, if each has its form and none that must be there is left out.
    pub open spec fn of_fields(
        argv: Option<JsonView>,
        display_name: Option<JsonView>,
        language: Option<JsonView>,
        interrup_mode: Option<JsonView>,
        env: Option<JsonView>,
        metadata: Option<JsonView>,
    ) -> Option<KernelSpecView> {
        match (
            allowed_texts(argv),
            required_text(display_name),
            required_text(language),
            allowed_text(interrup_mode),
            allowed_pairs(env),
            allowed_entries(metadata),
        ) {
            (
                Ok(argv),
                Ok(display_name),
                Ok(language),
                Ok(interrup_mode),
                Ok(env),
                Ok(metadata),
            ) => Some(
                KernelSpecView { argv, display_name, language, interrup_mode, env, metadata },
            ),
            _ => None,
        }
    }

    /// What `value` says of a kernel, if it has the form of that: an object with the fields under
    /// their names, or an array with all of the fields in order.
    pub open spec fn of(value: JsonView) -> Option<KernelSpecView> {
        match value {
            JsonView::Object(entries) => KernelSpecView::of_fields(
                crate::json::lookup(entries, "argv"@),
                crate::json::lookup(entries, "display_name"@),
                crate::json::lookup(entries, "language"@),
                crate::json::lookup(entries, "interrup_mode"@),
                crate::json::lookup(entries, "env"@),
                crate::json::lookup(entries, "metadata"@),
            ),
            JsonView::Array(items) => if items.len() == 6 {
                KernelSpecView::of_fields(
                    Some(items[0]),
                    Some(items[1]),
                    Some(items[2]),
                    Some(items[3]),
                    Some(items[4]),
                    Some(items[5]),
                )
            } else {
                None
            },
            _ => None,
        }
    }
}

/// What a field stands for, if it is there.
pub open spec fn field_view(field: Option<&Json>) -> Option<JsonView> {
    match field {
        Some(value) => Some(value@),
        None => None,
    }
}

fn read_required_text(field: Option<&Json>) -> (text: Result<String, ParseError>)
    ensures
        match text {
            Ok(text) => required_text(field_view(field)) == Ok::<Seq<char>, ParseError>(text@),
            Err(_) => required_text(field_view(field)) is Err,
        },
{
    match field {
        Some(value) => value.clone().parse_string(),
        None => Err(ParseError),
    }
}

fn read_text(field: Option<&Json>) -> (text: Result<Option<String>, ParseError>)
    ensures
        match text {
            Ok(text) => allowed_text(field_view(field)) == Ok::<Option<Seq<char>>, ParseError>(
                crate::text::optional_text(text),
            ),
            Err(_) => allowed_text(field_view(field)) is Err,
        },
{
    match field {
        None => Ok(None),
        Some(Json::Null) => Ok(None),
        Some(Json::String(text)) => Ok(Some(text.clone())),
        _ => Err(ParseError),
    }
}

fn read_texts(field: Option<&Json>) -> (texts: Result<Option<Vec<String>>, ParseError>)
    ensures
        match texts {
            Ok(texts) => allowed_texts(field_view(field)) == Ok::<
                Option<Seq<Seq<char>>>,
                ParseError,
            >(
                match texts {
                    Some(texts) => Some(crate::text::texts(texts@)),
                    None => None,
                },
            ),
            Err(_) => allowed_texts(field_view(field)) is Err,
        },
{
    match field {
        None => Ok(None),
        Some(Json::Null) => Ok(None),
        Some(value) => match value.clone().parse_strings() {
            Ok(texts) => Ok(Some(texts)),
            Err(error) => Err(error),
        },
    }
}

/// Reads the texts under keys that a field may have.
pub fn read_pairs(field: Option<&Json>) -> (pairs: Result<Option<Vec<(String, String)>>, ParseError>)
    ensures
        match pairs {
            Ok(pairs) => allowed_pairs(field_view(field)) == Ok::<
                Option<Seq<(Seq<char>, Seq<char>)>>,
                ParseError,
            >(
                match pairs {
                    Some(pairs) => Some(pairs_view(pairs@)),
                    None => None,
                },
            ),
            Err(_) => allowed_pairs(field_view(field)) is Err,
        },
{
    match field {
        None => Ok(None),
        Some(Json::Null) => Ok(None),
        Some(Json::Object(entries)) => {
            let ghost views = crate::json::entries_view(entries@);
            proof {
                crate::json::lemma_object_view(*entries);
            }
            let mut pairs: Vec<(String, String)> = Vec::new();
            let mut i: usize = 0;
            while i < entries.len()
                invariant
                    i <= entries.len(),
                    pairs.len() == i,
                    views == crate::json::entries_view(entries@),
                    field_view(field) == Some(JsonView::Object(views)),
                    forall|j: int| 0 <= j < i ==> (#[trigger] views[j]).1 is String,
                    forall|j: int|
                        0 <= j < i ==> (#[trigger] pairs@[j]).0@ == views[j].0 && pairs@[j].1@
                            == views[j].1->String_0,
                decreases entries.len() - i,
            {
                assert(views[i as int] == (entries@[i as int].0@, entries@[i as int].1@));
                match &entries[i].1 {
                    Json::String(text) => {
                        pairs.push((entries[i].0.clone(), text.clone()));
                    },
                    _ => {
                        assert(!all_text_entries(views));
                        return Err(ParseError);
                    },
                }
                i += 1;
            }
            assert(pairs_view(pairs@) =~= views.map_values(
                |entry: (Seq<char>, JsonView)| (entry.0, entry.1->String_0),
            ));
            Ok(Some(pairs))
        },
        _ => Err(ParseError),
    }
}

fn read_entries(field: Option<&Json>) -> (entries: Result<Option<Vec<(String, Json)>>, ParseError>)
    ensures
        match entries {
            Ok(entries) => allowed_entries(field_view(field)) == Ok::<
                Option<Seq<(Seq<char>, JsonView)>>,
                ParseError,
            >(crate::json::optional_entries_view(entries)),
            Err(_) => allowed_entries(field_view(field)) is Err,
        },
{
    match field {
        None => Ok(None),
        Some(value) => value.clone().parse_optional_map(),
    }
}

impl KernelSpec {
    fn read_fields(
        argv: Option<&Json>,
        display_name: Option<&Json>,
        language: Option<&Json>,
        interrup_mode: Option<&Json>,
        env: Option<&Json>,
        metadata: Option<&Json>,
    ) -> (kernel_spec: Option<KernelSpec>)
        ensures
            optional_kernel_spec_view(kernel_spec) == KernelSpecView::of_fields(
                field_view(argv),
                field_view(display_name),
                field_view(language),
                field_view(interrup_mode),
                field_view(env),
                field_view(metadata),
            ),
    {
        Some(
            KernelSpec {
                argv: read_texts(argv).ok()?,
                display_name: read_required_text(display_name).ok()?,
                language: read_required_text(language).ok()?,
                interrup_mode: read_text(interrup_mode).ok()?,
                env: read_pairs(env).ok()?,
                metadata: read_entries(metadata).ok()?,
            },
        )
    }

    /// Reads what `value` says of a kernel, if it has the form of that.
    pub fn from_json(value: &Json) -> (kernel_spec: Option<KernelSpec>)
        ensures
            optional_kernel_spec_view(kernel_spec) == KernelSpecView::of(value@),
    {
        match value {
            Json::Object(entries) => {
                proof {
                    crate::json::lemma_object_view(*entries);
                }
                KernelSpec::read_fields(
                    get_entry(entries, "argv"),
                    get_entry(entries, "display_name"),
                    get_entry(entries, "language"),
                    get_entry(entries, "interrup_mode"),
                    get_entry(entries, "env"),
                    get_entry(entries, "metadata"),
                )
            },
            Json::Array(items) => {
                proof {
                    crate::json::lemma_array_view(*items);
                }
                if items.len() == 6 {
                    KernelSpec::read_fields(
                        Some(&items[0]),
                        Some(&items[1]),
                        Some(&items[2]),
                        Some(&items[3]),
                        Some(&items[4]),
                        Some(&items[5]),
                    )
                } else {
                    None
                }
            },
            _ => None,
        }
    }
}

/// What is said of a kernel, if anything is.
pub open spec fn optional_kernel_spec_view(kernel_spec: Option<KernelSpec>) -> Option<
    KernelSpecView,
> {
    match kernel_spec {
        Some(kernel_spec) => Some(kernel_spec@),
        None => None,
    }
}

} // verus!
