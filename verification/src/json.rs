//! JSON values, and how values of other types are read from them.
use vstd::prelude::*;

verus! {

/// A JSON number.
#[derive(Debug)]
pub enum JsonNumber {
    /// An integer that is not negative.
    Unsigned(u64),
    /// A negative integer.
    Negative(i64),
    /// Any other number, as it is written.
    Float(String),
}

/// A JSON value. The keys of an object differ from each other and keep the order of the document.
#[derive(Debug)]
pub enum Json {
    Null,
    Bool(bool),
    Number(JsonNumber),
    String(String),
    Array(Vec<Json>),
    Object(Vec<(String, Json)>),
}

/// What a JSON number stands for.
pub enum JsonNumberView {
    Unsigned(u64),
    Negative(i64),
    Float(Seq<char>),
}

/// What a JSON value stands for.
pub enum JsonView {
    Null,
    Bool(bool),
    Number(JsonNumberView),
    String(Seq<char>),
    Array(Seq<JsonView>),
    Object(Seq<(Seq<char>, JsonView)>),
}

/// A value that does not have the form that is asked for.
#[derive(Clone, Copy, Debug, PartialEq, Eq, Structural)]
pub struct ParseError;

impl View for JsonNumber {
    type V = JsonNumberView;

    open spec fn view(&self) -> JsonNumberView {
        match self {
            JsonNumber::Unsigned(number) => JsonNumberView::Unsigned(*number),
            JsonNumber::Negative(number) => JsonNumberView::Negative(*number),
            JsonNumber::Float(text) => JsonNumberView::Float(text@),
        }
    }
}

/// What `json` stands for.
pub open spec fn json_view(json: Json) -> JsonView
    decreases json,
{
    match json {
        Json::Null => JsonView::Null,
        Json::Bool(b) => JsonView::Bool(b),
        Json::Number(number) => JsonView::Number(number@),
        Json::String(text) => JsonView::String(text@),
        Json::Array(items) => JsonView::Array(
            Seq::new(
                items@.len(),
                |i: int|
                    if 0 <= i < items@.len() {
                        json_view(items@[i])
                    } else {
                        JsonView::Null
                    },
            ),
        ),
        Json::Object(entries) => JsonView::Object(
            Seq::new(
                entries@.len(),
                |i: int|
                    if 0 <= i < entries@.len() {
                        (entries@[i].0@, json_view(entries@[i].1))
                    } else {
                        (Seq::empty(), JsonView::Null)
                    },
            ),
        ),
    }
}

impl View for Json {
    type V = JsonView;

    open spec fn view(&self) -> JsonView {
        json_view(*self)
    }
}

/// What the entries of an object stand for.
pub open spec fn entries_view(entries: Seq<(String, Json)>) -> Seq<(Seq<char>, JsonView)> {
    entries.map_values(|entry: (String, Json)| (entry.0@, entry.1@))
}

/// The place of the first entry under `key`; the number of entries if there is none.
pub open spec fn entry_index(entries: Seq<(Seq<char>, JsonView)>, key: Seq<char>) -> int
    decreases entries.len(),
{
    if entries.len() == 0 || entries[0].0 == key {
        0
    } else {
        1 + entry_index(entries.drop_first(), key)
    }
}

/// The value of the first entry under `key`.
pub open spec fn lookup(entries: Seq<(Seq<char>, JsonView)>, key: Seq<char>) -> Option<JsonView> {
    if entry_index(entries, key) < entries.len() {
        Some(entries[entry_index(entries, key)].1)
    } else {
        None
    }
}

/// Whether every item of `items` is a string.
pub open spec fn all_strings(items: Seq<JsonView>) -> bool {
    forall|i: int| 0 <= i < items.len() ==> (#[trigger] items[i]) is String
}

/// Whether every item of `items` is an object.
pub open spec fn all_objects(items: Seq<JsonView>) -> bool {
    forall|i: int| 0 <= i < items.len() ==> (#[trigger] items[i]) is Object
}

impl JsonView {
    /// The text of a string.
    pub open spec fn as_text(self) -> Result<Seq<char>, ParseError> {
        match self {
            JsonView::String(text) => Ok(text),
            _ => Err(ParseError),
        }
    }

    /// The texts of an array of strings.
    pub open spec fn as_texts(self) -> Result<Seq<Seq<char>>, ParseError> {
        match self {
            JsonView::Array(items) => if all_strings(items) {
                Ok(items.map_values(|item: JsonView| item->String_0))
            } else {
                Err(ParseError)
            },
            _ => Err(ParseError),
        }
    }

    /// A count, or no count for `null`.
    pub open spec fn as_optional_count(self) -> Result<Option<usize>, ParseError> {
        match self {
            JsonView::Null => Ok(None),
            JsonView::Number(JsonNumberView::Unsigned(number)) => if number <= usize::MAX {
                Ok(Some(number as usize))
            } else {
                Err(ParseError)
            },
            _ => Err(ParseError),
        }
    }

    /// The entries of an object, or none for `null`.
    pub open spec fn as_optional_entries(self) -> Result<
        Option<Seq<(Seq<char>, JsonView)>>,
        ParseError,
    > {
        match self {
            JsonView::Null => Ok(None),
            JsonView::Object(entries) => Ok(Some(entries)),
            _ => Err(ParseError),
        }
    }

    /// The entries of each object of an array of objects.
    pub open spec fn as_objects(self) -> Result<Seq<Seq<(Seq<char>, JsonView)>>, ParseError> {
        match self {
            JsonView::Array(items) => if all_objects(items) {
                Ok(items.map_values(|item: JsonView| item->Object_0))
            } else {
                Err(ParseError)
            },
            _ => Err(ParseError),
        }
    }
}

/// The entries of several objects.
pub open spec fn objects_view(objects: Seq<Vec<(String, Json)>>) -> Seq<
    Seq<(Seq<char>, JsonView)>,
> {
    objects.map_values(|object: Vec<(String, Json)>| entries_view(object@))
}

/// What optional entries stand for.
pub open spec fn optional_entries_view(entries: Option<Vec<(String, Json)>>) -> Option<
    Seq<(Seq<char>, JsonView)>,
> {
    match entries {
        Some(entries) => Some(entries_view(entries@)),
        None => None,
    }
}

/// An array stands for what its items stand for.
pub proof fn lemma_array_view(items: Vec<Json>)
    ensures
        Json::Array(items)@ == JsonView::Array(items@.map_values(|item: Json| item@)),
{
    let left = Json::Array(items)@;
    assert(left->Array_0 =~= items@.map_values(|item: Json| item@));
}

/// An object stands for what its entries stand for.
pub proof fn lemma_object_view(entries: Vec<(String, Json)>)
    ensures
        Json::Object(entries)@ == JsonView::Object(entries_view(entries@)),
{
    let left = Json::Object(entries)@;
    assert(left->Object_0 =~= entries_view(entries@));
}

proof fn lemma_entry_index_first(entries: Seq<(Seq<char>, JsonView)>, key: Seq<char>, index: int)
    requires
        0 <= index <= entries.len(),
        forall|j: int| 0 <= j < index ==> (#[trigger] entries[j]).0 != key,
        index < entries.len() ==> entries[index].0 == key,
    ensures
        entry_index(entries, key) == index,
    decreases entries.len(),
{
    if entries.len() > 0 && index > 0 {
        assert(entries[0].0 != key);
        assert forall|j: int| 0 <= j < index - 1 implies (#[trigger] entries.drop_first()[j]).0
            != key by {
            assert(entries.drop_first()[j] == entries[j + 1]);
        }
        lemma_entry_index_first(entries.drop_first(), key, index - 1);
    }
}

/// The place of the first entry under `key`, if there is one.
fn find_entry(entries: &Vec<(String, Json)>, key: &str) -> (index: Option<usize>)
    ensures
        match index {
            Some(index) => index < entries.len() && entry_index(entries_view(entries@), key@)
                == index,
            None => entry_index(entries_view(entries@), key@) == entries.len(),
        },
{
    let mut i: usize = 0;
    while i < entries.len()
        invariant
            i <= entries.len(),
            forall|j: int| 0 <= j < i ==> (#[trigger] entries_view(entries@)[j]).0 != key@,
        decreases entries.len() - i,
    {
        if crate::text::same_text(entries[i].0.as_str(), key) {
            proof {
                lemma_entry_index_first(entries_view(entries@), key@, i as int);
            }
            return Some(i);
        }
        i += 1;
    }
    proof {
        lemma_entry_index_first(entries_view(entries@), key@, entries.len() as int);
    }
    None
}

/// The value under `key`, if there is one.
pub fn get_entry<'a>(entries: &'a Vec<(String, Json)>, key: &str) -> (value: Option<&'a Json>)
    ensures
        match value {
            Some(value) => lookup(entries_view(entries@), key@) == Some(value@),
            None => lookup(entries_view(entries@), key@) is None,
        },
{
    match find_entry(entries, key) {
        Some(i) => Some(&entries[i].1),
        None => None,
    }
}

impl Json {
    /// Reads a string.
    pub fn parse_string(self) -> (text: Result<String, ParseError>)
        ensures
            match text {
                Ok(text) => self@.as_text() == Ok::<Seq<char>, ParseError>(text@),
                Err(error) => self@.as_text() == Err::<Seq<char>, ParseError>(error),
            },
    {
        match self {
            Json::String(text) => Ok(text),
            _ => Err(ParseError),
        }
    }

    /// Reads an array of strings.
    pub fn parse_strings(self) -> (lines: Result<Vec<String>, ParseError>)
        ensures
            match lines {
                Ok(lines) => self@.as_texts() == Ok::<Seq<Seq<char>>, ParseError>(
                    crate::text::texts(lines@),
                ),
                Err(error) => self@.as_texts() == Err::<Seq<Seq<char>>, ParseError>(error),
            },
    {
        match self {
            Json::Array(items) => {
                proof {
                    lemma_array_view(items);
                }
                let ghost views = items@.map_values(|item: Json| item@);
                let mut lines: Vec<String> = Vec::new();
                for item in it: items
                    invariant
                        it.seq() == items@,
                        views == items@.map_values(|item: Json| item@),
                        lines.len() == it.index(),
                        forall|j: int| 0 <= j < it.index() ==> (#[trigger] views[j]) is String,
                        forall|j: int|
                            0 <= j < it.index() ==> (#[trigger] lines@[j])@ == views[j]->String_0,
                        self@ == JsonView::Array(views),
                {
                    assert(views[it.index() as int] == item@);
                    match item {
                        Json::String(text) => lines.push(text),
                        _ => {
                            assert(!all_strings(views));
                            return Err(ParseError);
                        },
                    }
                }
                proof {
                    assert(crate::text::texts(lines@) =~= views.map_values(
                        |item: JsonView| item->String_0,
                    ));
                }
                Ok(lines)
            },
            _ => Err(ParseError),
        }
    }

    /// Reads a count, or no count for `null`.
    pub fn parse_optional_count(self) -> (count: Result<Option<usize>, ParseError>)
        ensures
            count == self@.as_optional_count(),
    {
        match self {
            Json::Null => Ok(None),
            Json::Number(JsonNumber::Unsigned(number)) => {
                if number <= usize::MAX as u64 {
                    Ok(Some(number as usize))
                } else {
                    Err(ParseError)
                }
            },
            _ => Err(ParseError),
        }
    }

    /// Reads the entries of an object, or none for `null`.
    pub fn parse_optional_map(self) -> (entries: Result<Option<Vec<(String, Json)>>, ParseError>)
        ensures
            match entries {
                Ok(entries) => self@.as_optional_entries() == Ok::<
                    Option<Seq<(Seq<char>, JsonView)>>,
                    ParseError,
                >(optional_entries_view(entries)),
                Err(error) => self@.as_optional_entries() == Err::<
                    Option<Seq<(Seq<char>, JsonView)>>,
                    ParseError,
                >(error),
            },
    {
        match self {
            Json::Null => Ok(None),
            Json::Object(entries) => {
                proof {
                    lemma_object_view(entries);
                }
                Ok(Some(entries))
            },
            _ => Err(ParseError),
        }
    }

    /// Reads an array of objects.
    pub fn parse_maps(self) -> (objects: Result<Vec<Vec<(String, Json)>>, ParseError>)
        ensures
            match objects {
                Ok(objects) => self@.as_objects() == Ok::<
                    Seq<Seq<(Seq<char>, JsonView)>>,
                    ParseError,
                >(objects_view(objects@)),
                Err(error) => self@.as_objects() == Err::<
                    Seq<Seq<(Seq<char>, JsonView)>>,
                    ParseError,
                >(error),
            },
    {
        match self {
            Json::Array(items) => {
                proof {
                    lemma_array_view(items);
                }
                let ghost views = items@.map_values(|item: Json| item@);
                let mut objects: Vec<Vec<(String, Json)>> = Vec::new();
                for item in it: items
                    invariant
                        it.seq() == items@,
                        views == items@.map_values(|item: Json| item@),
                        objects.len() == it.index(),
                        forall|j: int| 0 <= j < it.index() ==> (#[trigger] views[j]) is Object,
                        forall|j: int|
                            0 <= j < it.index() ==> entries_view((#[trigger] objects@[j])@)
                                == views[j]->Object_0,
                        self@ == JsonView::Array(views),
                {
                    assert(views[it.index() as int] == item@);
                    match item {
                        Json::Object(entries) => {
                            proof {
                                lemma_object_view(entries);
                            }
                            objects.push(entries);
                        },
                        _ => {
                            assert(!all_objects(views));
                            return Err(ParseError);
                        },
                    }
                }
                proof {
                    assert(objects_view(objects@) =~= views.map_values(
                        |item: JsonView| item->Object_0,
                    ));
                }
                Ok(objects)
            },
            _ => Err(ParseError),
        }
    }
}

impl Clone for JsonNumber {
    fn clone(&self) -> (copy: JsonNumber)
        ensures
            copy@ == self@,
    {
        match self {
            JsonNumber::Unsigned(number) => JsonNumber::Unsigned(*number),
            JsonNumber::Negative(number) => JsonNumber::Negative(*number),
            JsonNumber::Float(text) => JsonNumber::Float(text.clone()),
        }
    }
}

impl Clone for Json {
    fn clone(&self) -> (copy: Json)
        ensures
            copy@ == self@,
        decreases self,
    {
        match self {
            Json::Null => Json::Null,
            Json::Bool(value) => Json::Bool(*value),
            Json::Number(number) => Json::Number(number.clone()),
            Json::String(text) => Json::String(text.clone()),
            Json::Array(items) => {
                let mut copies: Vec<Json> = Vec::new();
                let mut i: usize = 0;
                while i < items.len()
                    invariant
                        i <= items.len(),
                        copies.len() == i,
                        decreases_to!(self => items),
                        forall|j: int| 0 <= j < i ==> (#[trigger] copies@[j])@ == items@[j]@,
                    decreases items.len() - i,
                {
                    assert(decreases_to!(items@ => items@[i as int]));
                    assert(decreases_to!(items => items@));
                    let copy = items[i].clone();
                    copies.push(copy);
                    i += 1;
                }
                proof {
                    lemma_array_view(copies);
                    lemma_array_view(*items);
                    assert(copies@.map_values(|item: Json| item@) =~= items@.map_values(
                        |item: Json| item@,
                    ));
                }
                Json::Array(copies)
            },
            Json::Object(entries) => {
                let mut copies: Vec<(String, Json)> = Vec::new();
                let mut i: usize = 0;
                while i < entries.len()
                    invariant
                        i <= entries.len(),
                        copies.len() == i,
                        decreases_to!(self => entries),
                        forall|j: int|
                            0 <= j < i ==> (#[trigger] copies@[j]).0@ == entries@[j].0@
                                && copies@[j].1@ == entries@[j].1@,
                    decreases entries.len() - i,
                {
                    assert(decreases_to!(entries@ => entries@[i as int]));
                    assert(decreases_to!(entries => entries@));
                    let copy = entries[i].1.clone();
                    copies.push((entries[i].0.clone(), copy));
                    i += 1;
                }
                proof {
                    lemma_object_view(copies);
                    lemma_object_view(*entries);
                    assert(entries_view(copies@) =~= entries_view(entries@));
                }
                Json::Object(copies)
            },
        }
    }
}

} // verus!
