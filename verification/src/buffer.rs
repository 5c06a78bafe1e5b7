//! The text buffers that cells are made of, and the handles by which they are known.
use crate::cell::{PhonyFile, PhonyFileView};
use crate::summary::TextSummary;
use vstd::prelude::*;
use vstd::string::*;

verus! {

/// A programming language.
#[derive(Debug)]
pub struct Language {
    pub name: String,
    /// What opens and what closes a block comment, where the language has such comments.
    pub block_comment_delimiters: Option<(String, String)>,
}

/// What a [`Language`] stands for.
pub struct LanguageView {
    pub name: Seq<char>,
    pub block_comment_delimiters: Option<(Seq<char>, Seq<char>)>,
}

/// A handle on a buffer.
#[derive(Clone, Copy, Debug, PartialEq, Eq, Structural)]
pub struct BufferId {
    pub index: usize,
}

/// An editable text. Its lines end with line feeds.
#[derive(Debug)]
pub struct Buffer {
    text: String,
    /// The file under whose name the buffer is shown.
    file: Option<PhonyFile>,
    language: Option<Language>,
}

/// What a [`Buffer`] holds.
pub struct BufferView {
    pub text: Seq<char>,
    pub file: Option<PhonyFileView>,
    pub language: Option<LanguageView>,
}

/// The buffers of an application, each known by its [`BufferId`].
#[derive(Debug)]
pub struct Buffers {
    pub models: Vec<Buffer>,
}

impl View for Language {
    type V = LanguageView;

    open spec fn view(&self) -> LanguageView {
        LanguageView {
            name: self.name@,
            block_comment_delimiters: match self.block_comment_delimiters {
                Some(delimiters) => Some((delimiters.0@, delimiters.1@)),
                None => None,
            },
        }
    }
}

/// What an optional language stands for.
pub open spec fn optional_language_view(language: Option<Language>) -> Option<LanguageView> {
    match language {
        Some(language) => Some(language@),
        None => None,
    }
}

impl Clone for Language {
    fn clone(&self) -> (language: Language)
        ensures
            language@ == self@,
    {
        Language {
            name: self.name.clone(),
            block_comment_delimiters: match &self.block_comment_delimiters {
                Some(delimiters) => Some((delimiters.0.clone(), delimiters.1.clone())),
                None => None,
            },
        }
    }
}

impl View for Buffer {
    type V = BufferView;

    closed spec fn view(&self) -> BufferView {
        BufferView {
            text: self.text@,
            file: match self.file {
                Some(file) => Some(file@),
                None => None,
            },
            language: optional_language_view(self.language),
        }
    }
}

impl View for Buffers {
    type V = Seq<BufferView>;

    open spec fn view(&self) -> Seq<BufferView> {
        self.models@.map_values(|buffer: Buffer| buffer@)
    }
}

impl BufferView {
    /// A buffer that was made from a text alone.
    pub open spec fn local(text: Seq<char>) -> BufferView {
        BufferView { text: crate::text::normalized(text), file: None, language: None }
    }
}

/// `buffers` with the buffer behind `id` shown as `file`.
pub open spec fn with_file(
    buffers: Seq<BufferView>,
    id: BufferId,
    file: PhonyFileView,
) -> Seq<BufferView> {
    buffers.update(id.index as int, BufferView { file: Some(file), ..buffers[id.index as int] })
}

/// `buffers` with the buffer behind `id` written in `language`.
pub open spec fn with_language(
    buffers: Seq<BufferView>,
    id: BufferId,
    language: Option<LanguageView>,
) -> Seq<BufferView> {
    buffers.update(id.index as int, BufferView { language, ..buffers[id.index as int] })
}

/// `buffers` with `text` in the buffer behind `id`.
pub open spec fn with_text(
    buffers: Seq<BufferView>,
    id: BufferId,
    text: Seq<char>,
) -> Seq<BufferView> {
    buffers.update(id.index as int, BufferView { text, ..buffers[id.index as int] })
}

impl BufferId {
    /// Whether the handle leads to one of `buffers`.
    pub open spec fn valid(self, buffers: Seq<BufferView>) -> bool {
        self.index < buffers.len()
    }
}

impl Buffer {
    #[verifier::type_invariant]
    spec fn ends_lines_with_line_feeds(self) -> bool {
        crate::text::plain(self.text@)
    }

    /// A buffer that holds `text`, with a line feed at the end of each line, and belongs to no
    /// file.
    pub fn local(text: String) -> (buffer: Buffer)
        ensures
            buffer@ == BufferView::local(text@),
    {
        proof {
            crate::text::lemma_normalized_is_plain(text@);
        }
        Buffer { text: crate::text::normalize(text), file: None, language: None }
    }

    /// The file under whose name the buffer is shown.
    pub fn file(&self) -> (file: Option<&PhonyFile>)
        ensures
            match file {
                Some(file) => self@.file == Some(file@),
                None => self@.file is None,
            },
    {
        self.file.as_ref()
    }

    /// The language that the text is written in.
    pub fn language(&self) -> (language: Option<&Language>)
        ensures
            match language {
                Some(language) => self@.language == Some(language@),
                None => self@.language is None,
            },
    {
        self.language.as_ref()
    }

    /// Shows the buffer as `file`.
    pub fn file_updated(&mut self, file: PhonyFile)
        ensures
            final(self)@ == (BufferView { file: Some(file@), ..old(self)@ }),
    {
        proof {
            use_type_invariant(&*self);
        }
        self.file = Some(file);
    }

    /// Sets the language that the text is written in.
    pub fn set_language(&mut self, language: Option<Language>)
        ensures
            final(self)@ == (BufferView {
                language: optional_language_view(language),
                ..old(self)@
            }),
    {
        proof {
            use_type_invariant(&*self);
        }
        self.language = language;
    }

    /// Puts `text` in the buffer, with a line feed at the end of each line.
    pub fn set_text(&mut self, text: String)
        ensures
            final(self)@ == (BufferView {
                text: crate::text::normalized(text@),
                ..old(self)@
            }),
    {
        proof {
            crate::text::lemma_normalized_is_plain(text@);
        }
        self.text = crate::text::normalize(text);
    }

    /// The text that the buffer holds.
    pub fn text(&self) -> (text: String)
        ensures
            text@ == self@.text,
            crate::text::plain(text@),
    {
        proof {
            use_type_invariant(self);
        }
        self.text.clone()
    }

    /// The length of the text, in bytes.
    pub fn len(&self) -> (len: usize)
        ensures
            len == crate::text::byte_len(self@.text) as usize,
    {
        self.text.as_str().len()
    }

    /// The summary of the text.
    pub fn text_summary(&self) -> (summary: TextSummary)
        requires
            crate::summary::summarizable(self@.text),
        ensures
            summary == crate::summary::summary_of(self@.text),
    {
        TextSummary::of(self.text.as_str())
    }

    /// The summary of the text, if its extent can be written as one.
    pub fn checked_summary(&self) -> (summary: Option<TextSummary>)
        ensures
            summary == (if crate::summary::summarizable(self@.text) {
                Some(crate::summary::summary_of(self@.text))
            } else {
                None
            }),
    {
        TextSummary::checked_of(self.text.as_str())
    }

    /// The number of rows of the text.
    pub fn row_count(&self) -> (rows: u32)
        requires
            crate::summary::summarizable(self@.text),
            crate::summary::line_breaks(self@.text) < u32::MAX,
        ensures
            rows == crate::summary::line_breaks(self@.text) + 1,
    {
        self.text_summary().lines.row + 1
    }

    /// Puts `new_text`, with a line feed at the end of each line, in place of the bytes from
    /// `start` to `end`.
    pub fn edit(&mut self, start: usize, end: usize, new_text: &str)
        requires
            start <= end,
            crate::text::splits_at(old(self)@.text, start as int),
            crate::text::splits_at(old(self)@.text, end as int),
        ensures
            final(self)@ == (BufferView {
                text: crate::text::text_before(old(self)@.text, start as int)
                    + crate::text::normalized(new_text@) + crate::text::text_after(
                    old(self)@.text,
                    end as int,
                ),
                ..old(self)@
            }),
    {
        proof {
            use_type_invariant(&*self);
            crate::text::lemma_parts_are_plain(self.text@, start as int, end as int);
            crate::text::lemma_normalized_is_plain(new_text@);
        }
        let (before, _) = crate::text::split_text(self.text.as_str(), start);
        let (_, after) = crate::text::split_text(self.text.as_str(), end);
        let mut text = before;
        text.append(crate::text::normalize(new_text.to_owned()).as_str());
        text.append(after.as_str());
        self.text = text;
    }
}

impl Buffers {
    /// No buffers.
    pub fn new() -> (buffers: Buffers)
        ensures
            buffers@ == Seq::<BufferView>::empty(),
    {
        let buffers = Buffers { models: Vec::new() };
        assert(buffers@ =~= Seq::<BufferView>::empty());
        buffers
    }

    /// Takes `buffer` in and hands out its handle.
    pub fn new_model(&mut self, buffer: Buffer) -> (id: BufferId)
        ensures
            final(self)@ == old(self)@.push(buffer@),
            id.index == old(self)@.len(),
    {
        let id = BufferId { index: self.models.len() };
        self.models.push(buffer);
        assert(self@ =~= old(self)@.push(buffer@));
        id
    }

    /// The buffer behind `id`.
    pub fn read(&self, id: BufferId) -> (buffer: &Buffer)
        requires
            id.valid(self@),
        ensures
            buffer@ == self@[id.index as int],
    {
        &self.models[id.index]
    }

    /// Shows the buffer behind `id` as `file`.
    pub fn file_updated(&mut self, id: BufferId, file: PhonyFile)
        requires
            id.valid(old(self)@),
        ensures
            final(self)@ == with_file(old(self)@, id, file@),
    {
        self.models[id.index].file_updated(file);
        assert(self@ =~= with_file(old(self)@, id, file@));
    }

    /// Sets the language of the buffer behind `id`.
    pub fn set_language(&mut self, id: BufferId, language: Option<Language>)
        requires
            id.valid(old(self)@),
        ensures
            final(self)@ == with_language(old(self)@, id, optional_language_view(language)),
    {
        self.models[id.index].set_language(language);
        assert(self@ =~= with_language(old(self)@, id, optional_language_view(language)));
    }

    /// Puts `text` in the buffer behind `id`, with a line feed at the end of each line.
    pub fn set_text(&mut self, id: BufferId, text: String)
        requires
            id.valid(old(self)@),
        ensures
            final(self)@ == with_text(old(self)@, id, crate::text::normalized(text@)),
    {
        self.models[id.index].set_text(text);
        assert(self@ =~= with_text(old(self)@, id, crate::text::normalized(text@)));
    }

    /// Puts `new_text`, with a line feed at the end of each line, in place of the bytes from
    /// `start` to `end` of the buffer behind `id`.
    pub fn edit(&mut self, id: BufferId, start: usize, end: usize, new_text: &str)
        requires
            id.valid(old(self)@),
            start <= end,
            crate::text::splits_at(old(self)@[id.index as int].text, start as int),
            crate::text::splits_at(old(self)@[id.index as int].text, end as int),
        ensures
            final(self)@ == with_text(
                old(self)@,
                id,
                crate::text::text_before(old(self)@[id.index as int].text, start as int)
                    + crate::text::normalized(new_text@) + crate::text::text_after(
                    old(self)@[id.index as int].text,
                    end as int,
                ),
            ),
    {
        self.models[id.index].edit(start, end, new_text);
        assert(self@ =~= with_text(
            old(self)@,
            id,
            crate::text::text_before(old(self)@[id.index as int].text, start as int)
                + crate::text::normalized(new_text@) + crate::text::text_after(
                old(self)@[id.index as int].text,
                end as int,
            ),
        ));
    }
}

} // verus!
