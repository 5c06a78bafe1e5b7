//! What holds of what a language model is told of a notebook.
use crate::buffer::BufferView;
use crate::cell::Cell;
use vstd::prelude::*;

verus! {

/// The code block of a cell: a fence with the name of the language, the comment with the number of
/// the cell where the language has block comments, the source, and the closing fence.
pub open spec fn code_block(number: nat, buffer: BufferView) -> Seq<char> {
    match buffer.language {
        Some(language) => match language.block_comment_delimiters {
            Some((open, close)) => "```"@ + language.name + "\n"@ + open
                + "\nSource code for Cell "@ + crate::text::decimal(number) + "\n"@ + close + "\n"@
                + buffer.text + "\n```"@,
            None => "```"@ + language.name + "\n"@ + buffer.text + "\n```"@,
        },
        None => "```\n"@ + buffer.text + "\n```"@,
    }
}

/// What a notebook is shown as is the code block of each of its cells: between the delimiters of
/// its comment stands the cell's own number, and directly after the comment its own source.
pub proof fn lemma_paragraph_is_a_code_block(id: u64, buffer: BufferView)
    ensures
        crate::chat::cell_paragraph(id, buffer) == code_block(id as nat, buffer),
{
    reveal_strlit("\n");
    reveal_strlit("```");
    reveal_strlit("```\n");
    reveal_strlit("\n```");
    reveal_strlit("Source code for Cell ");
    reveal_strlit("\nSource code for Cell ");
    let closing = seq![buffer.text, "```"@];
    let separator = "\n"@;
    assert("\n```"@ =~= "\n"@ + "```"@);
    assert("```\n"@ =~= "```"@ + "\n"@);
    assert("\nSource code for Cell "@ =~= "\n"@ + "Source code for Cell "@);
    crate::laws::text::lemma_joining(seq![buffer.text], seq!["```"@], separator);
    crate::laws::text::lemma_joining(seq!["```"@], Seq::empty(), separator);
    assert(seq![buffer.text] + seq!["```"@] =~= closing);
    assert(crate::text::joined(closing, separator) == buffer.text + "\n"@ + "```"@);
    match buffer.language {
        Some(language) => {
            let fence = "```"@ + language.name;
            match language.block_comment_delimiters {
                Some((open, close)) => {
                    let note = "Source code for Cell "@ + crate::text::decimal(id as nat);
                    let comment = crate::chat::cell_comment(id, open, close);
                    crate::laws::text::lemma_joining(seq![open], seq![note], separator);
                    crate::laws::text::lemma_joining(seq![note], seq![close], separator);
                    crate::laws::text::lemma_joining(seq![close], Seq::empty(), separator);
                    crate::laws::text::lemma_joining(seq![open], seq![note, close], separator);
                    assert(seq![note] + seq![close] =~= seq![note, close]);
                    assert(seq![open] + seq![note, close] =~= seq![open, note, close]);
                    assert(comment =~= open + "\n"@ + (note + "\n"@ + close));
                    crate::laws::text::lemma_joining(seq![fence], seq![comment], separator);
                    crate::laws::text::lemma_joining(seq![comment], closing, separator);
                    crate::laws::text::lemma_joining(seq![fence, comment], closing, separator);
                    assert(seq![fence] + seq![comment] =~= seq![fence, comment]);
                    assert(crate::chat::cell_paragraph(id, buffer) =~= fence + "\n"@ + comment
                        + "\n"@ + (buffer.text + "\n"@ + "```"@));
                    assert(crate::chat::cell_paragraph(id, buffer) =~= code_block(
                        id as nat,
                        buffer,
                    ));
                },
                None => {
                    crate::laws::text::lemma_joining(seq![fence], closing, separator);
                    assert(crate::chat::cell_paragraph(id, buffer) =~= code_block(
                        id as nat,
                        buffer,
                    ));
                },
            }
        },
        None => {
            crate::laws::text::lemma_joining(seq!["```"@], closing, separator);
            assert(crate::chat::cell_paragraph(id, buffer) =~= code_block(id as nat, buffer));
        },
    }
}

/// The code blocks of `cells`, in order, with an empty line between any two.
pub open spec fn code_blocks(cells: Seq<Cell>, buffers: Seq<BufferView>) -> Seq<char>
    decreases cells.len(),
{
    if cells.len() == 0 {
        Seq::empty()
    } else {
        let last = code_block(
            cells.last().id.0 as nat,
            buffers[cells.last().source.index as int],
        );
        if cells.len() == 1 {
            last
        } else {
            code_blocks(cells.drop_last(), buffers) + "\n\n"@ + last
        }
    }
}

/// What a language model is told is the introduction, an empty line, and the code blocks of all
/// cells in their order, each with the number and the source of its own cell.
pub proof fn lemma_prompt_is_introduction_and_blocks(cells: Seq<Cell>, buffers: Seq<BufferView>)
    ensures
        crate::chat::system_prompt(cells, buffers)
            == "You are a coding and research assistant specializing in the analysis of interactive notebooks.\nA notebook state is included below.\nEach cell is denoted by a code block including the source code of the cell and a leading comment indicating the ID of the cell.\n"@
            + "\n\n"@ + code_blocks(cells, buffers),
{
    let paragraphs = crate::text::joined(
        crate::chat::cell_paragraphs(cells, buffers),
        "\n\n"@,
    );
    lemma_blocks_are_joined(cells, buffers);
    lemma_introduction();
    let introduction = crate::chat::introduction();
    crate::laws::text::lemma_joining(seq![introduction], seq![paragraphs], "\n\n"@);
    crate::laws::text::lemma_joining(seq![paragraphs], Seq::empty(), "\n\n"@);
    assert(seq![introduction] + seq![paragraphs] =~= seq![introduction, paragraphs]);
}

proof fn lemma_introduction()
    ensures
        crate::chat::introduction()
            == "You are a coding and research assistant specializing in the analysis of interactive notebooks.\nA notebook state is included below.\nEach cell is denoted by a code block including the source code of the cell and a leading comment indicating the ID of the cell.\n"@,
{
    let first =
        "You are a coding and research assistant specializing in the analysis of interactive notebooks."@;
    let second = "A notebook state is included below."@;
    let third =
        "Each cell is denoted by a code block including the source code of the cell and a leading comment indicating the ID of the cell."@;
    reveal_strlit("\n");
    reveal_strlit("");
    reveal_strlit(
        "You are a coding and research assistant specializing in the analysis of interactive notebooks.",
    );
    reveal_strlit("A notebook state is included below.");
    reveal_strlit(
        "Each cell is denoted by a code block including the source code of the cell and a leading comment indicating the ID of the cell.",
    );
    reveal_strlit(
        "You are a coding and research assistant specializing in the analysis of interactive notebooks.\nA notebook state is included below.\nEach cell is denoted by a code block including the source code of the cell and a leading comment indicating the ID of the cell.\n",
    );
    let all = seq![first, second, third, ""@];
    assert(all.drop_last() =~= seq![first, second, third]);
    assert(seq![first, second, third].drop_last() =~= seq![first, second]);
    assert(seq![first, second].drop_last() =~= seq![first]);
    reveal_with_fuel(crate::text::joined, 4);
    assert(crate::chat::introduction() =~= first + "\n"@ + second + "\n"@ + third + "\n"@ + ""@);
    assert(crate::chat::introduction()
        =~= "You are a coding and research assistant specializing in the analysis of interactive notebooks.\nA notebook state is included below.\nEach cell is denoted by a code block including the source code of the cell and a leading comment indicating the ID of the cell.\n"@);
}

proof fn lemma_blocks_are_joined(cells: Seq<Cell>, buffers: Seq<BufferView>)
    ensures
        crate::text::joined(crate::chat::cell_paragraphs(cells, buffers), "\n\n"@) == code_blocks(
            cells,
            buffers,
        ),
    decreases cells.len(),
{
    let paragraphs = crate::chat::cell_paragraphs(cells, buffers);
    if cells.len() > 0 {
        let front = cells.drop_last();
        lemma_blocks_are_joined(front, buffers);
        assert(paragraphs.drop_last() =~= crate::chat::cell_paragraphs(front, buffers));
        let last = cells.last();
        lemma_paragraph_is_a_code_block(last.id.0, buffers[last.source.index as int]);
        assert(paragraphs.last() == code_block(
            last.id.0 as nat,
            buffers[last.source.index as int],
        ));
    } else {
        assert(paragraphs.len() == 0);
    }
}

/// In what a language model is told, each cell whose language has block comments stands with its
/// own number and its own source: the delimiter that opens a comment, the words with the digits of
/// the number, the delimiter that closes it, and then the source, each on lines of their own.
pub proof fn lemma_prompt_numbers_each_cell(
    cells: Seq<Cell>,
    buffers: Seq<BufferView>,
    i: int,
    name: Seq<char>,
    open: Seq<char>,
    close: Seq<char>,
) -> (around: (Seq<char>, Seq<char>))
    requires
        0 <= i < cells.len(),
        buffers[cells[i].source.index as int].language matches Some(language) && language.name
            == name && language.block_comment_delimiters == Some((open, close)),
    ensures
        crate::chat::system_prompt(cells, buffers) == around.0 + ("```"@ + name + "\n"@ + open
            + "\nSource code for Cell "@ + crate::text::decimal(cells[i].id.0 as nat) + "\n"@
            + close + "\n"@ + buffers[cells[i].source.index as int].text + "\n```"@) + around.1,
{
    let block = code_block(cells[i].id.0 as nat, buffers[cells[i].source.index as int]);
    lemma_prompt_is_introduction_and_blocks(cells, buffers);
    let inner = lemma_block_is_among_blocks(cells, buffers, i);
    let prompt = crate::chat::system_prompt(cells, buffers);
    let start = prompt.len() - code_blocks(cells, buffers).len();
    let before = prompt.take(start);
    assert(prompt =~= before + code_blocks(cells, buffers));
    assert(prompt =~= (before + inner.0) + block + inner.1);
    (before + inner.0, inner.1)
}

proof fn lemma_block_is_among_blocks(cells: Seq<Cell>, buffers: Seq<BufferView>, i: int) -> (
    around: (Seq<char>, Seq<char>))
    requires
        0 <= i < cells.len(),
    ensures
        code_blocks(cells, buffers) == around.0 + code_block(
            cells[i].id.0 as nat,
            buffers[cells[i].source.index as int],
        ) + around.1,
    decreases cells.len(),
{
    let block = code_block(cells[i].id.0 as nat, buffers[cells[i].source.index as int]);
    let all = code_blocks(cells, buffers);
    let none = Seq::<char>::empty();
    if cells.len() == 1 {
        assert(all =~= none + block + none);
        (none, none)
    } else if i == cells.len() - 1 {
        let before = code_blocks(cells.drop_last(), buffers) + "\n\n"@;
        assert(all =~= before + block + none);
        (before, none)
    } else {
        let around = lemma_block_is_among_blocks(cells.drop_last(), buffers, i);
        let last = code_block(
            cells.last().id.0 as nat,
            buffers[cells.last().source.index as int],
        );
        assert(all =~= around.0 + block + (around.1 + "\n\n"@ + last));
        (around.0, around.1 + "\n\n"@ + last)
    }
}

/// The comments of cells with different numbers differ, whatever their delimiters are, as long as
/// these are the same.
pub proof fn lemma_comments_differ(id: u64, other: u64, open: Seq<char>, close: Seq<char>)
    ensures
        crate::chat::cell_comment(id, open, close) == crate::chat::cell_comment(other, open, close)
            <==> id == other,
        crate::chat::cell_comment(id, open, close) == open + "\nSource code for Cell "@
            + crate::text::decimal(id as nat) + "\n"@ + close,
{
    lemma_comment(id, open, close);
    lemma_comment(other, open, close);
    if crate::chat::cell_comment(id, open, close) == crate::chat::cell_comment(
        other,
        open,
        close,
    ) {
        let before = open + "\nSource code for Cell "@;
        let after = "\n"@ + close;
        let digits = crate::text::decimal(id as nat);
        let others = crate::text::decimal(other as nat);
        let whole = crate::chat::cell_comment(id, open, close);
        assert(whole =~= before + digits + after);
        assert(whole =~= before + others + after);
        assert(digits.len() == others.len());
        let start = before.len() as int;
        assert(whole.subrange(start, start + digits.len()) =~= digits);
        assert(whole.subrange(start, start + others.len()) =~= others);
        crate::text::lemma_decimal_injective(id as nat, other as nat);
    }
}

proof fn lemma_comment(id: u64, open: Seq<char>, close: Seq<char>)
    ensures
        crate::chat::cell_comment(id, open, close) == open + "\nSource code for Cell "@
            + crate::text::decimal(id as nat) + "\n"@ + close,
{
    reveal_strlit("\n");
    reveal_strlit("Source code for Cell ");
    reveal_strlit("\nSource code for Cell ");
    assert("\nSource code for Cell "@ =~= "\n"@ + "Source code for Cell "@);
    let note = "Source code for Cell "@ + crate::text::decimal(id as nat);
    let parts = seq![open, note, close];
    assert(parts.drop_last() =~= seq![open, note]);
    assert(seq![open, note].drop_last() =~= seq![open]);
    reveal_with_fuel(crate::text::joined, 3);
    assert(crate::chat::cell_comment(id, open, close) =~= open + "\nSource code for Cell "@
        + crate::text::decimal(id as nat) + "\n"@ + close);
}

} // verus!
