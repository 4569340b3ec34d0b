//! The text format of a notebook file, as functions on character sequences.
//!
//! A file is a header block followed by page blocks, which a line holding
//! the page break marker separates. A block is a run of `KEY: value` lines
//! between two marker lines; a page block is followed by the page's text.
//! Reading is tolerant: what is missing or malformed falls back to the
//! values of a fresh notebook or page, and a piece without text gives no
//! page.

use crate::decimal::{decimal_text, parse_u32};
use crate::notebook::{NotebookView, PageView};
use crate::text::{
    first_occurrence, free_of, line_feed, lines, single_line, split, starts_with, trim,
};
use crate::timestamp::{four_digit_year, Timestamp};
use vstd::prelude::*;

verus! {

/// The line that opens the header block.
pub open spec fn notebook_start() -> Seq<char> {
    "--- NOTEBOOKX NOTEBOOK ---"@
}

/// The line that closes the header block.
pub open spec fn notebook_end() -> Seq<char> {
    "--- END NOTEBOOK HEADER ---"@
}

/// The line that opens the metadata of a page.
pub open spec fn metadata_start() -> Seq<char> {
    "--- NOTEBOOKX METADATA ---"@
}

/// The line that closes the metadata of a page.
pub open spec fn metadata_end() -> Seq<char> {
    "--- END METADATA ---"@
}

/// The line that separates two pages.
pub open spec fn page_break() -> Seq<char> {
    "--- PAGE BREAK ---"@
}

pub open spec fn notebook_id_key() -> Seq<char> {
    "NOTEBOOK_ID: "@
}

pub open spec fn notebook_title_key() -> Seq<char> {
    "NOTEBOOK_TITLE: "@
}

pub open spec fn page_id_key() -> Seq<char> {
    "PAGE_ID: "@
}

pub open spec fn title_key() -> Seq<char> {
    "TITLE: "@
}

pub open spec fn number_key() -> Seq<char> {
    "NUMBER: "@
}

pub open spec fn created_key() -> Seq<char> {
    "CREATED: "@
}

pub open spec fn modified_key() -> Seq<char> {
    "MODIFIED: "@
}

/// The title of a notebook whose file names none.
pub open spec fn default_notebook_title() -> Seq<char> {
    "Untitled Notebook"@
}

/// The title of a page whose block names none.
pub open spec fn default_page_title() -> Seq<char> {
    "Untitled"@
}

/// An empty line after the end of a line.
pub open spec fn gap() -> Seq<char> {
    seq!['\n', '\n']
}

/// A line that holds a key and a value.
pub open spec fn field_line(key: Seq<char>, value: Seq<char>) -> Seq<char> {
    key + value + line_feed()
}

/// The header block of a notebook.
pub open spec fn header_text(nb: NotebookView) -> Seq<char> {
    notebook_start() + line_feed() + field_line(notebook_id_key(), nb.id) + field_line(
        notebook_title_key(),
        nb.title,
    ) + field_line(created_key(), nb.created.text()) + field_line(
        modified_key(),
        nb.modified.text(),
    ) + notebook_end() + gap()
}

/// The line that holds the number of a page; nothing for a page without one.
pub open spec fn number_line(number: Option<u32>) -> Seq<char> {
    match number {
        Some(n) => field_line(number_key(), decimal_text(n as nat)),
        None => Seq::empty(),
    }
}

/// The metadata block of a page.
pub open spec fn metadata_text(p: PageView) -> Seq<char> {
    metadata_start() + line_feed() + field_line(page_id_key(), p.id) + field_line(title_key(), p.title)
        + number_line(p.number) + field_line(created_key(), p.created.text()) + field_line(
        modified_key(),
        p.modified.text(),
    ) + metadata_end() + gap()
}

/// The block of a page: its metadata, then its text and an empty line.
pub open spec fn page_text(p: PageView) -> Seq<char> {
    metadata_text(p) + p.content + gap()
}

/// What stands between two page blocks.
pub open spec fn separator() -> Seq<char> {
    page_break() + gap()
}

/// The blocks of the pages in their order, with a separator between each
/// two.
pub open spec fn pages_text(pages: Seq<PageView>) -> Seq<char>
    decreases pages.len(),
{
    if pages.len() == 0 {
        Seq::empty()
    } else if pages.len() == 1 {
        page_text(pages[0])
    } else {
        pages_text(pages.drop_last()) + separator() + page_text(pages.last())
    }
}

/// The file of a notebook.
pub open spec fn notebook_text(nb: NotebookView) -> Seq<char> {
    header_text(nb) + pages_text(nb.pages)
}

/// What a fresh notebook or page starts from: a new identifier and the
/// time of its making.
pub struct Fresh {
    pub id: Seq<char>,
    pub now: Timestamp,
}

/// The header block within the first piece of a file, and what follows
/// it. The block reaches from the first opening line to the end of the
/// first closing line. Where one of the two is missing, or the opening line
/// comes only after the closing one has ended, there is no header and the
/// whole piece follows.
pub open spec fn header_parts(first: Seq<char>) -> (Seq<char>, Seq<char>) {
    match (
        first_occurrence(first, notebook_start()),
        first_occurrence(first, notebook_end()),
    ) {
        (Some(hs), Some(he)) => {
            let end = he + notebook_end().len();
            if 0 <= hs <= end <= first.len() {
                (first.subrange(hs, end), first.subrange(end, first.len() as int))
            } else {
                (Seq::empty(), first)
            }
        },
        _ => (Seq::empty(), first),
    }
}

/// The timestamp that a value holds, or `old` where it holds none.
pub open spec fn read_or_keep(value: Seq<char>, old: Timestamp) -> Timestamp {
    match Timestamp::read(value) {
        Some(t) => t,
        None => old,
    }
}

/// The notebook after one line of its header was read. A line gives its
/// value to the field whose key it begins with; any other line changes
/// nothing.
pub open spec fn notebook_with_line(nb: NotebookView, line: Seq<char>) -> NotebookView {
    if starts_with(line, notebook_id_key()) {
        NotebookView { id: line.skip(notebook_id_key().len() as int), ..nb }
    } else if starts_with(line, notebook_title_key()) {
        NotebookView { title: line.skip(notebook_title_key().len() as int), ..nb }
    } else if starts_with(line, created_key()) {
        NotebookView {
            created: read_or_keep(line.skip(created_key().len() as int), nb.created),
            ..nb
        }
    } else if starts_with(line, modified_key()) {
        NotebookView {
            modified: read_or_keep(line.skip(modified_key().len() as int), nb.modified),
            ..nb
        }
    } else {
        nb
    }
}

/// The notebook after the given lines were read in their order.
pub open spec fn notebook_with_lines(nb: NotebookView, lines: Seq<Seq<char>>) -> NotebookView
    decreases lines.len(),
{
    if lines.len() == 0 {
        nb
    } else {
        notebook_with_line(notebook_with_lines(nb, lines.drop_last()), lines.last())
    }
}

/// A notebook without pages that no file has told anything yet.
pub open spec fn blank_notebook(fresh: Fresh) -> NotebookView {
    NotebookView {
        id: fresh.id,
        title: default_notebook_title(),
        pages: Seq::empty(),
        created: fresh.now,
        modified: fresh.now,
    }
}

/// The notebook that a header block describes.
pub open spec fn notebook_of_header(header: Seq<char>, fresh: Fresh) -> NotebookView {
    notebook_with_lines(blank_notebook(fresh), lines(header))
}

/// The number that a value holds, or `old` where it holds none.
pub open spec fn number_or_keep(value: Seq<char>, old: Option<u32>) -> Option<u32> {
    match parse_u32(value) {
        Some(n) => Some(n),
        None => old,
    }
}

/// The page after one line of its metadata was read.
pub open spec fn page_with_line(p: PageView, line: Seq<char>) -> PageView {
    if starts_with(line, page_id_key()) {
        PageView { id: line.skip(page_id_key().len() as int), ..p }
    } else if starts_with(line, title_key()) {
        PageView { title: line.skip(title_key().len() as int), ..p }
    } else if starts_with(line, number_key()) {
        PageView { number: number_or_keep(line.skip(number_key().len() as int), p.number), ..p }
    } else if starts_with(line, created_key()) {
        PageView { created: read_or_keep(line.skip(created_key().len() as int), p.created), ..p }
    } else if starts_with(line, modified_key()) {
        PageView {
            modified: read_or_keep(line.skip(modified_key().len() as int), p.modified),
            ..p
        }
    } else {
        p
    }
}

/// The page after the given lines were read in their order.
pub open spec fn page_with_lines(p: PageView, lines: Seq<Seq<char>>) -> PageView
    decreases lines.len(),
{
    if lines.len() == 0 {
        p
    } else {
        page_with_line(page_with_lines(p, lines.drop_last()), lines.last())
    }
}

/// A page without text that no file has told anything yet.
pub open spec fn blank_page(fresh: Fresh) -> PageView {
    PageView {
        id: fresh.id,
        title: default_page_title(),
        content: Seq::empty(),
        number: None,
        created: fresh.now,
        modified: fresh.now,
    }
}

/// Where the metadata of a piece begins and ends: the first opening line
/// and the first closing line, if both are there and in this order.
pub open spec fn metadata_bounds(section: Seq<char>) -> Option<(int, int)> {
    match (
        first_occurrence(section, metadata_start()),
        first_occurrence(section, metadata_end()),
    ) {
        (Some(ms), Some(me)) => if 0 <= ms <= me && me + metadata_end().len() <= section.len() {
            Some((ms, me))
        } else {
            None
        },
        _ => None,
    }
}

/// The page that a piece of a file describes. With metadata, the lines
/// between its bounds give the fields, and what follows the closing line,
/// trimmed, is the text. Without, the trimmed piece is the text of a fresh
/// page, and a piece that is empty when trimmed gives no page.
pub open spec fn page_of_section(section: Seq<char>, fresh: Fresh) -> Option<PageView> {
    match metadata_bounds(section) {
        Some((ms, me)) => Some(
            PageView {
                content: trim(section.skip(me + metadata_end().len())),
                ..page_with_lines(blank_page(fresh), lines(section.subrange(ms, me)))
            },
        ),
        None => if trim(section).len() == 0 {
            None
        } else {
            Some(PageView { content: trim(section), ..blank_page(fresh) })
        },
    }
}

/// The pages that the pieces describe, in their order; `fresh[i]` is what
/// the page of `sections[i]` starts from.
pub open spec fn pages_of_sections(sections: Seq<Seq<char>>, fresh: Seq<Fresh>) -> Seq<PageView>
    decreases sections.len(),
{
    if sections.len() == 0 {
        Seq::empty()
    } else {
        let before = pages_of_sections(sections.drop_last(), fresh);
        match page_of_section(sections.last(), fresh[sections.len() - 1]) {
            Some(p) => before.push(p),
            None => before,
        }
    }
}

/// The pieces of a file that may hold a page: what follows the header in
/// the first piece, then every further piece.
pub open spec fn page_sections(text: Seq<char>) -> Seq<Seq<char>> {
    let pieces = split(text, page_break());
    seq![header_parts(pieces[0]).1] + pieces.skip(1)
}

/// The notebook that a file describes; `fresh_pages[i]` is what the page
/// of the piece `i` starts from.
pub open spec fn notebook_of_text(text: Seq<char>, fresh: Fresh, fresh_pages: Seq<Fresh>) -> NotebookView {
    let pieces = split(text, page_break());
    NotebookView {
        pages: pages_of_sections(page_sections(text), fresh_pages),
        ..notebook_of_header(header_parts(pieces[0]).0, fresh)
    }
}

/// Whether the texts of a page can be written to a file and read back.
/// Its identifier and title are single lines that hold neither the page
/// break marker nor the line that closes the metadata; its text holds no
/// page break marker and no white space at its ends.
pub open spec fn page_texts_storable(p: PageView) -> bool {
    &&& single_line(p.id)
    &&& single_line(p.title)
    &&& free_of(p.id, metadata_end())
    &&& free_of(p.title, metadata_end())
    &&& free_of(p.id, page_break())
    &&& free_of(p.title, page_break())
    &&& free_of(p.content, page_break())
    &&& trim(p.content) == p.content
}

/// Whether a page can be written to a file and read back: its texts can,
/// and so can its times.
pub open spec fn page_storable(p: PageView) -> bool {
    &&& page_texts_storable(p)
    &&& p.created.storable()
    &&& p.modified.storable()
}

/// Whether the texts of a notebook can be written to a file and read back.
/// Its identifier and title are single lines that hold neither the page
/// break marker nor the line that closes the header, and the texts of each
/// of its pages can be written and read back.
pub open spec fn notebook_texts_storable(nb: NotebookView) -> bool {
    &&& single_line(nb.id)
    &&& single_line(nb.title)
    &&& free_of(nb.id, notebook_end())
    &&& free_of(nb.title, notebook_end())
    &&& free_of(nb.id, page_break())
    &&& free_of(nb.title, page_break())
    &&& forall|i: int| 0 <= i < nb.pages.len() ==> page_texts_storable(#[trigger] nb.pages[i])
}

/// Whether the times of a notebook and of its pages can be written to a
/// file and read back.
pub open spec fn notebook_times_storable(nb: NotebookView) -> bool {
    &&& nb.created.storable()
    &&& nb.modified.storable()
    &&& forall|i: int|
        0 <= i < nb.pages.len() ==> (#[trigger] nb.pages[i]).created.storable()
            && nb.pages[i].modified.storable()
}

/// Whether a notebook can be written to a file and read back.
pub open spec fn notebook_storable(nb: NotebookView) -> bool {
    notebook_texts_storable(nb) && notebook_times_storable(nb)
}

/// Whether the times of a notebook and of its pages lie in the years 0000
/// to 9999.
pub open spec fn four_digit_years(nb: NotebookView) -> bool {
    &&& four_digit_year(nb.created.unix_secs())
    &&& four_digit_year(nb.modified.unix_secs())
    &&& forall|i: int|
        0 <= i < nb.pages.len() ==> four_digit_year(
            (#[trigger] nb.pages[i]).created.unix_secs(),
        ) && four_digit_year(nb.pages[i].modified.unix_secs())
}

} // verus!
