//! Writing a notebook to the text of its file and reading it back.

use crate::decimal::{push_decimal, read_u32};
use crate::format::{
    blank_notebook, created_key, field_line, four_digit_years, header_parts, header_text,
    metadata_bounds, metadata_end, metadata_text, modified_key, notebook_end, notebook_id_key,
    notebook_of_header, notebook_of_text, notebook_start, notebook_storable, notebook_text,
    notebook_texts_storable, notebook_title_key, notebook_with_line, notebook_with_lines,
    number_key, number_line, page_break, page_id_key, page_of_section, page_sections, page_text,
    page_with_line, page_with_lines, pages_of_sections, pages_text, title_key, Fresh,
};
use crate::ident::{is_uuid_text, new_id};
use crate::notebook::{page_views, Notebook, Page};
use crate::text::{
    begins_with, chars_of, copy_range, find, lemma_first_occurrence, lines, lines_of, split,
    split_on, string_of, trimmed, views,
};
use crate::format_laws::lemma_load_of_save;
use crate::timestamp::{four_digit_year, Timestamp};
use vstd::prelude::*;
use vstd::slice::slice_subrange;
use vstd::string::StringExecFns;

verus! {

/// Why a piece of a file gave no page.
#[derive(Clone, Copy, Debug, PartialEq, Eq, Structural)]
pub enum FormatError {
    /// The piece holds nothing but white space.
    EmptyPageContent,
}

impl FormatError {
    /// The error in words.
    pub fn message(&self) -> (s: String)
        ensures
            s@ == "Empty page content"@,
    {
        match self {
            FormatError::EmptyPageContent => String::from_str("Empty page content"),
        }
    }
}

/// Appends a line that holds a key and a value.
fn push_field(out: &mut String, key: &str, value: &str)
    ensures
        final(out)@ == old(out)@ + field_line(key@, value@),
{
    out.append(key);
    out.append(value);
    out.push('\n');
    assert(final(out)@ =~= old(out)@ + field_line(key@, value@));
}

/// Appends a marker line and the empty line after it.
fn push_closing(out: &mut String, marker: &str)
    ensures
        final(out)@ == old(out)@ + marker@ + seq!['\n', '\n'],
{
    out.append(marker);
    out.push('\n');
    out.push('\n');
    assert(final(out)@ =~= old(out)@ + marker@ + seq!['\n', '\n']);
}

/// Appends the header block of a notebook.
fn push_header(out: &mut String, notebook: &Notebook)
    ensures
        final(out)@ == old(out)@ + header_text(notebook@),
        four_digit_year(notebook@.created.unix_secs()) ==> notebook@.created.storable(),
        four_digit_year(notebook@.modified.unix_secs()) ==> notebook@.modified.storable(),
{
    out.append("--- NOTEBOOKX NOTEBOOK ---");
    out.push('\n');
    push_field(out, "NOTEBOOK_ID: ", notebook.id.as_str());
    push_field(out, "NOTEBOOK_TITLE: ", notebook.title.as_str());
    let created = notebook.created.to_rfc3339();
    push_field(out, "CREATED: ", created.as_str());
    let modified = notebook.modified.to_rfc3339();
    push_field(out, "MODIFIED: ", modified.as_str());
    push_closing(out, "--- END NOTEBOOK HEADER ---");
    assert(final(out)@ =~= old(out)@ + header_text(notebook@));
}

/// Appends the block of a page.
fn push_page(out: &mut String, page: &Page)
    ensures
        final(out)@ == old(out)@ + page_text(page@),
        four_digit_year(page@.created.unix_secs()) ==> page@.created.storable(),
        four_digit_year(page@.modified.unix_secs()) ==> page@.modified.storable(),
{
    out.append("--- NOTEBOOKX METADATA ---");
    out.push('\n');
    push_field(out, "PAGE_ID: ", page.id.as_str());
    push_field(out, "TITLE: ", page.title.as_str());
    let ghost before_number = out@;
    match page.number {
        Some(n) => {
            let mut digits: Vec<char> = Vec::new();
            push_decimal(&mut digits, n as u64);
            assert(digits@ =~= crate::decimal::decimal_text(n as nat));
            let text = string_of(digits.as_slice());
            push_field(out, "NUMBER: ", text.as_str());
        },
        None => {},
    }
    assert(out@ =~= before_number + number_line(page.number));
    let created = page.created.to_rfc3339();
    push_field(out, "CREATED: ", created.as_str());
    let modified = page.modified.to_rfc3339();
    push_field(out, "MODIFIED: ", modified.as_str());
    push_closing(out, "--- END METADATA ---");
    assert(out@ =~= old(out)@ + metadata_text(page@));
    out.append(page.content.as_str());
    out.push('\n');
    out.push('\n');
    assert(final(out)@ =~= old(out)@ + page_text(page@));
}

/// The header block within the first piece of a file, and what follows it.
pub fn header_split(first: &[char]) -> (r: (Vec<char>, Vec<char>))
    ensures
        (r.0@, r.1@) == header_parts(first@),
{
    let start = chars_of("--- NOTEBOOKX NOTEBOOK ---");
    let end = chars_of("--- END NOTEBOOK HEADER ---");
    match find(first, start.as_slice()) {
        Some(hs) => match find(first, end.as_slice()) {
            Some(he) => {
                proof {
                    lemma_first_occurrence(first@, notebook_end());
                    lemma_first_occurrence(first@, notebook_start());
                }
                let stop: usize = he + end.len();
                if hs <= stop {
                    return (copy_range(first, hs, stop), copy_range(first, stop, first.len()));
                }
            },
            None => {},
        },
        None => {},
    }
    let all = copy_range(first, 0, first.len());
    assert(all@ =~= first@);
    (Vec::new(), all)
}

/// The timestamp that a value holds, or `old` where it holds none.
fn stamp_or_keep(value: &[char], old: Timestamp) -> (t: Timestamp)
    ensures
        t == crate::format::read_or_keep(value@, old),
{
    let text = string_of(value);
    match Timestamp::parse_from_rfc3339(text.as_str()) {
        Some(t) => t,
        None => old,
    }
}

/// The notebook that a header block describes; a field that the block
/// does not set is that of a notebook with the identifier `id` made at `now`.
pub fn notebook_from_header(header: &[char], id: String, now: Timestamp) -> (nb: Notebook)
    ensures
        nb@ == notebook_of_header(header@, Fresh { id: id@, now }),
{
    let ghost fresh = Fresh { id: id@, now };
    let mut nb = Notebook {
        id,
        title: String::from_str("Untitled Notebook"),
        pages: Vec::new(),
        created: now,
        modified: now,
    };
    assert(page_views(nb.pages@) =~= Seq::<crate::notebook::PageView>::empty());
    let id_key = chars_of("NOTEBOOK_ID: ");
    let title_key = chars_of("NOTEBOOK_TITLE: ");
    let created_k = chars_of("CREATED: ");
    let modified_k = chars_of("MODIFIED: ");
    let ls = lines_of(header);
    let ghost all = views(ls@);
    assert(all.take(0) =~= Seq::<Seq<char>>::empty());
    let mut i: usize = 0;
    while i < ls.len()
        invariant
            i <= ls.len(),
            all == views(ls@),
            id_key@ == notebook_id_key(),
            title_key@ == notebook_title_key(),
            created_k@ == created_key(),
            modified_k@ == modified_key(),
            nb@ == notebook_with_lines(blank_notebook(fresh), all.take(i as int)),
        decreases ls.len() - i,
    {
        let line = ls[i].as_slice();
        proof {
            assert(all.take(i + 1).drop_last() =~= all.take(i as int));
            assert(all.take(i + 1).last() == line@);
        }
        let ghost before = nb@;
        if begins_with(line, id_key.as_slice()) {
            nb.id = string_of(slice_subrange(line, id_key.len(), line.len()));
        } else if begins_with(line, title_key.as_slice()) {
            nb.title = string_of(slice_subrange(line, title_key.len(), line.len()));
        } else if begins_with(line, created_k.as_slice()) {
            nb.created = stamp_or_keep(slice_subrange(line, created_k.len(), line.len()), nb.created);
        } else if begins_with(line, modified_k.as_slice()) {
            nb.modified = stamp_or_keep(
                slice_subrange(line, modified_k.len(), line.len()),
                nb.modified,
            );
        }
        assert(nb@ == notebook_with_line(before, line@));
        i += 1;
    }
    assert(all.take(ls.len() as int) =~= all);
    nb
}

/// The page after the given metadata lines were read.
fn read_metadata(page: &mut Page, metadata: &[char])
    ensures
        final(page)@ == page_with_lines(old(page)@, lines(metadata@)),
{
    let id_key = chars_of("PAGE_ID: ");
    let title_k = chars_of("TITLE: ");
    let number_k = chars_of("NUMBER: ");
    let created_k = chars_of("CREATED: ");
    let modified_k = chars_of("MODIFIED: ");
    let ls = lines_of(metadata);
    let ghost all = views(ls@);
    assert(all.take(0) =~= Seq::<Seq<char>>::empty());
    let mut i: usize = 0;
    while i < ls.len()
        invariant
            i <= ls.len(),
            all == views(ls@),
            id_key@ == page_id_key(),
            title_k@ == title_key(),
            number_k@ == number_key(),
            created_k@ == created_key(),
            modified_k@ == modified_key(),
            page@ == page_with_lines(old(page)@, all.take(i as int)),
        decreases ls.len() - i,
    {
        let line = ls[i].as_slice();
        proof {
            assert(all.take(i + 1).drop_last() =~= all.take(i as int));
            assert(all.take(i + 1).last() == line@);
        }
        let ghost before = page@;
        if begins_with(line, id_key.as_slice()) {
            page.id = string_of(slice_subrange(line, id_key.len(), line.len()));
        } else if begins_with(line, title_k.as_slice()) {
            page.title = string_of(slice_subrange(line, title_k.len(), line.len()));
        } else if begins_with(line, number_k.as_slice()) {
            match read_u32(slice_subrange(line, number_k.len(), line.len())) {
                Some(n) => {
                    page.number = Some(n);
                },
                None => {},
            }
        } else if begins_with(line, created_k.as_slice()) {
            page.created = stamp_or_keep(
                slice_subrange(line, created_k.len(), line.len()),
                page.created,
            );
        } else if begins_with(line, modified_k.as_slice()) {
            page.modified = stamp_or_keep(
                slice_subrange(line, modified_k.len(), line.len()),
                page.modified,
            );
        }
        assert(page@ == page_with_line(before, line@));
        i += 1;
    }
    assert(all.take(ls.len() as int) =~= all);
}

/// Where the metadata of a piece begins and ends.
fn find_metadata(section: &[char]) -> (r: Option<(usize, usize)>)
    ensures
        match r {
            Some((ms, me)) => metadata_bounds(section@) == Some((ms as int, me as int)) && ms
                <= me && me + metadata_end().len() <= section.len(),
            None => metadata_bounds(section@) is None,
        },
{
    let start = chars_of("--- NOTEBOOKX METADATA ---");
    let end = chars_of("--- END METADATA ---");
    match find(section, start.as_slice()) {
        Some(ms) => match find(section, end.as_slice()) {
            Some(me) => {
                proof {
                    lemma_first_occurrence(section@, metadata_end());
                }
                if ms <= me {
                    Some((ms, me))
                } else {
                    None
                }
            },
            None => None,
        },
        None => None,
    }
}

/// The page that a piece of a file describes; a field that the piece does
/// not set is that of a page with the identifier `id` made at `now`.
/// A piece without metadata that holds nothing but white space gives
/// `EmptyPageContent`.
pub fn page_from_section(section: &[char], id: String, now: Timestamp) -> (r: Result<
    Page,
    FormatError,
>)
    ensures
        match r {
            Ok(p) => page_of_section(section@, Fresh { id: id@, now }) == Some(p@),
            Err(e) => e == FormatError::EmptyPageContent && page_of_section(
                section@,
                Fresh { id: id@, now },
            ) is None,
        },
{
    let mut page = Page {
        id,
        title: String::from_str("Untitled"),
        content: String::new(),
        number: None,
        created: now,
        modified: now,
    };
    match find_metadata(section) {
        Some((ms, me)) => {
            let end = chars_of("--- END METADATA ---");
            read_metadata(&mut page, slice_subrange(section, ms, me));
            let after = slice_subrange(section, me + end.len(), section.len());
            assert(after@ =~= section@.skip(me + metadata_end().len()));
            page.content = string_of(trimmed(after));
            Ok(page)
        },
        None => {
            let text = trimmed(section);
            if text.len() == 0 {
                return Err(FormatError::EmptyPageContent);
            }
            page.content = string_of(text);
            Ok(page)
        },
    }
}

/// Reading header lines leaves the pages as they are.
pub proof fn lemma_header_keeps_pages(nb: crate::notebook::NotebookView, ls: Seq<Seq<char>>)
    ensures
        notebook_with_lines(nb, ls).pages == nb.pages,
    decreases ls.len(),
{
    if ls.len() > 0 {
        lemma_header_keeps_pages(nb, ls.drop_last());
    }
}

/// The pages of the pieces do not depend on what later pieces start from.
pub proof fn lemma_fresh_prefix(sections: Seq<Seq<char>>, a: Seq<Fresh>, b: Seq<Fresh>)
    requires
        forall|k: int| 0 <= k < sections.len() ==> a[k] == b[k],
    ensures
        pages_of_sections(sections, a) == pages_of_sections(sections, b),
    decreases sections.len(),
{
    if sections.len() > 0 {
        lemma_fresh_prefix(sections.drop_last(), a, b);
    }
}

/// Reads and writes the text of notebook files.
#[derive(Clone, Copy, Debug)]
pub struct NotebookFileHandler {}

impl NotebookFileHandler {
    pub fn new() -> (r: Self) {
        Self {  }
    }

    /// The text of the file of a notebook. Reading the text gives the
    /// notebook back where its texts can be stored and its times lie in the
    /// years 0000 to 9999.
    pub fn serialize_notebook(&self, notebook: &Notebook) -> (s: String)
        ensures
            s@ == notebook_text(notebook@),
            notebook_texts_storable(notebook@) && four_digit_years(notebook@) ==> forall|
                fresh: Fresh,
                fresh_pages: Seq<Fresh>,
            | #[trigger] notebook_of_text(s@, fresh, fresh_pages) == notebook@,
    {
        let mut out = String::new();
        push_header(&mut out, notebook);
        assert(out@ =~= header_text(notebook@));
        let ghost pages = notebook@.pages;
        assert(pages.take(0) =~= Seq::<crate::notebook::PageView>::empty());
        let mut i: usize = 0;
        while i < notebook.pages.len()
            invariant
                i <= notebook.pages.len(),
                pages == notebook@.pages,
                out@ == header_text(notebook@) + pages_text(pages.take(i as int)),
                forall|j: int|
                    0 <= j < i ==> (four_digit_year((#[trigger] pages[j]).created.unix_secs())
                        ==> pages[j].created.storable()) && (four_digit_year(
                        pages[j].modified.unix_secs(),
                    ) ==> pages[j].modified.storable()),
            decreases notebook.pages.len() - i,
        {
            if i > 0 {
                push_closing(&mut out, "--- PAGE BREAK ---");
            }
            push_page(&mut out, &notebook.pages[i]);
            proof {
                let next = pages.take(i + 1);
                assert(next.drop_last() =~= pages.take(i as int));
                assert(next.last() == notebook.pages[i as int]@);
                if i == 0 {
                    assert(pages_text(pages.take(0)) =~= Seq::<char>::empty());
                    assert(next[0] == next.last());
                }
                assert(out@ =~= header_text(notebook@) + pages_text(next));
            }
            i += 1;
        }
        proof {
            assert(pages.take(notebook.pages.len() as int) =~= pages);
            if notebook_texts_storable(notebook@) && four_digit_years(notebook@) {
                assert(notebook_storable(notebook@));
                assert forall|fresh: Fresh, fresh_pages: Seq<Fresh>| #[trigger]
                    notebook_of_text(out@, fresh, fresh_pages) == notebook@ by {
                    lemma_load_of_save(notebook@, fresh, fresh_pages);
                }
            }
        }
        out
    }

    /// The notebook that the text of a file describes. What the file leaves
    /// open is taken from a fresh notebook and, for each piece, a fresh
    /// page; a piece that gives no page is passed over.
    pub fn deserialize_notebook(&self, content: &str) -> (nb: Notebook)
        ensures
            exists|fresh: Fresh, fresh_pages: Seq<Fresh>|
                {
                    &&& nb@ == #[trigger] notebook_of_text(content@, fresh, fresh_pages)
                    &&& is_uuid_text(fresh.id)
                    &&& fresh_pages.len() == page_sections(content@).len()
                    &&& forall|k: int|
                        0 <= k < fresh_pages.len() ==> is_uuid_text((#[trigger] fresh_pages[k]).id)
                },
    {
        let chars = chars_of(content);
        let marker = chars_of("--- PAGE BREAK ---");
        proof {
            reveal_strlit("--- PAGE BREAK ---");
        }
        let pieces = split_on(chars.as_slice(), marker.as_slice());
        let (header, rest) = header_split(pieces[0].as_slice());
        let id = new_id();
        let now = Timestamp::now();
        let ghost fresh = Fresh { id: id@, now };
        let mut nb = notebook_from_header(header.as_slice(), id, now);
        let ghost head = nb@;
        let ghost sections = page_sections(content@);
        let ghost mut fresh_pages = Seq::<Fresh>::empty();
        proof {
            assert(sections.take(0) =~= Seq::<Seq<char>>::empty());
            assert(views(pieces@)[0] == pieces[0]@);
            lemma_header_keeps_pages(blank_notebook(fresh), lines(header@));
        }
        let mut i: usize = 0;
        while i < pieces.len()
            invariant
                i <= pieces.len(),
                pieces.len() >= 1,
                views(pieces@) == split(content@, page_break()),
                (header@, rest@) == header_parts(pieces[0]@),
                sections == page_sections(content@),
                fresh_pages.len() == i,
                forall|k: int| 0 <= k < i ==> is_uuid_text((#[trigger] fresh_pages[k]).id),
                nb@ == (crate::notebook::NotebookView {
                    pages: pages_of_sections(sections.take(i as int), fresh_pages),
                    ..head
                }),
            decreases pieces.len() - i,
        {
            let page_id = new_id();
            let page_now = Timestamp::now();
            let ghost page_fresh = Fresh { id: page_id@, now: page_now };
            let section: &[char] = if i == 0 {
                rest.as_slice()
            } else {
                pieces[i].as_slice()
            };
            proof {
                assert(views(pieces@)[i as int] == pieces[i as int]@);
                assert(sections[i as int] == section@);
                let next = fresh_pages.push(page_fresh);
                lemma_fresh_prefix(sections.take(i as int), fresh_pages, next);
                assert(sections.take(i + 1).drop_last() =~= sections.take(i as int));
                assert(sections.take(i + 1).last() == section@);
                fresh_pages = next;
            }
            let ghost before = nb.pages@;
            match page_from_section(section, page_id, page_now) {
                Ok(page) => {
                    nb.pages.push(page);
                    assert(page_views(nb.pages@) =~= page_views(before).push(page@));
                },
                Err(_) => {},
            }
            i += 1;
        }
        proof {
            assert(sections.take(pieces.len() as int) =~= sections);
            assert(nb@ == notebook_of_text(content@, fresh, fresh_pages));
            assert(fresh_pages.len() == page_sections(content@).len());
        }
        nb
    }

    /// The header block within the first piece of a file, and what follows it.
    pub fn extract_notebook_header(&self, content: &str) -> (r: (String, String))
        ensures
            (r.0@, r.1@) == header_parts(content@),
    {
        let chars = chars_of(content);
        let (header, rest) = header_split(chars.as_slice());
        (string_of(header.as_slice()), string_of(rest.as_slice()))
    }

    /// The notebook that a header block describes. A field that the block
    /// does not set is that of a fresh notebook.
    pub fn parse_notebook_header(&self, header: &str) -> (nb: Notebook)
        ensures
            exists|fresh: Fresh|
                nb@ == #[trigger] notebook_of_header(header@, fresh) && is_uuid_text(fresh.id),
    {
        let chars = chars_of(header);
        let id = new_id();
        let now = Timestamp::now();
        notebook_from_header(chars.as_slice(), id, now)
    }

    /// The page that a piece of a file describes. A field that the piece
    /// does not set is that of a fresh page; a piece without metadata that
    /// holds nothing but white space gives `EmptyPageContent`.
    pub fn parse_page_section(&self, section: &str) -> (r: Result<Page, FormatError>)
        ensures
            exists|fresh: Fresh|
                is_uuid_text(fresh.id) && match r {
                    Ok(p) => #[trigger] page_of_section(section@, fresh) == Some(p@),
                    Err(e) => e == FormatError::EmptyPageContent && page_of_section(
                        section@,
                        fresh,
                    ) is None,
                },
    {
        let chars = chars_of(section);
        let id = new_id();
        let now = Timestamp::now();
        let ghost fresh = Fresh { id: id@, now };
        let r = page_from_section(chars.as_slice(), id, now);
        proof {
            if r is Ok {
                assert(page_of_section(section@, fresh) == Some(r->Ok_0@));
            } else {
                assert(page_of_section(section@, fresh) is None);
            }
        }
        r
    }
}

impl Default for NotebookFileHandler {
    fn default() -> Self {
        Self::new()
    }
}

} // verus!
