use notebookx::file_io::{
    header_split, notebook_from_header, page_from_section, FormatError, NotebookFileHandler,
};
use notebookx::notebook::{Notebook, Page};
use notebookx::timestamp::Timestamp;

fn stamp(secs: i64, nanos: u32) -> Timestamp {
    Timestamp::new(secs, nanos).unwrap()
}

fn chars(s: &str) -> Vec<char> {
    s.chars().collect()
}

fn text(v: &[char]) -> String {
    v.iter().collect()
}

fn sample_page(id: &str, title: &str, content: &str, number: Option<u32>) -> Page {
    Page {
        id: id.to_string(),
        title: title.to_string(),
        content: content.to_string(),
        number,
        created: stamp(1_431_648_000, 0),
        modified: stamp(1_431_648_060, 500_000_000),
    }
}

fn sample_notebook(pages: Vec<Page>) -> Notebook {
    Notebook {
        id: "nb-1".to_string(),
        title: "Field Notes".to_string(),
        pages,
        created: stamp(1_431_648_000, 0),
        modified: stamp(1_431_648_001, 0),
    }
}

fn assert_same(a: &Notebook, b: &Notebook) {
    assert_eq!(a.id, b.id);
    assert_eq!(a.title, b.title);
    assert_eq!(a.created, b.created);
    assert_eq!(a.modified, b.modified);
    assert_eq!(a.pages.len(), b.pages.len());
    for i in 0..a.pages.len() {
        assert_eq!(a.pages[i].id, b.pages[i].id);
        assert_eq!(a.pages[i].title, b.pages[i].title);
        assert_eq!(a.pages[i].content, b.pages[i].content);
        assert_eq!(a.pages[i].number, b.pages[i].number);
        assert_eq!(a.pages[i].created, b.pages[i].created);
        assert_eq!(a.pages[i].modified, b.pages[i].modified);
    }
}

const HEADER: &str = "--- NOTEBOOKX NOTEBOOK ---\n\
NOTEBOOK_ID: nb-1\n\
NOTEBOOK_TITLE: Field Notes\n\
CREATED: 2015-05-15T00:00:00+00:00\n\
MODIFIED: 2015-05-15T00:00:01+00:00\n\
--- END NOTEBOOK HEADER ---\n\n";

#[test]
fn serialize_writes_the_exact_text() {
    let nb = sample_notebook(vec![
        sample_page("page-a", "Intro", "Hello\nworld", Some(1)),
        sample_page("page-b", "Body", "More", None),
    ]);
    let text = NotebookFileHandler::new().serialize_notebook(&nb);
    let expected = format!(
        "{}{}",
        HEADER,
        "--- NOTEBOOKX METADATA ---\n\
PAGE_ID: page-a\n\
TITLE: Intro\n\
NUMBER: 1\n\
CREATED: 2015-05-15T00:00:00+00:00\n\
MODIFIED: 2015-05-15T00:01:00.500+00:00\n\
--- END METADATA ---\n\n\
Hello\nworld\n\n\
--- PAGE BREAK ---\n\n\
--- NOTEBOOKX METADATA ---\n\
PAGE_ID: page-b\n\
TITLE: Body\n\
CREATED: 2015-05-15T00:00:00+00:00\n\
MODIFIED: 2015-05-15T00:01:00.500+00:00\n\
--- END METADATA ---\n\n\
More\n\n"
    );
    assert_eq!(text, expected);
}

#[test]
fn serialize_of_a_notebook_without_pages_is_the_header() {
    let text = NotebookFileHandler::new().serialize_notebook(&sample_notebook(Vec::new()));
    assert_eq!(text, HEADER);
    let back = NotebookFileHandler::new().deserialize_notebook(&text);
    assert_same(&back, &sample_notebook(Vec::new()));
}

#[test]
fn serialize_writes_large_numbers() {
    let nb = sample_notebook(vec![sample_page("p", "T", "c", Some(4_294_967_295))]);
    let text = NotebookFileHandler::new().serialize_notebook(&nb);
    assert!(text.contains("\nNUMBER: 4294967295\n"));
    let zero = sample_notebook(vec![sample_page("p", "T", "c", Some(0))]);
    let text = NotebookFileHandler::new().serialize_notebook(&zero);
    assert!(text.contains("\nNUMBER: 0\n"));
    assert_eq!(NotebookFileHandler::new().deserialize_notebook(&text).pages[0].number, Some(0));
}

#[test]
fn load_of_save_gives_the_notebook_back() {
    let nb = sample_notebook(vec![
        sample_page("page-a", "Intro", "Hello\nworld", Some(1)),
        sample_page("page-b", "Body", "", Some(2)),
        sample_page("page-c", "", "a  b\n\n  c", None),
        sample_page(
            "",
            "--- NOTEBOOKX METADATA --- and --- END NOTEBOOK HEADER ---",
            "--- END METADATA ---\nTITLE: not a field\n--- NOTEBOOKX NOTEBOOK ---",
            Some(4_000_000_000),
        ),
    ]);
    let handler = NotebookFileHandler::new();
    let text = handler.serialize_notebook(&nb);
    let back = handler.deserialize_notebook(&text);
    assert_same(&back, &nb);
    assert_eq!(handler.serialize_notebook(&back), text);
}

#[test]
fn load_of_save_after_changes_gives_the_notebook_back() {
    let mut nb = Notebook::new("Journal".to_string());
    nb.add_page(Page::new("Intro".to_string(), "first".to_string(), None));
    nb.add_page(Page::new("Body".to_string(), "second\nline".to_string(), None));
    nb.add_page(Page::new("Appendix".to_string(), "third".to_string(), None));
    nb.reorder_pages(0, 2);
    let handler = NotebookFileHandler::new();
    let back = handler.deserialize_notebook(&handler.serialize_notebook(&nb));
    assert_same(&back, &nb);
    assert_eq!(back.pages[2].title, "Intro");
    assert_eq!(back.pages[2].number, Some(3));
}

#[test]
fn text_with_white_space_at_its_ends_comes_back_trimmed() {
    let nb = sample_notebook(vec![sample_page("p", "T", "  abc\n", Some(1))]);
    let handler = NotebookFileHandler::new();
    let back = handler.deserialize_notebook(&handler.serialize_notebook(&nb));
    assert_eq!(back.pages.len(), 1);
    assert_eq!(back.pages[0].content, "abc");
}

#[test]
fn text_with_a_page_break_marker_comes_back_as_two_pages() {
    let nb = sample_notebook(vec![sample_page("p", "T", "abc--- PAGE BREAK ---def", Some(1))]);
    let handler = NotebookFileHandler::new();
    let back = handler.deserialize_notebook(&handler.serialize_notebook(&nb));
    assert_eq!(back.pages.len(), 2);
    assert_eq!(back.pages[0].id, "p");
    assert_eq!(back.pages[0].content, "abc");
    assert_eq!(back.pages[1].title, "Untitled");
    assert_eq!(back.pages[1].content, "def");
}

#[test]
fn file_without_header_loads_as_one_page() {
    let handler = NotebookFileHandler::new();
    let nb = handler.deserialize_notebook("  just some text\nwith two lines \n");
    assert_eq!(nb.title, "Untitled Notebook");
    assert_eq!(nb.created, nb.modified);
    assert_eq!(nb.id.len(), 36);
    assert_eq!(nb.pages.len(), 1);
    assert_eq!(nb.pages[0].title, "Untitled");
    assert_eq!(nb.pages[0].content, "just some text\nwith two lines");
    assert_eq!(nb.pages[0].number, None);
    assert_eq!(nb.pages[0].id.len(), 36);
    assert_eq!(nb.pages[0].created, nb.pages[0].modified);
    assert_ne!(nb.pages[0].id, nb.id);
}

#[test]
fn empty_file_loads_as_an_empty_notebook() {
    let handler = NotebookFileHandler::new();
    for text in ["", "   \n\t", "--- PAGE BREAK ---", " --- PAGE BREAK --- \n--- PAGE BREAK ---"] {
        let nb = handler.deserialize_notebook(text);
        assert_eq!(nb.title, "Untitled Notebook");
        assert!(nb.pages.is_empty(), "{:?}", text);
    }
}

#[test]
fn pieces_without_text_are_passed_over() {
    let text = format!(
        "{}first page\n--- PAGE BREAK ---\n   \n\n--- PAGE BREAK ---\n\
--- NOTEBOOKX METADATA ---\nPAGE_ID: page-c\nTITLE: Third\nNUMBER: 3\n--- END METADATA ---\n\nthird page\n\n\
--- PAGE BREAK ---more",
        HEADER
    );
    let nb = NotebookFileHandler::new().deserialize_notebook(&text);
    assert_eq!(nb.id, "nb-1");
    assert_eq!(nb.title, "Field Notes");
    assert_eq!(nb.created, stamp(1_431_648_000, 0));
    assert_eq!(nb.modified, stamp(1_431_648_001, 0));
    assert_eq!(nb.pages.len(), 3);
    assert_eq!(nb.pages[0].title, "Untitled");
    assert_eq!(nb.pages[0].content, "first page");
    assert_eq!(nb.pages[1].id, "page-c");
    assert_eq!(nb.pages[1].title, "Third");
    assert_eq!(nb.pages[1].number, Some(3));
    assert_eq!(nb.pages[1].content, "third page");
    assert_eq!(nb.pages[2].content, "more");
    assert_eq!(nb.pages[2].number, None);
}

#[test]
fn header_is_cut_out_of_the_first_piece() {
    let handler = NotebookFileHandler::new();
    let (header, rest) = handler.extract_notebook_header(
        "junk--- NOTEBOOKX NOTEBOOK ---\nNOTEBOOK_ID: x\n--- END NOTEBOOK HEADER ---\nrest",
    );
    assert_eq!(header, "--- NOTEBOOKX NOTEBOOK ---\nNOTEBOOK_ID: x\n--- END NOTEBOOK HEADER ---");
    assert_eq!(rest, "\nrest");
    let (header, rest) = handler.extract_notebook_header(
        "--- NOTEBOOKX NOTEBOOK ------ END NOTEBOOK HEADER ------ END NOTEBOOK HEADER ---",
    );
    assert_eq!(header, "--- NOTEBOOKX NOTEBOOK ------ END NOTEBOOK HEADER ---");
    assert_eq!(rest, "--- END NOTEBOOK HEADER ---");
}

#[test]
fn header_needs_both_of_its_lines() {
    let handler = NotebookFileHandler::new();
    for text in [
        "",
        "plain text",
        "--- NOTEBOOKX NOTEBOOK ---\nNOTEBOOK_ID: x\n",
        "NOTEBOOK_ID: x\n--- END NOTEBOOK HEADER ---\n",
        "--- END NOTEBOOK HEADER ---x--- NOTEBOOKX NOTEBOOK ---",
        "--- notebookx notebook ---\n--- END NOTEBOOK HEADER ---",
    ] {
        let (header, rest) = handler.extract_notebook_header(text);
        assert_eq!(header, "", "{:?}", text);
        assert_eq!(rest, text);
    }
}

#[test]
fn header_may_start_where_its_closing_line_ends() {
    let input = "--- END NOTEBOOK HEADER ------ NOTEBOOKX NOTEBOOK ---";
    let (header, rest) = header_split(&chars(input));
    assert_eq!(text(&header), "");
    assert_eq!(text(&rest), "--- NOTEBOOKX NOTEBOOK ---");
}

#[test]
fn header_fields_are_read_by_their_keys() {
    let header = "--- NOTEBOOKX NOTEBOOK ---\n\
NOTEBOOK_ID: first\n\
SOMETHING: else\n\
NOTEBOOK_TITLE: My Book: a title \n\
CREATED: 2015-05-15T00:00:00+00:00\n\
MODIFIED: 1996-12-19T16:39:57-08:00\n\
\x20NOTEBOOK_TITLE: indented\n\
notebook_title: lower\n\
NOTEBOOK_ID: second\n\
--- END NOTEBOOK HEADER ---";
    let nb = notebook_from_header(&chars(header), "fresh".to_string(), stamp(7, 0));
    assert_eq!(nb.id, "second");
    assert_eq!(nb.title, "My Book: a title ");
    assert_eq!(nb.created, stamp(1_431_648_000, 0));
    assert_eq!(nb.modified, stamp(851_042_397, 0));
    assert!(nb.pages.is_empty());
}

#[test]
fn header_fields_fall_back_to_the_fresh_notebook() {
    let nb = notebook_from_header(&chars(""), "fresh".to_string(), stamp(7, 0));
    assert_eq!(nb.id, "fresh");
    assert_eq!(nb.title, "Untitled Notebook");
    assert_eq!(nb.created, stamp(7, 0));
    assert_eq!(nb.modified, stamp(7, 0));
    let header = "NOTEBOOK_ID:missing space\nCREATED: not a time\nMODIFIED: \nNOTEBOOK_TITLE: ";
    let nb = notebook_from_header(&chars(header), "fresh".to_string(), stamp(7, 0));
    assert_eq!(nb.id, "fresh");
    assert_eq!(nb.title, "");
    assert_eq!(nb.created, stamp(7, 0));
    assert_eq!(nb.modified, stamp(7, 0));
    let later = "CREATED: 2015-05-15T00:00:00+00:00\nCREATED: bad\nMODIFIED: bad\n";
    let nb = notebook_from_header(&chars(later), "fresh".to_string(), stamp(7, 0));
    assert_eq!(nb.created, stamp(1_431_648_000, 0));
    assert_eq!(nb.modified, stamp(7, 0));
}

#[test]
fn lines_may_end_with_carriage_return_and_line_feed() {
    let header = "NOTEBOOK_ID: win\r\nNOTEBOOK_TITLE: Dos\r\r\nCREATED: 2015-05-15T00:00:00+00:00\r\n";
    let nb = notebook_from_header(&chars(header), "fresh".to_string(), stamp(7, 0));
    assert_eq!(nb.id, "win");
    assert_eq!(nb.title, "Dos\r");
    assert_eq!(nb.created, stamp(1_431_648_000, 0));
    let last = notebook_from_header(&chars("NOTEBOOK_ID: x\r"), "fresh".to_string(), stamp(7, 0));
    assert_eq!(last.id, "x\r");
}

#[test]
fn parse_notebook_header_fills_in_a_fresh_notebook() {
    let handler = NotebookFileHandler::new();
    let nb = handler.parse_notebook_header("NOTEBOOK_TITLE: Only a title\n");
    assert_eq!(nb.title, "Only a title");
    assert_eq!(nb.id.len(), 36);
    assert_eq!(nb.created, nb.modified);
    assert!(nb.created.secs() > 1_700_000_000);
}

#[test]
fn page_fields_are_read_by_their_keys() {
    let section = "preamble --- NOTEBOOKX METADATA --- same line\n\
PAGE_ID: page-a\n\
TITLE: A title\n\
NUMBER: 12\n\
CREATED: 2015-05-15T00:00:00Z\n\
MODIFIED: 2015-05-15T00:01:00.5+00:00\n\
UNKNOWN: ignored\n\
--- END METADATA --- tail\n\n  body text \n with lines\n\n";
    let p = page_from_section(&chars(section), "fresh".to_string(), stamp(7, 0)).unwrap();
    assert_eq!(p.id, "page-a");
    assert_eq!(p.title, "A title");
    assert_eq!(p.number, Some(12));
    assert_eq!(p.created, stamp(1_431_648_000, 0));
    assert_eq!(p.modified, stamp(1_431_648_060, 500_000_000));
    assert_eq!(p.content, "tail\n\n  body text \n with lines");
}

#[test]
fn page_fields_fall_back_to_the_fresh_page() {
    let section = "--- NOTEBOOKX METADATA ---\nCREATED: never\n--- END METADATA ---";
    let p = page_from_section(&chars(section), "fresh".to_string(), stamp(7, 0)).unwrap();
    assert_eq!(p.id, "fresh");
    assert_eq!(p.title, "Untitled");
    assert_eq!(p.number, None);
    assert_eq!(p.created, stamp(7, 0));
    assert_eq!(p.modified, stamp(7, 0));
    assert_eq!(p.content, "");
}

fn number_of(value: &str) -> Option<u32> {
    let section = format!(
        "--- NOTEBOOKX METADATA ---\nNUMBER: {}\n--- END METADATA ---\nx",
        value
    );
    page_from_section(&chars(&section), "fresh".to_string(), stamp(7, 0)).unwrap().number
}

#[test]
fn page_number_is_an_unsigned_number_or_absent() {
    assert_eq!(number_of("7"), Some(7));
    assert_eq!(number_of("0"), Some(0));
    assert_eq!(number_of("007"), Some(7));
    assert_eq!(number_of("+7"), Some(7));
    assert_eq!(number_of("4294967295"), Some(4_294_967_295));
    assert_eq!(number_of("4294967296"), None);
    assert_eq!(number_of("99999999999999999999999"), None);
    assert_eq!(number_of(""), None);
    assert_eq!(number_of("+"), None);
    assert_eq!(number_of("-7"), None);
    assert_eq!(number_of("++7"), None);
    assert_eq!(number_of("7 "), None);
    assert_eq!(number_of(" 7"), None);
    assert_eq!(number_of("seven"), None);
    assert_eq!(number_of("7a"), None);
    assert_eq!(number_of("1_000"), None);
    assert_eq!(number_of("\u{0663}"), None);
    let keeps = "--- NOTEBOOKX METADATA ---\nNUMBER: 5\nNUMBER: five\n--- END METADATA ---\nx";
    let p = page_from_section(&chars(keeps), "fresh".to_string(), stamp(7, 0)).unwrap();
    assert_eq!(p.number, Some(5));
}

#[test]
fn piece_without_metadata_is_the_text_of_a_fresh_page() {
    for section in [
        "\n  plain text\t\n",
        "--- NOTEBOOKX METADATA ---\nPAGE_ID: x\n",
        "PAGE_ID: x\n--- END METADATA ---\n",
        "--- END METADATA ---\n--- NOTEBOOKX METADATA ---\nPAGE_ID: x",
        "\u{3000}\u{00A0}text\u{2028}\u{0085}",
    ] {
        let p = page_from_section(&chars(section), "fresh".to_string(), stamp(7, 0)).unwrap();
        assert_eq!(p.id, "fresh");
        assert_eq!(p.title, "Untitled");
        assert_eq!(p.number, None);
        assert_eq!(p.created, stamp(7, 0));
        assert_eq!(p.content, section.trim());
        assert!(!p.content.is_empty());
    }
}

#[test]
fn empty_piece_gives_the_error() {
    for section in ["", " ", " \n\t ", "\r\n", "\u{2003}\u{3000}\u{000B}\u{000C}"] {
        let r = page_from_section(&chars(section), "x".to_string(), stamp(0, 0));
        assert_eq!(r.err(), Some(FormatError::EmptyPageContent), "{:?}", section);
    }
    assert_eq!(FormatError::EmptyPageContent.message(), "Empty page content");
    let handler = NotebookFileHandler::new();
    assert_eq!(handler.parse_page_section("   ").err(), Some(FormatError::EmptyPageContent));
    assert_eq!(handler.parse_page_section("\u{200B}").unwrap().content, "\u{200B}");
}

#[test]
fn parse_page_section_fills_in_a_fresh_page() {
    let handler = NotebookFileHandler::new();
    let p = handler.parse_page_section(" some text ").unwrap();
    assert_eq!(p.content, "some text");
    assert_eq!(p.title, "Untitled");
    assert_eq!(p.id.len(), 36);
    assert_eq!(p.created, p.modified);
    let q = handler
        .parse_page_section("--- NOTEBOOKX METADATA ---\nPAGE_ID: q\n--- END METADATA ---\nq text")
        .unwrap();
    assert_eq!(q.id, "q");
    assert_eq!(q.content, "q text");
}
