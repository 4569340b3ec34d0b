use notebookx::notebook::{Notebook, Page};
use notebookx::paginator::PAGE_MAX_CHARS;
use notebookx::session::{clean_content, EditorSession, HINT_TEXT};
use notebookx::timestamp::Timestamp;

fn stamp(secs: i64) -> Timestamp {
    Timestamp::new(secs, 0).unwrap()
}

fn page(id: &str, title: &str, content: &str) -> Page {
    Page {
        id: id.to_string(),
        title: title.to_string(),
        content: content.to_string(),
        number: None,
        created: stamp(100),
        modified: stamp(100),
    }
}

fn session_with(pages: Vec<Page>) -> EditorSession {
    let mut notebook = Notebook {
        id: "nb".to_string(),
        title: "Book".to_string(),
        pages: Vec::new(),
        created: stamp(50),
        modified: stamp(50),
    };
    for p in pages {
        notebook.add_page_at(p, stamp(60));
    }
    let mut session = EditorSession::new();
    session.notebook = Some(notebook);
    session
}

fn titles(session: &EditorSession) -> Vec<String> {
    session.notebook.as_ref().unwrap().pages.iter().map(|p| p.title.clone()).collect()
}

const WELCOME: &str = "Welcome to NotebookX!\n\nThis is your first page. You can:\n- Create new pages\n- Edit page titles and content\n- Save your notebook\n- Open existing notebooks\n\nStart writing your notes here!";

#[test]
fn hint_is_taken_off_the_text() {
    assert_eq!(HINT_TEXT, "Start writing your notes here...");
    assert_eq!(clean_content(HINT_TEXT), "");
    assert_eq!(clean_content(""), "");
    assert_eq!(clean_content("notes"), "notes");
    assert_eq!(clean_content(&format!("{}notes", HINT_TEXT)), "notes");
    assert_eq!(clean_content(&format!("notes{}", HINT_TEXT)), "notes");
    assert_eq!(clean_content(&format!("{}{}", HINT_TEXT, HINT_TEXT)), "");
    assert_eq!(clean_content(&format!("{}a{}", HINT_TEXT, HINT_TEXT)), "a");
    assert_eq!(clean_content(&format!("a{}b", HINT_TEXT)), format!("a{}b", HINT_TEXT));
    assert_eq!(
        clean_content(&format!("{}{}{}", HINT_TEXT, HINT_TEXT, HINT_TEXT)),
        HINT_TEXT
    );
    assert_eq!(clean_content("Start writing your notes here.."), "Start writing your notes here..");
}

#[test]
fn new_session_is_empty() {
    let s = EditorSession::new();
    assert!(s.notebook.is_none());
    assert!(s.current_page_id.is_none());
    assert_eq!(s.page_title_buffer, "");
    assert_eq!(s.page_content_buffer, "");
    assert!(!s.autosave_enabled);
    assert_eq!(s.get_clean_content_length(), 0);
    assert!(EditorSession::default().notebook.is_none());
}

#[test]
fn clean_length_counts_characters() {
    let mut s = EditorSession::new();
    s.page_content_buffer = format!("{}日本語", HINT_TEXT);
    assert_eq!(s.get_clean_content_length(), 3);
    s.page_content_buffer = "abc".to_string();
    assert_eq!(s.get_clean_content_length(), 3);
}

#[test]
fn ensure_notebook_opens_one_with_a_welcome() {
    let mut s = EditorSession::new();
    s.ensure_notebook_with("nb-id".to_string(), "page-id".to_string(), stamp(500));
    let nb = s.notebook.as_ref().unwrap();
    assert_eq!(nb.id, "nb-id");
    assert_eq!(nb.title, "Default Notebook");
    assert_eq!(nb.created, stamp(500));
    assert_eq!(nb.modified, stamp(500));
    assert_eq!(nb.pages.len(), 1);
    assert_eq!(nb.pages[0].id, "page-id");
    assert_eq!(nb.pages[0].title, "Welcome to NotebookX");
    assert_eq!(nb.pages[0].content, WELCOME);
    assert_eq!(nb.pages[0].number, Some(1));
    assert_eq!(nb.pages[0].created, stamp(500));
    assert_eq!(s.current_page_id.as_deref(), Some("page-id"));
    assert_eq!(s.page_title_buffer, "Welcome to NotebookX");
    assert_eq!(s.page_content_buffer, WELCOME);
    s.page_title_buffer = "edited".to_string();
    s.ensure_notebook_with("other".to_string(), "other-page".to_string(), stamp(600));
    assert_eq!(s.notebook.as_ref().unwrap().id, "nb-id");
    assert_eq!(s.page_title_buffer, "edited");
    assert_eq!(s.current_page_id.as_deref(), Some("page-id"));
}

#[test]
fn ensure_notebook_draws_fresh_identifiers() {
    let mut s = EditorSession::new();
    s.ensure_notebook();
    let nb = s.notebook.as_ref().unwrap();
    assert_eq!(nb.title, "Default Notebook");
    assert_eq!(nb.pages.len(), 1);
    assert_eq!(nb.id.len(), 36);
    assert_eq!(s.current_page_id.as_ref(), Some(&nb.pages[0].id));
    assert_ne!(nb.id, nb.pages[0].id);
    let id = nb.id.clone();
    s.ensure_notebook();
    assert_eq!(s.notebook.as_ref().unwrap().id, id);
}

#[test]
fn select_page_fills_the_buffers() {
    let mut s = session_with(vec![page("a", "A", "text a"), page("b", "B", "text b")]);
    s.select_page("b");
    assert_eq!(s.current_page_id.as_deref(), Some("b"));
    assert_eq!(s.page_title_buffer, "B");
    assert_eq!(s.page_content_buffer, "text b");
    s.select_page("missing");
    assert_eq!(s.current_page_id.as_deref(), Some("b"));
    assert_eq!(s.page_title_buffer, "B");
    let mut none = EditorSession::new();
    none.select_page("a");
    assert!(none.current_page_id.is_none());
}

#[test]
fn save_current_page_writes_the_buffers() {
    let mut s = session_with(vec![page("a", "A", "text a"), page("b", "B", "text b")]);
    s.select_page("a");
    s.page_title_buffer = "A2".to_string();
    s.page_content_buffer = format!("{}new text", HINT_TEXT);
    assert!(!s.save_current_page_at(stamp(700)));
    let nb = s.notebook.as_ref().unwrap();
    assert_eq!(nb.pages[0].title, "A2");
    assert_eq!(nb.pages[0].content, "new text");
    assert_eq!(nb.pages[0].modified, stamp(700));
    assert_eq!(nb.modified, stamp(700));
    assert_eq!(nb.pages[1].content, "text b");
    assert_eq!(s.page_content_buffer, format!("{}new text", HINT_TEXT));
    s.autosave_enabled = true;
    assert!(s.save_current_page());
    s.current_page_id = Some("gone".to_string());
    assert!(s.save_current_page_at(stamp(800)));
    assert_eq!(s.notebook.as_ref().unwrap().modified.secs() > 700, true);
    assert_ne!(s.notebook.as_ref().unwrap().modified, stamp(800));
    s.current_page_id = None;
    assert!(!s.save_current_page());
    let mut none = EditorSession::new();
    none.autosave_enabled = true;
    assert!(!none.save_current_page());
}

#[test]
fn overflow_moves_the_rest_to_a_continuation() {
    let mut s = session_with(vec![page("a", "Notes", "old")]);
    s.select_page("a");
    s.page_content_buffer = "aaaa bbbb cccc".to_string();
    assert!(s.handle_page_overflow_with(10, "next".to_string(), stamp(900)));
    let nb = s.notebook.as_ref().unwrap();
    assert_eq!(nb.pages.len(), 2);
    assert_eq!(nb.pages[0].id, "a");
    assert_eq!(nb.pages[0].title, "Notes");
    assert_eq!(nb.pages[0].content, "aaaa bbbb ");
    assert_eq!(nb.pages[0].number, Some(1));
    assert_eq!(nb.pages[1].id, "next");
    assert_eq!(nb.pages[1].title, "Notes (cont.)");
    assert_eq!(nb.pages[1].content, "cccc");
    assert_eq!(nb.pages[1].number, Some(2));
    assert_eq!(nb.pages[1].created, stamp(900));
    assert_eq!(nb.modified, stamp(900));
    assert_eq!(s.current_page_id.as_deref(), Some("next"));
    assert_eq!(s.page_title_buffer, "Notes (cont.)");
    assert_eq!(s.page_content_buffer, "cccc");
}

#[test]
fn overflow_of_a_continuation_keeps_the_title() {
    let mut s = session_with(vec![page("a", "Notes", "old")]);
    s.select_page("a");
    s.page_content_buffer = "one two three four five six".to_string();
    assert!(s.handle_page_overflow_with(10, "second".to_string(), stamp(900)));
    assert!(s.handle_page_overflow_with(10, "third".to_string(), stamp(901)));
    assert!(s.handle_page_overflow_with(10, "fourth".to_string(), stamp(902)));
    assert!(!s.handle_page_overflow_with(10, "fifth".to_string(), stamp(903)));
    let nb = s.notebook.as_ref().unwrap();
    let contents: Vec<&str> = nb.pages.iter().map(|p| p.content.as_str()).collect();
    assert_eq!(contents, vec!["one two ", "three ", "four five ", "six"]);
    assert_eq!(titles(&s), vec!["Notes", "Notes (cont.)", "Notes (cont.)", "Notes (cont.)"]);
    let numbers: Vec<Option<u32>> = nb.pages.iter().map(|p| p.number).collect();
    assert_eq!(numbers, vec![Some(1), Some(2), Some(3), Some(4)]);
    assert_eq!(s.current_page_id.as_deref(), Some("fourth"));
    assert_eq!(nb.modified, stamp(902));
}

#[test]
fn text_within_the_capacity_is_left_alone() {
    let mut s = session_with(vec![page("a", "Notes", "old")]);
    s.select_page("a");
    s.page_content_buffer = "0123456789".to_string();
    assert!(!s.handle_page_overflow_with(10, "next".to_string(), stamp(900)));
    assert_eq!(s.notebook.as_ref().unwrap().pages.len(), 1);
    assert_eq!(s.notebook.as_ref().unwrap().pages[0].content, "old");
    assert_eq!(s.notebook.as_ref().unwrap().modified, stamp(60));
    assert_eq!(s.page_content_buffer, "0123456789");
    s.page_content_buffer = format!("{}0123456789", HINT_TEXT);
    assert!(!s.handle_page_overflow_with(10, "next".to_string(), stamp(900)));
    assert!(!s.handle_page_overflow());
}

#[test]
fn overflow_without_a_notebook_or_a_page_to_shorten() {
    let mut none = EditorSession::new();
    none.page_content_buffer = "0123456789abc".to_string();
    assert!(!none.handle_page_overflow_with(10, "next".to_string(), stamp(900)));
    assert!(none.notebook.is_none());
    assert_eq!(none.page_content_buffer, "0123456789abc");
    let mut s = session_with(vec![page("a", "Notes", "old")]);
    s.page_title_buffer = "Loose".to_string();
    s.page_content_buffer = "0123456789abc".to_string();
    assert!(s.handle_page_overflow_with(10, "next".to_string(), stamp(900)));
    let nb = s.notebook.as_ref().unwrap();
    assert_eq!(nb.pages[0].content, "old");
    assert_eq!(nb.pages[1].title, "Loose (cont.)");
    assert_eq!(nb.pages[1].content, "abc");
    assert_eq!(s.current_page_id.as_deref(), Some("next"));
}

#[test]
fn overflow_at_the_capacity_of_a_printed_page() {
    let mut s = session_with(vec![page("a", "Notes", "")]);
    s.select_page("a");
    s.page_content_buffer = "x".repeat(PAGE_MAX_CHARS);
    assert!(!s.handle_page_overflow());
    s.page_content_buffer = "x".repeat(PAGE_MAX_CHARS + 1);
    assert!(s.handle_page_overflow());
    let nb = s.notebook.as_ref().unwrap();
    assert_eq!(nb.pages.len(), 2);
    assert_eq!(nb.pages[0].content, "x".repeat(PAGE_MAX_CHARS));
    assert_eq!(nb.pages[1].content, "x");
    assert_eq!(nb.pages[1].title, "Notes (cont.)");
    assert_eq!(nb.pages[1].id.len(), 36);
    assert_eq!(s.current_page_id.as_ref(), Some(&nb.pages[1].id));
    assert_eq!(s.page_content_buffer, "x");
}

#[test]
fn create_new_page_appends_and_selects() {
    let mut s = session_with(vec![page("a", "A", "text a")]);
    s.select_page("a");
    s.create_new_page_with("fresh".to_string(), stamp(900));
    let nb = s.notebook.as_ref().unwrap();
    assert_eq!(nb.pages.len(), 2);
    assert_eq!(nb.pages[1].id, "fresh");
    assert_eq!(nb.pages[1].title, "New Page");
    assert_eq!(nb.pages[1].content, "");
    assert_eq!(nb.pages[1].number, Some(2));
    assert_eq!(s.current_page_id.as_deref(), Some("fresh"));
    assert_eq!(s.page_title_buffer, "New Page");
    assert_eq!(s.page_content_buffer, "");
    s.create_new_page();
    assert_eq!(s.notebook.as_ref().unwrap().pages.len(), 3);
    assert_eq!(s.page_title_buffer, "New Page");
    let mut none = EditorSession::new();
    none.create_new_page();
    assert!(none.notebook.is_none());
    assert!(none.current_page_id.is_none());
}

#[test]
fn new_page_with_a_taken_identifier_selects_the_first() {
    let mut s = session_with(vec![page("a", "A", "text a")]);
    s.create_new_page_with("a".to_string(), stamp(900));
    assert_eq!(s.notebook.as_ref().unwrap().pages.len(), 2);
    assert_eq!(s.current_page_id.as_deref(), Some("a"));
    assert_eq!(s.page_title_buffer, "A");
    assert_eq!(s.page_content_buffer, "text a");
}
