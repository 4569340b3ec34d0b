//! The state of an editing session: the open notebook, the page being
//! edited and the buffers that hold its title and text.
//!
//! The session decides what a change of the buffers does to the notebook.
//! Showing the buffers and writing files is left to the caller.

use crate::ident::{is_uuid_text, new_id};
use crate::notebook::{position, Notebook, NotebookView, Page, PageView};
use crate::paginator::{
    continuation_title, continued_title, split_if_overflowing, split_text, PAGE_MAX_CHARS,
};
use crate::text::{chars_of, ends_with, matches_at, starts_with, string_of};
use crate::timestamp::Timestamp;
use vstd::prelude::*;
use vstd::slice::slice_subrange;
use vstd::string::StringExecFns;

verus! {

/// The hint that an empty editor shows in place of text.
pub const HINT_TEXT: &'static str = "Start writing your notes here...";

/// The hint as a character sequence.
pub open spec fn hint() -> Seq<char> {
    "Start writing your notes here..."@
}

/// The text of the editor without the hint: without one at its start, and
/// then without one at its end.
pub open spec fn cleaned(content: Seq<char>) -> Seq<char> {
    let first = if starts_with(content, hint()) {
        content.skip(hint().len() as int)
    } else {
        content
    };
    if ends_with(first, hint()) {
        first.take(first.len() - hint().len())
    } else {
        first
    }
}

/// The title of the notebook that a session without one starts.
pub open spec fn default_title() -> Seq<char> {
    "Default Notebook"@
}

/// The title of the first page of that notebook.
pub open spec fn welcome_title() -> Seq<char> {
    "Welcome to NotebookX"@
}

/// The text of the first page of that notebook.
pub open spec fn welcome_text() -> Seq<char> {
    "Welcome to NotebookX!\n\nThis is your first page. You can:\n- Create new pages\n- Edit page titles and content\n- Save your notebook\n- Open existing notebooks\n\nStart writing your notes here!"@
}

/// The title of a page made on request.
pub open spec fn new_page_title() -> Seq<char> {
    "New Page"@
}

/// A page made at `now` that has not been changed since.
pub open spec fn new_page(
    id: Seq<char>,
    title: Seq<char>,
    content: Seq<char>,
    number: Option<u32>,
    now: Timestamp,
) -> PageView {
    PageView { id, title, content, number, created: now, modified: now }
}

/// What a session holds, as plain values.
pub struct SessionView {
    pub notebook: Option<NotebookView>,
    pub current_page_id: Option<Seq<char>>,
    pub title: Seq<char>,
    pub content: Seq<char>,
    pub autosave_enabled: bool,
}

impl SessionView {
    /// The session after the page with the identifier `id` was chosen for
    /// editing: it is the current page and the buffers hold its title and
    /// text. Without a notebook or such a page the session stays as it is.
    pub open spec fn selecting(self, id: Seq<char>) -> SessionView {
        match self.notebook {
            Some(nb) => match position(nb.pages, id) {
                Some(i) => SessionView {
                    current_page_id: Some(id),
                    title: nb.pages[i].title,
                    content: nb.pages[i].content,
                    ..self
                },
                None => self,
            },
            None => self,
        }
    }

    /// The session after the buffers were written to the current page at
    /// `now`. Without a notebook or a current page it stays as it is.
    pub open spec fn saved(self, now: Timestamp) -> SessionView {
        match (self.notebook, self.current_page_id) {
            (Some(nb), Some(id)) => SessionView {
                notebook: Some(nb.with_page_text(id, self.title, cleaned(self.content), now)),
                ..self
            },
            _ => self,
        }
    }

    /// Whether the text of the editor exceeds `capacity` and there is a
    /// notebook to take what is over.
    pub open spec fn overflows(self, capacity: int) -> bool {
        self.notebook is Some && cleaned(self.content).len() > capacity
    }

    /// The session after an overflow was handled at `now`: the current page
    /// keeps the first part of the text, a page with the identifier `id`
    /// that continues it holds the rest and is appended, and the session
    /// moves on to that page. A session that does not overflow stays as it
    /// is.
    pub open spec fn after_overflow(self, capacity: int, id: Seq<char>, now: Timestamp) -> SessionView {
        match (self.notebook, split_text(cleaned(self.content), capacity)) {
            (Some(nb), Some((kept, overflow))) => {
                let shortened = match self.current_page_id {
                    Some(current) => nb.with_page_text(current, self.title, kept, now),
                    None => nb,
                };
                let title = continued_title(self.title);
                SessionView {
                    notebook: Some(
                        shortened.with_page(new_page(id, title, overflow, None, now), now),
                    ),
                    current_page_id: Some(id),
                    title,
                    content: overflow,
                    ..self
                }
            },
            _ => self,
        }
    }

    /// The session after it was given a notebook with one page of welcome,
    /// made at `now`, where it had none.
    pub open spec fn with_default_notebook(
        self,
        notebook_id: Seq<char>,
        page_id: Seq<char>,
        now: Timestamp,
    ) -> SessionView {
        match self.notebook {
            Some(_) => self,
            None => {
                let empty = NotebookView {
                    id: notebook_id,
                    title: default_title(),
                    pages: Seq::empty(),
                    created: now,
                    modified: now,
                };
                let page = new_page(page_id, welcome_title(), welcome_text(), Some(1), now);
                SessionView {
                    notebook: Some(empty.with_page(page, now)),
                    current_page_id: Some(page_id),
                    title: welcome_title(),
                    content: welcome_text(),
                    ..self
                }
            },
        }
    }

    /// The session after an empty page with the identifier `id` was
    /// appended at `now` and chosen for editing. Without a notebook the
    /// session stays as it is.
    pub open spec fn with_new_page(self, id: Seq<char>, now: Timestamp) -> SessionView {
        match self.notebook {
            Some(nb) => (SessionView {
                notebook: Some(
                    nb.with_page(new_page(id, new_page_title(), Seq::empty(), None, now), now),
                ),
                ..self
            }).selecting(id),
            None => self,
        }
    }
}

/// An editing session.
#[derive(Debug)]
pub struct EditorSession {
    pub notebook: Option<Notebook>,
    pub current_page_id: Option<String>,
    pub page_title_buffer: String,
    pub page_content_buffer: String,
    pub autosave_enabled: bool,
}

impl View for EditorSession {
    type V = SessionView;

    open spec fn view(&self) -> SessionView {
        SessionView {
            notebook: match self.notebook {
                Some(nb) => Some(nb@),
                None => None,
            },
            current_page_id: match self.current_page_id {
                Some(id) => Some(id@),
                None => None,
            },
            title: self.page_title_buffer@,
            content: self.page_content_buffer@,
            autosave_enabled: self.autosave_enabled,
        }
    }
}

/// The text of the editor without the hint.
pub fn clean_content(content: &str) -> (r: String)
    ensures
        r@ == cleaned(content@),
{
    let chars = chars_of(content);
    let hint = chars_of(HINT_TEXT);
    let all = chars.as_slice();
    let first: &[char] = if matches_at(all, hint.as_slice(), 0) {
        slice_subrange(all, hint.len(), all.len())
    } else {
        all
    };
    let carries = hint.len() <= first.len() && matches_at(
        first,
        hint.as_slice(),
        first.len() - hint.len(),
    );
    if carries {
        string_of(slice_subrange(first, 0, first.len() - hint.len()))
    } else {
        string_of(first)
    }
}

impl EditorSession {
    /// A session without a notebook, with empty buffers.
    pub fn new() -> (s: EditorSession)
        ensures
            s@ == (SessionView {
                notebook: None,
                current_page_id: None,
                title: Seq::empty(),
                content: Seq::empty(),
                autosave_enabled: false,
            }),
    {
        EditorSession {
            notebook: None,
            current_page_id: None,
            page_title_buffer: String::new(),
            page_content_buffer: String::new(),
            autosave_enabled: false,
        }
    }

    /// How many characters the text of the editor holds, the hint aside.
    pub fn get_clean_content_length(&self) -> (n: usize)
        ensures
            n == cleaned(self@.content).len(),
    {
        clean_content(self.page_content_buffer.as_str()).as_str().unicode_len()
    }

    /// Chooses the page with the identifier `page_id` for editing.
    pub fn select_page(&mut self, page_id: &str)
        ensures
            final(self)@ == old(self)@.selecting(page_id@),
    {
        match &self.notebook {
            Some(notebook) => match notebook.get_page(page_id) {
                Some(page) => {
                    let title = page.title.clone();
                    let content = page.content.clone();
                    self.current_page_id = Some(String::from_str(page_id));
                    self.page_title_buffer = title;
                    self.page_content_buffer = content;
                },
                None => {},
            },
            None => {},
        }
    }

    /// Gives a session without a notebook one with a page of welcome, and
    /// chooses that page.
    pub fn ensure_notebook(&mut self)
        ensures
            exists|notebook_id: Seq<char>, page_id: Seq<char>, now: Timestamp|
                final(self)@ == #[trigger] old(self)@.with_default_notebook(
                    notebook_id,
                    page_id,
                    now,
                ) && is_uuid_text(notebook_id) && is_uuid_text(page_id),
    {
        let notebook_id = new_id();
        let page_id = new_id();
        let now = Timestamp::now();
        let ghost witness = old(self)@.with_default_notebook(notebook_id@, page_id@, now);
        self.ensure_notebook_with(notebook_id, page_id, now);
        assert(final(self)@ == witness);
    }

    /// Gives a session without a notebook one with the identifier
    /// `notebook_id` and a page of welcome with the identifier `page_id`,
    /// both made at `now`, and chooses that page.
    pub fn ensure_notebook_with(&mut self, notebook_id: String, page_id: String, now: Timestamp)
        ensures
            final(self)@ == old(self)@.with_default_notebook(notebook_id@, page_id@, now),
    {
        if self.notebook.is_none() {
            let mut notebook = Notebook {
                id: notebook_id,
                title: String::from_str("Default Notebook"),
                pages: Vec::new(),
                created: now,
                modified: now,
            };
            assert(notebook@.pages =~= Seq::<PageView>::empty());
            let welcome = Page {
                id: page_id.clone(),
                title: String::from_str("Welcome to NotebookX"),
                content: String::from_str(
                    "Welcome to NotebookX!\n\nThis is your first page. You can:\n- Create new pages\n- Edit page titles and content\n- Save your notebook\n- Open existing notebooks\n\nStart writing your notes here!",
                ),
                number: Some(1),
                created: now,
                modified: now,
            };
            notebook.add_page_at(welcome, now);
            self.notebook = Some(notebook);
            self.current_page_id = Some(page_id);
            self.page_title_buffer = String::from_str("Welcome to NotebookX");
            self.page_content_buffer = String::from_str(
                "Welcome to NotebookX!\n\nThis is your first page. You can:\n- Create new pages\n- Edit page titles and content\n- Save your notebook\n- Open existing notebooks\n\nStart writing your notes here!",
            );
        }
    }

    /// Writes the buffers to the current page. Returns whether the notebook
    /// is now due to be written to its file: a page was there to take the
    /// buffers and the session saves by itself.
    pub fn save_current_page(&mut self) -> (autosave: bool)
        ensures
            exists|now: Timestamp| final(self)@ == #[trigger] old(self)@.saved(now),
            autosave == (old(self)@.autosave_enabled && old(self)@.notebook is Some && old(
                self,
            )@.current_page_id is Some),
    {
        let now = Timestamp::now();
        let ghost witness = old(self)@.saved(now);
        let autosave = self.save_current_page_at(now);
        assert(final(self)@ == witness);
        autosave
    }

    /// Writes the buffers to the current page, with `now` as the time of
    /// the change.
    pub fn save_current_page_at(&mut self, now: Timestamp) -> (autosave: bool)
        ensures
            final(self)@ == old(self)@.saved(now),
            autosave == (old(self)@.autosave_enabled && old(self)@.notebook is Some && old(
                self,
            )@.current_page_id is Some),
    {
        let text = clean_content(self.page_content_buffer.as_str());
        match &mut self.notebook {
            Some(notebook) => match &self.current_page_id {
                Some(page_id) => {
                    notebook.update_page_at(
                        page_id.as_str(),
                        self.page_title_buffer.clone(),
                        text,
                        now,
                    );
                    self.autosave_enabled
                },
                None => false,
            },
            None => false,
        }
    }

    /// Handles a text that exceeds the capacity of a printed page: the
    /// current page keeps the first part, a new page that continues it
    /// takes the rest, and the session moves on to the new page. Returns
    /// whether the text was split.
    pub fn handle_page_overflow(&mut self) -> (split: bool)
        requires
            old(self).notebook matches Some(nb) ==> nb.pages.len() < u32::MAX,
        ensures
            split == old(self)@.overflows(PAGE_MAX_CHARS as int),
            exists|id: Seq<char>, now: Timestamp|
                final(self)@ == #[trigger] old(self)@.after_overflow(
                    PAGE_MAX_CHARS as int,
                    id,
                    now,
                ) && is_uuid_text(id),
    {
        let id = new_id();
        let now = Timestamp::now();
        let ghost witness = old(self)@.after_overflow(PAGE_MAX_CHARS as int, id@, now);
        let split = self.handle_page_overflow_with(PAGE_MAX_CHARS, id, now);
        assert(final(self)@ == witness);
        split
    }

    /// Handles a text that exceeds `capacity`, with `id` as the identifier
    /// of the new page and `now` as the time of the change.
    pub fn handle_page_overflow_with(&mut self, capacity: usize, id: String, now: Timestamp) -> (split:
        bool)
        requires
            old(self).notebook matches Some(nb) ==> nb.pages.len() < u32::MAX,
        ensures
            split == old(self)@.overflows(capacity as int),
            final(self)@ == old(self)@.after_overflow(capacity as int, id@, now),
    {
        let text = clean_content(self.page_content_buffer.as_str());
        let parts = split_if_overflowing(text.as_str(), capacity);
        match &mut self.notebook {
            Some(notebook) => match parts {
                Some((kept, overflow)) => {
                    match &self.current_page_id {
                        Some(current) => {
                            notebook.update_page_at(
                                current.as_str(),
                                self.page_title_buffer.clone(),
                                kept,
                                now,
                            );
                        },
                        None => {},
                    }
                    let title = continuation_title(self.page_title_buffer.as_str());
                    let page = Page {
                        id: id.clone(),
                        title: title.clone(),
                        content: overflow.clone(),
                        number: None,
                        created: now,
                        modified: now,
                    };
                    notebook.add_page_at(page, now);
                    self.current_page_id = Some(id);
                    self.page_title_buffer = title;
                    self.page_content_buffer = overflow;
                    true
                },
                None => false,
            },
            None => false,
        }
    }

    /// Appends an empty page and chooses it for editing.
    pub fn create_new_page(&mut self)
        requires
            old(self).notebook matches Some(nb) ==> nb.pages.len() < u32::MAX,
        ensures
            exists|id: Seq<char>, now: Timestamp|
                final(self)@ == #[trigger] old(self)@.with_new_page(id, now) && is_uuid_text(id),
    {
        let id = new_id();
        let now = Timestamp::now();
        let ghost witness = old(self)@.with_new_page(id@, now);
        self.create_new_page_with(id, now);
        assert(final(self)@ == witness);
    }

    /// Appends an empty page with the identifier `id`, made at `now`, and
    /// chooses it for editing.
    pub fn create_new_page_with(&mut self, id: String, now: Timestamp)
        requires
            old(self).notebook matches Some(nb) ==> nb.pages.len() < u32::MAX,
        ensures
            final(self)@ == old(self)@.with_new_page(id@, now),
    {
        match &mut self.notebook {
            Some(notebook) => {
                let page = Page {
                    id: id.clone(),
                    title: String::from_str("New Page"),
                    content: String::new(),
                    number: None,
                    created: now,
                    modified: now,
                };
                notebook.add_page_at(page, now);
            },
            None => {
                return ;
            },
        }
        self.select_page(id.as_str());
    }
}

impl Default for EditorSession {
    fn default() -> (s: Self)
        ensures
            s@.notebook is None,
    {
        Self::new()
    }
}

} // verus!
