//! The notebook and its pages.
//!
//! A notebook is an ordered list of pages. Every change of the list goes
//! through the notebook, which then numbers the pages from one in their
//! order and records the time of the change.

use crate::ident::{is_uuid_text, new_id};
use crate::timestamp::Timestamp;
use vstd::prelude::*;
use vstd::string::StringExecFns;

verus! {

/// What a page holds, as plain values.
pub struct PageView {
    pub id: Seq<char>,
    pub title: Seq<char>,
    pub content: Seq<char>,
    pub number: Option<u32>,
    pub created: Timestamp,
    pub modified: Timestamp,
}

/// A titled unit of text with its identifier, its place and its times.
#[derive(Debug)]
pub struct Page {
    pub id: String,
    pub title: String,
    pub content: String,
    pub number: Option<u32>,
    pub created: Timestamp,
    pub modified: Timestamp,
}

impl View for Page {
    type V = PageView;

    open spec fn view(&self) -> PageView {
        PageView {
            id: self.id@,
            title: self.title@,
            content: self.content@,
            number: self.number,
            created: self.created,
            modified: self.modified,
        }
    }
}

impl Clone for Page {
    fn clone(&self) -> (r: Self)
        ensures
            r@ == self@,
    {
        Page {
            id: self.id.clone(),
            title: self.title.clone(),
            content: self.content.clone(),
            number: self.number,
            created: self.created,
            modified: self.modified,
        }
    }
}

impl PageView {
    /// The page with a new title and content, changed at `now`.
    pub open spec fn with_text(self, title: Seq<char>, content: Seq<char>, now: Timestamp) -> PageView {
        PageView { title, content, modified: now, ..self }
    }

    /// The page with a new number, changed at `now`.
    pub open spec fn with_number(self, number: Option<u32>, now: Timestamp) -> PageView {
        PageView { number, modified: now, ..self }
    }
}

impl Page {
    /// A new page with a fresh identifier, created now. The number is kept
    /// until the page enters a notebook.
    pub fn new(title: String, content: String, number: Option<u32>) -> (p: Page)
        ensures
            is_uuid_text(p@.id),
            p@.title == title@,
            p@.content == content@,
            p@.number == number,
            p@.modified == p@.created,
    {
        let now = Timestamp::now();
        Page { id: new_id(), title, content, number, created: now, modified: now }
    }

    /// Replaces title and content and records the time of the change.
    pub fn update_content(&mut self, title: String, content: String)
        ensures
            final(self)@ == old(self)@.with_text(title@, content@, final(self)@.modified),
    {
        self.title = title;
        self.content = content;
        self.modified = Timestamp::now();
    }

    /// Sets the number and records the time of the change.
    pub fn set_number(&mut self, number: Option<u32>)
        ensures
            final(self)@ == old(self)@.with_number(number, final(self)@.modified),
    {
        self.number = number;
        self.modified = Timestamp::now();
    }
}

/// The pages numbered from one in their order, each changed at `now`.
pub open spec fn renumbered(pages: Seq<PageView>, now: Timestamp) -> Seq<PageView> {
    Seq::new(pages.len(), |i: int| pages[i].with_number(Some((i + 1) as u32), now))
}

/// Whether each page carries its place in the order, counted from one.
pub open spec fn numbered(pages: Seq<PageView>) -> bool {
    forall|i: int| 0 <= i < pages.len() ==> (#[trigger] pages[i]).number == Some((i + 1) as u32)
}

/// Whether `i` is the place of the first page with the identifier `id`.
pub open spec fn is_position(pages: Seq<PageView>, id: Seq<char>, i: int) -> bool {
    &&& 0 <= i < pages.len()
    &&& pages[i].id == id
    &&& forall|j: int| 0 <= j < i ==> (#[trigger] pages[j]).id != id
}

/// The place of the first page with the identifier `id`, if there is one.
pub open spec fn position(pages: Seq<PageView>, id: Seq<char>) -> Option<int> {
    if exists|i: int| is_position(pages, id, i) {
        Some(choose|i: int| is_position(pages, id, i))
    } else {
        None
    }
}

/// Whether no two pages share an identifier.
pub open spec fn distinct_ids(pages: Seq<PageView>) -> bool {
    forall|i: int, j: int|
        0 <= i < j < pages.len() ==> (#[trigger] pages[i]).id != (#[trigger] pages[j]).id
}

/// What a notebook holds, as plain values.
pub struct NotebookView {
    pub id: Seq<char>,
    pub title: Seq<char>,
    pub pages: Seq<PageView>,
    pub created: Timestamp,
    pub modified: Timestamp,
}

impl NotebookView {
    /// The notebook after `page` was appended at `now`.
    pub open spec fn with_page(self, page: PageView, now: Timestamp) -> NotebookView {
        NotebookView { pages: renumbered(self.pages.push(page), now), modified: now, ..self }
    }

    /// The notebook after the first page with the identifier `id` was taken
    /// out at `now`; the notebook itself where there is no such page.
    pub open spec fn without_page(self, id: Seq<char>, now: Timestamp) -> NotebookView {
        match position(self.pages, id) {
            Some(i) => NotebookView {
                pages: renumbered(self.pages.remove(i), now),
                modified: now,
                ..self
            },
            None => self,
        }
    }

    /// The notebook after the first page with the identifier `id` got a new
    /// title and content at `now`; the notebook itself where there is no
    /// such page.
    pub open spec fn with_page_text(
        self,
        id: Seq<char>,
        title: Seq<char>,
        content: Seq<char>,
        now: Timestamp,
    ) -> NotebookView {
        match position(self.pages, id) {
            Some(i) => NotebookView {
                pages: self.pages.update(i, self.pages[i].with_text(title, content, now)),
                modified: now,
                ..self
            },
            None => self,
        }
    }

    /// The notebook after the page at `from` was moved to `to` at `now`; the
    /// notebook itself where one of the two is no place in it.
    pub open spec fn with_page_moved(self, from: int, to: int, now: Timestamp) -> NotebookView {
        if 0 <= from < self.pages.len() && 0 <= to < self.pages.len() {
            NotebookView {
                pages: renumbered(self.pages.remove(from).insert(to, self.pages[from]), now),
                modified: now,
                ..self
            }
        } else {
            self
        }
    }
}

/// An ordered collection of pages with a title, an identifier and its times.
#[derive(Debug)]
pub struct Notebook {
    pub id: String,
    pub title: String,
    pub pages: Vec<Page>,
    pub created: Timestamp,
    pub modified: Timestamp,
}

/// The plain values of a list of pages.
pub open spec fn page_views(pages: Seq<Page>) -> Seq<PageView> {
    pages.map_values(|p: Page| p@)
}

impl View for Notebook {
    type V = NotebookView;

    open spec fn view(&self) -> NotebookView {
        NotebookView {
            id: self.id@,
            title: self.title@,
            pages: page_views(self.pages@),
            created: self.created,
            modified: self.modified,
        }
    }
}

impl Clone for Notebook {
    fn clone(&self) -> (r: Self)
        ensures
            r@ == self@,
    {
        let mut pages: Vec<Page> = Vec::new();
        let mut i: usize = 0;
        while i < self.pages.len()
            invariant
                i <= self.pages.len(),
                page_views(pages@) == page_views(self.pages@).take(i as int),
            decreases self.pages.len() - i,
        {
            let ghost before = page_views(pages@);
            pages.push(self.pages[i].clone());
            assert(page_views(pages@) =~= before.push(self.pages[i as int]@));
            assert(page_views(self.pages@).take(i + 1) =~= page_views(self.pages@).take(
                i as int,
            ).push(self.pages[i as int]@));
            i += 1;
        }
        assert(page_views(self.pages@).take(self.pages.len() as int) =~= page_views(self.pages@));
        Notebook {
            id: self.id.clone(),
            title: self.title.clone(),
            pages,
            created: self.created,
            modified: self.modified,
        }
    }
}

/// The first place that holds the identifier is its position.
pub proof fn lemma_position_is(pages: Seq<PageView>, id: Seq<char>, i: int)
    requires
        is_position(pages, id, i),
    ensures
        position(pages, id) == Some(i),
{
    let k = choose|k: int| is_position(pages, id, k);
    if k < i {
        assert(pages[k].id != id);
    } else if i < k {
        assert(pages[i].id != id);
    }
}

/// A position holds the identifier, and no earlier place does; where there
/// is no position, no page has the identifier.
pub proof fn lemma_position(pages: Seq<PageView>, id: Seq<char>)
    ensures
        match position(pages, id) {
            Some(i) => is_position(pages, id, i),
            None => forall|j: int| 0 <= j < pages.len() ==> (#[trigger] pages[j]).id != id,
        },
{
    if position(pages, id) is None {
        assert forall|j: int| 0 <= j < pages.len() implies (#[trigger] pages[j]).id != id by {
            if pages[j].id == id {
                lemma_first_holder(pages, id, j);
            }
        }
    }
}

/// Where some page up to `j` has the identifier, there is a first one.
proof fn lemma_first_holder(pages: Seq<PageView>, id: Seq<char>, j: int)
    requires
        0 <= j < pages.len(),
        pages[j].id == id,
    ensures
        exists|i: int| is_position(pages, id, i),
    decreases j,
{
    if forall|k: int| 0 <= k < j ==> (#[trigger] pages[k]).id != id {
        assert(is_position(pages, id, j));
    } else {
        let k = choose|k: int| 0 <= k < j && (#[trigger] pages[k]).id == id;
        lemma_first_holder(pages, id, k);
    }
}

/// Renumbered pages are numbered, as long as their count fits 32 bits.
pub proof fn lemma_renumbered(pages: Seq<PageView>, now: Timestamp)
    requires
        pages.len() <= u32::MAX,
    ensures
        numbered(renumbered(pages, now)),
        renumbered(pages, now).len() == pages.len(),
        forall|i: int|
            0 <= i < pages.len() ==> {
                &&& (#[trigger] renumbered(pages, now)[i]).id == pages[i].id
                &&& renumbered(pages, now)[i].title == pages[i].title
                &&& renumbered(pages, now)[i].content == pages[i].content
                &&& renumbered(pages, now)[i].created == pages[i].created
                &&& renumbered(pages, now)[i].number == Some((i + 1) as u32)
                &&& renumbered(pages, now)[i].modified == now
            },
{
}

impl Notebook {
    /// A new, empty notebook with a fresh identifier, created now.
    pub fn new(title: String) -> (n: Notebook)
        ensures
            is_uuid_text(n@.id),
            n@.title == title@,
            n@.pages.len() == 0,
            n@.modified == n@.created,
    {
        let now = Timestamp::now();
        Notebook { id: new_id(), title, pages: Vec::new(), created: now, modified: now }
    }

    /// The place of the first page with the identifier `page_id`.
    pub fn position_of(&self, page_id: &str) -> (r: Option<usize>)
        ensures
            match r {
                Some(i) => position(self@.pages, page_id@) == Some(i as int),
                None => position(self@.pages, page_id@) is None,
            },
    {
        let wanted = String::from_str(page_id);
        let mut i: usize = 0;
        while i < self.pages.len()
            invariant
                i <= self.pages.len(),
                wanted@ == page_id@,
                forall|j: int| 0 <= j < i ==> (#[trigger] self@.pages[j]).id != page_id@,
            decreases self.pages.len() - i,
        {
            if self.pages[i].id == wanted {
                proof {
                    lemma_position_is(self@.pages, page_id@, i as int);
                }
                return Some(i);
            }
            i += 1;
        }
        proof {
            lemma_position(self@.pages, page_id@);
        }
        None
    }

    /// Numbers the pages from one in their order and marks each as changed
    /// at `now`.
    fn update_page_numbers(&mut self, now: Timestamp)
        requires
            old(self).pages.len() <= u32::MAX,
        ensures
            final(self)@ == (NotebookView { pages: renumbered(old(self)@.pages, now), ..old(self)@ }),
    {
        let mut i: usize = 0;
        while i < self.pages.len()
            invariant
                i <= self.pages.len(),
                self.pages.len() == old(self).pages.len(),
                self.pages.len() <= u32::MAX,
                self.id == old(self).id,
                self.title == old(self).title,
                self.created == old(self).created,
                self.modified == old(self).modified,
                forall|j: int|
                    0 <= j < i ==> (#[trigger] self.pages[j])@ == old(self).pages[j]@.with_number(
                        Some((j + 1) as u32),
                        now,
                    ),
                forall|j: int| i <= j < self.pages.len() ==> self.pages[j] == old(self).pages[j],
            decreases self.pages.len() - i,
        {
            let page = &mut self.pages[i];
            page.number = Some((i + 1) as u32);
            page.modified = now;
            i += 1;
        }
        assert(final(self)@.pages =~= renumbered(old(self)@.pages, now));
    }

    /// Appends `page`, renumbers the pages and records the time of the change.
    pub fn add_page(&mut self, page: Page)
        requires
            old(self).pages.len() < u32::MAX,
        ensures
            final(self)@ == old(self)@.with_page(page@, final(self)@.modified),
            numbered(final(self)@.pages),
    {
        self.add_page_at(page, Timestamp::now());
    }

    /// Appends `page` and renumbers the pages, with `now` as the time of
    /// the change.
    pub fn add_page_at(&mut self, page: Page, now: Timestamp)
        requires
            old(self).pages.len() < u32::MAX,
        ensures
            final(self)@ == old(self)@.with_page(page@, now),
            numbered(final(self)@.pages),
    {
        self.pages.push(page);
        self.modified = now;
        assert(self@.pages =~= old(self)@.pages.push(page@));
        self.update_page_numbers(now);
        proof {
            lemma_renumbered(old(self)@.pages.push(page@), now);
        }
    }

    /// Takes out the first page with the identifier `page_id` and returns it
    /// as it was; the remaining pages are renumbered and the time of the
    /// change is recorded. Without such a page nothing changes.
    pub fn remove_page(&mut self, page_id: &str) -> (r: Option<Page>)
        requires
            old(self).pages.len() <= u32::MAX,
        ensures
            final(self)@ == old(self)@.without_page(page_id@, final(self)@.modified),
            match position(old(self)@.pages, page_id@) {
                Some(i) => r matches Some(p) && p@ == old(self)@.pages[i] && numbered(
                    final(self)@.pages,
                ),
                None => r is None,
            },
            numbered(old(self)@.pages) ==> numbered(final(self)@.pages),
    {
        self.remove_page_at(page_id, Timestamp::now())
    }

    /// Takes out the first page with the identifier `page_id` and returns
    /// it as it was, with `now` as the time of the change.
    pub fn remove_page_at(&mut self, page_id: &str, now: Timestamp) -> (r: Option<Page>)
        requires
            old(self).pages.len() <= u32::MAX,
        ensures
            final(self)@ == old(self)@.without_page(page_id@, now),
            match position(old(self)@.pages, page_id@) {
                Some(i) => r matches Some(p) && p@ == old(self)@.pages[i] && numbered(
                    final(self)@.pages,
                ),
                None => r is None,
            },
            numbered(old(self)@.pages) ==> numbered(final(self)@.pages),
    {
        match self.position_of(page_id) {
            Some(pos) => {
                let page = self.pages.remove(pos);
                self.modified = now;
                assert(self@.pages =~= old(self)@.pages.remove(pos as int));
                self.update_page_numbers(now);
                proof {
                    lemma_renumbered(old(self)@.pages.remove(pos as int), now);
                }
                Some(page)
            },
            None => None,
        }
    }

    /// The first page with the identifier `page_id`, for changing it.
    pub fn get_page_mut(&mut self, page_id: &str) -> (r: Option<&mut Page>)
        ensures
            match position(old(self)@.pages, page_id@) {
                Some(i) => r matches Some(p) && *p == old(self).pages[i] && *final(self) == (
                Notebook { pages: final(self).pages, ..*old(self) }) && final(self).pages@ == old(
                    self,
                ).pages@.update(i, *final(p)),
                None => r is None && *final(self) == *old(self),
            },
    {
        match self.position_of(page_id) {
            Some(pos) => Some(&mut self.pages[pos]),
            None => None,
        }
    }

    /// The first page with the identifier `page_id`.
    pub fn get_page(&self, page_id: &str) -> (r: Option<&Page>)
        ensures
            match position(self@.pages, page_id@) {
                Some(i) => r matches Some(p) && *p == self.pages[i],
                None => r is None,
            },
    {
        match self.position_of(page_id) {
            Some(pos) => Some(&self.pages[pos]),
            None => None,
        }
    }

    /// Gives the first page with the identifier `page_id` a new title and
    /// content and records the time of the change. Returns whether there
    /// was such a page; without one nothing changes.
    pub fn update_page(&mut self, page_id: &str, title: String, content: String) -> (found: bool)
        ensures
            found == position(old(self)@.pages, page_id@).is_some(),
            final(self)@ == old(self)@.with_page_text(
                page_id@,
                title@,
                content@,
                final(self)@.modified,
            ),
            !found ==> final(self)@ == old(self)@,
            numbered(old(self)@.pages) ==> numbered(final(self)@.pages),
    {
        self.update_page_at(page_id, title, content, Timestamp::now())
    }

    /// Gives the first page with the identifier `page_id` a new title and
    /// content, with `now` as the time of the change.
    pub fn update_page_at(
        &mut self,
        page_id: &str,
        title: String,
        content: String,
        now: Timestamp,
    ) -> (found: bool)
        ensures
            found == position(old(self)@.pages, page_id@).is_some(),
            final(self)@ == old(self)@.with_page_text(page_id@, title@, content@, now),
            numbered(old(self)@.pages) ==> numbered(final(self)@.pages),
    {
        match self.position_of(page_id) {
            Some(pos) => {
                let page = &mut self.pages[pos];
                page.title = title;
                page.content = content;
                page.modified = now;
                self.modified = now;
                assert(final(self)@.pages =~= old(self)@.pages.update(
                    pos as int,
                    old(self)@.pages[pos as int].with_text(title@, content@, now),
                ));
                true
            },
            None => false,
        }
    }

    /// Moves the page at `from_index` to `to_index`, renumbers the pages and
    /// records the time of the change. Where one of the two is no place in
    /// the notebook, nothing changes.
    pub fn reorder_pages(&mut self, from_index: usize, to_index: usize)
        requires
            old(self).pages.len() <= u32::MAX,
        ensures
            final(self)@ == old(self)@.with_page_moved(
                from_index as int,
                to_index as int,
                final(self)@.modified,
            ),
            from_index < old(self).pages.len() && to_index < old(self).pages.len() ==> numbered(
                final(self)@.pages,
            ),
            numbered(old(self)@.pages) ==> numbered(final(self)@.pages),
    {
        self.reorder_pages_at(from_index, to_index, Timestamp::now());
    }

    /// Moves the page at `from_index` to `to_index` and renumbers the
    /// pages, with `now` as the time of the change.
    pub fn reorder_pages_at(&mut self, from_index: usize, to_index: usize, now: Timestamp)
        requires
            old(self).pages.len() <= u32::MAX,
        ensures
            final(self)@ == old(self)@.with_page_moved(from_index as int, to_index as int, now),
            from_index < old(self).pages.len() && to_index < old(self).pages.len() ==> numbered(
                final(self)@.pages,
            ),
            numbered(old(self)@.pages) ==> numbered(final(self)@.pages),
    {
        if from_index < self.pages.len() && to_index < self.pages.len() {
            let page = self.pages.remove(from_index);
            self.pages.insert(to_index, page);
            self.modified = now;
            assert(self@.pages =~= old(self)@.pages.remove(from_index as int).insert(
                to_index as int,
                old(self)@.pages[from_index as int],
            ));
            self.update_page_numbers(now);
            proof {
                lemma_renumbered(
                    old(self)@.pages.remove(from_index as int).insert(
                        to_index as int,
                        old(self)@.pages[from_index as int],
                    ),
                    now,
                );
            }
        }
    }
}

} // verus!
