//! What holds of a notebook after any number of changes.

use crate::notebook::{
    distinct_ids, is_position, lemma_position, lemma_renumbered, numbered, position, renumbered,
    NotebookView, PageView,
};
use crate::timestamp::Timestamp;
use vstd::prelude::*;

verus! {

/// A change that a notebook offers.
pub enum Operation {
    /// Append a page.
    Add { page: PageView },
    /// Take out the page with an identifier.
    Remove { id: Seq<char> },
    /// Give the page with an identifier a new title and content.
    Update { id: Seq<char>, title: Seq<char>, content: Seq<char> },
    /// Move the page at one place to another.
    Reorder { from: int, to: int },
}

/// The notebook after one change made at `now`.
pub open spec fn apply(nb: NotebookView, op: Operation, now: Timestamp) -> NotebookView {
    match op {
        Operation::Add { page } => nb.with_page(page, now),
        Operation::Remove { id } => nb.without_page(id, now),
        Operation::Update { id, title, content } => nb.with_page_text(id, title, content, now),
        Operation::Reorder { from, to } => nb.with_page_moved(from, to, now),
    }
}

/// The notebook after the changes were made in their order, each at its time.
pub open spec fn apply_all(nb: NotebookView, ops: Seq<(Operation, Timestamp)>) -> NotebookView
    decreases ops.len(),
{
    if ops.len() == 0 {
        nb
    } else {
        apply(apply_all(nb, ops.drop_last()), ops.last().0, ops.last().1)
    }
}

/// Whether a change touches the order of the pages of the notebook it is
/// made to: a page is added, a page that is there is taken out, or a page
/// is moved between two places of the notebook.
pub open spec fn changes_order(nb: NotebookView, op: Operation) -> bool {
    match op {
        Operation::Add { page } => true,
        Operation::Remove { id } => position(nb.pages, id) is Some,
        Operation::Update { id, title, content } => false,
        Operation::Reorder { from, to } => 0 <= from < nb.pages.len() && 0 <= to < nb.pages.len(),
    }
}

/// A change that touches the order numbers the pages, whatever their
/// numbers were.
pub proof fn lemma_numbered_by_operation(nb: NotebookView, op: Operation, now: Timestamp)
    requires
        changes_order(nb, op),
        nb.pages.len() < u32::MAX,
    ensures
        numbered(apply(nb, op, now).pages),
{
    match op {
        Operation::Add { page } => {
            lemma_renumbered(nb.pages.push(page), now);
        },
        Operation::Remove { id } => {
            lemma_position(nb.pages, id);
            lemma_renumbered(nb.pages.remove(position(nb.pages, id)->0), now);
        },
        Operation::Update { id, title, content } => {},
        Operation::Reorder { from, to } => {
            lemma_renumbered(nb.pages.remove(from).insert(to, nb.pages[from]), now);
        },
    }
}

/// Changes add at most one page each.
pub proof fn lemma_page_count(nb: NotebookView, ops: Seq<(Operation, Timestamp)>)
    ensures
        apply_all(nb, ops).pages.len() <= nb.pages.len() + ops.len(),
    decreases ops.len(),
{
    if ops.len() > 0 {
        lemma_page_count(nb, ops.drop_last());
        let before = apply_all(nb, ops.drop_last());
        match ops.last().0 {
            Operation::Remove { id } => {
                lemma_position(before.pages, id);
            },
            Operation::Update { id, title, content } => {
                lemma_position(before.pages, id);
            },
            _ => {},
        }
    }
}

/// One change keeps the pages numbered, and adds at most one page.
pub proof fn lemma_numbered_after_operation(nb: NotebookView, op: Operation, now: Timestamp)
    requires
        numbered(nb.pages),
        nb.pages.len() < u32::MAX,
    ensures
        numbered(apply(nb, op, now).pages),
        apply(nb, op, now).pages.len() <= nb.pages.len() + 1,
{
    match op {
        Operation::Add { page } => {
            lemma_renumbered(nb.pages.push(page), now);
        },
        Operation::Remove { id } => {
            lemma_position(nb.pages, id);
            if let Some(i) = position(nb.pages, id) {
                lemma_renumbered(nb.pages.remove(i), now);
            }
        },
        Operation::Update { id, title, content } => {
            lemma_position(nb.pages, id);
        },
        Operation::Reorder { from, to } => {
            if 0 <= from < nb.pages.len() && 0 <= to < nb.pages.len() {
                lemma_renumbered(nb.pages.remove(from).insert(to, nb.pages[from]), now);
            }
        },
    }
}

/// After any changes in any order, each page of a notebook carries its
/// place in the order, counted from one, if that was so before them (as
/// it is in a notebook without pages) and the count of pages stays within
/// 32 bits.
pub proof fn lemma_numbered_after_operations(nb: NotebookView, ops: Seq<(Operation, Timestamp)>)
    requires
        numbered(nb.pages),
        nb.pages.len() + ops.len() <= u32::MAX,
    ensures
        numbered(apply_all(nb, ops).pages),
        apply_all(nb, ops).pages.len() <= nb.pages.len() + ops.len(),
        forall|i: int|
            0 <= i < apply_all(nb, ops).pages.len() ==> (#[trigger] apply_all(
                nb,
                ops,
            ).pages[i]).number == Some((i + 1) as u32) && i + 1 <= u32::MAX,
    decreases ops.len(),
{
    if ops.len() > 0 {
        lemma_numbered_after_operations(nb, ops.drop_last());
        lemma_numbered_after_operation(apply_all(nb, ops.drop_last()), ops.last().0, ops.last().1);
    }
}

/// After changes of which one touched the order of the pages, each page
/// carries its place in the order, counted from one, whatever the numbers
/// were before, as long as the count of pages stays within 32 bits.
pub proof fn lemma_numbered_since_operation(
    nb: NotebookView,
    ops: Seq<(Operation, Timestamp)>,
    k: int,
)
    requires
        0 <= k < ops.len(),
        changes_order(apply_all(nb, ops.take(k)), ops[k].0),
        nb.pages.len() + ops.len() <= u32::MAX,
    ensures
        numbered(apply_all(nb, ops).pages),
    decreases ops.len(),
{
    let before = ops.drop_last();
    lemma_page_count(nb, before);
    if k == ops.len() - 1 {
        assert(ops.take(k) =~= before);
        lemma_numbered_by_operation(apply_all(nb, before), ops.last().0, ops.last().1);
    } else {
        assert(before.take(k) =~= ops.take(k));
        lemma_numbered_since_operation(nb, before, k);
        lemma_numbered_after_operation(apply_all(nb, before), ops.last().0, ops.last().1);
    }
}

/// A change with an identifier that no page has leaves the notebook as it
/// is, the time of its last change included.
pub proof fn lemma_unknown_page(
    nb: NotebookView,
    id: Seq<char>,
    title: Seq<char>,
    content: Seq<char>,
    now: Timestamp,
)
    requires
        forall|i: int| 0 <= i < nb.pages.len() ==> (#[trigger] nb.pages[i]).id != id,
    ensures
        position(nb.pages, id) is None,
        nb.with_page_text(id, title, content, now) == nb,
        nb.without_page(id, now) == nb,
{
    lemma_position(nb.pages, id);
}

/// Renumbering keeps the identifiers where they are.
proof fn lemma_renumbered_ids(pages: Seq<PageView>, now: Timestamp)
    ensures
        distinct_ids(pages) ==> distinct_ids(renumbered(pages, now)),
{
}

/// Where no two pages share an identifier, they do not after a change
/// either, as long as an added page brings an identifier of its own.
pub proof fn lemma_distinct_ids_kept(nb: NotebookView, op: Operation, now: Timestamp)
    requires
        distinct_ids(nb.pages),
        op matches Operation::Add { page } ==> position(nb.pages, page.id) is None,
    ensures
        distinct_ids(apply(nb, op, now).pages),
{
    match op {
        Operation::Add { page } => {
            lemma_position(nb.pages, page.id);
            let next = nb.pages.push(page);
            assert(distinct_ids(next));
            lemma_renumbered_ids(next, now);
        },
        Operation::Remove { id } => {
            lemma_position(nb.pages, id);
            if let Some(i) = position(nb.pages, id) {
                let next = nb.pages.remove(i);
                assert forall|a: int, b: int| 0 <= a < b < next.len() implies (#[trigger] next[a]).id
                    != (#[trigger] next[b]).id by {
                    let a0 = if a < i { a } else { a + 1 };
                    let b0 = if b < i { b } else { b + 1 };
                    assert(next[a] == nb.pages[a0]);
                    assert(next[b] == nb.pages[b0]);
                }
                lemma_renumbered_ids(next, now);
            }
        },
        Operation::Update { id, title, content } => {
            lemma_position(nb.pages, id);
        },
        Operation::Reorder { from, to } => {
            if 0 <= from < nb.pages.len() && 0 <= to < nb.pages.len() {
                let cut = nb.pages.remove(from);
                let next = cut.insert(to, nb.pages[from]);
                assert forall|a: int, b: int| 0 <= a < b < next.len() implies (#[trigger] next[a]).id
                    != (#[trigger] next[b]).id by {
                    let a1 = if a < to { a } else { a - 1 };
                    let b1 = if b < to { b } else { b - 1 };
                    let a0 = if a == to { from } else if a1 < from { a1 } else { a1 + 1 };
                    let b0 = if b == to { from } else if b1 < from { b1 } else { b1 + 1 };
                    assert(next[a] == nb.pages[a0]);
                    assert(next[b] == nb.pages[b0]);
                    assert(a0 != b0);
                    if a0 < b0 {
                        assert(nb.pages[a0].id != nb.pages[b0].id);
                    } else {
                        assert(nb.pages[b0].id != nb.pages[a0].id);
                    }
                }
                lemma_renumbered_ids(next, now);
            }
        },
    }
}

/// Where no two pages share an identifier, the position of an identifier
/// is the only place that holds it.
pub proof fn lemma_single_match(pages: Seq<PageView>, id: Seq<char>, i: int)
    requires
        distinct_ids(pages),
        0 <= i < pages.len(),
        pages[i].id == id,
    ensures
        position(pages, id) == Some(i),
{
    assert(is_position(pages, id, i)) by {
        assert forall|j: int| 0 <= j < i implies (#[trigger] pages[j]).id != id by {
            assert(pages[j].id != pages[i].id);
        }
    }
    crate::notebook::lemma_position_is(pages, id, i);
}

} // verus!
