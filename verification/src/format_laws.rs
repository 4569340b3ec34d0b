//! What holds of the text format: reading the file of a notebook gives the
//! notebook back, and a file without a header is read as a notebook of its
//! own.

use crate::decimal::{decimal_text, is_digit, lemma_decimal_text, lemma_parse_decimal_text};
use crate::format::{
    blank_notebook, blank_page, created_key, default_notebook_title, gap, header_parts,
    header_text, metadata_bounds, metadata_end, metadata_start, metadata_text, modified_key,
    notebook_end, notebook_id_key, notebook_of_header, notebook_of_text, notebook_start,
    notebook_storable, notebook_text, notebook_title_key, notebook_with_line, notebook_with_lines,
    number_key, number_line, page_break, page_id_key, page_of_section, page_sections, page_storable,
    page_text, page_with_line, page_with_lines, pages_of_sections, pages_text, title_key, Fresh,
};
use crate::notebook::{NotebookView, PageView};
use crate::text::{
    first_occurrence, free_of, has_no, is_first_occurrence, lemma_first_occurrence_is, line_feed,
    lines, occurs_at, single_line, split, starts_with, trim,
};
use crate::text_laws::{
    all_whitespace, closed, join_lines, lemma_first_behind_closed,
    lemma_first_piece, lemma_free_before_feeds, lemma_free_behind_key, lemma_free_concat,
    lemma_free_without_char, lemma_join_free, lemma_join_push, lemma_lines_of_joined,
    lemma_occurrence_chars, lemma_occurrence_in_part, lemma_split_append, lemma_split_free,
    lemma_trim_padded,
};
use crate::timestamp::is_rfc3339_char;
use vstd::prelude::*;

verus! {

/// The marker lines hold no line feed, begin with a dash and hold a space
/// as their fourth character.
pub proof fn lemma_marker_shapes()
    ensures
        page_break().len() == 18,
        notebook_start().len() == 26,
        notebook_end().len() == 27,
        metadata_start().len() == 26,
        metadata_end().len() == 20,
        has_no(page_break(), '\n'),
        has_no(notebook_start(), '\n'),
        has_no(notebook_end(), '\n'),
        has_no(metadata_start(), '\n'),
        has_no(metadata_end(), '\n'),
        page_break()[0] == '-' && page_break()[3] == ' ',
        notebook_start()[0] == '-' && notebook_start()[3] == ' ',
        notebook_end()[0] == '-' && notebook_end()[3] == ' ',
        metadata_start()[0] == '-' && metadata_start()[3] == ' ',
        metadata_end()[0] == '-' && metadata_end()[3] == ' ',
        single_line(page_break()),
        single_line(notebook_start()),
        single_line(notebook_end()),
        single_line(metadata_start()),
        single_line(metadata_end()),
{
    reveal_strlit("--- PAGE BREAK ---");
    reveal_strlit("--- NOTEBOOKX NOTEBOOK ---");
    reveal_strlit("--- END NOTEBOOK HEADER ---");
    reveal_strlit("--- NOTEBOOKX METADATA ---");
    reveal_strlit("--- END METADATA ---");
}

/// No marker line holds the page break marker, and the line that opens
/// the metadata does not hold the one that closes it.
pub proof fn lemma_markers_apart()
    ensures
        free_of(notebook_start(), page_break()),
        free_of(notebook_end(), page_break()),
        free_of(metadata_start(), page_break()),
        free_of(metadata_end(), page_break()),
        free_of(metadata_start(), metadata_end()),
        free_of(notebook_start(), notebook_end()),
{
    reveal_strlit("--- PAGE BREAK ---");
    reveal_strlit("--- NOTEBOOKX NOTEBOOK ---");
    reveal_strlit("--- END NOTEBOOK HEADER ---");
    reveal_strlit("--- NOTEBOOKX METADATA ---");
    reveal_strlit("--- END METADATA ---");
    let pb = page_break();
    let me = metadata_end();
    assert forall|i: int| !occurs_at(notebook_start(), pb, i) by {
        let s = notebook_start();
        if occurs_at(s, pb, i) {
            lemma_occurrence_chars(s, pb, i);
            assert(s[i + 0] == pb[0] && s[i + 3] == pb[3] && s[i + 4] == pb[4]);
        }
    }
    assert forall|i: int| !occurs_at(notebook_end(), pb, i) by {
        let s = notebook_end();
        if occurs_at(s, pb, i) {
            lemma_occurrence_chars(s, pb, i);
            assert(s[i + 0] == pb[0] && s[i + 3] == pb[3] && s[i + 4] == pb[4]);
        }
    }
    assert forall|i: int| !occurs_at(metadata_start(), pb, i) by {
        let s = metadata_start();
        if occurs_at(s, pb, i) {
            lemma_occurrence_chars(s, pb, i);
            assert(s[i + 0] == pb[0] && s[i + 3] == pb[3] && s[i + 4] == pb[4]);
        }
    }
    assert forall|i: int| !occurs_at(metadata_end(), pb, i) by {
        let s = metadata_end();
        if occurs_at(s, pb, i) {
            lemma_occurrence_chars(s, pb, i);
            assert(s[i + 0] == pb[0] && s[i + 3] == pb[3] && s[i + 4] == pb[4]);
        }
    }
    assert forall|i: int| !occurs_at(metadata_start(), me, i) by {
        let s = metadata_start();
        if occurs_at(s, me, i) {
            lemma_occurrence_chars(s, me, i);
            assert(s[i + 0] == me[0] && s[i + 3] == me[3] && s[i + 4] == me[4]);
        }
    }
}

/// The keys hold neither a dash nor a line feed, and differ from each
/// other where the reader tells them apart.
pub proof fn lemma_key_shapes()
    ensures
        has_no(notebook_id_key(), '-') && has_no(notebook_id_key(), '\n'),
        has_no(notebook_title_key(), '-') && has_no(notebook_title_key(), '\n'),
        has_no(page_id_key(), '-') && has_no(page_id_key(), '\n'),
        has_no(title_key(), '-') && has_no(title_key(), '\n'),
        has_no(number_key(), '-') && has_no(number_key(), '\n'),
        has_no(created_key(), '-') && has_no(created_key(), '\n'),
        has_no(modified_key(), '-') && has_no(modified_key(), '\n'),
        notebook_id_key().len() == 13 && notebook_title_key().len() == 16,
        page_id_key().len() == 9 && title_key().len() == 7 && number_key().len() == 8,
        created_key().len() == 9 && modified_key().len() == 10,
        notebook_id_key()[0] == 'N' && notebook_id_key()[9] == 'I',
        notebook_title_key()[0] == 'N' && notebook_title_key()[9] == 'T',
        page_id_key()[0] == 'P',
        title_key()[0] == 'T',
        number_key()[0] == 'N',
        created_key()[0] == 'C',
        modified_key()[0] == 'M',
        notebook_id_key().last() == ' ' && notebook_title_key().last() == ' ',
        page_id_key().last() == ' ' && title_key().last() == ' ' && number_key().last() == ' ',
        created_key().last() == ' ' && modified_key().last() == ' ',
{
    reveal_strlit("NOTEBOOK_ID: ");
    reveal_strlit("NOTEBOOK_TITLE: ");
    reveal_strlit("PAGE_ID: ");
    reveal_strlit("TITLE: ");
    reveal_strlit("NUMBER: ");
    reveal_strlit("CREATED: ");
    reveal_strlit("MODIFIED: ");
}

/// A text made of the characters of RFC 3339 is a single line and holds
/// none of the marker lines.
pub proof fn lemma_plain_text(text: Seq<char>)
    requires
        forall|i: int| 0 <= i < text.len() ==> is_rfc3339_char(#[trigger] text[i]),
    ensures
        single_line(text),
        free_of(text, page_break()),
        free_of(text, notebook_end()),
        free_of(text, metadata_end()),
{
    lemma_marker_shapes();
    assert(has_no(text, ' ')) by {
        assert forall|i: int| 0 <= i < text.len() implies text[i] != ' ' by {
            assert(is_rfc3339_char(text[i]));
        }
    }
    assert(has_no(text, '\n')) by {
        assert forall|i: int| 0 <= i < text.len() implies text[i] != '\n' by {
            assert(is_rfc3339_char(text[i]));
        }
    }
    if text.len() > 0 {
        assert(is_rfc3339_char(text[text.len() - 1]));
    }
    lemma_free_without_char(text, page_break(), 3);
    lemma_free_without_char(text, notebook_end(), 3);
    lemma_free_without_char(text, metadata_end(), 3);
}

/// The digits of a number are a single line and hold none of the marker
/// lines.
pub proof fn lemma_digits_text(n: nat)
    ensures
        single_line(decimal_text(n)),
        free_of(decimal_text(n), page_break()),
        free_of(decimal_text(n), metadata_end()),
{
    lemma_marker_shapes();
    lemma_decimal_text(n);
    let text = decimal_text(n);
    assert(has_no(text, '-')) by {
        assert forall|i: int| 0 <= i < text.len() implies text[i] != '-' by {
            assert(is_digit(text[i]));
        }
    }
    assert(has_no(text, '\n')) by {
        assert forall|i: int| 0 <= i < text.len() implies text[i] != '\n' by {
            assert(is_digit(text[i]));
        }
    }
    assert(is_digit(text[text.len() - 1]));
    lemma_free_without_char(text, page_break(), 0);
    lemma_free_without_char(text, metadata_end(), 0);
}

/// A key and a single-line value make a single line.
pub proof fn lemma_key_value_line(key: Seq<char>, value: Seq<char>)
    requires
        has_no(key, '\n'),
        key.len() > 0,
        key.last() != '\r',
        single_line(value),
    ensures
        single_line(key + value),
        starts_with(key + value, key),
        (key + value).skip(key.len() as int) == value,
{
    let l = key + value;
    assert forall|i: int| 0 <= i < l.len() implies l[i] != '\n' by {
        if i < key.len() {
            assert(l[i] == key[i]);
        } else {
            assert(l[i] == value[i - key.len()]);
        }
    }
    if value.len() > 0 {
        assert(l.last() == value.last());
    } else {
        assert(l =~= key);
    }
    assert(l.subrange(0, key.len() as int) =~= key);
    assert(l.skip(key.len() as int) =~= value);
}

/// A line that begins with one key does not begin with another that
/// differs from it at some place.
pub proof fn lemma_other_key(key: Seq<char>, value: Seq<char>, other: Seq<char>, k: int)
    requires
        0 <= k < key.len(),
        0 <= k < other.len(),
        key[k] != other[k],
    ensures
        !starts_with(key + value, other),
{
    let l = key + value;
    if starts_with(l, other) {
        assert(l.subrange(0, other.len() as int)[k] == l[k]);
        assert(l[k] == key[k]);
    }
}

/// A line that begins with a dash does not begin with a key.
pub proof fn lemma_marker_is_no_field(marker: Seq<char>, key: Seq<char>)
    requires
        marker.len() > 0,
        marker[0] == '-',
        key.len() > 0,
        has_no(key, '-'),
    ensures
        !starts_with(marker, key),
{
    if starts_with(marker, key) {
        assert(marker.subrange(0, key.len() as int)[0] == marker[0]);
    }
}

/// The lines of the header block before the line that closes it.
pub open spec fn header_lines(nb: NotebookView) -> Seq<Seq<char>> {
    Seq::empty().push(notebook_start()).push(notebook_id_key() + nb.id).push(
        notebook_title_key() + nb.title,
    ).push(created_key() + nb.created.text()).push(modified_key() + nb.modified.text())
}

/// The header block is its lines, the line that closes it and an empty line.
pub proof fn lemma_header_shape(nb: NotebookView)
    ensures
        header_text(nb) == join_lines(header_lines(nb)) + (notebook_end() + gap()),
{
    let l0 = Seq::<Seq<char>>::empty();
    let l1 = l0.push(notebook_start());
    let l2 = l1.push(notebook_id_key() + nb.id);
    let l3 = l2.push(notebook_title_key() + nb.title);
    let l4 = l3.push(created_key() + nb.created.text());
    let l5 = l4.push(modified_key() + nb.modified.text());
    lemma_join_push(l0, notebook_start());
    lemma_join_push(l1, notebook_id_key() + nb.id);
    lemma_join_push(l2, notebook_title_key() + nb.title);
    lemma_join_push(l3, created_key() + nb.created.text());
    lemma_join_push(l4, modified_key() + nb.modified.text());
    assert(join_lines(l0) =~= Seq::<char>::empty());
    assert(header_text(nb) =~= join_lines(l5) + (notebook_end() + gap()));
}

/// Reading one more line comes after reading the lines before it.
pub proof fn lemma_notebook_lines_push(nb: NotebookView, ls: Seq<Seq<char>>, l: Seq<char>)
    ensures
        notebook_with_lines(nb, ls.push(l)) == notebook_with_line(notebook_with_lines(nb, ls), l),
{
    assert(ls.push(l).drop_last() =~= ls);
}

/// Reading the lines of the header block of a notebook gives its
/// identifier, its title and its times.
#[verifier::rlimit(30)]
pub proof fn lemma_header_read(nb: NotebookView, start: NotebookView)
    requires
        single_line(nb.id),
        single_line(nb.title),
        nb.created.storable(),
        nb.modified.storable(),
    ensures
        notebook_with_lines(start, header_lines(nb).push(notebook_end())) == (NotebookView {
            pages: start.pages,
            ..nb
        }),
{
    lemma_marker_shapes();
    lemma_key_shapes();
    lemma_plain_text(nb.created.text());
    lemma_plain_text(nb.modified.text());
    let id_line = notebook_id_key() + nb.id;
    let title_line = notebook_title_key() + nb.title;
    let created_line = created_key() + nb.created.text();
    let modified_line = modified_key() + nb.modified.text();
    let l0 = Seq::<Seq<char>>::empty();
    let l1 = l0.push(notebook_start());
    let l2 = l1.push(id_line);
    let l3 = l2.push(title_line);
    let l4 = l3.push(created_line);
    let l5 = l4.push(modified_line);
    let l6 = l5.push(notebook_end());
    lemma_notebook_lines_push(start, l0, notebook_start());
    lemma_notebook_lines_push(start, l1, id_line);
    lemma_notebook_lines_push(start, l2, title_line);
    lemma_notebook_lines_push(start, l3, created_line);
    lemma_notebook_lines_push(start, l4, modified_line);
    lemma_notebook_lines_push(start, l5, notebook_end());
    let s0 = notebook_with_lines(start, l0);
    assert(s0 == start);
    // The opening line is no field.
    lemma_marker_is_no_field(notebook_start(), notebook_id_key());
    lemma_marker_is_no_field(notebook_start(), notebook_title_key());
    lemma_marker_is_no_field(notebook_start(), created_key());
    lemma_marker_is_no_field(notebook_start(), modified_key());
    let s1 = notebook_with_lines(start, l1);
    assert(s1 == start);
    // The identifier.
    lemma_key_value_line(notebook_id_key(), nb.id);
    let s2 = notebook_with_lines(start, l2);
    assert(s2 == NotebookView { id: nb.id, ..start });
    // The title.
    lemma_key_value_line(notebook_title_key(), nb.title);
    lemma_other_key(notebook_title_key(), nb.title, notebook_id_key(), 9);
    let s3 = notebook_with_lines(start, l3);
    assert(s3 == NotebookView { id: nb.id, title: nb.title, ..start });
    // The time of creation.
    lemma_key_value_line(created_key(), nb.created.text());
    lemma_other_key(created_key(), nb.created.text(), notebook_id_key(), 0);
    lemma_other_key(created_key(), nb.created.text(), notebook_title_key(), 0);
    let s4 = notebook_with_lines(start, l4);
    assert(s4 == NotebookView { id: nb.id, title: nb.title, created: nb.created, ..start });
    // The time of the last change.
    lemma_key_value_line(modified_key(), nb.modified.text());
    lemma_other_key(modified_key(), nb.modified.text(), notebook_id_key(), 0);
    lemma_other_key(modified_key(), nb.modified.text(), notebook_title_key(), 0);
    lemma_other_key(modified_key(), nb.modified.text(), created_key(), 0);
    let s5 = notebook_with_lines(start, l5);
    assert(s5 == NotebookView {
        id: nb.id,
        title: nb.title,
        created: nb.created,
        modified: nb.modified,
        ..start
    });
    // The closing line is no field.
    lemma_marker_is_no_field(notebook_end(), notebook_id_key());
    lemma_marker_is_no_field(notebook_end(), notebook_title_key());
    lemma_marker_is_no_field(notebook_end(), created_key());
    lemma_marker_is_no_field(notebook_end(), modified_key());
    assert(notebook_with_lines(start, l6) == s5);
}

/// What follows the header block in the first piece of the file of a
/// notebook, and what the block says of the notebook.
#[verifier::rlimit(30)]
pub proof fn lemma_first_piece_read(nb: NotebookView, tail: Seq<char>, fresh: Fresh)
    requires
        single_line(nb.id),
        single_line(nb.title),
        free_of(nb.id, notebook_end()),
        free_of(nb.title, notebook_end()),
        nb.created.storable(),
        nb.modified.storable(),
    ensures
        header_parts(header_text(nb) + tail).1 == gap() + tail,
        notebook_of_header(header_parts(header_text(nb) + tail).0, fresh) == (NotebookView {
            pages: Seq::empty(),
            ..nb
        }),
{
    lemma_marker_shapes();
    lemma_markers_apart();
    lemma_key_shapes();
    lemma_plain_text(nb.created.text());
    lemma_plain_text(nb.modified.text());
    lemma_header_shape(nb);
    let ls = header_lines(nb);
    let end = notebook_end();
    let body = join_lines(ls);
    let piece = header_text(nb) + tail;
    // The lines before the closing line do not hold it.
    lemma_free_behind_key(notebook_id_key(), nb.id, end);
    lemma_free_behind_key(notebook_title_key(), nb.title, end);
    lemma_free_behind_key(created_key(), nb.created.text(), end);
    lemma_free_behind_key(modified_key(), nb.modified.text(), end);
    assert forall|k: int| 0 <= k < ls.len() implies free_of(#[trigger] ls[k], end) by {
        assert(k == 0 || k == 1 || k == 2 || k == 3 || k == 4);
    }
    lemma_join_free(ls, end);
    assert(piece =~= body + (end + (gap() + tail)));
    lemma_first_behind_closed(body, gap() + tail, end);
    // The opening line stands first at the start.
    assert(ls[0] == notebook_start());
    assert(body =~= notebook_start() + (line_feed() + join_lines(ls.skip(1))));
    assert(piece.subrange(0, notebook_start().len() as int) =~= notebook_start());
    assert(is_first_occurrence(piece, notebook_start(), 0));
    lemma_first_occurrence_is(piece, notebook_start(), 0);
    let stop = body.len() + end.len();
    assert(piece.subrange(0, stop as int) =~= body + end);
    assert(piece.subrange(stop as int, piece.len() as int) =~= gap() + tail);
    assert(header_parts(piece) == (body + end, gap() + tail));
    // The lines of the block are those that were written.
    lemma_key_value_line(notebook_id_key(), nb.id);
    lemma_key_value_line(notebook_title_key(), nb.title);
    lemma_key_value_line(created_key(), nb.created.text());
    lemma_key_value_line(modified_key(), nb.modified.text());
    assert forall|k: int| 0 <= k < ls.len() implies single_line(#[trigger] ls[k]) by {
        assert(k == 0 || k == 1 || k == 2 || k == 3 || k == 4);
    }
    lemma_lines_of_joined(ls, end);
    lemma_header_read(nb, blank_notebook(fresh));
}

/// The lines of the metadata of a page before the line that closes it.
pub open spec fn metadata_lines(p: PageView) -> Seq<Seq<char>> {
    let head = Seq::empty().push(metadata_start()).push(page_id_key() + p.id).push(
        title_key() + p.title,
    );
    let numbered = match p.number {
        Some(n) => head.push(number_key() + decimal_text(n as nat)),
        None => head,
    };
    numbered.push(created_key() + p.created.text()).push(modified_key() + p.modified.text())
}

/// The metadata block is its lines, the line that closes it and an empty
/// line.
pub proof fn lemma_metadata_shape(p: PageView)
    ensures
        metadata_text(p) == join_lines(metadata_lines(p)) + (metadata_end() + gap()),
{
    let l0 = Seq::<Seq<char>>::empty();
    let l1 = l0.push(metadata_start());
    let l2 = l1.push(page_id_key() + p.id);
    let l3 = l2.push(title_key() + p.title);
    lemma_join_push(l0, metadata_start());
    lemma_join_push(l1, page_id_key() + p.id);
    lemma_join_push(l2, title_key() + p.title);
    assert(join_lines(l0) =~= Seq::<char>::empty());
    let l4 = match p.number {
        Some(n) => l3.push(number_key() + decimal_text(n as nat)),
        None => l3,
    };
    match p.number {
        Some(n) => {
            lemma_join_push(l3, number_key() + decimal_text(n as nat));
        },
        None => {},
    }
    assert(join_lines(l4) =~= join_lines(l3) + number_line(p.number));
    let l5 = l4.push(created_key() + p.created.text());
    let l6 = l5.push(modified_key() + p.modified.text());
    lemma_join_push(l4, created_key() + p.created.text());
    lemma_join_push(l5, modified_key() + p.modified.text());
    assert(metadata_text(p) =~= join_lines(l6) + (metadata_end() + gap()));
}

/// Reading one more line comes after reading the lines before it.
pub proof fn lemma_page_lines_push(p: PageView, ls: Seq<Seq<char>>, l: Seq<char>)
    ensures
        page_with_lines(p, ls.push(l)) == page_with_line(page_with_lines(p, ls), l),
{
    assert(ls.push(l).drop_last() =~= ls);
}

/// Reading the lines of the metadata of a page gives its identifier, its
/// title, its number where it has one, and its times.
#[verifier::rlimit(30)]
pub proof fn lemma_metadata_read(p: PageView, start: PageView)
    requires
        single_line(p.id),
        single_line(p.title),
        p.created.storable(),
        p.modified.storable(),
    ensures
        page_with_lines(start, metadata_lines(p)) == (PageView {
            content: start.content,
            number: match p.number {
                Some(n) => Some(n),
                None => start.number,
            },
            ..p
        }),
{
    lemma_marker_shapes();
    lemma_key_shapes();
    lemma_plain_text(p.created.text());
    lemma_plain_text(p.modified.text());
    let id_line = page_id_key() + p.id;
    let title_line = title_key() + p.title;
    let created_line = created_key() + p.created.text();
    let modified_line = modified_key() + p.modified.text();
    let l0 = Seq::<Seq<char>>::empty();
    let l1 = l0.push(metadata_start());
    let l2 = l1.push(id_line);
    let l3 = l2.push(title_line);
    lemma_page_lines_push(start, l0, metadata_start());
    lemma_page_lines_push(start, l1, id_line);
    lemma_page_lines_push(start, l2, title_line);
    assert(page_with_lines(start, l0) == start);
    // The opening line is no field.
    lemma_marker_is_no_field(metadata_start(), page_id_key());
    lemma_marker_is_no_field(metadata_start(), title_key());
    lemma_marker_is_no_field(metadata_start(), number_key());
    lemma_marker_is_no_field(metadata_start(), created_key());
    lemma_marker_is_no_field(metadata_start(), modified_key());
    assert(page_with_lines(start, l1) == start);
    // The identifier.
    lemma_key_value_line(page_id_key(), p.id);
    assert(page_with_lines(start, l2) == PageView { id: p.id, ..start });
    // The title.
    lemma_key_value_line(title_key(), p.title);
    lemma_other_key(title_key(), p.title, page_id_key(), 0);
    let s3 = page_with_lines(start, l3);
    assert(s3 == PageView { id: p.id, title: p.title, ..start });
    // The number.
    let l4 = match p.number {
        Some(n) => l3.push(number_key() + decimal_text(n as nat)),
        None => l3,
    };
    let s4 = page_with_lines(start, l4);
    match p.number {
        Some(n) => {
            let digits = decimal_text(n as nat);
            lemma_digits_text(n as nat);
            lemma_parse_decimal_text(n);
            lemma_page_lines_push(start, l3, number_key() + digits);
            lemma_key_value_line(number_key(), digits);
            lemma_other_key(number_key(), digits, page_id_key(), 0);
            lemma_other_key(number_key(), digits, title_key(), 0);
            assert(s4 == PageView { number: Some(n), ..s3 });
        },
        None => {
            assert(s4 == s3);
        },
    }
    // The time of creation.
    let l5 = l4.push(created_line);
    let l6 = l5.push(modified_line);
    lemma_page_lines_push(start, l4, created_line);
    lemma_page_lines_push(start, l5, modified_line);
    lemma_key_value_line(created_key(), p.created.text());
    lemma_other_key(created_key(), p.created.text(), page_id_key(), 0);
    lemma_other_key(created_key(), p.created.text(), title_key(), 0);
    lemma_other_key(created_key(), p.created.text(), number_key(), 0);
    let s5 = page_with_lines(start, l5);
    assert(s5 == PageView { created: p.created, ..s4 });
    // The time of the last change.
    lemma_key_value_line(modified_key(), p.modified.text());
    lemma_other_key(modified_key(), p.modified.text(), page_id_key(), 0);
    lemma_other_key(modified_key(), p.modified.text(), title_key(), 0);
    lemma_other_key(modified_key(), p.modified.text(), number_key(), 0);
    lemma_other_key(modified_key(), p.modified.text(), created_key(), 0);
    assert(page_with_lines(start, l6) == PageView { modified: p.modified, ..s5 });
    assert(metadata_lines(p) == l6);
}

/// The lines of the metadata of a storable page are single lines that
/// hold neither the page break marker nor the line that closes the
/// metadata.
#[verifier::rlimit(30)]
pub proof fn lemma_metadata_lines_plain(p: PageView)
    requires
        page_storable(p),
    ensures
        forall|k: int|
            0 <= k < metadata_lines(p).len() ==> {
                &&& single_line(#[trigger] metadata_lines(p)[k])
                &&& free_of(metadata_lines(p)[k], metadata_end())
                &&& free_of(metadata_lines(p)[k], page_break())
            },
        metadata_lines(p).len() >= 5,
        metadata_lines(p)[0] == metadata_start(),
{
    lemma_marker_shapes();
    lemma_markers_apart();
    lemma_key_shapes();
    lemma_plain_text(p.created.text());
    lemma_plain_text(p.modified.text());
    let ls = metadata_lines(p);
    let me = metadata_end();
    let pb = page_break();
    lemma_key_value_line(page_id_key(), p.id);
    lemma_key_value_line(title_key(), p.title);
    lemma_key_value_line(created_key(), p.created.text());
    lemma_key_value_line(modified_key(), p.modified.text());
    lemma_free_behind_key(page_id_key(), p.id, me);
    lemma_free_behind_key(title_key(), p.title, me);
    lemma_free_behind_key(created_key(), p.created.text(), me);
    lemma_free_behind_key(modified_key(), p.modified.text(), me);
    lemma_free_behind_key(page_id_key(), p.id, pb);
    lemma_free_behind_key(title_key(), p.title, pb);
    lemma_free_behind_key(created_key(), p.created.text(), pb);
    lemma_free_behind_key(modified_key(), p.modified.text(), pb);
    match p.number {
        Some(n) => {
            let digits = decimal_text(n as nat);
            lemma_digits_text(n as nat);
            lemma_key_value_line(number_key(), digits);
            lemma_free_behind_key(number_key(), digits, me);
            lemma_free_behind_key(number_key(), digits, pb);
            assert(ls.len() == 6);
        },
        None => {
            assert(ls.len() == 5);
        },
    }
    assert forall|k: int| 0 <= k < ls.len() implies {
        &&& single_line(#[trigger] ls[k])
        &&& free_of(ls[k], me)
        &&& free_of(ls[k], pb)
    } by {
        assert(k == 0 || k == 1 || k == 2 || k == 3 || k == 4 || k == 5);
    }
}

/// White space around the block of a page: a line feed is white space.
pub proof fn lemma_gap_is_whitespace()
    ensures
        all_whitespace(gap()),
        gap().len() == 2,
        gap()[0] == '\n' && gap()[1] == '\n',
        closed(gap()),
{
}

/// Where the metadata stands in the piece that holds the block of a
/// storable page, and what stands between its bounds and behind them.
#[verifier::rlimit(30)]
pub proof fn lemma_section_bounds(p: PageView)
    requires
        page_storable(p),
    ensures
        metadata_bounds(gap() + page_text(p)) == Some(
            (2int, 2 + join_lines(metadata_lines(p)).len() as int),
        ),
        (gap() + page_text(p)).subrange(2, 2 + join_lines(metadata_lines(p)).len() as int)
            == join_lines(metadata_lines(p)),
        (gap() + page_text(p)).skip(
            2 + join_lines(metadata_lines(p)).len() as int + metadata_end().len() as int,
        ) == gap() + p.content + gap(),
{
    lemma_marker_shapes();
    lemma_gap_is_whitespace();
    lemma_metadata_shape(p);
    lemma_metadata_lines_plain(p);
    let ls = metadata_lines(p);
    let body = join_lines(ls);
    let start = metadata_start();
    let end = metadata_end();
    let section = gap() + page_text(p);
    let after = gap() + p.content + gap();
    let front = gap() + body;
    assert(body =~= start + (line_feed() + join_lines(ls.skip(1))));
    assert(section =~= front + (end + after));
    // The closing line stands first behind the lines of the block.
    assert(first_occurrence(section, end) == Some(front.len() as int)) by {
        lemma_free_without_char(gap(), end, 0);
        lemma_join_free(ls, end);
        lemma_free_concat(gap(), body, end);
        assert(front.last() == body.last());
        lemma_first_behind_closed(front, after, end);
    }
    // The opening line stands first behind the empty line.
    assert(first_occurrence(section, start) == Some(2int)) by {
        assert(section.subrange(2, (2 + start.len()) as int) =~= start);
        assert forall|j: int| 0 <= j < 2 implies !occurs_at(section, start, j) by {
            if occurs_at(section, start, j) {
                lemma_occurrence_chars(section, start, j);
                assert(section[j + 0] == start[0]);
            }
        }
        assert(is_first_occurrence(section, start, 2));
        lemma_first_occurrence_is(section, start, 2);
    }
    let me = front.len() as int;
    assert(section.subrange(2, me) =~= body);
    assert(section.skip(me + end.len()) =~= after);
}

/// The piece that holds the block of a storable page is read as that page.
pub proof fn lemma_section_read(p: PageView, fresh: Fresh)
    requires
        page_storable(p),
    ensures
        page_of_section(gap() + page_text(p), fresh) == Some(p),
{
    lemma_gap_is_whitespace();
    lemma_section_bounds(p);
    lemma_metadata_lines_plain(p);
    let ls = metadata_lines(p);
    let body = join_lines(ls);
    assert(lines(body) == ls) by {
        assert(body + Seq::<char>::empty() =~= body);
        lemma_lines_of_joined(ls, Seq::<char>::empty());
    }
    lemma_metadata_read(p, blank_page(fresh));
    lemma_trim_padded(gap(), p.content, gap());
}

/// The block of a storable page is closed and holds no page break marker,
/// also with an empty line before it.
pub proof fn lemma_page_block_free(p: PageView)
    requires
        page_storable(p),
    ensures
        free_of(page_text(p), page_break()),
        closed(page_text(p)),
        free_of(gap() + page_text(p), page_break()),
        closed(gap() + page_text(p)),
{
    lemma_marker_shapes();
    lemma_markers_apart();
    lemma_gap_is_whitespace();
    lemma_metadata_shape(p);
    lemma_metadata_lines_plain(p);
    let pb = page_break();
    let body = join_lines(metadata_lines(p));
    lemma_join_free(metadata_lines(p), pb);
    let closing = metadata_end() + gap();
    lemma_free_before_feeds(metadata_end(), gap(), pb);
    assert(closing.last() == '\n');
    lemma_free_concat(body, closing, pb);
    let text = p.content + gap();
    lemma_free_before_feeds(p.content, gap(), pb);
    assert(text.last() == '\n');
    let meta = body + closing;
    assert(meta.last() == '\n');
    lemma_free_concat(meta, text, pb);
    assert(page_text(p) =~= meta + text);
    assert((meta + text).last() == '\n');
    lemma_free_without_char(gap(), pb, 0);
    lemma_free_concat(gap(), page_text(p), pb);
    assert((gap() + page_text(p)).last() == '\n');
}

/// The header block of a storable notebook is closed and holds no page
/// break marker.
pub proof fn lemma_header_block_free(nb: NotebookView)
    requires
        single_line(nb.id),
        single_line(nb.title),
        free_of(nb.id, page_break()),
        free_of(nb.title, page_break()),
        nb.created.storable(),
        nb.modified.storable(),
    ensures
        free_of(header_text(nb), page_break()),
        closed(header_text(nb)),
{
    lemma_marker_shapes();
    lemma_markers_apart();
    lemma_key_shapes();
    lemma_gap_is_whitespace();
    lemma_plain_text(nb.created.text());
    lemma_plain_text(nb.modified.text());
    lemma_header_shape(nb);
    let pb = page_break();
    let ls = header_lines(nb);
    lemma_free_behind_key(notebook_id_key(), nb.id, pb);
    lemma_free_behind_key(notebook_title_key(), nb.title, pb);
    lemma_free_behind_key(created_key(), nb.created.text(), pb);
    lemma_free_behind_key(modified_key(), nb.modified.text(), pb);
    assert forall|k: int| 0 <= k < ls.len() implies free_of(#[trigger] ls[k], pb) by {
        assert(k == 0 || k == 1 || k == 2 || k == 3 || k == 4);
    }
    lemma_join_free(ls, pb);
    let closing = notebook_end() + gap();
    lemma_free_before_feeds(notebook_end(), gap(), pb);
    assert(closing.last() == '\n');
    lemma_free_concat(join_lines(ls), closing, pb);
    assert((join_lines(ls) + closing).last() == '\n');
}

/// The piece of the file of a notebook that holds its page `k`.
pub open spec fn piece(nb: NotebookView, k: int) -> Seq<char> {
    if k == 0 {
        header_text(nb) + page_text(nb.pages[0])
    } else {
        gap() + page_text(nb.pages[k])
    }
}

/// The file of the first `m` pages of a storable notebook falls into one
/// piece for each page.
pub proof fn lemma_split_pages(nb: NotebookView, m: int)
    requires
        notebook_storable(nb),
        1 <= m <= nb.pages.len(),
    ensures
        split(header_text(nb) + pages_text(nb.pages.take(m)), page_break()) == Seq::new(
            m as nat,
            |k: int| piece(nb, k),
        ),
        closed(header_text(nb) + pages_text(nb.pages.take(m))),
    decreases m,
{
    lemma_marker_shapes();
    let pb = page_break();
    let head = header_text(nb);
    let pages = nb.pages.take(m);
    let whole = head + pages_text(pages);
    let last = nb.pages[m - 1];
    assert(pages.last() == last);
    assert(page_storable(last));
    lemma_page_block_free(last);
    lemma_header_block_free(nb);
    if m == 1 {
        assert(pages[0] == nb.pages[0]);
        lemma_free_concat(head, page_text(last), pb);
        lemma_split_free(whole, pb);
        assert(whole.last() == page_text(last).last());
        assert(seq![whole] =~= Seq::new(m as nat, |k: int| piece(nb, k)));
    } else {
        lemma_split_pages(nb, m - 1);
        assert(pages.drop_last() =~= nb.pages.take(m - 1));
        let before = head + pages_text(nb.pages.take(m - 1));
        let added = gap() + page_text(last);
        assert(whole =~= before + (pb + added));
        lemma_split_append(before, added, pb);
        assert(whole.last() == page_text(last).last());
        assert(Seq::new((m - 1) as nat, |k: int| piece(nb, k)).push(added) =~= Seq::new(
            m as nat,
            |k: int| piece(nb, k),
        ));
    }
}

/// The pieces that hold the blocks of storable pages are read as those
/// pages.
pub proof fn lemma_sections_read(pages: Seq<PageView>, fresh: Seq<Fresh>, m: int)
    requires
        forall|i: int| 0 <= i < pages.len() ==> page_storable(#[trigger] pages[i]),
        0 <= m <= pages.len(),
    ensures
        pages_of_sections(Seq::new(m as nat, |k: int| gap() + page_text(pages[k])), fresh)
            == pages.take(m),
    decreases m,
{
    let sections = Seq::new(m as nat, |k: int| gap() + page_text(pages[k]));
    if m == 0 {
        assert(pages.take(0) =~= Seq::<PageView>::empty());
    } else {
        lemma_sections_read(pages, fresh, m - 1);
        assert(sections.drop_last() =~= Seq::new(
            (m - 1) as nat,
            |k: int| gap() + page_text(pages[k]),
        ));
        assert(page_storable(pages[m - 1]));
        lemma_section_read(pages[m - 1], fresh[m - 1]);
        assert(pages.take(m - 1).push(pages[m - 1]) =~= pages.take(m));
    }
}

/// An empty line holds no page.
pub proof fn lemma_gap_is_no_page(fresh: Fresh)
    ensures
        page_of_section(gap(), fresh) is None,
{
    lemma_marker_shapes();
    lemma_gap_is_whitespace();
    lemma_free_without_char(gap(), metadata_start(), 0);
    assert(first_occurrence(gap(), metadata_start()) is None);
    assert(metadata_bounds(gap()) is None);
    let empty = Seq::<char>::empty();
    assert(gap() + empty + empty =~= gap());
    assert(crate::text::trim_start(empty) =~= empty);
    assert(crate::text::trim_end(empty) =~= empty);
    lemma_trim_padded(gap(), empty, empty);
}

/// The file of a storable notebook without pages is read as that notebook.
proof fn lemma_load_of_save_empty(nb: NotebookView, fresh: Fresh, fresh_pages: Seq<Fresh>)
    requires
        notebook_storable(nb),
        nb.pages.len() == 0,
    ensures
        notebook_of_text(notebook_text(nb), fresh, fresh_pages) == nb,
{
    let pb = page_break();
    let head = header_text(nb);
    let text = notebook_text(nb);
    let empty = Seq::<char>::empty();
    assert(pages_text(nb.pages) =~= empty);
    assert(text =~= head);
    lemma_header_block_free(nb);
    lemma_split_free(head, pb);
    assert(head + empty =~= head);
    lemma_first_piece_read(nb, empty, fresh);
    assert(gap() + empty =~= gap());
    let pieces = split(text, pb);
    assert(pieces == seq![head]);
    assert(header_parts(pieces[0]).1 == gap());
    let sections = page_sections(text);
    assert(pieces.skip(1) =~= Seq::<Seq<char>>::empty());
    assert(sections =~= seq![gap()]);
    lemma_gap_is_no_page(fresh_pages[0]);
    assert(sections.drop_last() =~= Seq::<Seq<char>>::empty());
    assert(sections.last() == gap());
    assert(pages_of_sections(sections.drop_last(), fresh_pages) =~= Seq::<PageView>::empty());
    assert(pages_of_sections(sections, fresh_pages) =~= Seq::<PageView>::empty());
    assert(nb.pages =~= Seq::<PageView>::empty());
}

/// The pieces of the file of a storable notebook that may hold a page are
/// the blocks of its pages, each behind an empty line.
proof fn lemma_page_sections(nb: NotebookView, fresh: Fresh)
    requires
        notebook_storable(nb),
        nb.pages.len() > 0,
    ensures
        page_sections(notebook_text(nb)) == Seq::new(
            nb.pages.len(),
            |k: int| gap() + page_text(nb.pages[k]),
        ),
        notebook_of_header(
            header_parts(split(notebook_text(nb), page_break())[0]).0,
            fresh,
        ) == (NotebookView { pages: Seq::empty(), ..nb }),
{
    let text = notebook_text(nb);
    let n = nb.pages.len() as int;
    let pieces = split(text, page_break());
    assert(nb.pages.take(n) =~= nb.pages);
    lemma_split_pages(nb, n);
    assert(pieces[0] == piece(nb, 0));
    lemma_first_piece_read(nb, page_text(nb.pages[0]), fresh);
    let sections = page_sections(text);
    let expected = Seq::new(n as nat, |k: int| gap() + page_text(nb.pages[k]));
    assert(sections.len() == n);
    assert forall|k: int| 0 <= k < n implies sections[k] == expected[k] by {
        if k > 0 {
            assert(pieces.skip(1)[k - 1] == pieces[k]);
            assert(pieces[k] == piece(nb, k));
        }
    }
    assert(sections =~= expected);
}

/// Reading the file of a notebook gives the notebook back: its
/// identifier, title and times, and its pages in their order, each with its
/// identifier, title, text, number and times. This holds of every notebook
/// that can be stored, whatever a fresh notebook and fresh pages would
/// start from.
pub proof fn lemma_load_of_save(nb: NotebookView, fresh: Fresh, fresh_pages: Seq<Fresh>)
    requires
        notebook_storable(nb),
    ensures
        notebook_of_text(notebook_text(nb), fresh, fresh_pages) == nb,
{
    if nb.pages.len() == 0 {
        lemma_load_of_save_empty(nb, fresh, fresh_pages);
    } else {
        lemma_page_sections(nb, fresh);
        lemma_sections_read(nb.pages, fresh_pages, nb.pages.len() as int);
        assert(nb.pages.take(nb.pages.len() as int) =~= nb.pages);
    }
}

/// A file without the line that opens the header is read as a notebook
/// with the default title and the identifier and times of a fresh one, and
/// every piece of it may hold a page. Where it holds no page break marker
/// and no metadata either, and more than white space, the notebook has one
/// page: a fresh page with the trimmed file as its text.
pub proof fn lemma_file_without_header(text: Seq<char>, fresh: Fresh, fresh_pages: Seq<Fresh>)
    requires
        free_of(text, notebook_start()),
    ensures
        notebook_of_text(text, fresh, fresh_pages).id == fresh.id,
        notebook_of_text(text, fresh, fresh_pages).title == default_notebook_title(),
        notebook_of_text(text, fresh, fresh_pages).created == fresh.now,
        notebook_of_text(text, fresh, fresh_pages).modified == fresh.now,
        page_sections(text) == split(text, page_break()),
        free_of(text, page_break()) && free_of(text, metadata_start()) && trim(text).len() > 0
            ==> notebook_of_text(text, fresh, fresh_pages).pages == seq![
            PageView { content: trim(text), ..blank_page(fresh_pages[0]) },
        ],
{
    let pieces = split(text, page_break());
    lemma_first_piece(text, page_break());
    let n = choose|n: int| 0 <= n <= text.len() && pieces[0] == #[trigger] text.subrange(0, n);
    assert forall|i: int| !occurs_at(pieces[0], notebook_start(), i) by {
        if occurs_at(pieces[0], notebook_start(), i) {
            lemma_occurrence_in_part(text, 0, n, notebook_start(), i);
        }
    }
    assert(first_occurrence(pieces[0], notebook_start()) is None);
    assert(header_parts(pieces[0]) == (Seq::<char>::empty(), pieces[0]));
    assert(lines(Seq::<char>::empty()) =~= Seq::<Seq<char>>::empty());
    assert(page_sections(text) =~= pieces);
    if free_of(text, page_break()) && free_of(text, metadata_start()) && trim(text).len() > 0 {
        lemma_split_free(text, page_break());
        let sections = page_sections(text);
        assert(sections =~= seq![text]);
        assert(first_occurrence(text, metadata_start()) is None);
        assert(metadata_bounds(text) is None);
        assert(sections.drop_last() =~= Seq::<Seq<char>>::empty());
        assert(sections.last() == text);
        assert(pages_of_sections(sections.drop_last(), fresh_pages) =~= Seq::<PageView>::empty());
        assert(pages_of_sections(sections, fresh_pages) =~= seq![
            PageView { content: trim(text), ..blank_page(fresh_pages[0]) },
        ]);
    }
}

} // verus!
