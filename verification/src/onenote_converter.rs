//! A stand-in for the import of OneNote files: it makes a notebook that
//! says where it came from, and a report on the readable text found in the
//! bytes of a file. The format itself is not read.

use crate::notebook::{Notebook, Page};
use crate::decimal::{decimal_text, push_decimal};
use crate::ident::is_uuid_text;
use crate::text::{is_space, is_whitespace, string_of, trim, trimmed, views};
use vstd::prelude::*;
use vstd::string::StringExecFns;

verus! {

/// The name used for a file whose name cannot be told.
pub open spec fn unnamed_source() -> Seq<char> {
    "Converted Notebook"@
}

/// The title of the notebook made from a file with the given name.
pub open spec fn converted_title(file_stem: Option<Seq<char>>) -> Seq<char> {
    "Converted from "@ + match file_stem {
        Some(name) => name,
        None => unnamed_source(),
    }
}

/// The title of the page that such a notebook holds.
pub open spec fn conversion_note_title() -> Seq<char> {
    "OneNote Conversion Note"@
}

/// What the note says before the path of the file.
pub open spec fn conversion_note_opening() -> Seq<char> {
    "This notebook was converted from a OneNote file: "@
}

/// What the note says between the two mentions of the path.
pub open spec fn conversion_note_body() -> Seq<char> {
    "\n\nIMPORTANT: This is a basic conversion placeholder.\n\nTo implement full OneNote conversion, the following would be needed:\n\n1. Parse the OneNote Revision Store File Format (.one)\n2. Extract the header structure\n3. Parse object spaces and property sets\n4. Extract text content, formatting, and metadata\n5. Convert images and attachments\n6. Map OneNote sections and pages to NotebookX format\n\nFor a complete implementation, refer to:\n- MS-ONESTORE specification\n- OneNote File Format documentation\n\nOriginal file: "@
}

/// The text of the note for a file at `path`.
pub open spec fn conversion_note(path: Seq<char>) -> Seq<char> {
    conversion_note_opening() + path + conversion_note_body() + path
}

/// The 16-bit unit that the bytes `2k` and `2k + 1` hold, low byte first.
pub open spec fn unit_at(bytes: Seq<u8>, k: int) -> u16 {
    (bytes[2 * k] as int + 256 * (bytes[2 * k + 1] as int)) as u16
}

/// Whether a unit is half of a surrogate pair, and so no character by itself.
pub open spec fn is_surrogate(unit: u16) -> bool {
    0xD800 <= unit <= 0xDFFF
}

/// Whether a unit is a character of readable text: a printable ASCII
/// character or white space.
pub open spec fn is_text_unit(unit: u16) -> bool {
    !is_surrogate(unit) && ((0x21 <= unit <= 0x7E) || is_whitespace(unit as char))
}

/// The state of a walk over the units: the fragments found, and the text
/// gathered since the last one.
pub struct Scan {
    pub fragments: Seq<Seq<char>>,
    pub current: Seq<char>,
}

/// The state after one more unit. A character of text is gathered. Any
/// other character ends the gathered text, which becomes a fragment,
/// trimmed, unless it is white space only and is kept. Half a surrogate
/// pair changes nothing.
pub open spec fn scan_step(s: Scan, unit: u16) -> Scan {
    if is_surrogate(unit) {
        s
    } else if is_text_unit(unit) {
        Scan { current: s.current.push(unit as char), ..s }
    } else if trim(s.current).len() > 0 {
        Scan { fragments: s.fragments.push(trim(s.current)), current: Seq::empty() }
    } else {
        s
    }
}

/// The state after the first `n` units of the bytes.
pub open spec fn scan(bytes: Seq<u8>, n: int) -> Scan
    decreases n,
{
    if n <= 0 {
        Scan { fragments: Seq::empty(), current: Seq::empty() }
    } else {
        scan_step(scan(bytes, n - 1), unit_at(bytes, n - 1))
    }
}

/// The fragments of readable text in the bytes, read as 16-bit units. A
/// last byte without a partner is not looked at.
pub open spec fn fragments_of(bytes: Seq<u8>) -> Seq<Seq<char>> {
    let last = scan(bytes, bytes.len() as int / 2);
    if trim(last.current).len() > 0 {
        last.fragments.push(trim(last.current))
    } else {
        last.fragments
    }
}

/// Whether `c` is a letter of the ASCII alphabet.
pub open spec fn is_ascii_letter(c: char) -> bool {
    ('a' <= c && c <= 'z') || ('A' <= c && c <= 'Z')
}

/// Whether `s` holds a letter.
pub open spec fn has_letter(s: Seq<char>) -> bool {
    exists|i: int| 0 <= i < s.len() && is_ascii_letter(#[trigger] s[i])
}

/// How many bytes a character takes in UTF-8.
pub open spec fn utf8_width(c: char) -> nat {
    let n = c as u32;
    if n < 0x80 {
        1
    } else if n < 0x800 {
        2
    } else if n < 0x10000 {
        3
    } else {
        4
    }
}

/// How many bytes a text takes in UTF-8.
pub open spec fn utf8_length(s: Seq<char>) -> nat
    decreases s.len(),
{
    if s.len() == 0 {
        0
    } else {
        utf8_length(s.drop_last()) + utf8_width(s.last())
    }
}

/// Whether a fragment is more than noise: it takes more than five bytes
/// and holds a letter.
pub open spec fn worth_keeping(s: Seq<char>) -> bool {
    utf8_length(s) > 5 && has_letter(s)
}

/// A text takes at least as many bytes as a part at its start.
pub proof fn lemma_utf8_length_grows(s: Seq<char>, k: int)
    requires
        0 <= k <= s.len(),
    ensures
        utf8_length(s.take(k)) <= utf8_length(s),
    decreases s.len() - k,
{
    if k == s.len() {
        assert(s.take(k) =~= s);
    } else {
        lemma_utf8_length_grows(s, k + 1);
        assert(s.take(k + 1).drop_last() =~= s.take(k));
    }
}

/// The first `limit` of the fragments that are worth keeping.
pub open spec fn first_worth_keeping(fragments: Seq<Seq<char>>, limit: nat) -> Seq<Seq<char>>
    decreases fragments.len(),
{
    if fragments.len() == 0 {
        Seq::empty()
    } else {
        let before = first_worth_keeping(fragments.drop_last(), limit);
        if before.len() < limit && worth_keeping(fragments.last()) {
            before.push(fragments.last())
        } else {
            before
        }
    }
}

/// How many fragments a report shows at most.
pub const MAX_FRAGMENTS: usize = 50;

/// The readable text in the bytes: the first fifty fragments worth keeping.
pub open spec fn basic_text(bytes: Seq<u8>) -> Seq<Seq<char>> {
    first_worth_keeping(fragments_of(bytes), MAX_FRAGMENTS as nat)
}

/// The fragments, one to a line, with no line feed after the last.
pub open spec fn joined(fragments: Seq<Seq<char>>) -> Seq<char>
    decreases fragments.len(),
{
    if fragments.len() == 0 {
        Seq::empty()
    } else if fragments.len() == 1 {
        fragments[0]
    } else {
        joined(fragments.drop_last()) + seq!['\n'] + fragments.last()
    }
}

/// The title of a report.
pub open spec fn report_title() -> Seq<char> {
    "Conversion Report"@
}

/// The text of the report on a file at `path` that holds `file_size`
/// bytes in which the given fragments were found.
pub open spec fn report_text(path: Seq<char>, file_size: u64, fragments: Seq<Seq<char>>) -> Seq<char> {
    "OneNote File Conversion Report\n================================\n\nSource File: "@ + path
        + "\nFile Size: "@ + decimal_text(file_size as nat) + " bytes\nExtracted Text Fragments: "@
        + decimal_text(fragments.len()) + "\n\nExtracted Content Preview:\n--------------------------\n"@
        + joined(fragments)
        + "\n\nNote: This is a basic extraction. For complete OneNote support,\nimplement the full MS-ONESTORE specification."@
}

/// The views of a list of strings.
pub open spec fn string_views(v: Seq<String>) -> Seq<Seq<char>> {
    v.map_values(|s: String| s@)
}

/// The character of a unit of readable text.
fn text_char(unit: u16) -> (r: Option<char>)
    ensures
        r == if is_text_unit(unit) {
            Some(unit as char)
        } else {
            None::<char>
        },
{
    if unit <= 0xFF {
        let c: char = (unit as u8) as char;
        if (0x21 <= unit && unit <= 0x7E) || is_space(c) {
            Some(c)
        } else {
            None
        }
    } else {
        let c: char = match unit {
            0x1680 => '\u{1680}',
            0x2000 => '\u{2000}',
            0x2001 => '\u{2001}',
            0x2002 => '\u{2002}',
            0x2003 => '\u{2003}',
            0x2004 => '\u{2004}',
            0x2005 => '\u{2005}',
            0x2006 => '\u{2006}',
            0x2007 => '\u{2007}',
            0x2008 => '\u{2008}',
            0x2009 => '\u{2009}',
            0x200A => '\u{200A}',
            0x2028 => '\u{2028}',
            0x2029 => '\u{2029}',
            0x202F => '\u{202F}',
            0x205F => '\u{205F}',
            0x3000 => '\u{3000}',
            _ => {
                return None;
            },
        };
        Some(c)
    }
}

/// Whether `s` takes more than five bytes in UTF-8.
fn takes_more_than_five(s: &[char]) -> (r: bool)
    ensures
        r == (utf8_length(s@) > 5),
{
    let mut bytes: usize = 0;
    let mut i: usize = 0;
    assert(s@.take(0) =~= Seq::<char>::empty());
    while i < s.len()
        invariant
            i <= s.len(),
            bytes == utf8_length(s@.take(i as int)),
            bytes <= 5,
        decreases s.len() - i,
    {
        let n: u32 = s[i] as u32;
        let width: usize = if n < 0x80 {
            1
        } else if n < 0x800 {
            2
        } else if n < 0x10000 {
            3
        } else {
            4
        };
        proof {
            assert(s@.take(i + 1).drop_last() =~= s@.take(i as int));
            assert(s@.take(i + 1).last() == s@[i as int]);
        }
        if bytes + width > 5 {
            proof {
                lemma_utf8_length_grows(s@, i + 1);
            }
            return true;
        }
        bytes = bytes + width;
        i += 1;
    }
    assert(s@.take(s.len() as int) =~= s@);
    false
}

/// Whether `s` holds a letter.
fn holds_letter(s: &[char]) -> (r: bool)
    ensures
        r == has_letter(s@),
{
    let mut i: usize = 0;
    while i < s.len()
        invariant
            i <= s.len(),
            forall|j: int| 0 <= j < i ==> !is_ascii_letter(#[trigger] s@[j]),
        decreases s.len() - i,
    {
        let c = s[i];
        if ('a' <= c && c <= 'z') || ('A' <= c && c <= 'Z') {
            return true;
        }
        i += 1;
    }
    false
}

/// Imports notebooks from OneNote files, as far as that goes.
pub struct OneNoteConverter {}

impl OneNoteConverter {
    pub fn new() -> (r: Self) {
        Self {  }
    }

    /// The notebook made for a OneNote file with the name `file_stem`
    /// (without directories and extension; `None` where it cannot be told)
    /// at `path`: it holds one page, a note on what a real import would take.
    pub fn convert_to_notebookx(&self, file_stem: Option<&str>, path: &str) -> (nb: Notebook)
        ensures
            is_uuid_text(nb@.id),
            nb@.title == converted_title(
                match file_stem {
                    Some(name) => Some(name@),
                    None => None,
                },
            ),
            nb@.created == nb@.pages[0].created,
            nb@.pages.len() == 1,
            is_uuid_text(nb@.pages[0].id),
            nb@.pages[0].title == conversion_note_title(),
            nb@.pages[0].content == conversion_note(path@),
            nb@.pages[0].number == Some(1u32),
            nb@.pages[0].modified == nb@.modified,
    {
        let mut title = String::from_str("Converted from ");
        match file_stem {
            Some(name) => {
                title.append(name);
            },
            None => {
                title.append("Converted Notebook");
            },
        }
        let mut note = String::from_str("This notebook was converted from a OneNote file: ");
        note.append(path);
        note.append(
            "\n\nIMPORTANT: This is a basic conversion placeholder.\n\nTo implement full OneNote conversion, the following would be needed:\n\n1. Parse the OneNote Revision Store File Format (.one)\n2. Extract the header structure\n3. Parse object spaces and property sets\n4. Extract text content, formatting, and metadata\n5. Convert images and attachments\n6. Map OneNote sections and pages to NotebookX format\n\nFor a complete implementation, refer to:\n- MS-ONESTORE specification\n- OneNote File Format documentation\n\nOriginal file: ",
        );
        note.append(path);
        let now = crate::timestamp::Timestamp::now();
        let mut notebook = Notebook {
            id: crate::ident::new_id(),
            title,
            pages: Vec::new(),
            created: now,
            modified: now,
        };
        assert(notebook@.pages =~= Seq::<crate::notebook::PageView>::empty());
        let page = Page {
            id: crate::ident::new_id(),
            title: String::from_str("OneNote Conversion Note"),
            content: note,
            number: Some(1),
            created: now,
            modified: now,
        };
        notebook.add_page_at(page, now);
        notebook
    }

    /// The readable text in the bytes of a file: runs of printable ASCII
    /// characters and white space among its 16-bit units, trimmed; of
    /// these, the first fifty that take more than five bytes and hold a
    /// letter.
    pub fn extract_basic_text(&self, content: &[u8]) -> (r: Vec<String>)
        ensures
            string_views(r@) == basic_text(content@),
    {
        let mut found: Vec<Vec<char>> = Vec::new();
        let mut current: Vec<char> = Vec::new();
        let units: usize = content.len() / 2;
        let mut k: usize = 0;
        assert(views(found@) =~= Seq::<Seq<char>>::empty());
        while k < units
            invariant
                k <= units,
                units == content.len() / 2,
                scan(content@, k as int) == (Scan { fragments: views(found@), current: current@ }),
            decreases units - k,
        {
            let unit: u16 = content[2 * k] as u16 + 256 * (content[2 * k + 1] as u16);
            assert(unit == unit_at(content@, k as int));
            let ghost before = views(found@);
            if !(0xD800 <= unit && unit <= 0xDFFF) {
                match text_char(unit) {
                    Some(c) => {
                        current.push(c);
                    },
                    None => {
                        let text = trimmed(current.as_slice());
                        if text.len() > 0 {
                            let piece = crate::text::copy_range(text, 0, text.len());
                            assert(piece@ =~= text@);
                            found.push(piece);
                            assert(views(found@) =~= before.push(trim(current@)));
                            current = Vec::new();
                        }
                    },
                }
            }
            k += 1;
        }
        let ghost before = views(found@);
        let text = trimmed(current.as_slice());
        if text.len() > 0 {
            let piece = crate::text::copy_range(text, 0, text.len());
            assert(piece@ =~= text@);
            found.push(piece);
            assert(views(found@) =~= before.push(trim(current@)));
        }
        assert(views(found@) == fragments_of(content@));
        let mut kept: Vec<String> = Vec::new();
        let ghost all = views(found@);
        assert(all.take(0) =~= Seq::<Seq<char>>::empty());
        assert(string_views(kept@) =~= Seq::<Seq<char>>::empty());
        let mut i: usize = 0;
        while i < found.len()
            invariant
                i <= found.len(),
                all == views(found@),
                string_views(kept@) == first_worth_keeping(all.take(i as int), MAX_FRAGMENTS as nat),
            decreases found.len() - i,
        {
            let fragment = found[i].as_slice();
            proof {
                assert(all.take(i + 1).drop_last() =~= all.take(i as int));
                assert(all.take(i + 1).last() == fragment@);
            }
            if kept.len() < MAX_FRAGMENTS && takes_more_than_five(fragment) && holds_letter(
                fragment,
            ) {
                let ghost kept_before = string_views(kept@);
                kept.push(string_of(fragment));
                assert(string_views(kept@) =~= kept_before.push(fragment@));
            }
            i += 1;
        }
        assert(all.take(found.len() as int) =~= all);
        kept
    }

    /// The page that reports on a file at `path` that holds `file_size`
    /// bytes, `content`.
    pub fn create_conversion_report(&self, path: &str, file_size: u64, content: &[u8]) -> (p: Page)
        ensures
            is_uuid_text(p@.id),
            p@.title == report_title(),
            p@.content == report_text(path@, file_size, basic_text(content@)),
            p@.number == Some(1u32),
            p@.modified == p@.created,
    {
        let fragments = self.extract_basic_text(content);
        let mut size: Vec<char> = Vec::new();
        push_decimal(&mut size, file_size);
        let mut count: Vec<char> = Vec::new();
        push_decimal(&mut count, fragments.len() as u64);
        assert(size@ =~= decimal_text(file_size as nat));
        assert(count@ =~= decimal_text(fragments.len() as nat));
        let mut text = String::from_str(
            "OneNote File Conversion Report\n================================\n\nSource File: ",
        );
        text.append(path);
        text.append("\nFile Size: ");
        text.append(string_of(size.as_slice()).as_str());
        text.append(" bytes\nExtracted Text Fragments: ");
        text.append(string_of(count.as_slice()).as_str());
        text.append("\n\nExtracted Content Preview:\n--------------------------\n");
        let ghost head = text@;
        let ghost all = string_views(fragments@);
        assert(all.take(0) =~= Seq::<Seq<char>>::empty());
        assert(head + joined(all.take(0)) =~= head);
        let mut i: usize = 0;
        while i < fragments.len()
            invariant
                i <= fragments.len(),
                all == string_views(fragments@),
                text@ == head + joined(all.take(i as int)),
            decreases fragments.len() - i,
        {
            if i > 0 {
                text.push('\n');
            }
            text.append(fragments[i].as_str());
            proof {
                let next = all.take(i + 1);
                assert(next.drop_last() =~= all.take(i as int));
                assert(next.last() == fragments[i as int]@);
                if i == 0 {
                    assert(joined(all.take(0)) =~= Seq::<char>::empty());
                    assert(next[0] == next.last());
                }
                assert(text@ =~= head + joined(next));
            }
            i += 1;
        }
        assert(all.take(fragments.len() as int) =~= all);
        text.append(
            "\n\nNote: This is a basic extraction. For complete OneNote support,\nimplement the full MS-ONESTORE specification.",
        );
        assert(text@ =~= report_text(path@, file_size, basic_text(content@)));
        Page::new(String::from_str("Conversion Report"), text, Some(1))
    }
}

impl Default for OneNoteConverter {
    fn default() -> Self {
        Self::new()
    }
}

} // verus!
