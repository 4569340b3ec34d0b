//! The capacity of a page and the place where an overlong text is cut.
//!
//! A text that holds more characters than the capacity is cut once: just
//! after the last line feed among the 200 characters before the capacity,
//! else just after the last space among them, else at the capacity itself.

use crate::text::{chars_of, ends_with, string_of};
use vstd::prelude::*;
use vstd::slice::slice_subrange;
use vstd::string::StringExecFns;

verus! {

/// Lines of text on a printed page.
pub const PAGE_MAX_LINES: usize = 46;

/// Characters in a line of a printed page.
pub const PAGE_MAX_CHARS_PER_LINE: usize = 80;

/// Characters on a printed page.
pub const PAGE_MAX_CHARS: usize = PAGE_MAX_LINES * PAGE_MAX_CHARS_PER_LINE;

/// How many characters before the capacity are searched for a break.
pub const LOOKBACK: usize = 200;

/// The first position of the window searched for a break.
pub open spec fn window_start(capacity: int) -> int {
    if capacity >= LOOKBACK {
        capacity - LOOKBACK
    } else {
        0
    }
}

/// Whether `i` is the last position in the window before `capacity` at
/// which `s` holds the character `c`.
pub open spec fn is_last_in_window(s: Seq<char>, c: char, capacity: int, i: int) -> bool {
    &&& window_start(capacity) <= i < capacity
    &&& i < s.len()
    &&& s[i] == c
    &&& forall|j: int| i < j < capacity && j < s.len() ==> s[j] != c
}

/// The last position in the window before `capacity` at which `s` holds
/// the character `c`, if there is one.
pub open spec fn last_in_window(s: Seq<char>, c: char, capacity: int) -> Option<int> {
    if exists|i: int| is_last_in_window(s, c, capacity, i) {
        Some(choose|i: int| is_last_in_window(s, c, capacity, i))
    } else {
        None
    }
}

/// Where a text that exceeds `capacity` is cut.
pub open spec fn split_point(s: Seq<char>, capacity: int) -> int {
    match last_in_window(s, '\n', capacity) {
        Some(i) => i + 1,
        None => match last_in_window(s, ' ', capacity) {
            Some(i) => i + 1,
            None => capacity,
        },
    }
}

/// The two parts of a text that exceeds `capacity`; `None` for one that
/// does not.
pub open spec fn split_text(s: Seq<char>, capacity: int) -> Option<(Seq<char>, Seq<char>)> {
    if s.len() <= capacity {
        None
    } else {
        Some((s.take(split_point(s, capacity)), s.skip(split_point(s, capacity))))
    }
}

/// The mark that the title of a continuation page ends with.
pub open spec fn continuation_suffix() -> Seq<char> {
    " (cont.)"@
}

/// The title of the page that continues a page titled `title`: the title
/// with the mark appended, unless it ends with the mark already.
pub open spec fn continued_title(title: Seq<char>) -> Seq<char> {
    if ends_with(title, continuation_suffix()) {
        title
    } else {
        title + continuation_suffix()
    }
}

/// A last position in the window is the one `last_in_window` gives.
pub proof fn lemma_last_in_window_is(s: Seq<char>, c: char, capacity: int, i: int)
    requires
        is_last_in_window(s, c, capacity, i),
    ensures
        last_in_window(s, c, capacity) == Some(i),
{
    let k = choose|k: int| is_last_in_window(s, c, capacity, k);
    if k < i {
        assert(s[i] != c);
    } else if i < k {
        assert(s[k] != c);
    }
}

/// The last position in the window before `capacity` at which `s` holds `c`.
pub fn find_last_in_window(s: &[char], c: char, capacity: usize) -> (r: Option<usize>)
    ensures
        match r {
            Some(i) => last_in_window(s@, c, capacity as int) == Some(i as int),
            None => last_in_window(s@, c, capacity as int) is None,
        },
{
    let start: usize = if capacity >= LOOKBACK {
        capacity - LOOKBACK
    } else {
        0
    };
    let mut i: usize = if capacity < s.len() {
        capacity
    } else {
        s.len()
    };
    while i > start
        invariant
            start == window_start(capacity as int),
            i <= capacity,
            i <= s.len(),
            forall|j: int| i <= j < capacity && j < s.len() ==> s@[j] != c,
        decreases i,
    {
        i -= 1;
        if s[i] == c {
            proof {
                lemma_last_in_window_is(s@, c, capacity as int, i as int);
            }
            return Some(i);
        }
    }
    None
}

/// Where a text that exceeds `capacity` is cut.
pub fn find_split_point(s: &[char], capacity: usize) -> (r: usize)
    requires
        s.len() > capacity,
    ensures
        r == split_point(s@, capacity as int),
        r <= capacity,
{
    match find_last_in_window(s, '\n', capacity) {
        Some(i) => {
            proof {
                lemma_last_in_window(s@, '\n', capacity as int);
            }
            i + 1
        },
        None => match find_last_in_window(s, ' ', capacity) {
            Some(i) => {
                proof {
                    lemma_last_in_window(s@, ' ', capacity as int);
                }
                i + 1
            },
            None => capacity,
        },
    }
}

/// What `last_in_window` gives is a last position in the window.
pub proof fn lemma_last_in_window(s: Seq<char>, c: char, capacity: int)
    ensures
        last_in_window(s, c, capacity) matches Some(i) ==> is_last_in_window(s, c, capacity, i),
{
}

/// A text within the capacity is not cut.
pub proof fn lemma_within_capacity(s: Seq<char>, capacity: int)
    requires
        s.len() <= capacity,
    ensures
        split_text(s, capacity) is None,
{
}

/// The two parts of a cut text make up the text, the first part is within
/// the capacity, and it reaches into the window unless the capacity is zero.
pub proof fn lemma_split_parts(s: Seq<char>, capacity: int)
    requires
        0 <= capacity < s.len(),
    ensures
        split_text(s, capacity) matches Some(parts) && parts.0 + parts.1 == s && parts.0.len()
            == split_point(s, capacity),
        window_start(capacity) <= split_point(s, capacity) <= capacity,
        capacity > 0 ==> split_point(s, capacity) > 0,
{
    lemma_last_in_window(s, '\n', capacity);
    lemma_last_in_window(s, ' ', capacity);
    let at = split_point(s, capacity);
    assert(s.take(at) + s.skip(at) =~= s);
}

/// With a line feed at `p` in the window and none between `p` and the
/// capacity, the text is cut just after `p`.
pub proof fn lemma_split_after_line_feed(s: Seq<char>, capacity: int, p: int)
    requires
        capacity < s.len(),
        window_start(capacity) <= p < capacity,
        s[p] == '\n',
        forall|j: int| p < j < capacity ==> s[j] != '\n',
    ensures
        split_point(s, capacity) == p + 1,
{
    lemma_last_in_window_is(s, '\n', capacity, p);
}

/// With no line feed in the window, a space at `p` in it and none between
/// `p` and the capacity, the text is cut just after `p`.
pub proof fn lemma_split_after_space(s: Seq<char>, capacity: int, p: int)
    requires
        capacity < s.len(),
        window_start(capacity) <= p < capacity,
        s[p] == ' ',
        forall|j: int| p < j < capacity ==> s[j] != ' ',
        forall|j: int| window_start(capacity) <= j < capacity ==> s[j] != '\n',
    ensures
        split_point(s, capacity) == p + 1,
{
    lemma_last_in_window(s, '\n', capacity);
    lemma_last_in_window_is(s, ' ', capacity, p);
}

/// With neither a line feed nor a space in the window, the text is cut at
/// the capacity.
pub proof fn lemma_split_at_capacity(s: Seq<char>, capacity: int)
    requires
        capacity < s.len(),
        forall|j: int|
            window_start(capacity) <= j < capacity ==> s[j] != '\n' && s[j] != ' ',
    ensures
        split_point(s, capacity) == capacity,
{
    lemma_last_in_window(s, '\n', capacity);
    lemma_last_in_window(s, ' ', capacity);
}

/// A continuation of a continuation keeps its title.
pub proof fn lemma_continued_title_settles(title: Seq<char>)
    ensures
        ends_with(continued_title(title), continuation_suffix()),
        continued_title(continued_title(title)) == continued_title(title),
{
    let suffix = continuation_suffix();
    if !ends_with(title, suffix) {
        let t = title + suffix;
        assert(t.subrange(t.len() - suffix.len(), t.len() as int) =~= suffix);
    }
}

/// Cuts a text that holds more than `capacity` characters in two: what
/// stays on the page, and what goes to the next one. A text within the
/// capacity is not cut.
pub fn split_if_overflowing(page_content: &str, capacity: usize) -> (r: Option<(String, String)>)
    ensures
        match r {
            Some((kept, overflow)) => split_text(page_content@, capacity as int) == Some(
                (kept@, overflow@),
            ),
            None => split_text(page_content@, capacity as int) is None,
        },
{
    let chars = chars_of(page_content);
    if chars.len() <= capacity {
        return None;
    }
    let at = find_split_point(chars.as_slice(), capacity);
    let kept = string_of(slice_subrange(chars.as_slice(), 0, at));
    let overflow = string_of(slice_subrange(chars.as_slice(), at, chars.len()));
    Some((kept, overflow))
}

/// The title of the page that continues a page titled `title`.
pub fn continuation_title(title: &str) -> (r: String)
    ensures
        r@ == continued_title(title@),
{
    let chars = chars_of(title);
    let suffix = chars_of(" (cont.)");
    let carries = suffix.len() <= chars.len() && crate::text::matches_at(
        chars.as_slice(),
        suffix.as_slice(),
        chars.len() - suffix.len(),
    );
    if carries {
        String::from_str(title)
    } else {
        let mut r = String::from_str(title);
        r.append(" (cont.)");
        r
    }
}

} // verus!
