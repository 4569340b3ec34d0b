use notebookx::paginator::{
    continuation_title, find_last_in_window, find_split_point, split_if_overflowing, LOOKBACK,
    PAGE_MAX_CHARS, PAGE_MAX_CHARS_PER_LINE, PAGE_MAX_LINES,
};

fn split(text: &str, capacity: usize) -> Option<(String, String)> {
    split_if_overflowing(text, capacity)
}

fn parts(kept: &str, overflow: &str) -> Option<(String, String)> {
    Some((kept.to_string(), overflow.to_string()))
}

#[test]
fn capacity_of_a_printed_page() {
    assert_eq!(PAGE_MAX_LINES, 46);
    assert_eq!(PAGE_MAX_CHARS_PER_LINE, 80);
    assert_eq!(PAGE_MAX_CHARS, 3680);
    assert_eq!(LOOKBACK, 200);
}

#[test]
fn text_within_capacity_is_not_split() {
    assert_eq!(split("abc", 3), None);
    assert_eq!(split("abc", 4), None);
    assert_eq!(split("", 0), None);
    assert_eq!(split("a b\nc", 5), None);
    let full = "x".repeat(PAGE_MAX_CHARS);
    assert_eq!(split(&full, PAGE_MAX_CHARS), None);
    assert_eq!(split(&full, usize::MAX), None);
}

#[test]
fn split_after_the_line_feed_in_the_window() {
    let c = 300;
    let mut text = "x".repeat(c + 50);
    text.replace_range(c - 10..c - 9, "\n");
    let (kept, overflow) = split(&text, c).unwrap();
    assert_eq!(kept.len(), c - 9);
    assert!(kept.ends_with('\n'));
    assert_eq!(kept, format!("{}\n", "x".repeat(c - 10)));
    assert_eq!(overflow, "x".repeat(59));
    let chars: Vec<char> = text.chars().collect();
    assert_eq!(find_split_point(&chars, c), c - 9);
}

#[test]
fn split_at_the_capacity_without_a_break_in_the_window() {
    let c = 300;
    let text = "x".repeat(c + 50);
    let (kept, overflow) = split(&text, c).unwrap();
    assert_eq!(kept, "x".repeat(c));
    assert_eq!(overflow, "x".repeat(50));
    assert_eq!(split("abcdef", 4), parts("abcd", "ef"));
    assert_eq!(split("abcde", 4), parts("abcd", "e"));
}

#[test]
fn split_after_the_last_space_in_the_window() {
    assert_eq!(split("aaa bbb ccc ddd", 10), parts("aaa bbb ", "ccc ddd"));
    assert_eq!(split("aaa bbb cc ddd", 10), parts("aaa bbb ", "cc ddd"));
    assert_eq!(split("aaa bbb c dddd", 10), parts("aaa bbb c ", "dddd"));
    assert_eq!(split("aaaaaaaaa bbb", 10), parts("aaaaaaaaa ", "bbb"));
    assert_eq!(split(" aaaaaaaaaaaa", 10), parts(" ", "aaaaaaaaaaaa"));
}

#[test]
fn line_feed_is_preferred_to_a_later_space() {
    assert_eq!(split("ab\ncd ef gh", 8), parts("ab\n", "cd ef gh"));
    assert_eq!(split("ab cd\nef\ngh ij", 10), parts("ab cd\nef\n", "gh ij"));
    assert_eq!(split("\n aaaaaaaaaaaa", 10), parts("\n", " aaaaaaaaaaaa"));
}

#[test]
fn only_the_window_is_searched() {
    let c = 300;
    let mut before = "x".repeat(c + 50);
    before.replace_range(99..100, "\n");
    before.replace_range(50..51, " ");
    assert_eq!(split(&before, c).unwrap().0.len(), c);
    let mut first = "x".repeat(c + 50);
    first.replace_range(100..101, "\n");
    assert_eq!(split(&first, c).unwrap().0.len(), 101);
    let mut space = "x".repeat(c + 50);
    space.replace_range(100..101, " ");
    space.replace_range(99..100, "\n");
    assert_eq!(split(&space, c).unwrap().0.len(), 101);
    let mut at = "x".repeat(c + 50);
    at.replace_range(c..c + 1, "\n");
    assert_eq!(split(&at, c).unwrap().0.len(), c);
    let mut last = "x".repeat(c + 50);
    last.replace_range(c - 1..c, " ");
    assert_eq!(split(&last, c).unwrap().0.len(), c);
    assert_eq!(split(&last, c).unwrap().1, "x".repeat(50));
}

#[test]
fn last_in_window_reports_the_place() {
    let chars: Vec<char> = "a b c d".chars().collect();
    assert_eq!(find_last_in_window(&chars, ' ', 6), Some(5));
    assert_eq!(find_last_in_window(&chars, ' ', 5), Some(3));
    assert_eq!(find_last_in_window(&chars, ' ', 1), None);
    assert_eq!(find_last_in_window(&chars, ' ', 0), None);
    assert_eq!(find_last_in_window(&chars, ' ', 100), Some(5));
    assert_eq!(find_last_in_window(&chars, '\n', 7), None);
    let long: Vec<char> = format!(" {}", "x".repeat(300)).chars().collect();
    assert_eq!(find_last_in_window(&long, ' ', 200), Some(0));
    assert_eq!(find_last_in_window(&long, ' ', 201), None);
}

#[test]
fn capacity_zero_moves_everything() {
    assert_eq!(split("abc", 0), parts("", "abc"));
    assert_eq!(split(" ", 0), parts("", " "));
}

#[test]
fn length_is_counted_in_characters() {
    assert_eq!(split("éééé", 4), None);
    assert_eq!(split("éééé", 3), parts("ééé", "é"));
    assert_eq!(split("日本 語のテキスト", 5), parts("日本 ", "語のテキスト"));
}

#[test]
fn an_overflow_that_still_overflows_is_split_again() {
    let text = "one two three four five six";
    let (kept, overflow) = split(text, 10).unwrap();
    assert_eq!(kept, "one two ");
    assert_eq!(overflow, "three four five six");
    let (kept, overflow) = split(&overflow, 10).unwrap();
    assert_eq!(kept, "three ");
    assert_eq!(overflow, "four five six");
    let (kept, overflow) = split(&overflow, 10).unwrap();
    assert_eq!(kept, "four five ");
    assert_eq!(overflow, "six");
    assert_eq!(split(&overflow, 10), None);
}

#[test]
fn continuation_titles() {
    assert_eq!(continuation_title("Notes"), "Notes (cont.)");
    assert_eq!(continuation_title("Notes (cont.)"), "Notes (cont.)");
    assert_eq!(continuation_title(&continuation_title(&continuation_title("Notes"))), "Notes (cont.)");
    assert_eq!(continuation_title(""), " (cont.)");
    assert_eq!(continuation_title(" (cont.)"), " (cont.)");
    assert_eq!(continuation_title("(cont.)"), "(cont.) (cont.)");
    assert_eq!(continuation_title("Notes(cont.)"), "Notes(cont.) (cont.)");
    assert_eq!(continuation_title("Notes (cont.) 2"), "Notes (cont.) 2 (cont.)");
}
