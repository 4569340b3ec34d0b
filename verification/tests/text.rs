use notebookx::decimal::{push_decimal, read_u32};
use notebookx::text::{
    begins_with, chars_of, copy_range, find, is_space, lines_of, matches_at, split_on, string_of,
    trimmed,
};

fn chars(s: &str) -> Vec<char> {
    s.chars().collect()
}

fn strings(v: &[Vec<char>]) -> Vec<String> {
    v.iter().map(|p| p.iter().collect()).collect()
}

const SAMPLES: [&str; 24] = [
    "",
    "a",
    "\n",
    "\r\n",
    "\r",
    "a\nb",
    "a\r\nb\r\n",
    "a\n\nb\n",
    "\n\na",
    "a\rb\n\rc\r",
    "  lead and trail \t",
    "\u{3000}wide\u{00A0}",
    "--- PAGE BREAK ---",
    "a--- PAGE BREAK ---b--- PAGE BREAK ---c",
    "--- PAGE BREAK ------ PAGE BREAK ---",
    "--- PAGE BREAK --- PAGE BREAK ---",
    "-- PAGE BREAK ---",
    "aaa",
    "aaaa",
    "ababab",
    "日本語のテキスト\n二行目",
    "é--- PAGE BREAK ---é",
    " \n \n ",
    "TITLE: x\nNUMBER: 7\r\n\r\n",
];

const PATTERNS: [&str; 7] = ["--- PAGE BREAK ---", "a", "aa", "ab", "\n", "é", "のテ"];

#[test]
fn white_space_is_what_the_standard_library_calls_so() {
    for code in 0..=0x10FFFFu32 {
        if let Some(c) = char::from_u32(code) {
            assert_eq!(is_space(c), c.is_whitespace(), "U+{:04X}", code);
        }
    }
}

#[test]
fn trimming_agrees_with_the_standard_library() {
    for s in SAMPLES {
        assert_eq!(string_of(trimmed(&chars(s))), s.trim(), "{:?}", s);
    }
    assert_eq!(string_of(trimmed(&chars(" \t a b \n "))), "a b");
    assert_eq!(string_of(trimmed(&chars("\u{200B} x"))), "\u{200B} x");
}

#[test]
fn lines_agree_with_the_standard_library() {
    for s in SAMPLES {
        let expected: Vec<String> = s.lines().map(|l| l.to_string()).collect();
        assert_eq!(strings(&lines_of(&chars(s))), expected, "{:?}", s);
    }
    assert_eq!(strings(&lines_of(&chars("a\r\nb\rc\n\nd\r"))), vec!["a", "b\rc", "", "d\r"]);
    assert!(lines_of(&chars("")).is_empty());
}

#[test]
fn splitting_agrees_with_the_standard_library() {
    for s in SAMPLES {
        for pat in PATTERNS {
            let expected: Vec<String> = s.split(pat).map(|p| p.to_string()).collect();
            assert_eq!(strings(&split_on(&chars(s), &chars(pat))), expected, "{:?} {:?}", s, pat);
        }
    }
    assert_eq!(strings(&split_on(&chars("aaaa"), &chars("aa"))), vec!["", "", ""]);
    assert_eq!(strings(&split_on(&chars("xaax"), &chars("a"))), vec!["x", "", "x"]);
    assert_eq!(strings(&split_on(&chars(""), &chars("a"))), vec![""]);
}

#[test]
fn searching_agrees_with_the_standard_library() {
    for s in SAMPLES {
        for pat in PATTERNS {
            let expected = s.find(pat).map(|at| s[..at].chars().count());
            assert_eq!(find(&chars(s), &chars(pat)), expected, "{:?} {:?}", s, pat);
            assert_eq!(begins_with(&chars(s), &chars(pat)), s.starts_with(pat));
        }
    }
    assert_eq!(find(&chars("abc"), &chars("")), Some(0));
    assert_eq!(find(&chars(""), &chars("")), Some(0));
    assert_eq!(find(&chars("ab"), &chars("abc")), None);
    assert_eq!(find(&chars("xxabxab"), &chars("ab")), Some(2));
    assert!(matches_at(&chars("xxab"), &chars("ab"), 2));
    assert!(!matches_at(&chars("xxab"), &chars("ab"), 1));
    assert!(!matches_at(&chars("xxab"), &chars("ab"), 3));
    assert!(!matches_at(&chars("xxab"), &chars("ab"), usize::MAX));
    assert!(matches_at(&chars("xxab"), &chars(""), 4));
    assert!(!matches_at(&chars("xxab"), &chars(""), 5));
}

#[test]
fn conversions_keep_the_characters() {
    for s in SAMPLES {
        assert_eq!(chars_of(s), chars(s));
        assert_eq!(string_of(&chars(s)), s);
    }
    assert_eq!(copy_range(&chars("abcdef"), 2, 4), chars("cd"));
    assert_eq!(copy_range(&chars("abcdef"), 3, 3), chars(""));
    assert_eq!(copy_range(&chars("日本語"), 1, 3), chars("本語"));
}

#[test]
fn numbers_are_read_as_the_standard_library_reads_them() {
    for s in [
        "", "0", "7", "007", "+7", "+", "-", "-7", "-0", "++7", "+-7", " 7", "7 ", "7a", "a7",
        "4294967295", "4294967296", "04294967295", "42949672950", "99999999999999999999",
        "+4294967295", "1_000", "1.0", "0x10", "\u{0663}", "\u{FF11}", "12\n",
    ] {
        assert_eq!(read_u32(&chars(s)), s.parse::<u32>().ok(), "{:?}", s);
    }
    for n in [0u32, 1, 9, 10, 11, 99, 100, 12345, 4_294_967_294, 4_294_967_295] {
        assert_eq!(read_u32(&chars(&n.to_string())), Some(n));
    }
}

#[test]
fn numbers_are_written_in_decimal() {
    for n in [0u64, 1, 9, 10, 19, 100, 1001, 4_294_967_295, 4_294_967_296, u64::MAX] {
        let mut out = chars("n=");
        push_decimal(&mut out, n);
        assert_eq!(string_of(&out), format!("n={}", n));
    }
}
