use script_runner::path::{normalize_chars, parse_path};
use script_runner::text::{all_distinct, contains_text, is_space_char, replace_text, split_lines, starts_with_char, trim_text, starts_with_namespace, to_chars, to_text};

#[test]
fn parent_marker_removes_previous_name() {
    assert_eq!(parse_path("a/b/../c"), "a/c");
}

#[test]
fn parent_markers_stop_at_the_root() {
    assert_eq!(parse_path("/a/../../b"), "/b");
}

#[test]
fn parent_markers_stop_at_an_empty_relative_path() {
    assert_eq!(parse_path("../a"), "a");
    assert_eq!(parse_path("a/../../b"), "b");
}

#[test]
fn current_markers_and_empty_pieces_are_dropped() {
    assert_eq!(parse_path("./a/./b"), "a/b");
    assert_eq!(parse_path("a//b/"), "a/b");
    assert_eq!(parse_path("/./a"), "/a");
}

#[test]
fn empty_and_root_paths() {
    assert_eq!(parse_path(""), "");
    assert_eq!(parse_path("/"), "/");
    assert_eq!(parse_path("a/.."), "");
    assert_eq!(parse_path("/a/.."), "/");
    assert_eq!(parse_path("."), "");
}

#[test]
fn names_with_dots_are_kept() {
    assert_eq!(parse_path("f/a.b/...//c.ps1"), "f/a.b/.../c.ps1");
}

#[test]
fn normalisation_is_idempotent_on_samples() {
    for p in ["a/b/../c", "/a/../../b", "./x/y/../../z", "u/me/./s"] {
        let once = parse_path(p);
        assert_eq!(parse_path(&once), once);
    }
}

#[test]
fn normalize_chars_agrees_with_parse_path() {
    let chars: Vec<char> = "f/x/../y".chars().collect();
    let out: String = normalize_chars(&chars).into_iter().collect();
    assert_eq!(out, "f/y");
}

#[test]
fn characters_round_trip() {
    let v = to_chars("héllo/wörld");
    assert_eq!(v.len(), 11);
    assert_eq!(to_text(&v), "héllo/wörld");
}

#[test]
fn prefixes() {
    assert!(starts_with_namespace("f/a", 'f'));
    assert!(!starts_with_namespace("fa/", 'f'));
    assert!(!starts_with_namespace("f", 'f'));
    assert!(starts_with_char("./a", '.'));
    assert!(!starts_with_char("", '.'));
}

#[test]
fn contains_text_finds_an_equal_string() {
    let list = vec!["a".to_string(), "b".to_string()];
    assert!(contains_text(&list, &"b".to_string()));
    assert!(!contains_text(&list, &"c".to_string()));
}

#[test]
fn lines_end_at_line_feeds() {
    assert_eq!(split_lines("foo\nbar\n\r\nbaz\r"), vec!["foo", "bar", "", "baz\r"]);
    assert_eq!(split_lines("a\r\nb\n"), vec!["a", "b"]);
    assert_eq!(split_lines("a\r\r\nb"), vec!["a\r", "b"]);
    assert!(split_lines("").is_empty());
    assert_eq!(split_lines("\n"), vec![""]);
    assert_eq!(split_lines("\n\n"), vec!["", ""]);
    assert_eq!(split_lines("x"), vec!["x"]);
}

#[test]
fn lines_agree_with_the_standard_library() {
    for s in ["", "\n", "\r", "\r\n", "a", "a\n", "a\r", "a\r\n", "a\nb", "a\r\nb\r", "\n\na\n\n", "é\r\nü\n", "a\rb\nc"] {
        let expected: Vec<String> = s.lines().map(|l| l.to_string()).collect();
        assert_eq!(split_lines(s), expected, "{:?}", s);
    }
}

#[test]
fn replacement_takes_matches_from_the_left() {
    assert_eq!(replace_text("abcabc", "bc", "X"), "aXaX");
    assert_eq!(replace_text("aaa", "aa", "b"), "ba");
    assert_eq!(replace_text("a/b/c", "/", "."), "a.b.c");
    assert_eq!(replace_text("abc", "abcd", "x"), "abc");
    assert_eq!(replace_text("abc", "abc", ""), "");
    assert_eq!(replace_text("", "a", "b"), "");
}

#[test]
fn replacement_agrees_with_the_standard_library() {
    let texts = ["", "a", "ab", "abab", "aaa", "xaaay", "é/ü/é", "Import-Module x\nImport-Module x"];
    let patterns = ["", "a", "aa", "ab", "b", "/", "é", "Import-Module x", "zz"];
    let fills = ["", "-", "ab", "ü."];
    for t in texts {
        for p in patterns {
            for f in fills {
                assert_eq!(replace_text(t, p, f), t.replace(p, f), "{:?} {:?} {:?}", t, p, f);
            }
        }
    }
}

#[test]
fn trimming_removes_white_space_at_both_ends() {
    assert_eq!(trim_text("  42\n"), "42");
    assert_eq!(trim_text("\t a b \r\n"), "a b");
    assert_eq!(trim_text(" \n "), "");
    assert_eq!(trim_text(""), "");
    assert_eq!(trim_text("x"), "x");
    for s in ["", " ", "a ", " a", "\u{a0}a\u{2003}", "a  b", "\r\n\t"] {
        assert_eq!(trim_text(s), s.trim(), "{:?}", s);
    }
}

#[test]
fn distinct_lists() {
    assert!(all_distinct(&Vec::new()));
    assert!(all_distinct(&vec!["a".to_string(), "b".to_string()]));
    assert!(!all_distinct(&vec!["a".to_string(), "b".to_string(), "a".to_string()]));
}

#[test]
fn white_space_is_what_the_standard_library_says() {
    for n in 0..=0x10FFFFu32 {
        if let Some(c) = char::from_u32(n) {
            assert_eq!(is_space_char(c), c.is_whitespace(), "{:x}", n);
        }
    }
}
