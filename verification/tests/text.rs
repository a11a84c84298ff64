use gateway::bytes::{byte_prefix, char_width, index_at, text_bytes};
use gateway::memory::SearchMatch;
use gateway::order::{not_after, sort_by_key};
use gateway::text::{
    after_prefix, begins_with, blank, decimal_int_text, decimal_text, joined, occurs_in, prefix_chars, split_lines,
    trimmed, trimmed_end_of, trimmed_of, with_all_replaced, with_first_replaced,
};

const SAMPLES: [&str; 9] =
    ["", " ", "a", " a b ", "\u{3000}x\u{85}", "a\nb\r\nc", "\n\n", "aaaa", "été … 日本\r"];

#[test]
fn white_space_is_that_of_the_standard_library() {
    for s in SAMPLES {
        assert_eq!(trimmed(s), s.trim());
        assert_eq!(blank(s), s.trim().is_empty());
    }
    for c in '\0'..='\u{3100}' {
        let s = c.to_string();
        assert_eq!(blank(&s), c.is_whitespace());
    }
}

#[test]
fn lines_are_those_of_the_standard_library() {
    for s in SAMPLES {
        let lines: Vec<String> = s.lines().map(|l| l.to_string()).collect();
        assert_eq!(split_lines(s), lines);
        assert_eq!(joined(&lines, "|"), lines.join("|"));
    }
}

#[test]
fn finding_and_replacing_is_that_of_the_standard_library() {
    for s in SAMPLES {
        for p in ["a", "aa", "\n", "日", "x"] {
            assert_eq!(occurs_in(s, p), s.contains(p));
            assert_eq!(begins_with(s, p), s.starts_with(p));
            assert_eq!(after_prefix(s, p), s.strip_prefix(p).map(|r| r.to_string()));
            assert_eq!(with_first_replaced(s, p, "<>"), s.replacen(p, "<>", 1));
            assert_eq!(with_all_replaced(s, p, "<>"), s.replace(p, "<>"));
        }
        assert!(occurs_in(s, ""));
        assert_eq!(trimmed_of(s, 'a'), s.trim_matches('a'));
        assert_eq!(trimmed_end_of(s, 'a'), s.trim_end_matches('a'));
        assert_eq!(prefix_chars(s, 2), s.chars().take(2).collect::<String>());
    }
}

#[test]
fn numbers_in_decimal_digits() {
    for n in [0u64, 7, 10, 1234567890, u64::MAX] {
        assert_eq!(decimal_text(n), n.to_string());
    }
    for n in [0i64, -1, 42, i64::MIN + 1, i64::MAX] {
        assert_eq!(decimal_int_text(n), n.to_string());
    }
}

#[test]
fn bytes_are_those_of_utf8() {
    for s in SAMPLES {
        assert_eq!(text_bytes(s), s.len());
        for b in 0..s.len() + 2 {
            let expected = if s.is_char_boundary(b) { Some(s[..b].chars().count()) } else { None };
            assert_eq!(index_at(s, b), expected);
            let mut end = b.min(s.len());
            while !s.is_char_boundary(end) {
                end -= 1;
            }
            assert_eq!(byte_prefix(s, b), s[..end]);
        }
    }
    for c in ['a', '\u{7f}', '\u{80}', '\u{7ff}', '\u{800}', '\u{ffff}', '\u{10000}', '\u{10ffff}'] {
        assert_eq!(char_width(c), c.len_utf8());
    }
}

#[test]
fn texts_are_ordered_as_in_the_standard_library() {
    for a in SAMPLES {
        for b in SAMPLES {
            assert_eq!(not_after(a, b), a <= b);
        }
    }
}

#[test]
fn sorting_is_stable() {
    let paths = ["b", "a", "b", "", "a"];
    let mut items = Vec::new();
    for (i, p) in paths.iter().enumerate() {
        items.push(SearchMatch { path: p.to_string(), snippet: i.to_string() });
    }
    let sorted = sort_by_key(items);
    let order: Vec<String> = sorted.iter().map(|m| m.snippet.clone()).collect();
    assert_eq!(order, vec!["3", "1", "4", "0", "2"]);
}
