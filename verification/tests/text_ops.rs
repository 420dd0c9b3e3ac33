use contour_sync::order::{chars_less, stable_sort};
use contour_sync::text::{
    chars_of, is_whitespace, parse_u64_chars, split_chars, split_lines, split_words, trimmed, u64_text,
};

fn chars(s: &str) -> Vec<char> {
    s.chars().collect()
}

const SAMPLES: [&str; 16] = [
    "", "\n", "a", "a\n", "a\r\n", "a\r", "a\n\nb", "\r\n\r\n", "a\rb\n", "\n\n", " x \t y\u{a0}z ",
    "\u{2003}lead", "trail\u{3000}", "a\tb\t\tc", "\t", "x\r\r\n",
];

#[test]
fn lines_match_str_lines() {
    for s in SAMPLES {
        let ours = split_lines(&chars(s));
        let std: Vec<Vec<char>> = s.lines().map(chars).collect();
        assert_eq!(ours, std, "input {s:?}");
    }
}

#[test]
fn split_matches_str_split() {
    for s in SAMPLES {
        let ours = split_chars(&chars(s), '\t');
        let std: Vec<Vec<char>> = s.split('\t').map(chars).collect();
        assert_eq!(ours, std, "input {s:?}");
    }
}

#[test]
fn words_match_split_whitespace() {
    for s in SAMPLES {
        let ours = split_words(&chars(s));
        let std: Vec<Vec<char>> = s.split_whitespace().map(chars).collect();
        assert_eq!(ours, std, "input {s:?}");
    }
}

#[test]
fn trim_matches_str_trim() {
    for s in SAMPLES {
        assert_eq!(trimmed(s), s.trim(), "input {s:?}");
    }
}

#[test]
fn whitespace_matches_char_is_whitespace() {
    for code in 0u32..0x3100 {
        if let Some(c) = char::from_u32(code) {
            assert_eq!(is_whitespace(c), c.is_whitespace(), "char {code:#x}");
        }
    }
}

#[test]
fn u64_parsing_matches_str_parse() {
    for s in ["0", "007", "+1", "+", "-0", "", " 1", "18446744073709551615", "18446744073709551616", "99999999999999999999", "1a", "١"] {
        assert_eq!(parse_u64_chars(&chars(s)), s.parse::<u64>().ok(), "input {s:?}");
    }
}

#[test]
fn decimal_text_matches_to_string() {
    for n in [0u64, 7, 10, 99, 100, 65535, u64::MAX] {
        assert_eq!(u64_text(n), n.to_string());
    }
}

#[test]
fn char_order_matches_string_order() {
    let words = ["", "a", "b", "ab", "aa", "я", "z", "Z", "ä", "\u{10000}", "\u{ffff}", "a\u{0}"];
    for a in words {
        for b in words {
            assert_eq!(chars_less(&chars(a), &chars(b)), a < b, "{a:?} < {b:?}");
        }
    }
}

#[test]
fn chars_of_keeps_every_char() {
    assert_eq!(chars_of("añ\u{1F600}"), vec!['a', 'ñ', '\u{1F600}']);
}

#[test]
fn stable_sort_matches_std_stable_sort() {
    let items: Vec<(u32, &str)> = vec![(0, "b"), (1, "a"), (2, "b"), (3, "c"), (4, "a"), (5, ""), (6, "b")];
    let keys: Vec<Vec<Vec<char>>> = items.iter().map(|(_, k)| vec![chars(k)]).collect();
    let ours: Vec<u32> = stable_sort(items.iter().map(|(i, _)| *i).collect(), keys);
    let mut std = items.clone();
    std.sort_by(|a, b| a.1.cmp(b.1));
    assert_eq!(ours, std.iter().map(|(i, _)| *i).collect::<Vec<_>>());
}

#[test]
fn keys_compare_segment_by_segment() {
    let items = vec![0u8, 1, 2, 3];
    let keys = vec![
        vec![chars("1"), chars("a")],
        vec![chars("0"), chars("z")],
        vec![chars("1")],
        vec![chars("0"), chars("z"), chars("")],
    ];
    assert_eq!(stable_sort(items, keys), vec![1, 3, 2, 0]);
}
