use baitts::number::{parse_number, to_decimal, to_two_digits};
use baitts::order::{is_text_le, sort_texts};
use baitts::path::{
    directory_below, extension, file_name, file_stem, has_step_up, is_rooted, is_under, join,
    path_steps,
};
use baitts::search::{
    contains_text, ends_with, join as join_texts, lines, remove_first, replace_char, same, split,
    split_once, starts_with, strip_prefix, take_chars,
};
use baitts::text::{
    copy, from_chars, is_blank, is_white_space, to_chars, trim, trim_class, trim_start_class,
    CharClass,
};
use std::path::{Component, Path};

const SAMPLES: [&str; 30] = [
    "",
    " ",
    "a",
    "a b",
    " a b\t",
    "\u{3000}章\u{3000}",
    "a\nb",
    "a\r\nb\r\n",
    "\n\n",
    "\r",
    "a\r",
    "a\n\r",
    "\u{85}x\u{2028}",
    "/",
    "//",
    "/a/b",
    "a/b/",
    "./a",
    "a/./b",
    "../a",
    "a/..",
    "a/../b",
    ".",
    "..",
    "/..",
    ".hidden",
    "book.tar.gz",
    "dir.d/name",
    "name.",
    "书/第一章.txt",
];

#[test]
fn white_space_is_that_of_the_standard_library() {
    for n in 0..=0x10ffffu32 {
        if let Some(c) = char::from_u32(n) {
            assert_eq!(is_white_space(c), c.is_whitespace(), "{:x}", n);
        }
    }
}

#[test]
fn trimming_is_that_of_the_standard_library() {
    for s in SAMPLES {
        assert_eq!(trim(s), s.trim());
        assert_eq!(is_blank(s), s.trim().is_empty());
        assert_eq!(trim_start_class(s, CharClass::Space), s.trim_start());
        assert_eq!(
            trim_start_class(s, CharClass::Slash),
            s.trim_start_matches(['/', '\\'])
        );
        assert_eq!(trim_class(s, CharClass::Slash), s.trim_matches(['/', '\\']));
    }
    assert_eq!(trim_class("“`'x'”", CharClass::Quote), "x");
    assert_eq!(trim_class("```x``y`", CharClass::Backtick), "x``y");
    assert!(CharClass::Slash.contains('\\'));
    assert!(!CharClass::Quote.contains('「'));
}

#[test]
fn characters_and_texts_turn_into_each_other() {
    for s in SAMPLES {
        let chars = to_chars(s);
        assert_eq!(chars, s.chars().collect::<Vec<char>>());
        assert_eq!(from_chars(&chars, 0, chars.len()), s);
        assert_eq!(copy(s), s);
    }
    assert_eq!(from_chars(&to_chars("第一章"), 1, 2), "一");
}

#[test]
fn lines_are_those_of_the_standard_library() {
    for s in SAMPLES {
        let expected: Vec<&str> = s.lines().collect();
        assert_eq!(lines(s), expected, "{:?}", s);
    }
}

#[test]
fn searching_is_that_of_the_standard_library() {
    for s in SAMPLES {
        for p in ["", "a", "/", "b\r", "第一", "a/b", "..", "./"] {
            assert_eq!(contains_text(s, p), s.contains(p), "{:?} {:?}", s, p);
            assert_eq!(starts_with(s, p), s.starts_with(p));
            assert_eq!(ends_with(s, p), s.ends_with(p));
            assert_eq!(strip_prefix(s, p).as_deref(), s.strip_prefix(p));
            assert_eq!(remove_first(s, p), s.replacen(p, "", 1));
            assert_eq!(same(s, p), s == p);
        }
        for c in ['/', '.', 'a'] {
            let expected: Vec<&str> = s.split(c).collect();
            assert_eq!(split(s, c), expected);
            let cut = split_once(s, c);
            let cut = cut.as_ref().map(|(a, b)| (a.as_str(), b.as_str()));
            assert_eq!(cut, s.split_once(c));
            assert_eq!(replace_char(s, c, '_'), s.replace(c, "_"));
        }
        for n in 0..4 {
            assert_eq!(take_chars(s, n), s.chars().take(n).collect::<String>());
        }
    }
    assert_eq!(join_texts(&vec!["a".to_string(), "".to_string()], "，"), "a，");
    assert_eq!(join_texts(&vec![], "，"), "");
}

#[test]
fn numerals_are_those_of_the_standard_library() {
    for s in [
        "", "+", "-", "-0", "0", "00", "+7", "++7", "255", "256", "007", "１", " 1", "1 ",
        "18446744073709551615", "18446744073709551616", "99999999999999999999999",
    ] {
        assert_eq!(parse_number(s, 255), s.parse::<u8>().ok().map(u64::from), "{:?}", s);
        assert_eq!(parse_number(s, u64::MAX), s.parse::<u64>().ok(), "{:?}", s);
    }
    for n in [0, 7, 10, 99, 100, 12345, u64::MAX] {
        assert_eq!(to_decimal(n), n.to_string());
        assert_eq!(to_two_digits(n), format!("{:02}", n));
    }
}

#[test]
fn order_of_texts_is_that_of_the_standard_library() {
    for a in SAMPLES {
        for b in SAMPLES {
            assert_eq!(is_text_le(a, b), a <= b, "{:?} {:?}", a, b);
        }
    }
    let mut expected: Vec<String> = SAMPLES.iter().map(|s| s.to_string()).collect();
    let sorted = sort_texts(expected.clone());
    expected.sort();
    assert_eq!(sorted, expected);
}

#[test]
fn paths_are_read_as_by_the_standard_library() {
    for s in SAMPLES {
        let p = Path::new(s);
        assert_eq!(file_name(s), p.file_name().map(|n| n.to_string_lossy().to_string()), "{:?}", s);
        assert_eq!(file_stem(s), p.file_stem().map(|n| n.to_string_lossy().to_string()), "{:?}", s);
        assert_eq!(extension(s), p.extension().map(|n| n.to_string_lossy().to_string()), "{:?}", s);
        assert_eq!(is_rooted(s), p.is_absolute());
        let steps: Vec<String> = p
            .components()
            .filter(|c| *c != Component::RootDir)
            .map(|c| c.as_os_str().to_string_lossy().to_string())
            .collect();
        assert_eq!(path_steps(s), steps, "{:?}", s);
        assert_eq!(
            has_step_up(s),
            p.components().any(|c| c == Component::ParentDir)
        );
        for t in SAMPLES {
            assert_eq!(join(s, t), p.join(t).to_string_lossy(), "{:?} {:?}", s, t);
            assert_eq!(is_under(s, t), p.starts_with(t), "{:?} {:?}", s, t);
            let below = p
                .strip_prefix(t)
                .ok()
                .and_then(|r| r.parent())
                .filter(|d| d.components().count() > 0)
                .map(|d| d.components().collect::<std::path::PathBuf>())
                .map(|d| d.to_string_lossy().to_string());
            assert_eq!(directory_below(s, t), below, "{:?} {:?}", s, t);
        }
    }
    assert_eq!(directory_below("/book/a/b/c.txt", "/book").as_deref(), Some("a/b"));
}
