use std::path::Path;

use polaris::order::sort;
use polaris::path::{
    components_of, file_name_of, join_path, parent_of, relative_text_of, same_path, split_at_char,
};
use polaris::text::{
    after_prefix, decimal_of, has_text, is_before, is_white, join_texts, lowered, pad_left,
    pad_right, read_number, trimmed, uppered, without_last, without_trailing, words_of,
};

#[test]
fn white_space_is_that_of_unicode() {
    for code in 0..=0x10ffffu32 {
        if let Some(c) = char::from_u32(code) {
            assert_eq!(is_white(c), c.is_whitespace(), "{code:x}");
        }
    }
}

#[test]
fn texts_are_trimmed_and_split() {
    for text in ["", "  ", " a ", "\u{a0}x y\t\nz\u{3000}", "no", "é  ü"] {
        assert_eq!(trimmed(text), text.trim());
        let words: Vec<&str> = text.split_whitespace().collect();
        assert_eq!(words_of(text), words);
    }
    assert_eq!(without_trailing("a//b//", '/'), "a//b");
    assert_eq!(without_last("né"), "n");
    assert_eq!(without_last(""), "");
    assert_eq!(split_at_char("a//b", '/'), vec!["a", "", "b"]);
    assert_eq!(split_at_char("", '/'), vec![""]);
    assert_eq!(join_texts(&vec!["a".into(), "b".into()], ", "), "a, b");
}

#[test]
fn case_and_search_follow_the_standard_library() {
    for text in ["", "ABCxyz", "Ä Z[@`{", "tEsT"] {
        assert_eq!(lowered(text), text.to_ascii_lowercase());
        assert_eq!(uppered(text), text.to_ascii_uppercase());
        for needle in ["", "t", "xyz", "abc", "Z["] {
            assert_eq!(has_text(text, needle), text.contains(needle));
            assert_eq!(
                after_prefix(text, needle),
                text.strip_prefix(needle).map(str::to_string)
            );
        }
    }
}

#[test]
fn texts_are_ordered_as_strings_are() {
    let texts = ["", "a", "ab", "b", "B", "é", "z", "\u{10000}", "\u{ffff}"];
    for a in texts {
        for b in texts {
            assert_eq!(is_before(a, b), a < b, "{a:?} {b:?}");
        }
    }
    let mut expected: Vec<String> = texts.iter().rev().map(|text| text.to_string()).collect();
    assert_eq!(sort(expected.clone()), {
        expected.sort();
        expected
    });
}

#[test]
fn numbers_are_read_and_written() {
    for n in [0u64, 7, 10, 99, 100, 12345, u64::MAX] {
        assert_eq!(decimal_of(n), n.to_string());
        assert_eq!(read_number(&n.to_string(), u64::MAX), Some(n));
    }
    for text in ["", "+", "+5", "-5", "5x", "007", "18446744073709551616", "٣"] {
        assert_eq!(read_number(text, u64::MAX), text.parse::<u64>().ok(), "{text:?}");
        assert_eq!(read_number(text, u8::MAX as u64), text.parse::<u8>().ok().map(u64::from));
    }
    assert_eq!(read_number("255", 255), Some(255));
    assert_eq!(read_number("256", 255), None);
}

#[test]
fn padding_counts_characters() {
    assert_eq!(pad_right("é", 3), format!("{:<3}", "é"));
    assert_eq!(pad_left("7", 2), format!("{:>2}", "7"));
    assert_eq!(pad_right("long", 2), "long");
}

#[test]
fn paths_are_those_of_the_standard_library() {
    let all = [
        "", "/", "a", "/a", "a/b", "/a/b/", "/a//b/./c", "./a", ".", "..", "a/..", "/..", "./..",
        "a/.", "//", "/./a", "//a", "///a//b", ".//a", "./", "a//b/.//c/./", "/a/./b", "a/./b", "a/",
        ".a/b", "..//a", "/a//b//./c//", "/a/..", "a/../b",
    ];
    for text in all {
        let path = Path::new(text);
        let parts: Vec<&str> = path
            .components()
            .map(|part| part.as_os_str().to_str().unwrap())
            .collect();
        assert_eq!(components_of(text), parts, "{text:?}");
        assert_eq!(
            file_name_of(text).as_deref(),
            path.file_name().map(|name| name.to_str().unwrap()),
            "{text:?}"
        );
        assert_eq!(
            parent_of(text).as_deref(),
            path.parent().map(|parent| parent.to_str().unwrap()),
            "{text:?}"
        );
        for root in all {
            assert_eq!(
                relative_text_of(text, root).as_deref(),
                path.strip_prefix(root).ok().map(|rest| rest.to_str().unwrap()),
                "{text:?} {root:?}"
            );
            assert_eq!(same_path(text, root), path == Path::new(root), "{text:?} {root:?}");
        }
        for part in ["x", "", "/x", "x/y"] {
            assert_eq!(
                join_path(text, part),
                path.join(part).to_str().unwrap(),
                "{text:?} {part:?}"
            );
        }
    }
}

#[test]
fn splitting_loses_nothing() {
    for text in ["", "-", "a", "a-b", "-a--b-"] {
        assert_eq!(join_texts(&split_at_char(text, '-'), "-"), text);
    }
}
