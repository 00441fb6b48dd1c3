use ad_libber::text::{
    char_is_ascii_space, char_is_space, chars_of, copy_range, find_char, skip_ascii_spaces,
    skip_word, split_at_first, split_lines, split_words, string_of, string_of_range, trimmed,
};

fn rows(v: Vec<Vec<char>>) -> Vec<String> {
    v.iter().map(string_of).collect()
}

const SAMPLES: [&str; 24] = [
    "",
    "a",
    "a\n",
    "\n",
    "\n\n",
    "a\r\nb\n\nc",
    "a\rb",
    "a\r",
    "a\r\n",
    "\r\n",
    "\r\r\n",
    "one two\tthree\n four \r\n",
    "  lead and trail  ",
    "\u{a0}nbsp\u{a0}",
    "\u{2003}em space\u{3000}",
    "\u{85}next line\u{1680}",
    "x\u{b}y\u{c}z",
    "\u{200b}zero width\u{200b}",
    "tabs\t\tand\u{c}feeds",
    "k=v=w",
    "=",
    "a|b|c",
    "\u{e9}t\u{e9} | \u{fc}ber",
    " \t\r\n",
];

#[test]
fn characters_round_trip() {
    for s in SAMPLES {
        let v = chars_of(s);
        assert_eq!(v, s.chars().collect::<Vec<char>>());
        assert_eq!(string_of(&v), s);
    }
    assert_eq!(string_of(&vec!['a', 'b']), "ab");
    assert_eq!(string_of_range(&chars_of("hello"), 1, 3), "el");
    assert_eq!(string_of_range(&chars_of("hello"), 2, 2), "");
    assert_eq!(copy_range(&chars_of("hello"), 1, 4), vec!['e', 'l', 'l']);
}

#[test]
fn lines_are_split_as_std_splits_them() {
    for s in SAMPLES {
        let expected: Vec<String> = s.lines().map(|l| l.to_string()).collect();
        assert_eq!(rows(split_lines(&chars_of(s))), expected, "{:?}", s);
    }
    assert_eq!(rows(split_lines(&chars_of("a\r\nb\n\nc"))), vec!["a", "b", "", "c"]);
    assert_eq!(rows(split_lines(&chars_of("a\r"))), vec!["a\r"]);
    assert!(split_lines(&chars_of("")).is_empty());
}

#[test]
fn words_are_split_as_std_splits_them() {
    for s in SAMPLES {
        let expected: Vec<String> = s.split_ascii_whitespace().map(|l| l.to_string()).collect();
        assert_eq!(rows(split_words(&chars_of(s))), expected, "{:?}", s);
    }
    assert_eq!(rows(split_words(&chars_of("  a  bc\td "))), vec!["a", "bc", "d"]);
    assert_eq!(rows(split_words(&chars_of("a\u{a0}b"))), vec!["a\u{a0}b"]);
}

#[test]
fn trimming_is_as_std_trims() {
    for s in SAMPLES {
        assert_eq!(string_of(&trimmed(&chars_of(s))), s.trim(), "{:?}", s);
    }
    assert_eq!(string_of(&trimmed(&chars_of("  a b  "))), "a b");
    assert_eq!(string_of(&trimmed(&chars_of("   "))), "");
}

#[test]
fn whitespace_classes_are_those_of_std() {
    for code in 0u32..0x3100 {
        if let Some(c) = char::from_u32(code) {
            assert_eq!(char_is_space(c), c.is_whitespace(), "{:x}", code);
            assert_eq!(char_is_ascii_space(c), c.is_ascii_whitespace(), "{:x}", code);
        }
    }
    assert!(!char_is_space('\u{feff}'));
    assert!(!char_is_space('\u{10ffff}'));
}

#[test]
fn splitting_at_the_first_separator() {
    for s in SAMPLES {
        for c in ['=', '|', ' '] {
            let expected = s.split_once(c).map(|(a, b)| (a.to_string(), b.to_string()));
            let got = split_at_first(&chars_of(s), c).map(|(a, b)| (string_of(&a), string_of(&b)));
            assert_eq!(got, expected, "{:?} {:?}", s, c);
        }
    }
    let (a, b) = split_at_first(&chars_of("k=v=w"), '=').unwrap();
    assert_eq!((string_of(&a), string_of(&b)), ("k".to_string(), "v=w".to_string()));
    assert!(split_at_first(&chars_of("kv"), '=').is_none());
}

#[test]
fn scanning() {
    let v = chars_of("  ab  c");
    assert_eq!(skip_ascii_spaces(&v, 0), 2);
    assert_eq!(skip_ascii_spaces(&v, 2), 2);
    assert_eq!(skip_word(&v, 2), 4);
    assert_eq!(skip_word(&v, 6), 7);
    assert_eq!(skip_word(&v, 7), 7);
    assert_eq!(find_char(&v, 0, 'c'), 6);
    assert_eq!(find_char(&v, 0, 'z'), 7);
    assert_eq!(find_char(&v, 3, 'a'), 7);
}
