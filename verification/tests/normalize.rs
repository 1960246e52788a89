use spotify_search::normalize::{canonical_form, normalize_keyword};
use spotify_search::text::{chars_of, contains, has_suffix, is_whitespace, join, split_words, string_of};

fn chars(s: &str) -> Vec<char> {
    s.chars().collect()
}

#[test]
fn normalize_track_name() {
    assert_eq!(
        normalize_keyword(r#"There's  "A T*i*t*l*e" —–- Gün-ther &  $imon Remix"#),
        normalize_keyword(r#"theres "a title" gunther and simon remix"#)
    );
}

#[test]
fn normalize_track_name_exact() {
    assert_eq!(
        normalize_keyword(r#"There's  "A T*i*t*l*e" —–- Gün-ther &  $imon Remix"#),
        r#"theres "a title" gunther and simon remix"#
    );
}

#[test]
fn normalize_is_idempotent() {
    let inputs = [
        "",
        "   ",
        "Hello World",
        "P.O.W.E.R",
        "Beyoncé & JAY-Z",
        "$imon  $ays:\t'hi'",
        "北亰 — Æneid",
        " a  b\u{a0}c ",
        "& & &",
        "-*.:'",
    ];
    for input in inputs {
        let once = normalize_keyword(input);
        let twice = normalize_keyword(&once);
        assert_eq!(twice, once, "input {:?}", input);
    }
}

#[test]
fn normalize_transliterates_to_ascii() {
    assert_eq!(normalize_keyword("Gün"), "gun");
    assert_eq!(normalize_keyword("étude"), "etude");
    assert_eq!(normalize_keyword("Æneid"), "aeneid");
    assert_eq!(normalize_keyword("北亰"), "bei jing");
    assert!(normalize_keyword("Motörhead Ünïcödé").is_ascii());
}

#[test]
fn normalize_lower_cases() {
    assert_eq!(normalize_keyword("ABCxyzXYZ"), "abcxyzxyz");
    assert_eq!(normalize_keyword("@[`{"), "@[`{");
}

#[test]
fn normalize_spells_out_dollar_and_ampersand() {
    assert_eq!(normalize_keyword("$imon"), "simon");
    assert_eq!(normalize_keyword("A$AP"), "asap");
    assert_eq!(normalize_keyword("Simon & Garfunkel"), "simon and garfunkel");
    assert_eq!(normalize_keyword("R&B"), "randb");
}

#[test]
fn normalize_strips_characters_inside_words() {
    assert_eq!(normalize_keyword("P.O.W.E.R"), "power");
    assert_eq!(normalize_keyword("T*i*t*l*e"), "title");
    assert_eq!(normalize_keyword("Gun-ther"), "gunther");
    assert_eq!(normalize_keyword("Re:Stacks"), "restacks");
    assert_eq!(normalize_keyword("There's"), "theres");
    assert_eq!(normalize_keyword("-*.:'"), "");
}

#[test]
fn normalize_collapses_white_space() {
    assert_eq!(normalize_keyword("  a   b  "), "a b");
    assert_eq!(normalize_keyword("a\tb\nc\r\nd"), "a b c d");
    assert_eq!(normalize_keyword("a - b"), "a b");
    assert_eq!(normalize_keyword(" \t\n"), "");
    assert_eq!(normalize_keyword(""), "");
}

#[test]
fn canonical_form_of_ascii_text() {
    assert_eq!(canonical_form("  My  $ONG & More.. "), "my song and more");
    assert_eq!(canonical_form(""), "");
    let once = canonical_form("A*B  c:D");
    assert_eq!(once, "ab cd");
    assert_eq!(canonical_form(&once), once);
}

#[test]
fn canonical_form_leaves_other_characters() {
    assert_eq!(canonical_form("É\u{2003}x"), "É x");
}

#[test]
fn chars_and_strings_round_trip() {
    assert_eq!(chars_of("héllo"), vec!['h', 'é', 'l', 'l', 'o']);
    assert_eq!(string_of(&vec!['a', 'ß', 'c']), "aßc");
    assert_eq!(string_of(&chars_of("")), "");
    assert_eq!(string_of(&chars_of("Gün-ther")), "Gün-ther");
}

#[test]
fn white_space_characters() {
    for c in ['\t', '\n', '\u{b}', '\u{c}', '\r', ' ', '\u{85}', '\u{a0}', '\u{1680}', '\u{2000}',
        '\u{200a}', '\u{2028}', '\u{2029}', '\u{202f}', '\u{205f}', '\u{3000}']
    {
        assert!(is_whitespace(c), "{:?}", c);
    }
    for c in ['a', '0', '-', '\u{8}', '\u{e}', '\u{1f}', '\u{200b}', '\u{feff}', '\u{0}'] {
        assert!(!is_whitespace(c), "{:?}", c);
    }
}

#[test]
fn white_space_agrees_with_std() {
    let mut n: u32 = 0;
    while n <= 0x3100 {
        if let Some(c) = char::from_u32(n) {
            assert_eq!(is_whitespace(c), c.is_whitespace(), "{:?}", c);
        }
        n += 1;
    }
}

#[test]
fn contains_finds_substrings() {
    assert!(contains(&chars("my track"), &chars("track")));
    assert!(contains(&chars("my track"), &chars("my")));
    assert!(contains(&chars("my track"), &chars("y t")));
    assert!(contains(&chars("my track"), &chars("")));
    assert!(contains(&chars(""), &chars("")));
    assert!(contains(&chars("abc"), &chars("abc")));
    assert!(!contains(&chars("my track"), &chars("other")));
    assert!(!contains(&chars("abc"), &chars("abcd")));
    assert!(!contains(&chars(""), &chars("a")));
    assert!(!contains(&chars("aab"), &chars("aba")));
}

#[test]
fn has_suffix_checks_the_end() {
    assert!(has_suffix(&chars("site.css"), &chars(".css")));
    assert!(has_suffix(&chars(".css"), &chars(".css")));
    assert!(has_suffix(&chars("x"), &chars("")));
    assert!(!has_suffix(&chars("css"), &chars(".css")));
    assert!(!has_suffix(&chars("site.css.bak"), &chars(".css")));
}

#[test]
fn split_words_and_join() {
    let words = split_words(&chars("  one two\t\tthree \n"));
    assert_eq!(words, vec![chars("one"), chars("two"), chars("three")]);
    assert_eq!(join(&words, &chars(" ")), chars("one two three"));
    assert_eq!(join(&words, &chars(", ")), chars("one, two, three"));
    assert_eq!(split_words(&chars("")), Vec::<Vec<char>>::new());
    assert_eq!(split_words(&chars(" \t ")), Vec::<Vec<char>>::new());
    assert_eq!(join(&Vec::new(), &chars(", ")), chars(""));
    assert_eq!(join(&vec![chars("solo")], &chars(", ")), chars("solo"));
}

#[test]
fn split_words_agrees_with_std() {
    for input in ["", " ", "a", " a", "a ", "a b", "  a\u{a0}b\u{2003}c  ", "x\ty\nz", "one  two"] {
        let expected: Vec<Vec<char>> =
            input.split_whitespace().map(|w| w.chars().collect()).collect();
        assert_eq!(split_words(&chars(input)), expected, "input {:?}", input);
    }
}
