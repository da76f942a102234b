use mask_parser::text::{
    char_is_whitespace, chars_equal, chars_of, contains_char, find_first, slice_chars,
    split_chars, split_words, str_equal, string_of, trim_chars,
};

fn chars(s: &str) -> Vec<char> {
    s.chars().collect()
}

fn text(v: &Vec<char>) -> String {
    v.iter().collect()
}

fn texts(v: &Vec<Vec<char>>) -> Vec<String> {
    v.iter().map(text).collect()
}

#[test]
fn whitespace_is_what_std_calls_whitespace() {
    let mut code: u32 = 0;
    while code <= 0x10FFFF {
        if let Some(c) = char::from_u32(code) {
            assert_eq!(char_is_whitespace(c), c.is_whitespace(), "code point {:#x}", code);
        }
        code += 1;
    }
}

#[test]
fn chars_of_gives_the_characters_in_order() {
    assert_eq!(chars_of("héllo ✓"), vec!['h', 'é', 'l', 'l', 'o', ' ', '✓']);
    assert_eq!(chars_of(""), Vec::<char>::new());
}

#[test]
fn string_of_gives_the_text_back() {
    assert_eq!(string_of(&vec!['a', 'ß', '→', 'z']), "aß→z");
    assert_eq!(string_of(&vec![]), "");
    let samples = ["", "a", "serve (port)", "日本語 テキスト", "tab\tand\nnewline"];
    for s in samples {
        assert_eq!(string_of(&chars_of(s)), s);
    }
}

#[test]
fn slice_takes_the_characters_between_two_positions() {
    let v = chars("héllo");
    assert_eq!(text(&slice_chars(&v, 1, 4)), "éll");
    assert_eq!(text(&slice_chars(&v, 0, 5)), "héllo");
    assert_eq!(text(&slice_chars(&v, 3, 3)), "");
}

#[test]
fn trim_agrees_with_std() {
    let samples = [
        "",
        " ",
        "  a  ",
        "\t\n name \r\n",
        "no space",
        " inner  space kept ",
        "\u{a0}non-breaking\u{2003}",
        "\u{3000}ideographic\u{3000}\u{3000}",
        "   ",
        "x",
        " \u{200b} ",
    ];
    for s in samples {
        assert_eq!(text(&trim_chars(&chars(s))), s.trim(), "sample {:?}", s);
    }
}

#[test]
fn trim_of_a_padded_name() {
    assert_eq!(text(&trim_chars(&chars("  serve \t"))), "serve");
}

#[test]
fn split_agrees_with_std() {
    let samples = ["", "(port)", "(a) (b)", "()", "((x))", "no separators", "(a) [b] (c)", ")("];
    for s in samples {
        let expected: Vec<String> =
            s.split(|c| c == '(' || c == ')').map(|p| p.to_string()).collect();
        assert_eq!(texts(&split_chars(&chars(s), '(', ')')), expected, "sample {:?}", s);
    }
}

#[test]
fn split_keeps_empty_pieces() {
    assert_eq!(texts(&split_chars(&chars("(port)"), '(', ')')), vec!["", "port", ""]);
    assert_eq!(texts(&split_chars(&chars(""), '(', ')')), vec![""]);
    assert_eq!(texts(&split_chars(&chars("a:b:c"), ':', ':')), vec!["a", "b", "c"]);
}

#[test]
fn find_first_gives_the_position_or_the_length() {
    assert_eq!(find_first(&chars("serve (port)"), '(', '['), 6);
    assert_eq!(find_first(&chars("multi [o] (r)"), '(', '['), 6);
    assert_eq!(find_first(&chars("plain"), '(', '['), 5);
    assert_eq!(find_first(&chars(""), '(', '['), 0);
    assert_eq!(find_first(&chars("é(x"), '(', '['), 1);
}

#[test]
fn contains_char_finds_a_character() {
    assert!(contains_char(&chars("a[b"), '['));
    assert!(!contains_char(&chars("ab"), '['));
    assert!(!contains_char(&chars(""), '['));
}

#[test]
fn chars_equal_compares_with_a_text() {
    assert!(chars_equal(&chars("desc"), "desc"));
    assert!(!chars_equal(&chars("desc"), "description"));
    assert!(!chars_equal(&chars("desk"), "desc"));
    assert!(chars_equal(&chars(""), ""));
}

#[test]
fn str_equal_compares_two_texts() {
    assert!(str_equal("OPTIONS", "OPTIONS"));
    assert!(!str_equal("OPTIONS", "options"));
    assert!(!str_equal("OPTIONS", "OPTIONS "));
    assert!(str_equal("", ""));
}

#[test]
fn words_agree_with_std() {
    let samples = [
        "",
        " ",
        "-p --port",
        "  -p   --port  ",
        "one",
        "a\tb\nc",
        "\u{a0}x\u{2003}y",
        "trailing ",
        " leading",
    ];
    for s in samples {
        let expected: Vec<String> = s.split_whitespace().map(|p| p.to_string()).collect();
        assert_eq!(texts(&split_words(&chars(s))), expected, "sample {:?}", s);
    }
}
