use carrot::text::{first_token, is_white_space, join, to_chars, trim};

#[test]
fn white_space_is_the_unicode_property() {
    let mut count = 0;
    for code in 0u32..=0x10FFFF {
        if let Some(c) = char::from_u32(code) {
            assert_eq!(is_white_space(c), c.is_whitespace(), "U+{:04X}", code);
            if is_white_space(c) {
                count += 1;
            }
        }
    }
    assert_eq!(count, 25);
}

#[test]
fn white_space_examples() {
    for c in [' ', '\t', '\n', '\u{B}', '\u{C}', '\r', '\u{85}', '\u{A0}', '\u{1680}', '\u{2000}',
        '\u{200A}', '\u{2028}', '\u{2029}', '\u{202F}', '\u{205F}', '\u{3000}']
    {
        assert!(is_white_space(c));
    }
    for c in ['a', '0', '\u{8}', '\u{E}', '\u{200B}', '\u{180E}', '\u{FEFF}', '\u{1F}', '\u{2060}'] {
        assert!(!is_white_space(c));
    }
}

#[test]
fn trim_removes_white_space_at_both_ends() {
    assert_eq!(trim("  hello world \n"), "hello world");
    assert_eq!(trim("hello"), "hello");
    assert_eq!(trim("\t a \u{A0}b\u{3000}"), "a \u{A0}b");
    assert_eq!(trim("x"), "x");
    assert_eq!(trim(" x"), "x");
    assert_eq!(trim("x "), "x");
}

#[test]
fn trim_of_blank_text_is_empty() {
    assert_eq!(trim(""), "");
    assert_eq!(trim(" "), "");
    assert_eq!(trim(" \t\r\n\u{2003}"), "");
}

#[test]
fn trim_agrees_with_the_standard_library() {
    let samples = [
        "",
        " ",
        "a",
        "  a  ",
        "\n\n2 cups flour\n",
        "\u{65e5}\u{672c} \u{8a9e} ",
        " \u{1F600} ",
        "\u{200B} zero width \u{200B}",
        "\u{85}next line\u{85}",
        "tab\tinside",
    ];
    for s in samples {
        assert_eq!(trim(s), s.trim());
        assert_eq!(trim(&trim(s)), trim(s));
    }
}

#[test]
fn first_token_is_the_first_run_without_white_space() {
    assert_eq!(first_token("a b"), Some("a".to_string()));
    assert_eq!(first_token("  ingredients list  "), Some("ingredients".to_string()));
    assert_eq!(first_token("one"), Some("one".to_string()));
    assert_eq!(first_token("\n\tx\u{A0}y"), Some("x".to_string()));
    assert_eq!(first_token("caf\u{e9} au lait"), Some("caf\u{e9}".to_string()));
}

#[test]
fn first_token_of_blank_text_is_absent() {
    assert_eq!(first_token(""), None);
    assert_eq!(first_token("   "), None);
    assert_eq!(first_token("\t\n"), None);
}

#[test]
fn first_token_agrees_with_split_whitespace() {
    for s in ["", " ", "a", " a b c ", "\u{3000}x\u{3000}y", "recipe-card  wide", "\r\nz"] {
        assert_eq!(first_token(s), s.split_whitespace().next().map(|t| t.to_string()));
    }
}

#[test]
fn join_puts_the_separator_between_neighbours() {
    let parts =
        |items: &[&str]| -> Vec<String> { items.iter().map(|s| s.to_string()).collect() };
    assert_eq!(join(&parts(&[]), " > "), "");
    assert_eq!(join(&parts(&["html"]), " > "), "html");
    assert_eq!(join(&parts(&["html", "body", "div#x.a"]), " > "), "html > body > div#x.a");
    assert_eq!(join(&parts(&["", ""]), "\n"), "\n");
    assert_eq!(join(&parts(&["a", "", "b"]), "-"), "a--b");
    assert_eq!(join(&parts(&["a", "b"]), ""), "ab");
}

#[test]
fn to_chars_keeps_every_character() {
    assert_eq!(to_chars(""), Vec::<char>::new());
    assert_eq!(to_chars("a\u{e9}\u{1F600}"), vec!['a', '\u{e9}', '\u{1F600}']);
}
