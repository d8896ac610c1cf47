use sqland::text::byte_length;
use sqland::text::char_is_whitespace;
use sqland::text::chars_of;
use sqland::text::find_char;
use sqland::text::find_pair;
use sqland::text::same_text;
use sqland::text::slice_text;
use sqland::text::trim_bounds;

#[test]
fn white_space_is_the_unicode_property() {
    for code in 0..=0x10FFFFu32 {
        if let Some(c) = char::from_u32(code) {
            assert_eq!(char_is_whitespace(c), c.is_whitespace(), "U+{:04X}", code);
        }
    }
}

#[test]
fn characters_of_a_string() {
    assert_eq!(chars_of(""), Vec::<char>::new());
    assert_eq!(chars_of("añ€😀"), vec!['a', 'ñ', '€', '😀']);
}

#[test]
fn slices_are_counted_in_characters() {
    assert_eq!(slice_text("añ€😀z", 1, 4), "ñ€😀");
    assert_eq!(slice_text("abc", 0, 3), "abc");
    assert_eq!(slice_text("abc", 2, 2), "");
    assert_eq!(byte_length("añ€😀"), 10);
}

#[test]
fn trimmed_window_agrees_with_trim() {
    for text in ["", " ", "a", "  a b  ", "\t\n x \u{a0}", "\u{3000}é \u{2003}", "x  ", "   y"] {
        let chars = chars_of(text);
        let (a, b) = trim_bounds(&chars, 0, chars.len());
        assert_eq!(slice_text(text, a, b), text.trim());
    }
}

#[test]
fn trimmed_window_stays_inside_the_window() {
    let chars = chars_of("ab  cd  ef");
    assert_eq!(trim_bounds(&chars, 2, 8), (4, 6));
    assert_eq!(trim_bounds(&chars, 2, 4), (4, 4));
    assert_eq!(trim_bounds(&chars, 0, 0), (0, 0));
}

#[test]
fn first_index_of_a_character() {
    let chars = chars_of("a=b=c");
    assert_eq!(find_char(&chars, 0, 5, '='), 1);
    assert_eq!(find_char(&chars, 2, 5, '='), 3);
    assert_eq!(find_char(&chars, 4, 5, '='), 5);
    assert_eq!(find_char(&chars, 0, 1, '='), 1);
}

#[test]
fn first_index_of_a_pair() {
    assert_eq!(find_pair(&chars_of("a: b: c"), ':', ' '), 1);
    assert_eq!(find_pair(&chars_of("a:b: c"), ':', ' '), 3);
    assert_eq!(find_pair(&chars_of("a:b:"), ':', ' '), 4);
    assert_eq!(find_pair(&chars_of(""), ':', ' '), 0);
    assert_eq!(find_pair(&chars_of(":"), ':', ' '), 1);
    assert_eq!(find_pair(&chars_of(": "), ':', ' '), 0);
}

#[test]
fn same_text_compares_characters() {
    assert!(same_text("", ""));
    assert!(same_text("GET", "GET"));
    assert!(!same_text("GET", "GET "));
    assert!(!same_text("GET", "GEt"));
    assert!(!same_text("é", "e"));
}
