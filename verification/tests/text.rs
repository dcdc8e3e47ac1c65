use ohos_webview::color::rgba_to_argb_hex;
use ohos_webview::digits::{decimal_text, push_hex_byte};
use ohos_webview::text::{
    chars_of, comes_before, copy_texts, is_white_space, join_texts, replace_text, split_text,
    starts_with, trim_start_char_text, trim_text,
};

const TEXTS: [&str; 12] = [
    "",
    " ",
    "a",
    " a ",
    "\t a b\u{a0}",
    "\u{3000}x\u{2028}",
    "..a.",
    "a;b;;c",
    ";",
    "\u{e4};\u{1f600}",
    "\u{200b}x\u{200b}",
    "abab",
];

#[test]
fn white_space_is_that_of_char() {
    for c in '\0'..=char::MAX {
        assert_eq!(is_white_space(c), c.is_whitespace(), "{:?}", c);
    }
}

#[test]
fn trimming_agrees_with_str() {
    for text in TEXTS {
        assert_eq!(trim_text(text), text.trim());
        assert_eq!(trim_start_char_text(text, '.'), text.trim_start_matches('.'));
    }
}

#[test]
fn splitting_agrees_with_str() {
    for text in TEXTS {
        for pat in [";", "a", "ab", "\u{e4}", "abab", "aba"] {
            let parts: Vec<&str> = text.split(pat).collect();
            assert_eq!(split_text(text, pat), parts);
            assert_eq!(replace_text(text, pat, "<>"), text.replace(pat, "<>"));
            assert_eq!(starts_with(text, pat), text.starts_with(pat));
        }
        assert!(starts_with(text, ""));
    }
}

#[test]
fn joining_agrees_with_slices() {
    for parts in [vec![], vec!["a"], vec!["a", "b"], vec!["", "x", ""]] {
        let parts: Vec<String> = parts.into_iter().map(String::from).collect();
        assert_eq!(join_texts(&parts, ";\n"), parts.join(";\n"));
        assert_eq!(copy_texts(&parts), parts);
    }
}

#[test]
fn order_is_that_of_str() {
    for a in TEXTS {
        assert_eq!(chars_of(a), a.chars().collect::<Vec<char>>());
        for b in TEXTS {
            assert_eq!(comes_before(a, b), a < b);
        }
    }
}

#[test]
fn decimal_digits() {
    for n in [0, 7, 9, 10, 42, 99, 100, 1_700_000_000_123, u128::MAX] {
        assert_eq!(decimal_text(n), n.to_string());
    }
}

#[test]
fn hexadecimal_digits() {
    for byte in 0..=u8::MAX {
        let mut text = "x".to_string();
        push_hex_byte(&mut text, byte);
        assert_eq!(text, format!("x{byte:02X}"));
    }
}

#[test]
fn colors_put_alpha_first() {
    assert_eq!(rgba_to_argb_hex((0x12, 0x34, 0xab, 0xff)), "#FF1234AB");
    assert_eq!(rgba_to_argb_hex((0, 1, 2, 3)), "#03000102");
    assert_eq!(rgba_to_argb_hex((255, 0, 0, 0)), "#00FF0000");
}

#[test]
fn different_colors_are_written_differently() {
    let colors = [(1, 2, 3, 4), (2, 1, 3, 4), (4, 1, 2, 3), (1, 2, 3, 5), (16, 2, 3, 4)];
    for (i, a) in colors.into_iter().enumerate() {
        for (j, b) in colors.into_iter().enumerate() {
            assert_eq!(rgba_to_argb_hex(a) == rgba_to_argb_hex(b), i == j);
        }
    }
}
