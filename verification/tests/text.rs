use dot_agent_deck::text::{
    begins_with, decimal_text, hex_text, join, left_aligned, right_aligned, same_text, split_lines,
    trim_start_text, trim_text,
};

#[test]
fn white_space_is_what_std_takes_for_it() {
    let all: Vec<char> = (0..=0x10ffffu32).filter_map(char::from_u32).collect();
    for c in all {
        let listed = matches!(
            c,
            '\u{9}'..='\u{d}'
                | '\u{20}'
                | '\u{85}'
                | '\u{a0}'
                | '\u{1680}'
                | '\u{2000}'..='\u{200a}'
                | '\u{2028}'
                | '\u{2029}'
                | '\u{202f}'
                | '\u{205f}'
                | '\u{3000}'
        );
        assert_eq!(c.is_whitespace(), listed, "{c:?}");
        if c <= '\u{7f}' {
            assert_eq!(c.is_alphanumeric(), c.is_ascii_alphanumeric());
        }
    }
}

#[test]
fn texts_are_trimmed_as_in_std() {
    for text in ["", " ", "a", " a ", "\u{a0}a b\u{3000}\n", "\t\n", "a\u{200b}"] {
        assert_eq!(trim_text(text), text.trim());
        assert_eq!(trim_start_text(text), text.trim_start());
    }
}

#[test]
fn lines_are_split_as_in_std() {
    for text in [
        "", "\n", "a", "a\n", "a\nb", "a\r\nb\r\n", "\r\n", "\r", "a\r", "a\r\r\n", "a\rb\n\n",
        "\n\r\n", "é\n—",
    ] {
        let wanted: Vec<&str> = text.lines().collect();
        assert_eq!(split_lines(text), wanted, "{text:?}");
    }
}

#[test]
fn numbers_are_written_as_in_std() {
    for n in [0, 7, 10, 99, 100, 4096, u64::MAX] {
        assert_eq!(decimal_text(n), format!("{n}"));
        assert_eq!(hex_text(n, 16), format!("{n:016x}"));
    }
    assert_eq!(hex_text(0x1f, 4), "001f");
    assert_eq!(hex_text(0x12345, 4), "2345");
}

#[test]
fn columns_are_padded_as_in_std() {
    for text in ["", "ab", "≥ 1 B", "abcdef"] {
        assert_eq!(right_aligned(text, 5), format!("{text:>5}"));
        assert_eq!(left_aligned(text, 5), format!("{text:<5}"));
    }
}

#[test]
fn pieces_are_compared_and_joined() {
    assert!(same_text("é", "é"));
    assert!(!same_text("e", "é"));
    assert!(begins_with("abc", "ab"));
    assert!(begins_with("abc", ""));
    assert!(!begins_with("ab", "abc"));
    assert!(!begins_with("xbc", "ab"));
    assert_eq!(join(&[], "-"), "");
    assert_eq!(join(&["a"], "-"), "a");
    assert_eq!(join(&["a", "", "c"], " or "), "a or  or c");
}
