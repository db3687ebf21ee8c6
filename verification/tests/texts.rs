use astra_dns::number::{read_numeral, write_decimal, write_hex, write_signed};
use astra_dns::text::{
    chars_of, extend, index_of, joined, lines_of, lowered, owned, pieces, string_of, trimmed,
    uppered, white, without_prefixes, without_suffixes, words_of, CharClass,
};

fn strings(rows: Vec<Vec<char>>) -> Vec<String> {
    rows.iter().map(|row| string_of(row)).collect()
}

fn all_chars() -> impl Iterator<Item = char> {
    (0u32..0x110000).filter_map(char::from_u32)
}

#[test]
fn white_space_is_that_of_std() {
    for c in all_chars() {
        assert_eq!(white(c), c.is_whitespace(), "{:x}", c as u32);
    }
}

#[test]
fn case_is_that_of_ascii() {
    for c in all_chars().take(0x300) {
        assert_eq!(lowered(&[c]), vec![c.to_ascii_lowercase()]);
        assert_eq!(uppered(&[c]), vec![c.to_ascii_uppercase()]);
    }
}

#[test]
fn strings_come_back_from_their_characters() {
    for t in ["", "a", "grüße", "日本語 text"] {
        assert_eq!(string_of(&chars_of(t)), t);
    }
}

#[test]
fn lines_are_those_of_std() {
    for t in ["", "a", "a\n", "a\r\nb", "\n\n", "a\r", "a\n\r\nb\r\n", "\r\n"] {
        let expected: Vec<String> = t.lines().map(str::to_owned).collect();
        assert_eq!(strings(lines_of(&chars_of(t))), expected, "{t:?}");
    }
}

#[test]
fn words_are_those_of_std() {
    for t in ["", "  ", " a\tb  c ", "a", "\u{3000}x\u{a0}y"] {
        let expected: Vec<String> = t.split_whitespace().map(str::to_owned).collect();
        assert_eq!(strings(words_of(&chars_of(t))), expected, "{t:?}");
    }
}

#[test]
fn pieces_are_those_of_std() {
    for t in ["", "|", "a|b", "|a||b|", "abc"] {
        let expected: Vec<String> = t.split('|').map(str::to_owned).collect();
        assert_eq!(strings(pieces(&chars_of(t), CharClass::Is('|'))), expected, "{t:?}");
    }
}

#[test]
fn trimming_is_that_of_std() {
    for t in ["", "..a..b..", "...", " a ", "a"] {
        let chars = chars_of(t);
        assert_eq!(string_of(trimmed(&chars, CharClass::Is('.'))), t.trim_matches('.'));
        assert_eq!(string_of(trimmed(&chars, CharClass::White)), t.trim());
    }
    for t in ["*.*.a", "*.", "*a", "a*.", ""] {
        let chars = chars_of(t);
        assert_eq!(string_of(without_prefixes(&chars, "*.")), t.trim_start_matches("*."));
        assert_eq!(string_of(without_suffixes(&chars, "*.")), t.trim_end_matches("*."));
    }
}

#[test]
fn texts_are_joined_and_extended() {
    let none: Vec<String> = vec![];
    assert_eq!(joined(&none, ", "), "");
    assert_eq!(joined(&vec!["a".to_owned()], ", "), "a");
    assert_eq!(joined(&vec!["a".to_owned(), "".to_owned(), "c".to_owned()], ", "), "a, , c");
    let mut s = owned(&['x']);
    extend(&mut s, "yz");
    assert_eq!(string_of(&s), "xyz");
    assert_eq!(index_of(&chars_of("ab$c$"), '$'), 2);
    assert_eq!(index_of(&chars_of("abc"), '$'), 3);
}

#[test]
fn numerals_are_read_and_written() {
    assert_eq!(read_numeral(&chars_of("255"), 10, 255), Some(255));
    assert_eq!(read_numeral(&chars_of("256"), 10, 255), None);
    assert_eq!(read_numeral(&chars_of("007"), 10, 255), Some(7));
    assert_eq!(read_numeral(&chars_of(""), 10, 255), None);
    assert_eq!(read_numeral(&chars_of("1x"), 10, 255), None);
    assert_eq!(read_numeral(&chars_of("fFfF"), 16, 0xffff), Some(0xffff));
    assert_eq!(read_numeral(&chars_of("99999999999999999999999"), 10, 65535), None);
    for n in [0u64, 7, 10, 1234567890, u64::MAX] {
        assert_eq!(string_of(&write_decimal(n)), n.to_string());
        assert_eq!(string_of(&write_hex(n, 16)), format!("{n:016x}"));
    }
    for n in [0i64, -1, 42, i64::MIN, i64::MAX] {
        assert_eq!(string_of(&write_signed(n)), n.to_string());
    }
}
