use signal_cli::bytes::{copy_bytes, copy_optional_bytes, fixed_32, same_bytes};
use signal_cli::edit::{backspace, delete, insert_char, left_of, length, right_of};
use signal_cli::json::{array, no_fields, object, put, Json};
use signal_cli::number::{decimal_text, parse_i64, parse_u64};
use signal_cli::order::{sort_indices, SortKey};
use signal_cli::qr::render_qr;
use signal_cli::text::{
    before, blank, chars_of, contains, copy_optional, equal_ignoring_ascii_case, join, lines,
    same_text, space, spaces, split_on, starts_with, strip_prefix, strip_suffix, text_between,
    text_of, trim, words,
};
use signal_cli::wrap::wrap_text;

#[test]
fn texts_are_taken_apart_as_std_does() {
    for text in ["", " a  b\tc\n", "x", "  ", "ä\u{a0}ö\u{2003}", "\u{1f}a"] {
        assert_eq!(trim(text), text.trim());
        assert_eq!(
            words(text),
            text.split_whitespace().collect::<Vec<_>>()
        );
        assert_eq!(blank(text), text.trim().is_empty());
        assert_eq!(chars_of(text), text.chars().collect::<Vec<_>>());
    }
    for text in ["", "\n", "a\nb", "a\r\nb\r\n", "a\n\nb\n", "\r"] {
        assert_eq!(lines(text), text.lines().collect::<Vec<_>>());
        assert_eq!(
            split_on(text, '\n'),
            text.split('\n').collect::<Vec<_>>()
        );
    }
    for c in '\0'..='\u{ffff}' {
        assert_eq!(space(c), c.is_whitespace());
    }
}

#[test]
fn texts_are_put_together() {
    let list = vec!["a".to_string(), "".to_string(), "c".to_string()];
    assert_eq!(join(&list, ", "), "a, , c");
    assert_eq!(join(&Vec::new(), ", "), "");
    assert_eq!(spaces(3), "   ");
    let chars = chars_of("héllo");
    assert_eq!(text_between(&chars, 1, 3), "él");
    assert_eq!(text_of(&chars), "héllo");
    assert_eq!(copy_optional(&Some("x".into())), Some("x".into()));
}

#[test]
fn parts_of_texts_are_found() {
    assert!(contains("abcabd", "abd"));
    assert!(contains("abc", ""));
    assert!(!contains("abc", "abcd"));
    assert!(starts_with("abc", "ab"));
    assert_eq!(strip_suffix("200ms", "ms"), Some("200".into()));
    assert_eq!(strip_suffix("200s", "ms"), None);
    assert_eq!(strip_prefix("@200", "@"), Some("200".into()));
    assert_eq!(strip_prefix("200", "@"), None);
    assert!(equal_ignoring_ascii_case("AbÄ", "aBÄ"));
    assert!(!equal_ignoring_ascii_case("Ä", "ä"));
    assert!(same_text("ä", "ä"));
    for (left, right) in [("a", "b"), ("a", "ab"), ("Z", "a"), ("ä", "z"), ("", "a")] {
        assert_eq!(before(left, right), left < right);
        assert_eq!(before(right, left), right < left);
    }
}

#[test]
fn numbers_are_read_and_written() {
    assert_eq!(decimal_text(0), "0");
    assert_eq!(decimal_text(u64::MAX), u64::MAX.to_string());
    for text in [
        "0",
        "+5",
        "-5",
        "",
        "+",
        "-",
        "007",
        "12a",
        "18446744073709551615",
        "18446744073709551616",
        "9223372036854775807",
        "-9223372036854775808",
        "-9223372036854775809",
    ] {
        assert_eq!(parse_u64(text), text.parse::<u64>().ok());
        assert_eq!(parse_i64(text), text.parse::<i64>().ok());
    }
}

#[test]
fn bytes_are_copied_and_compared() {
    assert_eq!(copy_bytes(&[1, 2]), vec![1, 2]);
    assert_eq!(copy_optional_bytes(&None), None);
    assert!(same_bytes(&[1, 2], &[1, 2]));
    assert!(!same_bytes(&[1, 2], &[1, 3]));
    assert!(!same_bytes(&[1], &[1, 2]));
    assert_eq!(fixed_32(&vec![7; 32]), Some([7; 32]));
    assert_eq!(fixed_32(&vec![7; 31]), None);
}

#[test]
fn lines_are_edited_between_characters() {
    let mut text = String::from("aß");
    let mut cursor = length(&text);
    assert_eq!(cursor, 3);
    cursor = left_of(&text, cursor);
    assert_eq!(cursor, 1);
    insert_char(&mut text, &mut cursor, '€');
    assert_eq!((text.as_str(), cursor), ("a€ß", 4));
    backspace(&mut text, &mut cursor);
    assert_eq!((text.as_str(), cursor), ("aß", 1));
    delete(&mut text, cursor);
    assert_eq!(text, "a");
    assert_eq!(right_of(&text, 0), 1);
    assert_eq!(right_of(&text, 1), 1);
    assert_eq!(left_of(&text, 0), 0);
}

#[test]
fn values_are_found_by_name() {
    let mut fields = no_fields();
    put(&mut fields, "a", Json::Number(1));
    put(&mut fields, "b", array(vec![Json::Bool(true), Json::Null]));
    put(&mut fields, "c", Json::Text("x".into()));
    let value = object(fields);
    assert_eq!(value.u64_at("a"), Some(1));
    assert_eq!(value.array_at("b").unwrap().len(), 2);
    assert_eq!(value.str_at("c").unwrap(), "x");
    assert_eq!(value.get("d"), None);
    assert_eq!(value.str_at("a"), None);
    assert_eq!(Json::Null.get("a"), None);
    assert_eq!(Json::OtherNumber.as_u64(), None);
}

#[test]
fn keys_are_sorted_and_ties_keep_their_order() {
    let key = |number, first: &str| SortKey {
        number,
        first: first.into(),
        second: String::new(),
    };
    let keys = vec![key(2, "a"), key(1, "b"), key(1, "a"), key(2, "a")];
    assert_eq!(sort_indices(&keys), vec![2, 1, 0, 3]);
    assert_eq!(sort_indices(&Vec::new()), Vec::<usize>::new());
}

#[test]
fn long_words_stay_whole() {
    assert_eq!(
        wrap_text("abcdefgh ij k", 3),
        vec!["abcdefgh", "ij", "k"]
    );
    assert_eq!(wrap_text("", 5), vec![""]);
    let text = "aa bb cc\n   \nlonger words than that\n";
    let mut by_line = Vec::new();
    for line in text.lines() {
        by_line.extend(wrap_text(line, 7));
    }
    assert_eq!(wrap_text(text, 7), by_line);
    assert_eq!(
        by_line,
        vec!["aa bb", "cc", "", "longer", "words", "than", "that"]
    );
    assert_eq!(wrap_text("a  b", 10), vec!["a b"]);
}

#[test]
fn codes_have_a_quiet_border() {
    let drawn = render_qr(1, &vec![true]);
    assert!(drawn.contains("██"));
    assert_eq!(drawn.lines().count(), 5);
}
