use myriad::text::char_is_whitespace;
use myriad::text::chars_of;
use myriad::text::concat2;
use myriad::text::concat3;
use myriad::text::decimal;
use myriad::text::split;
use myriad::text::starts_with_char;
use myriad::text::str_eq;
use myriad::text::trim_end;

#[test]
fn trim_end_strips_line_terminators() {
    assert_eq!(trim_end("NICK alice\r\n"), "NICK alice");
    assert_eq!(trim_end("NICK alice\n"), "NICK alice");
    assert_eq!(trim_end("NICK alice"), "NICK alice");
}

#[test]
fn trim_end_strips_all_trailing_white_space() {
    assert_eq!(trim_end("PING x \t \r\n"), "PING x");
    assert_eq!(trim_end("  lead stays  "), "  lead stays");
    assert_eq!(trim_end("wide\u{3000}\u{a0}\u{2003}"), "wide");
    assert_eq!(trim_end(" \r\n"), "");
    assert_eq!(trim_end(""), "");
}

#[test]
fn trim_end_agrees_with_the_standard_library() {
    let samples = [
        "a\u{85}",
        "a\u{1680}",
        "a\u{2028}\u{2029}",
        "a\u{202f}\u{205f}",
        "a\u{200b}",
        "a\u{0b}\u{0c}",
        "trailing é ",
        "é",
    ];
    for sample in samples {
        assert_eq!(trim_end(sample), sample.trim_end());
    }
}

#[test]
fn white_space_is_the_unicode_property() {
    for code in 0u32..0x3100 {
        if let Some(c) = char::from_u32(code) {
            assert_eq!(char_is_whitespace(c), c.is_whitespace(), "U+{:04X}", code);
        }
    }
}

#[test]
fn split_gives_the_pieces_between_separators() {
    assert_eq!(split("#a,#b,#c", ','), vec!["#a", "#b", "#c"]);
    assert_eq!(split("#a", ','), vec!["#a"]);
    assert_eq!(split("", ','), vec![""]);
    assert_eq!(split(",", ','), vec!["", ""]);
    assert_eq!(split("a,,b", ','), vec!["a", "", "b"]);
    assert_eq!(split("a,", ','), vec!["a", ""]);
    assert_eq!(split(",a", ','), vec!["", "a"]);
    assert_eq!(split("é,ü", ','), vec!["é", "ü"]);
}

#[test]
fn split_pieces_join_to_the_input() {
    for sample in ["", ",", "a,b", "a,,b,", ",,,", "no separator"] {
        let pieces = split(sample, ',');
        assert_eq!(pieces.join(","), sample);
        assert!(pieces.iter().all(|piece| !piece.contains(',')));
        let expected: Vec<String> = sample.split(',').map(|piece| piece.to_string()).collect();
        assert_eq!(pieces, expected);
    }
}

#[test]
fn decimal_writes_numbers_without_leading_zeros() {
    assert_eq!(decimal(0), "0");
    assert_eq!(decimal(7), "7");
    assert_eq!(decimal(10), "10");
    assert_eq!(decimal(255), "255");
    assert_eq!(decimal(1000), "1000");
    assert_eq!(decimal(4294967295), "4294967295");
    assert_eq!(decimal(u64::MAX), "18446744073709551615");
}

#[test]
fn str_eq_compares_characters() {
    assert!(str_eq("alice", "alice"));
    assert!(str_eq("", ""));
    assert!(!str_eq("alice", "Alice"));
    assert!(!str_eq("alice", "alic"));
    assert!(!str_eq("alic", "alice"));
    assert!(!str_eq("é", "e"));
}

#[test]
fn concat_puts_pieces_in_a_row() {
    assert_eq!(concat2("~", "alice"), "~alice");
    assert_eq!(concat3("a", "", "c"), "ac");
}

#[test]
fn starts_with_char_looks_at_the_first_character() {
    assert!(starts_with_char("#foo", '#'));
    assert!(!starts_with_char("foo#", '#'));
    assert!(!starts_with_char("", '#'));
}

#[test]
fn chars_of_lists_the_characters() {
    assert_eq!(chars_of("a\u{e9}\u{20ac}!"), vec!['a', '\u{e9}', '\u{20ac}', '!']);
    assert_eq!(chars_of(""), Vec::<char>::new());
}
