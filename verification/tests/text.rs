use exit_node_manager::text::{
    contains_text_in, parse_hex, split_lines, split_whitespace, starts_with_text, trim_text,
};

fn chars(s: &str) -> Vec<char> {
    s.chars().collect()
}

fn strings(v: Vec<Vec<char>>) -> Vec<String> {
    v.into_iter().map(|w| w.into_iter().collect()).collect()
}

#[test]
fn lines_split_at_newlines_and_crlf() {
    assert_eq!(strings(split_lines(&chars("a\r\nb\n"))), vec!["a", "b"]);
    assert_eq!(strings(split_lines(&chars("a\rb"))), vec!["a\rb"]);
    assert_eq!(strings(split_lines(&chars("\n\nx"))), vec!["", "", "x"]);
    assert_eq!(strings(split_lines(&chars("end\r"))), vec!["end\r"]);
    assert!(split_lines(&chars("")).is_empty());
    let sample = "foo\nbar\n\r\nbaz\r";
    assert_eq!(strings(split_lines(&chars(sample))), sample.lines().collect::<Vec<_>>());
}

#[test]
fn words_split_at_any_white_space() {
    assert_eq!(strings(split_whitespace(&chars("  a\tbb \u{3000}c\n"))), vec!["a", "bb", "c"]);
    assert!(split_whitespace(&chars(" \t ")).is_empty());
    let sample = "x\u{A0}y\u{2003}z\u{85}w";
    assert_eq!(strings(split_whitespace(&chars(sample))), sample.split_whitespace().collect::<Vec<_>>());
}

#[test]
fn trim_and_prefixes() {
    assert_eq!(trim_text(&chars("  default x \t")).into_iter().collect::<String>(), "default x");
    assert!(trim_text(&chars("   ")).is_empty());
    assert!(starts_with_text(&chars("default gw"), &chars("default")));
    assert!(!starts_with_text(&chars("def"), &chars("default")));
    assert!(contains_text_in(&chars("a 0.0.0.0 b"), &chars("0.0.0.0")));
    assert!(!contains_text_in(&chars("0.0.0"), &chars("0.0.0.0")));
    assert!(contains_text_in(&chars("x"), &chars("")));
}

#[test]
fn hex_parsing_follows_from_str_radix() {
    for s in ["1f", "+1f", "", "+", "-1", "FFFFFFFF", "100000000", "g", "0101A8C0", "00000000000000001"] {
        assert_eq!(parse_hex(&chars(s)), u32::from_str_radix(s, 16).ok(), "input {:?}", s);
    }
}
