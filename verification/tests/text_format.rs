use tools::decimal::{decimal_string, parse_token};
use tools::text::{is_whitespace_char, split_whitespace, to_chars, trim};
use tools::{parse_input, try_parse_input, Input};

#[test]
fn parse_token_reads_plain_digits() {
    assert_eq!(parse_token("0"), Some(0));
    assert_eq!(parse_token("7"), Some(7));
    assert_eq!(parse_token("42"), Some(42));
    assert_eq!(parse_token("500000"), Some(500000));
}

#[test]
fn parse_token_accepts_leading_zeros_and_plus() {
    assert_eq!(parse_token("007"), Some(7));
    assert_eq!(parse_token("+5"), Some(5));
    assert_eq!(parse_token("+000"), Some(0));
}

#[test]
fn parse_token_refuses_what_is_no_number() {
    assert_eq!(parse_token(""), None);
    assert_eq!(parse_token("+"), None);
    assert_eq!(parse_token("++1"), None);
    assert_eq!(parse_token("-1"), None);
    assert_eq!(parse_token("1a"), None);
    assert_eq!(parse_token("a1"), None);
    assert_eq!(parse_token("1+"), None);
    assert_eq!(parse_token("1.0"), None);
    assert_eq!(parse_token("1_000"), None);
    assert_eq!(parse_token("\u{663}"), None);
}

#[test]
fn parse_token_agrees_with_std_on_the_limit() {
    let max = usize::MAX.to_string();
    assert_eq!(parse_token(&max), Some(usize::MAX));
    let mut above = max.clone();
    above.push('0');
    assert_eq!(parse_token(&above), None);
    let next = (usize::MAX as u128 + 1).to_string();
    assert_eq!(parse_token(&next), None);
    assert_eq!(parse_token(&next), next.parse::<usize>().ok());
}

#[test]
fn parse_token_agrees_with_std_on_samples() {
    for s in ["0", "00", "+0", "+", "-0", " 1", "1 ", "12345", "99999999999999999999999", "٣"] {
        assert_eq!(parse_token(s), s.parse::<usize>().ok(), "token {:?}", s);
    }
}

#[test]
fn decimal_string_is_the_shortest_notation() {
    assert_eq!(decimal_string(0), "0");
    assert_eq!(decimal_string(9), "9");
    assert_eq!(decimal_string(10), "10");
    assert_eq!(decimal_string(1203), "1203");
    assert_eq!(decimal_string(usize::MAX), usize::MAX.to_string());
}

#[test]
fn decimal_string_reads_back() {
    for v in [0usize, 1, 9, 10, 99, 100, 101, 65535, 500000, usize::MAX] {
        assert_eq!(parse_token(&decimal_string(v)), Some(v));
    }
}

#[test]
fn whitespace_is_the_unicode_property() {
    for code in 0u32..=0x10ffff {
        if let Some(c) = char::from_u32(code) {
            assert_eq!(is_whitespace_char(c), c.is_whitespace(), "U+{:04X}", code);
        }
    }
    assert!(!is_whitespace_char('\u{180e}'));
    assert!(!is_whitespace_char('\u{200b}'));
    assert!(!is_whitespace_char('\u{feff}'));
}

#[test]
fn split_whitespace_gives_the_tokens_in_order() {
    assert_eq!(split_whitespace("1 2\n0 2\n0 1\n"), vec!["1", "2", "0", "2", "0", "1"]);
    assert_eq!(split_whitespace("  a\t\tb \r\n c"), vec!["a", "b", "c"]);
    assert_eq!(split_whitespace("one"), vec!["one"]);
}

#[test]
fn split_whitespace_of_blank_text_is_empty() {
    assert_eq!(split_whitespace(""), Vec::<String>::new());
    assert_eq!(split_whitespace(" \n\t "), Vec::<String>::new());
}

#[test]
fn split_whitespace_agrees_with_std() {
    for s in ["", " ", "a", " a", "a ", "a b", "a\u{3000}b", "x\u{a0}y\u{2003}z", "# 1 2", "é ü"] {
        let expected: Vec<String> = s.split_whitespace().map(|t| t.to_owned()).collect();
        assert_eq!(split_whitespace(s), expected, "text {:?}", s);
    }
}

#[test]
fn to_chars_keeps_every_character() {
    assert_eq!(to_chars("a é\n"), vec!['a', ' ', 'é', '\n']);
    assert_eq!(to_chars(""), Vec::<char>::new());
}

#[test]
fn trim_removes_whitespace_at_both_ends_only() {
    assert_eq!(trim("  1 2 \n"), "1 2");
    assert_eq!(trim("1 2"), "1 2");
    assert_eq!(trim("\t# note\r\n"), "# note");
    assert_eq!(trim(""), "");
    assert_eq!(trim(" \n "), "");
    assert_eq!(trim("\u{3000}a  b\u{a0}"), "a  b");
}

#[test]
fn well_formed_instances_have_a_target_for_each_of_their_positions() {
    assert!(Input { n: 3, l: 4, t: vec![1, 2, 1] }.is_well_formed());
    assert!(Input { n: 1, l: 0, t: vec![0] }.is_well_formed());
    assert!(!Input { n: 0, l: 4, t: vec![] }.is_well_formed());
    assert!(!Input { n: 3, l: 4, t: vec![1, 2] }.is_well_formed());
    assert!(!Input { n: 2, l: 4, t: vec![1, 2, 1] }.is_well_formed());
}

#[test]
fn encode_is_two_lines() {
    let input = Input { n: 3, l: 4, t: vec![1, 2, 1] };
    assert_eq!(input.header_line(), "3 4\n");
    assert_eq!(input.targets_line(), "1 2 1\n");
    assert_eq!(input.to_string(), "3 4\n1 2 1\n");
}

#[test]
fn encode_of_a_single_position() {
    let input = Input { n: 1, l: 0, t: vec![0] };
    assert_eq!(input.to_string(), "1 0\n0\n");
}

#[test]
fn encode_joins_targets_with_single_spaces() {
    let input = Input { n: 4, l: 10000, t: vec![10, 0, 9990, 7] };
    assert_eq!(input.targets_line(), "10 0 9990 7\n");
}

#[test]
fn decode_reads_the_two_line_shape() {
    let input = parse_input("3 4\n1 2 1\n");
    assert_eq!(input, Input { n: 3, l: 4, t: vec![1, 2, 1] });
}

#[test]
fn decode_goes_by_tokens_not_by_lines() {
    let expected = Input { n: 3, l: 4, t: vec![1, 2, 1] };
    assert_eq!(try_parse_input("3\n4\n1\n2\n1"), Some(expected.clone()));
    assert_eq!(try_parse_input("  3 4 1 2 1"), Some(expected.clone()));
    assert_eq!(try_parse_input("3 4\n1 2 1\n99 extra"), Some(expected));
}

#[test]
fn decode_imposes_no_bounds() {
    assert_eq!(try_parse_input("0 5\n\n"), Some(Input { n: 0, l: 5, t: vec![] }));
    assert_eq!(try_parse_input("2 0\n70 80\n"), Some(Input { n: 2, l: 0, t: vec![70, 80] }));
}

#[test]
fn decode_refuses_text_that_denotes_no_instance() {
    assert_eq!(try_parse_input(""), None);
    assert_eq!(try_parse_input("3"), None);
    assert_eq!(try_parse_input("3 4\n1 2\n"), None);
    assert_eq!(try_parse_input("3 x\n1 2 1\n"), None);
    assert_eq!(try_parse_input("3 4\n1 -2 1\n"), None);
    assert_eq!(try_parse_input("x 4\n1 2 1\n"), None);
}

#[test]
fn round_trip_of_encode_and_decode() {
    let instances = vec![
        Input { n: 3, l: 4, t: vec![1, 2, 1] },
        Input { n: 1, l: 0, t: vec![0] },
        Input { n: 5, l: 500000, t: vec![0, 10000, 123, 4567, 485310] },
        Input { n: 2, l: usize::MAX, t: vec![usize::MAX, 0] },
    ];
    for input in instances {
        assert_eq!(parse_input(&input.to_string()), input);
    }
}
