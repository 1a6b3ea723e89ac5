use secrets_cli::text::{
    chars_of, decimal_chars, find_with_prefix, has_prefix, join_chars, parse_decimal, split_chars,
    split_lines, string_of,
};

fn chars(s: &str) -> Vec<char> {
    s.chars().collect()
}

fn strings(rows: Vec<Vec<char>>) -> Vec<String> {
    rows.into_iter().map(|r| r.into_iter().collect()).collect()
}

#[test]
fn chars_of_and_string_of_keep_every_character() {
    let s = "KEY=välue ✓\n";
    assert_eq!(chars_of(s), chars(s));
    assert_eq!(string_of(&chars(s)), s);
    assert_eq!(chars_of(""), Vec::<char>::new());
    assert_eq!(string_of(&Vec::new()), "");
}

#[test]
fn split_chars_gives_one_more_piece_than_separators() {
    assert_eq!(strings(split_chars(&chars("a b c"), ' ')), vec!["a", "b", "c"]);
    assert_eq!(strings(split_chars(&chars(""), ' ')), vec![""]);
    assert_eq!(strings(split_chars(&chars(" "), ' ')), vec!["", ""]);
    assert_eq!(strings(split_chars(&chars("a  b "), ' ')), vec!["a", "", "b", ""]);
    assert_eq!(strings(split_chars(&chars("nospace"), ' ')), vec!["nospace"]);
}

#[test]
fn split_chars_agrees_with_str_split() {
    for s in ["", " ", "a", "a b", " a", "a ", "a  b", "x y z w", "#h 12 rest of line"] {
        let expected: Vec<String> = s.split(' ').map(|p| p.to_string()).collect();
        assert_eq!(strings(split_chars(&chars(s), ' ')), expected, "input {:?}", s);
    }
}

#[test]
fn split_lines_handles_the_line_endings() {
    assert_eq!(strings(split_lines(&chars(""))), Vec::<String>::new());
    assert_eq!(strings(split_lines(&chars("a"))), vec!["a"]);
    assert_eq!(strings(split_lines(&chars("a\n"))), vec!["a"]);
    assert_eq!(strings(split_lines(&chars("\n"))), vec![""]);
    assert_eq!(strings(split_lines(&chars("a\n\nb"))), vec!["a", "", "b"]);
    assert_eq!(strings(split_lines(&chars("a\r\nb\r\n"))), vec!["a", "b"]);
    assert_eq!(strings(split_lines(&chars("a\rb"))), vec!["a\rb"]);
    assert_eq!(strings(split_lines(&chars("a\r"))), vec!["a\r"]);
    assert_eq!(strings(split_lines(&chars("a\r\r\nb"))), vec!["a\r", "b"]);
    assert_eq!(strings(split_lines(&chars("a\n\n"))), vec!["a", ""]);
}

#[test]
fn split_lines_agrees_with_str_lines() {
    for s in [
        "",
        "\n",
        "\r\n",
        "\r",
        "one",
        "one\n",
        "one\ntwo",
        "one\r\ntwo\r\n",
        "one\n\n\ntwo\n\n",
        "a\r\r\n\rb\n\r",
        "KEY=value\n#do-not-edit--secrets-version 3\nOTHER=x",
        "ünï\ncödé ✓\r\n",
    ] {
        let expected: Vec<String> = s.lines().map(|l| l.to_string()).collect();
        assert_eq!(strings(split_lines(&chars(s))), expected, "input {:?}", s);
    }
}

#[test]
fn join_chars_puts_the_separator_between_rows() {
    let rows = vec![chars("a"), chars(""), chars("bc")];
    assert_eq!(string_of(&join_chars(&rows, '\n')), "a\n\nbc");
    assert_eq!(string_of(&join_chars(&vec![chars("only")], '\n')), "only");
    assert_eq!(string_of(&join_chars(&Vec::new(), '\n')), "");
    assert_eq!(string_of(&join_chars(&vec![chars(""), chars("")], '\n')), "\n");
}

#[test]
fn splitting_undoes_joining() {
    let rows = vec![chars("x"), chars(""), chars("y z"), chars("")];
    let joined = join_chars(&rows, '\n');
    assert_eq!(split_chars(&joined, '\n'), rows);
}

#[test]
fn has_prefix_compares_the_leading_characters() {
    assert!(has_prefix(&chars("#head value"), &chars("#head")));
    assert!(has_prefix(&chars("#head"), &chars("#head")));
    assert!(has_prefix(&chars("anything"), &chars("")));
    assert!(!has_prefix(&chars("#hea"), &chars("#head")));
    assert!(!has_prefix(&chars(" #head"), &chars("#head")));
    assert!(!has_prefix(&chars("#heAd"), &chars("#head")));
}

#[test]
fn find_with_prefix_gives_the_first_row() {
    let rows = vec![chars("a=1"), chars("#v 1"), chars("b=2"), chars("#v 2")];
    assert_eq!(find_with_prefix(&rows, &chars("#v")), Some(1));
    assert_eq!(find_with_prefix(&rows, &chars("b")), Some(2));
    assert_eq!(find_with_prefix(&rows, &chars("#w")), None);
    assert_eq!(find_with_prefix(&Vec::new(), &chars("#v")), None);
}

#[test]
fn parse_decimal_reads_unsigned_numbers() {
    assert_eq!(parse_decimal(&chars("0")), Some(0));
    assert_eq!(parse_decimal(&chars("42")), Some(42));
    assert_eq!(parse_decimal(&chars("+5")), Some(5));
    assert_eq!(parse_decimal(&chars("00012")), Some(12));
    assert_eq!(parse_decimal(&chars("4294967295")), Some(4294967295));
    assert_eq!(parse_decimal(&chars("4294967296")), None);
    assert_eq!(parse_decimal(&chars("99999999999999999999999")), None);
    assert_eq!(parse_decimal(&chars("")), None);
    assert_eq!(parse_decimal(&chars("+")), None);
    assert_eq!(parse_decimal(&chars("-5")), None);
    assert_eq!(parse_decimal(&chars("++5")), None);
    assert_eq!(parse_decimal(&chars("1a")), None);
    assert_eq!(parse_decimal(&chars("1.0")), None);
    assert_eq!(parse_decimal(&chars("5\r")), None);
}

#[test]
fn parse_decimal_agrees_with_str_parse() {
    for s in [
        "", "+", "-", "0", "+0", "-0", "7", "+7", "007", "12345", "4294967295", "4294967296",
        "+4294967295", "42949672950", "1_000", "0x10", "١٢", "１２", " 1", "1 ", "+-1", "9a",
    ] {
        assert_eq!(parse_decimal(&chars(s)), s.parse::<u32>().ok(), "input {:?}", s);
    }
}

#[test]
fn decimal_chars_writes_without_leading_zeros() {
    assert_eq!(string_of(&decimal_chars(0)), "0");
    assert_eq!(string_of(&decimal_chars(7)), "7");
    assert_eq!(string_of(&decimal_chars(10)), "10");
    assert_eq!(string_of(&decimal_chars(1905)), "1905");
    assert_eq!(string_of(&decimal_chars(4294967295)), "4294967295");
}

#[test]
fn decimal_chars_agrees_with_to_string_and_reads_back() {
    for v in [0u32, 1, 9, 10, 11, 99, 100, 101, 65535, 65536, 1000000000, 4294967294, 4294967295] {
        let written = decimal_chars(v);
        assert_eq!(string_of(&written), v.to_string());
        assert_eq!(parse_decimal(&written), Some(v));
    }
}
