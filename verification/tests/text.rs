use std::io::BufRead;
use tile_download_tool::text::{
    chars_of, parse_number, push_decimal, replace, split_fields, text_lines, to_ascii_lower,
    to_ascii_lowercase, to_decimal,
};

fn chars(s: &str) -> Vec<char> {
    s.chars().collect()
}

fn text(v: &Vec<char>) -> String {
    v.iter().collect()
}

#[test]
fn decimal_numerals_have_no_leading_zeros() {
    assert_eq!(text(&to_decimal(0)), "0");
    assert_eq!(text(&to_decimal(7)), "7");
    assert_eq!(text(&to_decimal(10)), "10");
    assert_eq!(text(&to_decimal(1009)), "1009");
    assert_eq!(text(&to_decimal(u64::MAX)), "18446744073709551615");
}

#[test]
fn push_decimal_appends() {
    let mut out = chars("n=");
    push_decimal(42, &mut out);
    push_decimal(0, &mut out);
    assert_eq!(text(&out), "n=420");
}

#[test]
fn chars_of_keeps_every_character() {
    assert_eq!(chars_of("a/b é 日本"), chars("a/b é 日本"));
    assert_eq!(chars_of(""), Vec::<char>::new());
}

#[test]
fn numbers_are_read_like_unsigned_integers() {
    assert_eq!(parse_number(&chars("0"), 255), Some(0));
    assert_eq!(parse_number(&chars("007"), 255), Some(7));
    assert_eq!(parse_number(&chars("+5"), 255), Some(5));
    assert_eq!(parse_number(&chars("255"), 255), Some(255));
    assert_eq!(parse_number(&chars("256"), 255), None);
    assert_eq!(parse_number(&chars("4294967295"), 4294967295), Some(4294967295));
    assert_eq!(parse_number(&chars("4294967296"), 4294967295), None);
    assert_eq!(parse_number(&chars("18446744073709551615"), u64::MAX), Some(u64::MAX));
    assert_eq!(parse_number(&chars("18446744073709551616"), u64::MAX), None);
    assert_eq!(parse_number(&chars("00000000000000000000000000012"), 12), Some(12));
}

#[test]
fn what_is_no_numeral_has_no_value() {
    assert_eq!(parse_number(&chars(""), 255), None);
    assert_eq!(parse_number(&chars("+"), 255), None);
    assert_eq!(parse_number(&chars("-1"), 255), None);
    assert_eq!(parse_number(&chars("++1"), 255), None);
    assert_eq!(parse_number(&chars("1+"), 255), None);
    assert_eq!(parse_number(&chars("12a"), 255), None);
    assert_eq!(parse_number(&chars(" 1"), 255), None);
    assert_eq!(parse_number(&chars("1.0"), 255), None);
    // digits of other scripts are no digits here
    assert_eq!(parse_number(&chars("٣"), 255), None);
}

#[test]
fn numbers_agree_with_the_standard_parser() {
    for s in ["0", "9", "+9", "09", "255", "256", "", "+", "-0", "1e2", "65535", "99999999999"] {
        assert_eq!(parse_number(&chars(s), 255), s.parse::<u8>().ok().map(|n| n as u64), "{}", s);
        assert_eq!(
            parse_number(&chars(s), u32::MAX as u64),
            s.parse::<u32>().ok().map(|n| n as u64),
            "{}",
            s
        );
    }
}

#[test]
fn replace_goes_from_the_left_without_overlap() {
    assert_eq!(text(&replace(&chars("aaa"), &chars("aa"), &chars("b"))), "ba");
    assert_eq!(text(&replace(&chars("aaaa"), &chars("aa"), &chars("b"))), "bb");
    assert_eq!(text(&replace(&chars("abcabc"), &chars("bc"), &chars(""))), "aa");
    assert_eq!(text(&replace(&chars("abc"), &chars("abcd"), &chars("x"))), "abc");
    assert_eq!(text(&replace(&chars(""), &chars("a"), &chars("x"))), "");
    assert_eq!(text(&replace(&chars("{z}/{z}"), &chars("{z}"), &chars("12"))), "12/12");
    assert_eq!(text(&replace(&chars("z"), &chars("z"), &chars("zz"))), "zz");
}

#[test]
fn replace_agrees_with_the_standard_library() {
    let cases = [
        ("https://e.com/{z}/{x}/{y}.png", "{x}", "17"),
        ("{{z}}", "{z}", "3"),
        ("{z{z}", "{z}", "3"),
        ("xxxyxxyx", "xy", "-"),
        ("abababa", "aba", "c"),
        ("tail{z", "{z}", "1"),
    ];
    for (s, pat, with) in cases {
        assert_eq!(text(&replace(&chars(s), &chars(pat), &chars(with))), s.replace(pat, with));
    }
}

#[test]
fn lower_case_touches_ascii_capitals_only() {
    assert_eq!(to_ascii_lower('A'), 'a');
    assert_eq!(to_ascii_lower('Z'), 'z');
    assert_eq!(to_ascii_lower('a'), 'a');
    assert_eq!(to_ascii_lower('@'), '@');
    assert_eq!(to_ascii_lower('['), '[');
    assert_eq!(to_ascii_lower('É'), 'É');
    assert_eq!(text(&to_ascii_lowercase(&chars("PnG.JPEG É1"))), "png.jpeg É1");
}

#[test]
fn replace_with_an_empty_pattern_changes_nothing() {
    assert_eq!(text(&replace(&chars("abc"), &chars(""), &chars("x"))), "abc");
    assert_eq!(text(&replace(&chars(""), &chars(""), &chars("x"))), "");
}

#[test]
fn fields_stand_between_separators() {
    assert_eq!(split_fields("a,b,c", ','), vec!["a", "b", "c"]);
    assert_eq!(split_fields("", ','), vec![""]);
    assert_eq!(split_fields(",", ','), vec!["", ""]);
    assert_eq!(split_fields("a,,b,", ','), vec!["a", "", "b", ""]);
    assert_eq!(split_fields("no separator", ','), vec!["no separator"]);
    for s in ["", ",", "a", "a,b", ",a,,b,", "日,本"] {
        let expected: Vec<String> = s.split(',').map(|f| f.to_string()).collect();
        assert_eq!(split_fields(s, ','), expected);
    }
}

#[test]
fn lines_end_with_a_line_feed() {
    assert_eq!(text_lines(""), Vec::<String>::new());
    assert_eq!(text_lines("a"), vec!["a"]);
    assert_eq!(text_lines("a\n"), vec!["a"]);
    assert_eq!(text_lines("a\nb"), vec!["a", "b"]);
    assert_eq!(text_lines("a\n\nb\n"), vec!["a", "", "b"]);
    assert_eq!(text_lines("\n"), vec![""]);
    assert_eq!(text_lines("\n\n"), vec!["", ""]);
    assert_eq!(text_lines("a\r\nb\r\n"), vec!["a", "b"]);
    assert_eq!(text_lines("a\rb\n"), vec!["a\rb"]);
    assert_eq!(text_lines("a\r"), vec!["a\r"]);
    assert_eq!(text_lines("a\r\r\n"), vec!["a\r"]);
    assert_eq!(text_lines("\r\n"), vec![""]);
    assert_eq!(text_lines("\r"), vec!["\r"]);
}

#[test]
fn lines_agree_with_a_buffered_reader() {
    for s in ["", "a", "a\n", "a\nb", "\n", "\n\n\n", "a\r\nb", "a\r", "\r\n\r\n", "x\r\r\ny\n\r", "1/2/3\n4/5/6\n"] {
        let expected: Vec<String> = std::io::Cursor::new(s).lines().map(|l| l.unwrap()).collect();
        assert_eq!(text_lines(s), expected, "{:?}", s);
    }
}
