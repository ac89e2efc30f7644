use domain_audit::text::{
    chars_of, decimal_text, eq_ignore_case, find_char, has_suffix, parse_unsigned, slice,
    split_whitespace, starts_with_ignore_case, str_eq, string_of, trim, trim_end_matches,
};
use domain_audit::topology::names::normalize_domain;

fn samples() -> Vec<String> {
    let pieces = ["", " ", "\t", "\n", "\u{a0}", "\u{2003}", "\u{3000}", "\u{200b}", "a", "B.", ".", "ß", "İ", "x y"];
    let mut out = Vec::new();
    for a in pieces {
        for b in pieces {
            for c in pieces {
                out.push(format!("{a}{b}{c}"));
            }
        }
    }
    out
}

#[test]
fn trimming_and_splitting_agree_with_the_standard_library() {
    for text in samples() {
        let chars = chars_of(&text);
        assert_eq!(string_of(&chars), text);
        assert_eq!(string_of(&trim(&chars)), text.trim(), "{:?}", text);
        assert_eq!(
            string_of(&trim_end_matches(&chars, '.')),
            text.trim_end_matches('.'),
            "{:?}",
            text
        );
        let words: Vec<String> = split_whitespace(&chars).iter().map(string_of).collect();
        let theirs: Vec<String> = text.split_whitespace().map(|w| w.to_string()).collect();
        assert_eq!(words, theirs, "{:?}", text);
        assert_eq!(
            normalize_domain(&text),
            text.trim().trim_end_matches('.').to_lowercase(),
            "{:?}",
            text
        );
        assert_eq!(find_char(&chars, '.'), text.chars().position(|c| c == '.'), "{:?}", text);
    }
}

#[test]
fn texts_are_told_apart_and_found_alike() {
    assert!(str_eq("", ""));
    assert!(str_eq("aß", "aß"));
    assert!(!str_eq("a", "A"));
    assert!(!str_eq("a", "ab"));
    assert!(eq_ignore_case(&chars_of("CuStOm"), &chars_of("custom")));
    assert!(!eq_ignore_case(&chars_of("custom "), &chars_of("custom")));
    assert!(!eq_ignore_case(&chars_of("ÄB"), &chars_of("äb")));
    assert!(starts_with_ignore_case(&chars_of("V=SPF1 x"), &chars_of("v=spf1")));
    assert!(!starts_with_ignore_case(&chars_of("v=spf"), &chars_of("v=spf1")));
    assert!(starts_with_ignore_case(&chars_of("abc"), &chars_of("")));
    assert!(has_suffix(&chars_of("mail.example.com"), &chars_of("example.com")));
    assert!(has_suffix(&chars_of("example.com"), &chars_of("example.com")));
    assert!(has_suffix(&chars_of("x"), &chars_of("")));
    assert!(!has_suffix(&chars_of("ample.com"), &chars_of("example.com")));
    assert_eq!(string_of(&slice(&chars_of("héllo"), 1, 3)), "él");
}

#[test]
fn numbers_are_read_and_written_in_decimal() {
    for n in [0usize, 7, 10, 99, 100, 65535, usize::MAX] {
        assert_eq!(parse_unsigned(&chars_of(&decimal_text(n as u64))), Some(n));
    }
    for text in ["", "+", "-1", "1x", "x1", "18446744073709551616", "+007", " 1"] {
        assert_eq!(parse_unsigned(&chars_of(text)), text.parse::<usize>().ok(), "{:?}", text);
    }
}

#[test]
fn ascii_text_is_lowered_letter_by_letter() {
    for code in 0u8..128 {
        let c = code as char;
        if c.is_whitespace() || c == '.' {
            continue;
        }
        let text = format!("a{}z", c);
        let lowered = domain_audit::topology::names::normalize_domain(&text);
        assert_eq!(lowered, format!("a{}z", c.to_ascii_lowercase()));
    }
    assert_eq!(
        domain_audit::topology::names::normalize_domain("MiXeD-Case_09.Example"),
        "mixed-case_09.example"
    );
}
