use aggregator::classifier::{classify, try_extract_code, CriticalSet};
use aggregator::extract::{first_code, guess_code, mark_numeric};
use aggregator::delimited::split_fields;
use aggregator::text::{
    is_digit_char, is_space_char, parse_u16, render_number, same_chars, same_text, split_chars,
    to_chars,
};

fn chars(text: &str) -> Vec<char> {
    text.chars().collect()
}

#[test]
fn guess_takes_the_first_number_that_fits() {
    assert_eq!(guess_code("code 404 here"), Some(404));
    assert_eq!(guess_code("404"), Some(404));
    assert_eq!(guess_code("x=12, y=13"), Some(12));
    assert_eq!(guess_code("404|ERROR|2025-05-20 11:30:05,332|svc"), Some(404));
    assert_eq!(guess_code("ERROR 2025-05-20 code 404"), Some(2025));
    assert_eq!(guess_code("0007"), Some(7));
    assert_eq!(guess_code("65535"), Some(65535));
}

#[test]
fn guess_skips_numbers_that_do_not_fit() {
    assert_eq!(guess_code("65536 12"), Some(12));
    assert_eq!(guess_code("99999999999999999999999999 and 3"), Some(3));
    assert_eq!(guess_code("65536"), None);
}

#[test]
fn guess_finds_nothing_without_digits() {
    assert_eq!(guess_code(""), None);
    assert_eq!(guess_code("no digits at all"), None);
    assert_eq!(guess_code("+-+"), None);
}

#[test]
fn guess_cuts_words_at_characters_that_are_not_numeric() {
    // A superscript two is numeric, so it stays inside the word and spoils it.
    assert_eq!(guess_code("4\u{b2}04 7"), Some(7));
    assert_eq!(guess_code("4\u{b2}04"), None);
    // Arabic-Indic digits are numeric but no decimal number to `parse`.
    assert_eq!(guess_code("\u{661}\u{662} 5"), Some(5));
    assert_eq!(guess_code("\u{661}5 6"), Some(6));
    // A sign is not numeric: it cuts.
    assert_eq!(guess_code("+5"), Some(5));
    assert_eq!(guess_code("-5"), Some(5));
}

#[test]
fn marks_follow_unicode() {
    assert_eq!(mark_numeric(&chars("a1\u{b2}+\u{661} ")), vec![false, true, true, false, true, false]);
    assert_eq!(mark_numeric(&chars("")), Vec::<bool>::new());
}

#[test]
fn first_code_goes_by_the_marks_it_is_given() {
    let text = chars("12x34");
    assert_eq!(first_code(&text, &vec![true, true, false, true, true]), Some(12));
    assert_eq!(first_code(&text, &vec![true, true, true, true, true]), None);
    assert_eq!(first_code(&text, &vec![false, false, true, true, true]), None);
    assert_eq!(first_code(&text, &vec![false, true, false, true, true]), Some(2));
    assert_eq!(first_code(&text, &vec![false, false, false, true, true]), Some(34));
    assert_eq!(first_code(&text, &vec![false; 5]), None);
    assert_eq!(first_code(&text, &vec![true; 4]), None);
    assert_eq!(first_code(&text, &vec![true; 6]), None);
    assert_eq!(first_code(&chars("+5"), &vec![true, true]), Some(5));
}

#[test]
fn parse_u16_reads_like_std() {
    for text in ["0", "7", "+7", "007", "65535", "+65535", "65536", "", "+", "-1", "1 ", " 1", "1_0", "++1", "\u{661}"] {
        assert_eq!(parse_u16(&chars(text)), text.parse::<u16>().ok(), "{text:?}");
    }
}

#[test]
fn parse_u16_agrees_with_std_on_every_number_near_the_limit() {
    for n in (0u64..200).chain(65_400..65_700).chain([99_999, 655_350, 4_294_967_295, u64::MAX]) {
        let text: String = render_number(n).iter().collect();
        assert_eq!(parse_u16(&chars(&text)), text.parse::<u16>().ok(), "{text}");
        let padded = format!("000000000000000000000000{text}");
        assert_eq!(parse_u16(&chars(&padded)), padded.parse::<u16>().ok(), "{padded}");
    }
}

#[test]
fn white_space_is_what_trim_removes() {
    for code in 0u32..0x3100 {
        if let Some(c) = char::from_u32(code) {
            assert_eq!(is_space_char(c), c.is_whitespace(), "U+{code:04X}");
        }
    }
    assert!(!is_space_char('\u{feff}'));
    assert!(!is_space_char('\u{10FFFF}'));
}

#[test]
fn digits_are_the_ten_ascii_ones() {
    for code in 0u32..0x800 {
        if let Some(c) = char::from_u32(code) {
            assert_eq!(is_digit_char(c), c.is_ascii_digit(), "U+{code:04X}");
        }
    }
}

#[test]
fn fields_are_trimmed_as_std_trims() {
    for text in ["", " ", "a", " a", "a ", "  a b  ", "\t\n x \r\n", "\u{2003}x\u{3000}", " \u{a0} "] {
        let fields: Vec<String> =
            split_fields(&chars(&format!("{text}|{text}"))).iter().map(|f| f.iter().collect()).collect();
        assert_eq!(fields, vec![text.trim().to_string(), text.trim().to_string()], "{text:?}");
    }
}

#[test]
fn split_chars_agrees_with_std() {
    for text in ["", "|", "a", "a|b", "|a|", "a||b", "|||", "a | b"] {
        let parts: Vec<String> = split_chars(&chars(text), '|').iter().map(|p| p.iter().collect()).collect();
        let expected: Vec<String> = text.split('|').map(String::from).collect();
        assert_eq!(parts, expected, "{text:?}");
    }
}

#[test]
fn texts_are_compared_character_by_character() {
    assert!(same_text("", ""));
    assert!(same_text("SUBSCRIBE:all", "SUBSCRIBE:all"));
    assert!(!same_text("SUBSCRIBE:all", "SUBSCRIBE:alL"));
    assert!(!same_text("a", "ab"));
    assert!(!same_text("ab", "a"));
    assert!(same_chars(&chars("h\u{e9}"), &chars("h\u{e9}")));
    assert!(!same_chars(&chars("he"), &chars("h\u{e9}")));
    assert_eq!(to_chars("h\u{e9}\u{1F600}"), vec!['h', '\u{e9}', '\u{1F600}']);
}

#[test]
fn extract_gives_the_code_of_a_delimited_event() {
    assert_eq!(
        try_extract_code("404|ERROR|2025-05-20 11:30:05,332|svc|proc|123|thr|tid|boom"),
        Some(404)
    );
    assert_eq!(
        try_extract_code(" 200 | INFO | 2025-05-20 11:30:05,332 | svc | proc | 123 | thr | tid | 404 500 "),
        Some(200)
    );
    assert_eq!(
        try_extract_code("500|ERROR|2025-05-20 11:30:05,332|svc|proc|123|thr|tid|a|b|c"),
        Some(500)
    );
}

#[test]
fn extract_gives_the_code_member_of_a_structured_event() {
    assert_eq!(
        try_extract_code(r#"{"timestamp":7,"code":404,"service":"s","message":"m"}"#),
        Some(404)
    );
    assert_eq!(
        try_extract_code(r#"{"timestamp":7,"code":200,"service":"s","message":"m"}"#),
        Some(200)
    );
    assert_eq!(
        try_extract_code(r#"{"code":200,"service":"svc","timestamp":1,"message":"ok"}"#),
        Some(200)
    );
    assert_eq!(
        try_extract_code(r#"{"message":"code 404","service":"9","timestamp":-1,"code":0}"#),
        Some(0)
    );
}

#[test]
fn extract_gives_nothing_for_what_is_no_event() {
    for text in [
        "404|ERROR|boom",
        "404",
        "code 404 here",
        "",
        "404|ERROR|2025-05-20 11:30:05,332|svc|proc|123|thr|tid",
        "404|ERROR|not a time|svc|proc|123|thr|tid|boom",
        "x404|ERROR|2025-05-20 11:30:05,332|svc|proc|123|thr|tid|boom",
        "65536|ERROR|2025-05-20 11:30:05,332|svc|proc|123|thr|tid|boom",
        r#"{"code":404}"#,
        r#"{"code":"404","service":"s","timestamp":7,"message":"m"}"#,
        r#"{"code":65536,"service":"s","timestamp":7,"message":"m"}"#,
    ] {
        assert_eq!(try_extract_code(text), None, "{text:?}");
    }
}

#[test]
fn extract_agrees_with_classify() {
    let set = CriticalSet::new(vec![400, 401, 402, 403, 404]);
    for text in [
        "404|ERROR|2025-05-20 11:30:05,332|svc|proc|123|thr|tid|boom",
        "200|ERROR|2025-05-20 11:30:05,332|svc|proc|123|thr|tid|404",
        r#"{"timestamp":404,"code":500,"service":"s","message":"m"}"#,
        r#"{"timestamp":7,"code":401,"service":"s","message":"m"}"#,
        "404|ERROR|boom",
        "nothing",
    ] {
        let code = try_extract_code(text);
        let route = classify(text, &set);
        assert_eq!(code, route.as_ref().map(|r| r.event.code), "{text:?}");
        assert_eq!(code.map(|c| set.contains(c)), route.as_ref().map(|r| r.critical), "{text:?}");
        assert_eq!(code.map(|c| set.contains(c)), route.as_ref().map(|r| r.notify), "{text:?}");
    }
}
