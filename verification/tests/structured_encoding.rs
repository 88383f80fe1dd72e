use aggregator::classifier::{classify, CriticalSet};
use aggregator::event::Event;
use aggregator::structured::{
    event_from_members, find, number_in, parse_structured, pass_blanks, read_escape, read_hex4,
    read_member, read_members, read_number, read_record, read_string, read_value, text_in, Member,
    Value,
};

fn chars(text: &str) -> Vec<char> {
    text.chars().collect()
}

fn event(code: u16, service: &str, timestamp: i64, message: &str) -> Event {
    Event { code, service: String::from(service), timestamp, message: String::from(message) }
}

#[test]
fn structured_round_trip_is_not_critical() {
    let payload = r#"{"code":200,"service":"svc","timestamp":1,"message":"ok"}"#;
    let parsed = parse_structured(payload).expect("a record");
    assert_eq!(parsed, event(200, "svc", 1, "ok"));
    let set = CriticalSet::new(vec![400, 401, 402, 403, 404]);
    let route = classify(payload, &set).expect("a route");
    assert_eq!(route.event.code, 200);
    assert!(!route.critical);
    assert!(!route.notify);
}

#[test]
fn structured_critical_code_notifies() {
    let payload = r#"{"code":403,"service":"svc","timestamp":1,"message":"denied"}"#;
    let set = CriticalSet::new(vec![400, 401, 402, 403, 404]);
    let route = classify(payload, &set).expect("a route");
    assert!(route.critical);
    assert!(route.notify);
}

#[test]
fn structured_members_in_any_order_with_blanks() {
    let payload =
        " \t{ \"message\" : \"ok\" ,\n \"timestamp\":-5 , \"service\":\"a b\",\r\n\"code\" : 7 } \n";
    assert_eq!(parse_structured(payload), Some(event(7, "a b", -5, "ok")));
}

#[test]
fn structured_escapes_are_decoded() {
    let payload = r#"{"code":1,"service":"s\/\\\"","timestamp":0,"message":"a\nb\tc\r\b\fAé😀"}"#;
    assert_eq!(
        parse_structured(payload),
        Some(event(1, "s/\\\"", 0, "a\nb\tc\r\u{8}\u{c}A\u{e9}\u{1F600}"))
    );
}

#[test]
fn structured_keeps_text_that_is_not_ascii() {
    let payload = "{\"code\":1,\"service\":\"caf\u{e9}\",\"timestamp\":0,\"message\":\"\u{1F600} | x\"}";
    assert_eq!(parse_structured(payload), Some(event(1, "caf\u{e9}", 0, "\u{1F600} | x")));
}

#[test]
fn structured_integer_limits() {
    let low = r#"{"code":0,"service":"","timestamp":-9223372036854775808,"message":""}"#;
    assert_eq!(parse_structured(low), Some(event(0, "", i64::MIN, "")));
    let high = r#"{"code":65535,"service":"","timestamp":9223372036854775807,"message":""}"#;
    assert_eq!(parse_structured(high), Some(event(65535, "", i64::MAX, "")));
    let minus_zero = r#"{"code":-0,"service":"","timestamp":-0,"message":""}"#;
    assert_eq!(parse_structured(minus_zero), Some(event(0, "", 0, "")));
    for bad in [
        r#"{"code":65536,"service":"","timestamp":0,"message":""}"#,
        r#"{"code":-1,"service":"","timestamp":0,"message":""}"#,
        r#"{"code":1,"service":"","timestamp":9223372036854775808,"message":""}"#,
        r#"{"code":1,"service":"","timestamp":-9223372036854775809,"message":""}"#,
        r#"{"code":1,"service":"","timestamp":99999999999999999999999999,"message":""}"#,
        r#"{"code":01,"service":"","timestamp":0,"message":""}"#,
        r#"{"code":+1,"service":"","timestamp":0,"message":""}"#,
        r#"{"code":1,"service":"","timestamp":-,"message":""}"#,
        r#"{"code":1,"service":"","timestamp":1.5,"message":""}"#,
        r#"{"code":1,"service":"","timestamp":1e3,"message":""}"#,
    ] {
        assert_eq!(parse_structured(bad), None, "{bad}");
    }
}

#[test]
fn structured_needs_exactly_the_four_fields() {
    for bad in [
        r#"{}"#,
        r#"{"code":200,"service":"svc","timestamp":1}"#,
        r#"{"code":200,"service":"svc","message":"ok"}"#,
        r#"{"service":"svc","timestamp":1,"message":"ok"}"#,
        r#"{"code":200,"timestamp":1,"message":"ok"}"#,
        r#"{"code":200,"service":"svc","timestamp":1,"message":"ok","level":"INFO"}"#,
        r#"{"code":200,"service":"svc","timestamp":1,"message":"ok","code":200}"#,
        r#"{"code":200,"code":200,"timestamp":1,"message":"ok"}"#,
        r#"{"code":200,"service":"svc","timestamp":1,"Message":"ok"}"#,
    ] {
        assert_eq!(parse_structured(bad), None, "{bad}");
    }
}

#[test]
fn structured_fields_need_the_right_shape() {
    for bad in [
        r#"{"code":"200","service":"svc","timestamp":1,"message":"ok"}"#,
        r#"{"code":200,"service":5,"timestamp":1,"message":"ok"}"#,
        r#"{"code":200,"service":"svc","timestamp":"1","message":"ok"}"#,
        r#"{"code":200,"service":"svc","timestamp":1,"message":7}"#,
        r#"{"code":200,"service":"svc","timestamp":1,"message":null}"#,
        r#"{"code":200,"service":"svc","timestamp":1,"message":true}"#,
        r#"{"code":200,"service":"svc","timestamp":1,"message":["ok"]}"#,
        r#"{"code":200,"service":"svc","timestamp":1,"message":{"text":"ok"}}"#,
    ] {
        assert_eq!(parse_structured(bad), None, "{bad}");
    }
}

#[test]
fn structured_rejects_what_is_no_single_object() {
    for bad in [
        "",
        "   ",
        "null",
        "[]",
        r#"{"code":200,"service":"svc","timestamp":1,"message":"ok"} x"#,
        r#"{"code":200,"service":"svc","timestamp":1,"message":"ok"}{}"#,
        r#"{"code":200,"service":"svc","timestamp":1,"message":"ok""#,
        r#"{"code":200,"service":"svc","timestamp":1,"message":"ok",}"#,
        r#"{,"code":200,"service":"svc","timestamp":1,"message":"ok"}"#,
        r#"{"code":200 "service":"svc","timestamp":1,"message":"ok"}"#,
        r#"{"code" 200,"service":"svc","timestamp":1,"message":"ok"}"#,
        r#"{code:200,"service":"svc","timestamp":1,"message":"ok"}"#,
        r#"{"code":200,"service":"svc","timestamp":1,"message":"ok}"#,
        "{\"code\":200,\"service\":\"svc\",\"timestamp\":1,\"message\":\"a\nb\"}",
        "{\"code\":200,\"service\":\"svc\",\"timestamp\":1,\"message\":\"a\u{1f}b\"}",
        "\u{a0}{\"code\":200,\"service\":\"svc\",\"timestamp\":1,\"message\":\"ok\"}",
        r#"{"code":200,"service":"svc","timestamp":1,"message":"\x"}"#,
        r#"{"code":200,"service":"svc","timestamp":1,"message":"\u12"}"#,
        r#"{"code":200,"service":"svc","timestamp":1,"message":"\u12g4"}"#,
        r#"{"code":200,"service":"svc","timestamp":1,"message":"\ud83d"}"#,
        r#"{"code":200,"service":"svc","timestamp":1,"message":"\ud83dx"}"#,
        r#"{"code":200,"service":"svc","timestamp":1,"message":"\ud83dA"}"#,
        r#"{"code":200,"service":"svc","timestamp":1,"message":"\ude00"}"#,
        r#"{"code":200,"service":"svc","timestamp":1,"message":"\"#,
    ] {
        assert_eq!(parse_structured(bad), None, "{bad}");
    }
}

#[test]
fn pass_blanks_stops_at_the_first_other_character() {
    let text = chars(" \t\r\n x ");
    assert_eq!(pass_blanks(&text, 0), 5);
    assert_eq!(pass_blanks(&text, 5), 5);
    assert_eq!(pass_blanks(&text, 6), 7);
    assert_eq!(pass_blanks(&text, 7), 7);
    assert_eq!(pass_blanks(&chars("\u{b}x"), 0), 0);
}

#[test]
fn read_hex4_reads_both_cases() {
    assert_eq!(read_hex4(&chars("00e9"), 0), Some(0xe9));
    assert_eq!(read_hex4(&chars("xAbCd"), 1), Some(0xabcd));
    assert_eq!(read_hex4(&chars("ffff"), 0), Some(0xffff));
    assert_eq!(read_hex4(&chars("fff"), 0), None);
    assert_eq!(read_hex4(&chars("fffg"), 0), None);
    assert_eq!(read_hex4(&chars("ffff"), 1), None);
    assert_eq!(read_hex4(&chars("ffff"), 9), None);
}

#[test]
fn readers_find_nothing_past_the_end() {
    let text = chars("\"a\":1}");
    let past = text.len() + 3;
    assert_eq!(pass_blanks(&text, past), past);
    assert_eq!(read_escape(&text, past), None);
    assert_eq!(read_string(&text, past), None);
    assert_eq!(read_number(&text, past), None);
    assert_eq!(read_value(&text, past), None);
    assert_eq!(read_member(&text, past), None);
    assert_eq!(read_members(&text, past), None);
    assert_eq!(read_members(&text, text.len()), None);
}

#[test]
fn read_escape_gives_character_and_next_position() {
    assert_eq!(read_escape(&chars("n"), 0), Some(('\n', 1)));
    assert_eq!(read_escape(&chars("xt"), 1), Some(('\t', 2)));
    assert_eq!(read_escape(&chars("\""), 0), Some(('"', 1)));
    assert_eq!(read_escape(&chars("/"), 0), Some(('/', 1)));
    assert_eq!(read_escape(&chars("u0041"), 0), Some(('A', 5)));
    assert_eq!(read_escape(&chars("uD7FF"), 0), Some(('\u{D7FF}', 5)));
    assert_eq!(read_escape(&chars("uE000"), 0), Some(('\u{E000}', 5)));
    assert_eq!(read_escape(&chars("ud800\\udc00"), 0), Some(('\u{10000}', 11)));
    assert_eq!(read_escape(&chars("udbff\\udfff"), 0), Some(('\u{10FFFF}', 11)));
    assert_eq!(read_escape(&chars("udc00\\ud800"), 0), None);
    assert_eq!(read_escape(&chars("ud800\\ud800"), 0), None);
    assert_eq!(read_escape(&chars("a"), 0), None);
    assert_eq!(read_escape(&chars("n"), 1), None);
}

#[test]
fn read_string_and_number_give_value_and_next_position() {
    assert_eq!(read_string(&chars("\"ab\" "), 0), Some((chars("ab"), 4)));
    assert_eq!(read_string(&chars("x\"\""), 1), Some((chars(""), 3)));
    assert_eq!(read_string(&chars("ab"), 0), None);
    assert_eq!(read_string(&chars("\"ab"), 0), None);
    assert_eq!(read_number(&chars("123,"), 0), Some((123, 3)));
    assert_eq!(read_number(&chars("-7}"), 0), Some((-7, 2)));
    assert_eq!(read_number(&chars("0"), 0), Some((0, 1)));
    assert_eq!(read_number(&chars("00"), 0), None);
    assert_eq!(read_number(&chars("-"), 0), None);
    assert_eq!(read_number(&chars(""), 0), None);
    assert_eq!(read_number(&chars("12a"), 0), Some((12, 2)));
    assert_eq!(read_value(&chars("\"v\""), 0), Some((Value::Text(chars("v")), 3)));
    assert_eq!(read_value(&chars("42"), 0), Some((Value::Number(42), 2)));
    assert_eq!(read_value(&chars("true"), 0), None);
}

#[test]
fn read_members_stops_after_the_closing_brace() {
    let text = chars("\"a\" : 1 , \"b\":\"x\" } tail");
    let a = Member { key: chars("a"), value: Value::Number(1) };
    let b = Member { key: chars("b"), value: Value::Text(chars("x")) };
    assert_eq!(read_member(&text, 0), Some((a.clone(), 7)));
    assert_eq!(read_members(&text, 0), Some((vec![a.clone(), b.clone()], 19)));
    assert_eq!(read_members(&chars("\"a\":1"), 0), None);
    assert_eq!(read_members(&chars("\"a\":1 \"b\":2}"), 0), None);
    assert_eq!(read_record(&chars(" {\"a\":1,\"b\":\"x\"} ")), Some(vec![a, b]));
    assert_eq!(read_record(&chars("{ }")), Some(Vec::new()));
    assert_eq!(read_record(&chars("{ } x")), None);
}

#[test]
fn lookups_take_the_first_member_of_a_key() {
    let members = vec![
        Member { key: chars("a"), value: Value::Number(1) },
        Member { key: chars("b"), value: Value::Text(chars("x")) },
        Member { key: chars("a"), value: Value::Text(chars("late")) },
    ];
    assert_eq!(find(&members, "a"), Some(0));
    assert_eq!(find(&members, "b"), Some(1));
    assert_eq!(find(&members, "c"), None);
    assert_eq!(number_in(&members, "a"), Some(1));
    assert_eq!(number_in(&members, "b"), None);
    assert_eq!(text_in(&members, "b"), Some(String::from("x")));
    assert_eq!(text_in(&members, "a"), None);
    assert_eq!(text_in(&members, "c"), None);
}

#[test]
fn event_from_members_wants_four_members() {
    let four = vec![
        Member { key: chars("timestamp"), value: Value::Number(9) },
        Member { key: chars("message"), value: Value::Text(chars("m")) },
        Member { key: chars("code"), value: Value::Number(404) },
        Member { key: chars("service"), value: Value::Text(chars("s")) },
    ];
    assert_eq!(event_from_members(&four), Some(event(404, "s", 9, "m")));
    let mut five = four.clone();
    five.push(Member { key: chars("extra"), value: Value::Number(0) });
    assert_eq!(event_from_members(&five), None);
    assert_eq!(event_from_members(&four[..3].to_vec()), None);
    let mut wide = four.clone();
    wide[2] = Member { key: chars("code"), value: Value::Number(65536) };
    assert_eq!(event_from_members(&wide), None);
}
