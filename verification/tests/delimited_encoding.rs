use aggregator::classifier::{classify, parse, CriticalSet};
use aggregator::delimited::{assemble, parse_delimited, split_fields};
use aggregator::event::Event;

fn critical() -> CriticalSet {
    CriticalSet::new(vec![400, 401, 402, 403, 404])
}

fn chars(text: &str) -> Vec<char> {
    text.chars().collect()
}

#[test]
fn delimited_round_trip_is_critical() {
    let payload = "404|ERROR|2025-05-20 11:30:05,332|svc|proc|123|thr|tid|boom";
    let event = parse_delimited(payload).expect("a record");
    assert_eq!(event.code, 404);
    assert_eq!(event.service, "svc");
    assert_eq!(event.message, "boom");
    assert_eq!(event.timestamp, 1_747_740_605_332);
    assert!(critical().is_critical(&event));
    let route = classify(payload, &critical()).expect("a route");
    assert!(route.critical);
    assert!(route.notify);
    assert_eq!(route.event, event);
}

#[test]
fn delimited_fields_are_trimmed() {
    let payload =
        " 200 | INFO | 1970-01-01 00:00:01,444 | hlp.camera.CameraConsumer | MainProcess | 77 | MainThread | threadId | Sample message for code 200 ";
    let event = parse_delimited(payload).expect("a record");
    assert_eq!(
        event,
        Event {
            code: 200,
            service: String::from("hlp.camera.CameraConsumer"),
            timestamp: 1_444,
            message: String::from("Sample message for code 200"),
        }
    );
    assert!(!critical().is_critical(&event));
}

#[test]
fn delimited_message_keeps_later_fields() {
    let payload = "500|ERROR|2025-05-20 11:30:05,332|svc|proc|123|thr|tid| a | b ||c ";
    let event = parse_delimited(payload).expect("a record");
    assert_eq!(event.message, "a|b||c");
}

#[test]
fn delimited_timestamp_before_the_epoch() {
    let payload = "100|DEBUG|1969-12-31 23:59:59,000|svc|p|1|t|i|m";
    assert_eq!(parse_delimited(payload).expect("a record").timestamp, -1000);
}

#[test]
fn delimited_needs_nine_fields() {
    assert_eq!(parse_delimited("404|ERROR|2025-05-20 11:30:05,332|svc|proc|123|thr|tid"), None);
    assert_eq!(parse_delimited(""), None);
    assert_eq!(parse_delimited("404"), None);
}

#[test]
fn delimited_empty_ninth_field_is_an_empty_message() {
    let event =
        parse_delimited("404|ERROR|2025-05-20 11:30:05,332|svc|proc|123|thr|tid|").expect("a record");
    assert_eq!(event.message, "");
}

#[test]
fn delimited_code_must_be_a_u16() {
    let rest = "|ERROR|2025-05-20 11:30:05,332|svc|proc|123|thr|tid|boom";
    assert_eq!(parse_delimited(&format!("abc{rest}")), None);
    assert_eq!(parse_delimited(&format!("{rest}")), None);
    assert_eq!(parse_delimited(&format!("-1{rest}")), None);
    assert_eq!(parse_delimited(&format!("65536{rest}")), None);
    assert_eq!(parse_delimited(&format!("4 04{rest}")), None);
    assert_eq!(parse_delimited(&format!("65535{rest}")).expect("a record").code, 65535);
    assert_eq!(parse_delimited(&format!("+404{rest}")).expect("a record").code, 404);
    assert_eq!(parse_delimited(&format!("000404{rest}")).expect("a record").code, 404);
    assert_eq!(parse_delimited(&format!("0{rest}")).expect("a record").code, 0);
}

#[test]
fn delimited_timestamp_must_match_the_layout() {
    assert_eq!(parse_delimited("404|ERROR|2025-05-20T11:30:05|svc|proc|123|thr|tid|boom"), None);
    assert_eq!(parse_delimited("404|ERROR|2025-13-20 11:30:05,332|svc|proc|123|thr|tid|boom"), None);
    assert_eq!(parse_delimited("404|ERROR|2025-02-30 11:30:05,332|svc|proc|123|thr|tid|boom"), None);
    assert_eq!(parse_delimited("404|ERROR|2025-05-20 11:30:05.332|svc|proc|123|thr|tid|boom"), None);
    assert_eq!(parse_delimited("404|ERROR||svc|proc|123|thr|tid|boom"), None);
    assert_eq!(parse_delimited("404|ERROR|yesterday|svc|proc|123|thr|tid|boom"), None);
}

#[test]
fn split_fields_cuts_at_every_separator() {
    let fields = split_fields(&chars(" a |b||  c d  "));
    assert_eq!(fields, vec![chars("a"), chars("b"), chars(""), chars("c d")]);
    assert_eq!(split_fields(&chars("")), vec![chars("")]);
    assert_eq!(split_fields(&chars("|")), vec![chars(""), chars("")]);
    assert_eq!(split_fields(&chars("\u{3000}x\u{a0}")), vec![chars("x")]);
}

#[test]
fn assemble_joins_the_fields_of_the_message() {
    let head = ["1", "L", "t", "s", "p", "2", "th", "id"];
    for (tail, message) in [
        (vec!["a", "b", "", "c"], "a|b||c"),
        (vec!["", "c"], "|c"),
        (vec!["c"], "c"),
        (vec![""], ""),
        (vec!["", ""], "|"),
    ] {
        let fields: Vec<Vec<char>> = head.iter().chain(tail.iter()).map(|f| chars(f)).collect();
        assert_eq!(assemble(&fields, Some(0)).expect("a record").message, message);
    }
}

#[test]
fn assemble_takes_the_timestamp_as_given() {
    let fields: Vec<Vec<char>> =
        ["404", "ERROR", "whatever", "svc", "proc", "123", "thr", "tid", "boom", "again"]
            .iter()
            .map(|f| chars(f))
            .collect();
    assert_eq!(
        assemble(&fields, Some(7)),
        Some(Event {
            code: 404,
            service: String::from("svc"),
            timestamp: 7,
            message: String::from("boom|again"),
        })
    );
    assert_eq!(assemble(&fields, None), None);
    assert_eq!(assemble(&fields[..8].to_vec(), Some(7)), None);
    let mut bad_code = fields.clone();
    bad_code[0] = chars("x");
    assert_eq!(assemble(&bad_code, Some(7)), None);
}

#[test]
fn parse_tries_both_strategies() {
    let delimited = parse("404|ERROR|2025-05-20 11:30:05,332|svc|proc|123|thr|tid|boom");
    assert_eq!(delimited.expect("a record").code, 404);
    let structured = parse(r#"{"code":200,"service":"svc","timestamp":1,"message":"ok"}"#);
    assert_eq!(structured.expect("a record").code, 200);
    assert_eq!(parse("neither"), None);
}

#[test]
fn short_and_unstructured_payload_is_dropped() {
    assert!(classify("404|ERROR|boom", &critical()).is_none());
    assert!(classify("{\"code\":404}", &critical()).is_none());
    assert!(classify("", &critical()).is_none());
    assert!(classify("404 something went wrong", &critical()).is_none());
}

#[test]
fn critical_set_is_what_it_was_built_from() {
    let set = critical();
    for code in [400u16, 401, 402, 403, 404] {
        assert!(set.contains(code));
    }
    for code in [0u16, 100, 200, 399, 405, 500, 65535] {
        assert!(!set.contains(code));
    }
    let narrow = CriticalSet::new(vec![404, 404, 500]);
    assert!(narrow.contains(404));
    assert!(narrow.contains(500));
    assert!(!narrow.contains(402));
    assert!(!CriticalSet::new(Vec::new()).contains(404));
}

#[test]
fn criticality_follows_the_code_alone() {
    let set = critical();
    let calm = classify("200|CRITICAL|2025-05-20 11:30:05,332|svc|proc|123|thr|tid|boom", &set)
        .expect("a route");
    assert!(!calm.critical);
    assert!(!calm.notify);
    let loud =
        classify("402|INFO|2025-05-20 11:30:05,332|svc|proc|123|thr|tid|fine", &set).expect("a route");
    assert!(loud.critical);
    assert!(loud.notify);
    let empty = CriticalSet::new(Vec::new());
    let none = classify("402|INFO|2025-05-20 11:30:05,332|svc|proc|123|thr|tid|fine", &empty)
        .expect("a route");
    assert!(!none.critical);
    assert!(!none.notify);
}
