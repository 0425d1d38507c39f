use base64::Engine;

use nexo_poller_gmail::config::{
    default_dispatch_delay, default_mark_read, default_max_per_tick, DeliverCfg, GmailJobConfig,
};
use nexo_poller_gmail::errors::{classify_google_err, PollerError};
use nexo_poller_gmail::extract::{check_patterns, extract_fields, field_text, report_faults};
use nexo_poller_gmail::json::Json;
use nexo_poller_gmail::message::{
    decide, is_complete, judge, message_fields, sender_allowed, sender_passes, Verdict,
};
use nexo_poller_gmail::mime::{
    body_data, bytes_text, choose_body, decode_b64url, extract_body, find_body, first_found,
    header_value,
};

fn text(s: &str) -> Json {
    Json::Text(s.to_string())
}

fn object(entries: Vec<(&str, Json)>) -> Json {
    Json::Object(entries.into_iter().map(|(k, v)| (k.to_string(), v)).collect())
}

fn encode(s: &str) -> String {
    base64::engine::general_purpose::URL_SAFE_NO_PAD.encode(s)
}

fn part(mime: &str, data: &str) -> Json {
    object(vec![("mimeType", text(mime)), ("body", object(vec![("data", text(data))]))])
}

fn header(name: &str, value: &str) -> Json {
    object(vec![("name", text(name)), ("value", text(value))])
}

fn mail(from: &str, subject: &str, snippet: &str, body: &str) -> Json {
    object(vec![
        ("id", text("m")),
        ("snippet", text(snippet)),
        (
            "payload",
            object(vec![
                ("mimeType", text("text/plain")),
                ("headers", Json::List(vec![header("From", from), header("Subject", subject)])),
                ("body", object(vec![("data", text(&encode(body)))])),
            ]),
        ),
    ])
}

fn config() -> GmailJobConfig {
    GmailJobConfig {
        query: "is:unread".to_string(),
        newer_than: None,
        max_per_tick: default_max_per_tick(),
        dispatch_delay_ms: default_dispatch_delay(),
        sender_allowlist: vec![],
        extract: vec![],
        require_fields: vec![],
        message_template: "{subject}|{from}|{snippet}".to_string(),
        mark_read_on_dispatch: default_mark_read(),
        deliver: DeliverCfg { channel: "whatsapp".to_string(), to: "57300".to_string() },
    }
}

fn rule(name: &str, pattern: &str) -> (String, String) {
    (name.to_string(), pattern.to_string())
}

fn dispatched(verdict: Verdict) -> Option<String> {
    match verdict {
        Verdict::Dispatch(t) => Some(t),
        _ => None,
    }
}

#[test]
fn defaults_are_as_documented() {
    assert_eq!(default_max_per_tick(), 20);
    assert_eq!(default_dispatch_delay(), 1000);
    assert!(default_mark_read());
}

#[test]
fn classify_revoked_as_permanent() {
    let e = anyhow::Error::msg("invalid_grant: revoked");
    assert!(matches!(classify_google_err(&e.to_string(), "ctx"), PollerError::Permanent(_)));
}

#[test]
fn classify_5xx_as_transient() {
    let e = anyhow::Error::msg("503 backend error");
    assert!(matches!(classify_google_err(&e.to_string(), "ctx"), PollerError::Transient(_)));
}

#[test]
fn classified_errors_say_what_was_done() {
    for message in ["invalid_grant", "token was revoked", "HTTP 401"] {
        match classify_google_err(message, "list messages") {
            PollerError::Permanent(line) => assert_eq!(line, "google: list messages"),
            other => panic!("{other:?}"),
        }
    }
    match classify_google_err("", "list messages") {
        PollerError::Transient(line) => assert_eq!(line, "google: list messages"),
        other => panic!("{other:?}"),
    }
}

#[test]
fn header_value_extracts_subject() {
    let msg = object(vec![(
        "payload",
        object(vec![(
            "headers",
            Json::List(vec![header("From", "ana@example.com"), header("Subject", "Hello")]),
        )]),
    )]);
    assert_eq!(header_value(&msg, "Subject").as_deref(), Some("Hello"));
    assert_eq!(header_value(&msg, "Cc"), None);
}

#[test]
fn a_header_without_a_name_ends_the_search() {
    let nameless = object(vec![("value", text("x"))]);
    let headers = |list: Vec<Json>| {
        object(vec![("payload", object(vec![("headers", Json::List(list))]))])
    };
    let hidden = headers(vec![nameless, header("Subject", "Hello")]);
    assert_eq!(header_value(&hidden, "Subject"), None);
    let valueless = headers(vec![object(vec![("name", text("Subject"))]), header("Subject", "b")]);
    assert_eq!(header_value(&valueless, "Subject"), None);
    let twice = headers(vec![header("Subject", "a"), header("Subject", "b")]);
    assert_eq!(header_value(&twice, "Subject").as_deref(), Some("a"));
    assert_eq!(header_value(&headers(vec![header("subject", "a")]), "Subject"), None);
    assert_eq!(header_value(&Json::Scalar, "Subject"), None);
    assert_eq!(header_value(&object(vec![("payload", text("x"))]), "Subject"), None);
}

#[test]
fn extract_body_finds_text_plain_in_multipart() {
    let plain = base64::engine::general_purpose::URL_SAFE_NO_PAD.encode("hello world");
    let msg = object(vec![(
        "payload",
        object(vec![
            ("mimeType", text("multipart/alternative")),
            ("parts", Json::List(vec![part("text/html", ""), part("text/plain", &plain)])),
        ]),
    )]);
    assert_eq!(extract_body(&msg), "hello world");
}

#[test]
fn html_is_used_without_its_tags_where_there_is_no_plain_text() {
    let html = encode("<b>Total</b>: 7");
    let nested = object(vec![
        ("mimeType", text("multipart/mixed")),
        (
            "parts",
            Json::List(vec![
                part("image/png", "AAAA"),
                object(vec![
                    ("mimeType", text("multipart/related")),
                    ("parts", Json::List(vec![part("text/html", &html)])),
                ]),
            ]),
        ),
    ]);
    assert_eq!(extract_body(&object(vec![("payload", nested)])), "Total: 7");
    assert_eq!(extract_body(&object(vec![("payload", part("image/png", "AAAA"))])), "");
    assert_eq!(extract_body(&object(vec![])), "");
}

#[test]
fn a_part_that_cannot_be_decoded_is_passed_over() {
    let parts = Json::List(vec![part("text/plain", "!!"), part("text/plain", &encode("second"))]);
    let payload = object(vec![("mimeType", text("multipart/mixed")), ("parts", parts)]);
    assert_eq!(body_data(&payload, "text/plain"), vec!["!!".to_string(), encode("second")]);
    assert_eq!(find_body(&payload, "text/plain").as_deref(), Some("second"));
}

#[test]
fn a_part_with_data_is_not_searched_further() {
    let outer = object(vec![
        ("mimeType", text("text/plain")),
        ("body", object(vec![("data", text("!!"))])),
        ("parts", Json::List(vec![part("text/plain", &encode("inner"))])),
    ]);
    assert_eq!(find_body(&outer, "text/plain"), None);
    let hollow = object(vec![
        ("mimeType", text("text/plain")),
        ("body", object(vec![])),
        ("parts", Json::List(vec![part("text/plain", &encode("inner"))])),
    ]);
    assert_eq!(find_body(&hollow, "text/plain").as_deref(), Some("inner"));
}

#[test]
fn data_is_decoded_with_or_without_padding() {
    assert_eq!(decode_b64url("aGk_").as_deref(), Some("hi?"));
    assert_eq!(decode_b64url("aGk"), Some("hi".to_string()));
    assert_eq!(decode_b64url("aGk="), Some("hi".to_string()));
    assert_eq!(decode_b64url("aGk==="), Some("hi".to_string()));
    assert_eq!(decode_b64url(""), Some(String::new()));
    assert_eq!(decode_b64url("a"), None);
    assert_eq!(decode_b64url("aG k"), None);
    assert_eq!(decode_b64url("_w"), Some("\u{fffd}".to_string()));
}

#[test]
fn bytes_are_read_as_utf8() {
    assert_eq!(bytes_text(Some("é".as_bytes().to_vec())).as_deref(), Some("é"));
    assert_eq!(bytes_text(Some(vec![b'a', 0xff, b'b'])).as_deref(), Some("a\u{fffd}b"));
    assert_eq!(bytes_text(None), None);
}

#[test]
fn the_first_text_and_the_plain_one_are_preferred() {
    let found = vec![None, Some("a".to_string()), Some("b".to_string())];
    assert_eq!(first_found(&found).as_deref(), Some("a"));
    assert_eq!(first_found(&vec![None]), None);
    assert_eq!(choose_body(Some("<a>".to_string()), Some("b".to_string())), "<a>");
    assert_eq!(choose_body(None, Some("<a>b".to_string())), "b");
    assert_eq!(choose_body(None, None), "");
}

#[test]
fn patterns_that_do_not_compile_are_reported() {
    assert!(check_patterns("leads", &vec![rule("phone", r"Tel: (\d+)")]).is_ok());
    let faulty = vec![rule("ok", "a"), rule("phone", "("), rule("other", "[")];
    match check_patterns("leads", &faulty) {
        Err(PollerError::Config { job, reason }) => {
            assert_eq!(job, "leads");
            let error = regex::Regex::new("(").unwrap_err();
            assert_eq!(reason, format!("invalid regex for `phone`: {error}"));
        }
        other => panic!("{other:?}"),
    }
}

#[test]
fn the_first_fault_is_reported() {
    let rules = vec![rule("a", "x"), rule("b", "y")];
    assert!(report_faults("j", &rules, &vec![None, None]).is_ok());
    match report_faults("j", &rules, &vec![None, Some("bad".to_string())]) {
        Err(PollerError::Config { job, reason }) => {
            assert_eq!(job, "j");
            assert_eq!(reason, "invalid regex for `b`: bad");
        }
        other => panic!("{other:?}"),
    }
}

#[test]
fn fields_are_taken_from_the_body_then_from_the_snippet() {
    let rules = vec![
        rule("phone", r"Tel: ([0-9 ]+)"),
        rule("city", r"City: (\w+)"),
        rule("none", r"Zip: (\d+)"),
        rule("groupless", r"Tel"),
        rule("optional", r"Tel(x)?"),
    ];
    let found = extract_fields(&rules, "Tel:  300 12 \n", "City: Cali, optional Telx");
    assert_eq!(
        found,
        vec![
            rule("phone", "300 12"),
            rule("city", "Cali"),
            rule("none", ""),
            rule("groupless", ""),
            rule("optional", ""),
        ]
    );
}

#[test]
fn a_match_in_the_body_wins_even_without_its_group() {
    assert_eq!(field_text(Some(None), Some(Some("x".to_string()))), "");
    assert_eq!(field_text(None, Some(Some(" x ".to_string()))), "x");
    assert_eq!(field_text(Some(Some("a".to_string())), None), "a");
    assert_eq!(field_text(None, None), "");
}

#[test]
fn senders_are_matched_whatever_their_case() {
    let list = vec!["@Example.COM".to_string(), "ÉCOLE".to_string()];
    assert!(sender_allowed("Ana <ana@example.com>", &list));
    assert!(sender_allowed("école@x.fr", &list));
    assert!(!sender_allowed("ana@example.org", &list));
    assert!(sender_allowed("anyone", &vec![]));
    assert!(sender_allowed("anyone", &vec![String::new()]));
    assert!(!sender_passes("ana@example.com", &vec!["@Example".to_string()]));
}

#[test]
fn lower_case_is_that_of_unicode() {
    let samples = [
        "", "A", "ÀB", "JOSÉ@X.example", "josé@x.EXAMPLE", "AΣ", "aΣ", "ΣA", "AΣ B", "A.Σ", "ΑΣa",
        "İI", "\u{212a}K", "ǅz", "ﬁX", "ẞS", "Σ", "1Σ", "Z\u{301}Σ", "z\u{301}Σ",
    ];
    for sender in samples {
        for entry in samples {
            assert_eq!(
                sender_allowed(sender, &vec![entry.to_string()]),
                sender.to_lowercase().contains(&entry.to_lowercase()),
                "{sender} {entry}"
            );
        }
    }
    let list = |entry: &str| vec![entry.to_string()];
    assert!(sender_allowed("José <josé@x>", &list("JOSé@X")));
    assert!(sender_allowed("José <josé@x>", &list("José@x")));
}

#[test]
fn a_longer_or_an_empty_list_admits_no_fewer() {
    let msg = mail("ana@good.example", "s", "n", "b");
    let mut cfg = config();
    let lists: [&[&str]; 4] = [&["@good"], &["@good", "@other"], &["@GOOD"], &[]];
    for list in lists {
        cfg.sender_allowlist = list.iter().map(|entry| entry.to_string()).collect();
        assert_eq!(dispatched(judge(&cfg, &msg)).as_deref(), Some("s|ana@good.example|n"));
    }
    cfg.sender_allowlist = vec!["@other".to_string()];
    assert!(matches!(judge(&cfg, &msg), Verdict::Filtered));
}

#[test]
fn standard_fields_are_always_there_and_can_be_overridden() {
    let fields = message_fields(
        "s".to_string(),
        "n".to_string(),
        "f".to_string(),
        vec![rule("subject", "found"), rule("x", "")],
    );
    assert_eq!(fields.get("subject").map(|s| s.as_str()), Some("found"));
    assert_eq!(fields.get("snippet").map(|s| s.as_str()), Some("n"));
    assert_eq!(fields.get("from").map(|s| s.as_str()), Some("f"));
    assert_eq!(fields.get("x").map(|s| s.as_str()), Some(""));
    assert!(is_complete(&vec!["from".to_string()], &fields));
    assert!(!is_complete(&vec!["from".to_string(), "x".to_string()], &fields));
    assert!(!is_complete(&vec!["absent".to_string()], &fields));
    assert!(is_complete(&vec![], &fields));
}

#[test]
fn a_message_is_rendered_with_its_fields() {
    let msg = mail("ana@example.com", "Hello", "short", "long");
    assert_eq!(
        dispatched(judge(&config(), &msg)).as_deref(),
        Some("Hello|ana@example.com|short")
    );
    assert_eq!(dispatched(judge(&config(), &Json::Scalar)).as_deref(), Some("||"));
}

#[test]
fn a_sender_who_is_not_listed_is_filtered() {
    let mut cfg = config();
    cfg.sender_allowlist = vec!["@corp.example".to_string()];
    cfg.require_fields = vec!["absent".to_string()];
    assert!(matches!(judge(&cfg, &mail("a@b", "s", "n", "b")), Verdict::Filtered));
    assert!(matches!(judge(&cfg, &mail("a@CORP.example", "s", "n", "b")), Verdict::Incomplete));
}

#[test]
fn a_message_without_a_required_field_is_incomplete() {
    let mut cfg = config();
    cfg.extract = vec![rule("phone", r"Tel: (\d+)")];
    cfg.require_fields = vec!["phone".to_string()];
    cfg.message_template = "{phone}".to_string();
    assert!(matches!(judge(&cfg, &mail("a", "s", "n", "no phone")), Verdict::Incomplete));
    assert_eq!(
        dispatched(judge(&cfg, &mail("a", "s", "n", "Tel: 42"))).as_deref(),
        Some("42")
    );
}

#[test]
fn the_order_of_rules_does_not_matter() {
    let mut cfg = config();
    cfg.message_template = "{a}{b}{subject}".to_string();
    cfg.extract = vec![rule("a", "(x)"), rule("b", "(y)"), rule("subject", "(z)")];
    let msg = mail("f", "s", "n", "xyz");
    let there = dispatched(judge(&cfg, &msg));
    cfg.extract.reverse();
    assert_eq!(there, dispatched(judge(&cfg, &msg)));
    assert_eq!(there.as_deref(), Some("xyz"));
}

#[test]
fn a_decision_rests_on_sender_and_fields() {
    let fields = message_fields("s".to_string(), String::new(), String::new(), vec![]);
    let mut cfg = config();
    cfg.require_fields = vec!["subject".to_string()];
    assert!(matches!(decide(&cfg, false, &fields), Verdict::Filtered));
    assert_eq!(dispatched(decide(&cfg, true, &fields)).as_deref(), Some("s||"));
    cfg.require_fields = vec!["from".to_string()];
    assert!(matches!(decide(&cfg, true, &fields), Verdict::Incomplete));
}

#[test]
fn members_are_looked_up_by_key_and_kind() {
    let value = object(vec![("a", text("x")), ("b", Json::List(vec![Json::Scalar]))]);
    assert_eq!(value.get_text("a").map(|s| s.as_str()), Some("x"));
    assert!(value.get_text("b").is_none());
    assert_eq!(value.get_list("b").map(|l| l.len()), Some(1));
    assert!(value.get_list("a").is_none());
    assert!(value.get("c").is_none());
    assert!(text("x").get("a").is_none());
}
