use base64::Engine;

use nexo_poller_gmail::calls::{fetch_call, list_call, mark_read, outbound_topic, payload, ApiCall};
use nexo_poller_gmail::config::{DeliverCfg, GmailJobConfig, GoogleAccountCreds};
use nexo_poller_gmail::errors::PollerError;
use nexo_poller_gmail::json::Json;
use nexo_poller_gmail::tick::{Action, Event, Tick, TickAck, TickMetrics};

fn text(s: &str) -> Json {
    Json::Text(s.to_string())
}

fn object(entries: Vec<(&str, Json)>) -> Json {
    Json::Object(entries.into_iter().map(|(k, v)| (k.to_string(), v)).collect())
}

fn config() -> GmailJobConfig {
    GmailJobConfig {
        query: "is:unread".to_string(),
        newer_than: Some("1d".to_string()),
        max_per_tick: 3,
        dispatch_delay_ms: 250,
        sender_allowlist: vec!["@good".to_string()],
        extract: vec![("n".to_string(), r"n=(\d+)".to_string())],
        require_fields: vec!["n".to_string()],
        message_template: "n is {n}".to_string(),
        mark_read_on_dispatch: true,
        deliver: DeliverCfg { channel: "whatsapp".to_string(), to: "57300".to_string() },
    }
}

fn creds() -> GoogleAccountCreds {
    GoogleAccountCreds {
        account_id: "a".to_string(),
        client_id_path: "i".to_string(),
        client_secret_path: "s".to_string(),
        token_path: "t".to_string(),
        scopes: vec![],
    }
}

fn mail(from: &str, body: &str) -> Json {
    let data = base64::engine::general_purpose::URL_SAFE_NO_PAD.encode(body);
    let from = object(vec![("name", text("From")), ("value", text(from))]);
    object(vec![(
        "payload",
        object(vec![
            ("mimeType", text("text/plain")),
            ("headers", Json::List(vec![from])),
            ("body", object(vec![("data", text(&data))])),
        ]),
    )])
}

fn listing(ids: &[&str]) -> Json {
    let items = ids.iter().map(|id| object(vec![("id", text(id))])).collect();
    object(vec![("messages", Json::List(items))])
}

fn target() -> Event {
    Event::Credentials(object(vec![("account_id", text("acct"))]))
}

fn describe(call: &ApiCall) -> String {
    let body = match &call.body {
        Some(change) => format!(" {}={:?}", change.key, change.labels),
        None => String::new(),
    };
    format!("{} {}{}", call.method, call.url, body)
}

fn shown(action: &Action) -> String {
    match action {
        Action::GetCredentials(channel) => format!("credentials {channel}"),
        Action::GetClient(cred) => format!("client {}", cred.account_id),
        Action::Call(call) => describe(call),
        Action::Publish { topic, payload } => {
            format!("publish {topic} {}", String::from_utf8_lossy(payload))
        }
        Action::Sleep(ms) => format!("sleep {ms}"),
        Action::Finish(Ok(ack)) => {
            let cursor = match &ack.next_cursor {
                Some(bytes) => String::from_utf8_lossy(bytes).into_owned(),
                None => "-".to_string(),
            };
            let metrics = ack.metrics.unwrap();
            format!("ok {cursor} {}/{}", metrics.items_dispatched, metrics.items_seen)
        }
        Action::Finish(Err(e)) => format!("{e:?}"),
    }
}

fn fetch(id: &str) -> String {
    format!("GET https://gmail.googleapis.com/gmail/v1/users/me/messages/{id}?format=full")
}

fn mark(id: &str) -> String {
    format!(
        "POST https://gmail.googleapis.com/gmail/v1/users/me/messages/{id}/modify removeLabelIds=[\"UNREAD\"]"
    )
}

fn publish(n: &str) -> String {
    format!("publish plugin.outbound.whatsapp.acct {{\"text\":\"n is {n}\",\"to\":\"57300\"}}")
}

fn step(tick: Tick, event: Event) -> (Tick, String) {
    assert!(tick.accepts(&event));
    let (tick, action) = tick.step(event);
    (tick, shown(&action))
}

fn listed(cfg: GmailJobConfig) -> Tick {
    listed_with(cfg, None)
}

fn listed_with(cfg: GmailJobConfig, cursor: Option<String>) -> Tick {
    let (tick, _) = Tick::begin("leads".to_string(), cfg, cursor);
    let (tick, _) = step(tick, Event::Account(creds()));
    let (tick, _) = step(tick, Event::ClientReady);
    tick
}

fn started(cfg: GmailJobConfig, ids: &[&str], cursor: Option<&str>) -> (Tick, String) {
    let cursor = cursor.map(|c| base64::engine::general_purpose::URL_SAFE_NO_PAD.encode(c));
    let (tick, _) = step(listed_with(cfg, cursor), Event::Reply(Ok(listing(ids))));
    step(tick, target())
}

fn fetched(msg: Json) -> Event {
    Event::Reply(Ok(msg))
}

#[test]
fn a_tick_asks_for_one_thing_after_the_other() {
    let (tick, action) = Tick::begin("leads".to_string(), config(), None);
    assert_eq!(shown(&action), "credentials google");
    let (tick, done) = step(tick, Event::Account(creds()));
    assert_eq!(done, "client a");
    let (tick, done) = step(tick, Event::ClientReady);
    assert_eq!(
        done,
        "GET https://gmail.googleapis.com/gmail/v1/users/me/messages?q=is%3Aunread%20newer_than%3A1d&maxResults=3"
    );
    let (tick, done) = step(tick, Event::Reply(Ok(listing(&["m1"]))));
    assert_eq!(done, "credentials whatsapp");
    let (tick, done) = step(tick, target());
    assert_eq!(done, fetch("m1"));
    let (tick, done) = step(tick, fetched(mail("x@good", "n=7")));
    assert_eq!(done, publish("7"));
    let (tick, done) = step(tick, Event::Published(Ok(())));
    assert_eq!(done, mark("m1"));
    let (tick, done) = step(tick, Event::Reply(Err("not marked".to_string())));
    assert_eq!(done, "ok [\"m1\"] 1/1");
    assert!(!tick.accepts(&Event::Woke));
}

#[test]
fn dispatches_are_spaced_and_capped() {
    let (tick, done) = started(config(), &["m1", "m2", "m3", "m4"], None);
    assert_eq!(done, fetch("m1"));
    assert_eq!(tick.fetching().map(|id| id.as_str()), Some("m1"));
    let (tick, _) = step(tick, fetched(mail("x@good", "n=1")));
    assert_eq!(tick.fetching(), None);
    let (tick, _) = step(tick, Event::Published(Ok(())));
    let (tick, done) = step(tick, Event::Reply(Ok(Json::Scalar)));
    assert_eq!(done, "sleep 250");
    let (tick, done) = step(tick, Event::Woke);
    assert_eq!(done, fetch("m2"));
    let (tick, _) = step(tick, fetched(mail("x@good", "n=2")));
    let (tick, _) = step(tick, Event::Published(Ok(())));
    let (tick, done) = step(tick, Event::Reply(Ok(Json::Scalar)));
    assert_eq!(done, "sleep 250");
    let (tick, done) = step(tick, Event::Woke);
    assert_eq!(done, fetch("m3"));
    let (tick, _) = step(tick, fetched(mail("x@good", "n=3")));
    let (tick, _) = step(tick, Event::Published(Ok(())));
    let (tick, done) = step(tick, Event::Reply(Ok(Json::Scalar)));
    assert_eq!(done, "sleep 250");
    let (_, done) = step(tick, Event::Woke);
    assert_eq!(done, "ok [\"m1\",\"m2\",\"m3\"] 3/3");
}

#[test]
fn without_a_delay_or_read_marks_the_next_message_follows() {
    let mut cfg = config();
    cfg.dispatch_delay_ms = 0;
    cfg.mark_read_on_dispatch = false;
    let (tick, _) = started(cfg, &["m1", "m2"], None);
    let (tick, _) = step(tick, fetched(mail("x@good", "n=1")));
    let (tick, done) = step(tick, Event::Published(Ok(())));
    assert_eq!(done, fetch("m2"));
    let (_, done) = step(tick, fetched(mail("x@good", "nothing")));
    assert_eq!(done, "ok [\"m1\",\"m2\"] 1/2");
}

#[test]
fn messages_that_were_dealt_with_are_passed_over() {
    let (tick, done) = started(config(), &["m1", "m2", "m2"], Some("[\"m1\",\"old\"]"));
    assert_eq!(done, fetch("m2"));
    let (_, done) = step(tick, fetched(mail("x@bad", "n=1")));
    assert_eq!(done, "ok [\"m1\",\"m2\",\"old\"] 0/3");
    let (_, done) = started(config(), &["m1"], Some("[\"m1\"]"));
    assert_eq!(done, "ok [\"m1\"] 0/1");
}

#[test]
fn a_later_tick_leaves_dispatched_messages_alone() {
    let (tick, _) = started(config(), &["m1"], None);
    let (tick, _) = step(tick, fetched(mail("x@good", "n=1")));
    let (tick, _) = step(tick, Event::Published(Ok(())));
    let (_, action) = tick.step(Event::Reply(Err("not marked".to_string())));
    let cursor = match action {
        Action::Finish(Ok(TickAck { next_cursor: Some(bytes), next_interval_hint, metrics })) => {
            assert_eq!(next_interval_hint, None);
            assert_eq!(metrics, Some(TickMetrics { items_seen: 1, items_dispatched: 1 }));
            String::from_utf8(bytes).unwrap()
        }
        _ => panic!("no cursor"),
    };
    let (_, done) = started(config(), &["m1"], Some(&cursor));
    assert_eq!(done, "ok [\"m1\"] 0/1");
}

#[test]
fn an_incomplete_message_is_marked_and_remembered() {
    let (tick, _) = started(config(), &["m1", "m2"], None);
    let (tick, done) = step(tick, fetched(mail("x@good", "nothing")));
    assert_eq!(done, mark("m1"));
    let (tick, done) = step(tick, Event::Reply(Ok(Json::Scalar)));
    assert_eq!(done, fetch("m2"));
    let (_, done) = step(tick, fetched(mail("x@bad", "n=1")));
    assert_eq!(done, "ok [\"m1\",\"m2\"] 0/2");
}

#[test]
fn a_message_that_cannot_be_fetched_is_left_for_another_tick() {
    let (tick, _) = started(config(), &["m1", "m2"], None);
    let (tick, done) = step(tick, Event::Reply(Err("503".to_string())));
    assert_eq!(done, fetch("m2"));
    let (_, done) = step(tick, fetched(mail("x@bad", "n=1")));
    assert_eq!(done, "ok [\"m2\"] 0/2");
}

#[test]
fn a_failed_publication_ends_the_tick() {
    let (tick, _) = started(config(), &["m1", "m2"], None);
    let (tick, _) = step(tick, fetched(mail("x@good", "n=1")));
    let (tick, done) = step(tick, Event::Published(Err("broker down".to_string())));
    assert_eq!(done, "Transient(\"broker_publish: broker down\")");
    assert!(!tick.accepts(&Event::Reply(Ok(Json::Scalar))));
}

#[test]
fn messages_without_an_id_are_counted_and_passed_over() {
    let items = vec![Json::Scalar, object(vec![("id", Json::Scalar)]), object(vec![("id", text("m"))])];
    let list = object(vec![("messages", Json::List(items))]);
    let (tick, _) = step(listed(config()), Event::Reply(Ok(list)));
    let (tick, done) = step(tick, target());
    assert_eq!(done, fetch("m"));
    let (_, done) = step(tick, fetched(mail("x@bad", "")));
    assert_eq!(done, "ok [\"m\"] 0/3");
}

#[test]
fn without_a_list_the_cursor_is_kept() {
    let (_, done) = step(listed(config()), Event::Reply(Ok(object(vec![]))));
    assert_eq!(done, "ok - 0/0");
    let (_, done) = started(config(), &[], Some("[\"x\"]"));
    assert_eq!(done, "ok [\"x\"] 0/0");
}

#[test]
fn nothing_is_fetched_where_nothing_is_allowed() {
    let mut cfg = config();
    cfg.max_per_tick = 0;
    let (_, done) = started(cfg, &["m1"], None);
    assert_eq!(done, "ok [] 0/0");
}

#[test]
fn refused_credentials_are_permanent() {
    let (tick, _) = Tick::begin("leads".to_string(), config(), None);
    let (_, done) = step(tick, Event::Refused("no such channel".to_string()));
    assert_eq!(done, "Permanent(\"credentials_get: no such channel\")");
    let (tick, _) = Tick::begin("leads".to_string(), config(), None);
    let (_, done) = step(tick, Event::Malformed("missing field".to_string()));
    assert_eq!(
        done,
        "Permanent(\"credentials_get returned unexpected shape: missing field\")"
    );
}

#[test]
fn a_client_that_fails_ends_the_tick() {
    let (tick, _) = Tick::begin("leads".to_string(), config(), None);
    let (tick, _) = step(tick, Event::Account(creds()));
    let e = PollerError::Transient("read client_id_path".to_string());
    let (_, done) = step(tick, Event::ClientFailed(e));
    assert_eq!(done, "Transient(\"read client_id_path\")");
}

#[test]
fn a_failed_listing_is_classified() {
    let (_, done) = step(listed(config()), Event::Reply(Err("401 Unauthorized".to_string())));
    assert_eq!(done, "Permanent(\"google: list messages\")");
    let (_, done) = step(listed(config()), Event::Reply(Err("timeout".to_string())));
    assert_eq!(done, "Transient(\"google: list messages\")");
}

#[test]
fn a_faulty_pattern_is_reported_once_messages_are_listed() {
    let mut cfg = config();
    cfg.extract = vec![("n".to_string(), "(".to_string())];
    let (tick, action) = listed(cfg).step(Event::Reply(Ok(listing(&["m1"]))));
    match action {
        Action::Finish(Err(PollerError::Config { job, reason })) => {
            assert_eq!(job, "leads");
            assert!(reason.starts_with("invalid regex for `n`: "));
        }
        other => panic!("{}", shown(&other)),
    }
    assert!(!tick.accepts(&Event::Woke));
}

#[test]
fn the_outbound_account_is_needed() {
    let (tick, _) = step(listed(config()), Event::Reply(Ok(listing(&["m1"]))));
    let (_, done) = step(tick, Event::Credentials(object(vec![])));
    assert_eq!(done, "Permanent(\"outbound credentials_get('whatsapp') missing account_id\")");
    let (tick, _) = step(listed(config()), Event::Reply(Ok(listing(&["m1"]))));
    let (_, done) = step(tick, Event::Refused("denied".to_string()));
    assert_eq!(done, "Permanent(\"credentials_get outbound: denied\")");
}

#[test]
fn a_cursor_that_cannot_be_decoded_ends_the_tick() {
    let tick = listed_with(config(), Some("a b".to_string()));
    let (tick, _) = step(tick, Event::Reply(Ok(listing(&["m1"]))));
    let (_, action) = tick.step(target());
    match action {
        Action::Finish(Err(PollerError::Config { job, reason })) => {
            assert_eq!(job, "leads");
            assert!(reason.starts_with("cursor base64 decode: "));
        }
        other => panic!("{}", shown(&other)),
    }
}

#[test]
fn only_what_is_awaited_is_accepted() {
    let (tick, _) = Tick::begin("leads".to_string(), config(), None);
    assert!(tick.accepts(&Event::Account(creds())));
    assert!(!tick.accepts(&Event::ClientReady));
    assert!(!tick.accepts(&Event::Reply(Ok(Json::Scalar))));
    assert!(!tick.accepts(&target()));
}

#[test]
fn the_cursor_drops_the_oldest_ids() {
    let known: Vec<String> = (0..5000).map(|i| format!("{i:04}")).collect();
    let cursor = serde_json::to_string(&known).unwrap();
    let (tick, _) = started(config(), &["9999"], Some(&cursor));
    let (_, action) = tick.step(fetched(mail("x@bad", "")));
    match action {
        Action::Finish(Ok(ack)) => {
            let kept: Vec<String> = serde_json::from_slice(&ack.next_cursor.unwrap()).unwrap();
            assert_eq!(kept.len(), 4001);
            assert_eq!(kept[0], "1000");
            assert_eq!(kept[4000], "9999");
        }
        other => panic!("{}", shown(&other)),
    }
}

#[test]
fn the_cursor_is_bounded_whatever_came_in() {
    let known: Vec<String> = (0..7000).map(|i| format!("{i:04}")).collect();
    let cursor = serde_json::to_string(&known).unwrap();
    let cursor = base64::engine::general_purpose::URL_SAFE_NO_PAD.encode(cursor);
    let (tick, _) = step(listed_with(config(), Some(cursor)), Event::Reply(Ok(listing(&[]))));
    let (_, action) = tick.step(target());
    match action {
        Action::Finish(Ok(ack)) => {
            let kept: Vec<String> = serde_json::from_slice(&ack.next_cursor.unwrap()).unwrap();
            assert_eq!(kept, known[2000..].to_vec());
        }
        other => panic!("{}", shown(&other)),
    }
}

#[test]
fn calls_and_payloads_are_as_the_services_expect() {
    assert_eq!(describe(&fetch_call("m1")), fetch("m1"));
    assert_eq!(describe(&mark_read("m1")), mark("m1"));
    assert_eq!(
        describe(&list_call(&config())),
        "GET https://gmail.googleapis.com/gmail/v1/users/me/messages?q=is%3Aunread%20newer_than%3A1d&maxResults=3"
    );
    assert_eq!(outbound_topic("telegram", "bot"), "plugin.outbound.telegram.bot");
    let value: serde_json::Value =
        serde_json::from_slice(&payload("-100", "say \"hi\"\né")).unwrap();
    assert_eq!(value["to"], "-100");
    assert_eq!(value["text"], "say \"hi\"\né");
    assert_eq!(value.as_object().unwrap().len(), 2);
}
