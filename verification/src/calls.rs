//! The calls to the Gmail API and the messages to the outbound channel.

use vstd::prelude::*;
use vstd::utf8::*;

use crate::config::GmailJobConfig;
use crate::text;
use crate::urls;
use crate::urls::{compose_query, listing_address, message_address, modify_address};

verus! {

/// A change of labels: a JSON object that holds the labels under `key`.
#[derive(Debug)]
pub struct LabelChange {
    pub key: String,
    pub labels: Vec<String>,
}

/// A call to the API.
#[derive(Debug)]
pub struct ApiCall {
    pub method: String,
    pub url: String,
    pub body: Option<LabelChange>,
}

/// The view of an [`ApiCall`].
pub struct Request {
    pub method: Seq<char>,
    pub url: Seq<char>,
    pub body: Option<(Seq<char>, Seq<Seq<char>>)>,
}

impl View for ApiCall {
    type V = Request;

    open spec fn view(&self) -> Request {
        Request {
            method: self.method@,
            url: self.url@,
            body: match self.body {
                Some(change) => Some((change.key@, text::texts(change.labels@))),
                None => None,
            },
        }
    }
}

/// Reading an address.
pub open spec fn get_request(url: Seq<char>) -> Request {
    Request { method: "GET"@, url, body: None }
}

/// Listing the messages of a job.
pub open spec fn list_request(cfg: GmailJobConfig) -> Request {
    get_request(
        urls::list_url(
            urls::effective_query(cfg.query@, text::optional(cfg.newer_than)),
            cfg.max_per_tick as nat,
        ),
    )
}

/// Fetching a message.
pub open spec fn fetch_request(id: Seq<char>) -> Request {
    get_request(urls::message_url(id))
}

/// Marking a message as read: its label `UNREAD` is removed.
pub open spec fn mark_read_request(id: Seq<char>) -> Request {
    Request {
        method: "POST"@,
        url: urls::modify_url(id),
        body: Some(("removeLabelIds"@, seq!["UNREAD"@])),
    }
}

/// The call that lists the messages of a job.
pub fn list_call(cfg: &GmailJobConfig) -> (call: ApiCall)
    ensures
        call@ == list_request(*cfg),
{
    let query = compose_query(&cfg.query, &cfg.newer_than);
    ApiCall {
        method: "GET".to_owned(),
        url: listing_address(query.as_str(), cfg.max_per_tick),
        body: None,
    }
}

/// The call that fetches a message.
pub fn fetch_call(id: &str) -> (call: ApiCall)
    ensures
        call@ == fetch_request(id@),
{
    ApiCall { method: "GET".to_owned(), url: message_address(id), body: None }
}

/// The call that marks a message as read.
pub fn mark_read(id: &str) -> (call: ApiCall)
    ensures
        call@ == mark_read_request(id@),
{
    let mut labels: Vec<String> = Vec::new();
    labels.push("UNREAD".to_owned());
    assert(text::texts(labels@) =~= seq!["UNREAD"@]);
    ApiCall {
        method: "POST".to_owned(),
        url: modify_address(id),
        body: Some(LabelChange { key: "removeLabelIds".to_owned(), labels }),
    }
}

/// The topic of the outbound channel for an account.
pub open spec fn topic_of(channel: Seq<char>, account: Seq<char>) -> Seq<char> {
    "plugin.outbound."@ + channel + "."@ + account
}

/// The topic of the outbound channel for an account.
pub fn outbound_topic(channel: &str, account: &str) -> (topic: String)
    ensures
        topic@ == topic_of(channel@, account@),
{
    let mut topic = "plugin.outbound.".to_owned();
    topic.append(channel);
    topic.append(".");
    topic.append(account);
    topic
}

/// The JSON object that holds two texts under two keys. Names what
/// `serde_json::to_vec` returns for it.
pub uninterp spec fn object_bytes(
    first_key: Seq<char>,
    first: Seq<char>,
    second_key: Seq<char>,
    second: Seq<char>,
) -> Seq<u8>;

/// Calls `serde_json::to_vec` on an object of two texts, which does not fail.
/// The result is `object_bytes` of keys and texts; how they are written down is
/// not stated.
#[verifier::external_body]
fn write_object(first_key: &str, first: &str, second_key: &str, second: &str) -> (bytes: Option<
    Vec<u8>,
>)
    ensures
        bytes is Some,
        bytes->0@ == object_bytes(first_key@, first@, second_key@, second@),
{
    let mut object = serde_json::Map::new();
    object.insert(first_key.to_owned(), serde_json::Value::String(first.to_owned()));
    object.insert(second_key.to_owned(), serde_json::Value::String(second.to_owned()));
    serde_json::to_vec(&object).ok()
}

/// What is published for a text: the recipient and the text.
pub open spec fn payload_of(to: Seq<char>, message: Seq<char>) -> Seq<u8> {
    object_bytes("to"@, to, "text"@, message)
}

/// What is published for a text.
pub fn payload(to: &str, message: &str) -> (bytes: Vec<u8>)
    ensures
        bytes@ == payload_of(to@, message@),
{
    write_object("to", to, "text", message).unwrap()
}

/// Jobs that look back equally far are told apart by their listings: one with
/// another query or another cap makes another call.
pub proof fn lemma_jobs_are_listed_apart(a: GmailJobConfig, b: GmailJobConfig)
    requires
        text::optional(a.newer_than) == text::optional(b.newer_than),
        list_request(a) == list_request(b),
    ensures
        a.query@ == b.query@,
        a.max_per_tick == b.max_per_tick,
{
    let newer_than = text::optional(a.newer_than);
    let qa = urls::effective_query(a.query@, newer_than);
    let qb = urls::effective_query(b.query@, newer_than);
    urls::lemma_listings_are_told_apart(qa, a.max_per_tick as nat, qb, b.max_per_tick as nat);
    urls::lemma_queries_are_told_apart(a.query@, b.query@, newer_than);
}

/// A listing is read from the address of all messages. Its query decodes to the
/// configured one with the age bound, and its limit is the cap of a tick.
pub proof fn lemma_listing_is_as_configured(cfg: GmailJobConfig) -> (parts: (
    Seq<char>,
    Seq<char>,
))
    ensures
        list_request(cfg).method == "GET"@,
        list_request(cfg).body is None,
        list_request(cfg).url
            == "https://gmail.googleapis.com/gmail/v1/users/me/messages?q="@ + parts.0
            + "&maxResults="@ + parts.1,
        !parts.0.contains('&'),
        urls::decoded(parts.0) == encode_utf8(
            urls::effective_query(cfg.query@, text::optional(cfg.newer_than)),
        ),
        text::decimal_value(parts.1) == cfg.max_per_tick,
{
    urls::lemma_listing_is_read_back(
        urls::effective_query(cfg.query@, text::optional(cfg.newer_than)),
        cfg.max_per_tick as nat,
    )
}

/// Fetching reads, and sends nothing. Marking as read sends the one label that
/// is taken off the message.
pub proof fn lemma_calls_read_or_unmark(id: Seq<char>)
    ensures
        fetch_request(id).method == "GET"@,
        fetch_request(id).body is None,
        fetch_request(id).url == urls::message_url(id),
        mark_read_request(id).method == "POST"@,
        mark_read_request(id).url == urls::modify_url(id),
        mark_read_request(id).body matches Some(change) && change.0 == "removeLabelIds"@
            && change.1.len() == 1 && change.1[0] == "UNREAD"@,
{
}

/// Different messages make different calls.
pub proof fn lemma_calls_are_told_apart(id: Seq<char>, other: Seq<char>)
    ensures
        fetch_request(id) == fetch_request(other) ==> id == other,
        mark_read_request(id) == mark_read_request(other) ==> id == other,
        fetch_request(id) != mark_read_request(other),
{
    urls::lemma_message_addresses(id, other);
    reveal_strlit("GET");
    reveal_strlit("POST");
    assert("GET"@.len() != "POST"@.len());
}

/// A topic names the channel and then the account.
pub proof fn lemma_topics_name_channel_and_account(channel: Seq<char>, account: Seq<char>)
    ensures
        ({
            let topic = topic_of(channel, account);
            let n = "plugin.outbound."@.len() as int;
            &&& topic.take(n) == "plugin.outbound."@
            &&& topic.subrange(n, n + channel.len()) == channel
            &&& topic[n + channel.len()] == '.'
            &&& topic.skip(n + channel.len() + 1) == account
        }),
{
    let topic = topic_of(channel, account);
    let n = "plugin.outbound."@.len() as int;
    reveal_strlit(".");
    assert(topic.take(n) =~= "plugin.outbound."@);
    assert(topic.subrange(n, n + channel.len()) =~= channel);
    assert(topic.skip(n + channel.len() + 1) =~= account);
}

/// The payload is an object of two texts: the recipient under `to` and what is
/// said under `text`.
pub proof fn lemma_payload_addresses_the_recipient(to: Seq<char>, message: Seq<char>)
    ensures
        payload_of(to, message) == object_bytes("to"@, to, "text"@, message),
{
}

} // verus!
