//! One run of a job, as a state machine.
//!
//! A tick asks the host program for one thing at a time ([`Action`]) and is told
//! what came of it ([`Event`]). It gets the account's client, lists the
//! messages, finds out where texts go, reads from its cursor which messages were
//! dealt with before, and then takes the messages one by one: fetch, judge,
//! publish, mark as read, pause.

use vstd::prelude::*;

use crate::calls;
use crate::calls::{fetch_call, list_call, mark_read, outbound_topic, payload, ApiCall, Request};
use crate::config::{GmailJobConfig, GoogleAccountCreds};
use crate::errors;
use crate::errors::{classify_google_err, Failure, PollerError};
use crate::extract;
use crate::extract::check_patterns;
use crate::json::Json;
use crate::message;
use crate::message::{judge, Decision, Verdict};
use crate::seen;
use crate::seen::{known_ids, SeenSet};
use crate::text;

verus! {

/// What came of an action.
pub enum Event {
    /// Credentials were refused, for this reason.
    Refused(String),
    /// The Google credentials do not have the expected shape, for this reason.
    Malformed(String),
    /// The Google account.
    Account(GoogleAccountCreds),
    /// The account's client is ready.
    ClientReady,
    /// The account has no client.
    ClientFailed(PollerError),
    /// The credentials of the outbound channel.
    Credentials(Json),
    /// The API's reply, or the message of the error.
    Reply(Result<Json, String>),
    /// The text was published, or not, for this reason.
    Published(Result<(), String>),
    /// The pause is over.
    Woke,
}

/// What the host program is to do.
pub enum Action {
    /// Get the credentials of a channel.
    GetCredentials(String),
    /// Get the client of the account.
    GetClient(GoogleAccountCreds),
    /// Call the API.
    Call(ApiCall),
    /// Publish a payload.
    Publish { topic: String, payload: Vec<u8> },
    /// Wait for so many milliseconds.
    Sleep(u64),
    /// End the tick.
    Finish(Result<TickAck, PollerError>),
}

/// How many messages were looked at and how many dispatched.
#[derive(Debug, Clone, Copy, PartialEq, Eq, Structural)]
pub struct TickMetrics {
    pub items_seen: u32,
    pub items_dispatched: u32,
}

/// A finished tick. Without a cursor the job keeps the one it has.
#[derive(Debug)]
pub struct TickAck {
    pub next_cursor: Option<Vec<u8>>,
    pub next_interval_hint: Option<u64>,
    pub metrics: Option<TickMetrics>,
}

/// The view of a [`TickAck`].
pub struct Ack {
    pub next_cursor: Option<Seq<u8>>,
    pub next_interval_hint: Option<u64>,
    pub metrics: Option<TickMetrics>,
}

impl View for TickAck {
    type V = Ack;

    open spec fn view(&self) -> Ack {
        Ack {
            next_cursor: seen::optional_bytes(self.next_cursor),
            next_interval_hint: self.next_interval_hint,
            metrics: self.metrics,
        }
    }
}

/// The view of an [`Action`].
pub enum Effect {
    GetCredentials(Seq<char>),
    GetClient(GoogleAccountCreds),
    Call(Request),
    Publish { topic: Seq<char>, payload: Seq<u8> },
    Sleep(u64),
    Finish(Result<Ack, Failure>),
}

impl View for Action {
    type V = Effect;

    open spec fn view(&self) -> Effect {
        match self {
            Action::GetCredentials(channel) => Effect::GetCredentials(channel@),
            Action::GetClient(cred) => Effect::GetClient(*cred),
            Action::Call(call) => Effect::Call(call@),
            Action::Publish { topic, payload } => Effect::Publish {
                topic: topic@,
                payload: payload@,
            },
            Action::Sleep(ms) => Effect::Sleep(*ms),
            Action::Finish(Ok(ack)) => Effect::Finish(Ok(ack@)),
            Action::Finish(Err(e)) => Effect::Finish(Err(e@)),
        }
    }
}

/// The messages that a tick goes through, and how far it is.
pub struct Pass {
    /// The ids of the listed messages, where they have one.
    pub messages: Seq<Option<Seq<char>>>,
    /// Where texts are published.
    pub topic: Seq<char>,
    /// The ids of the messages that were dealt with.
    pub seen: Set<Seq<char>>,
    /// The position of the message at hand.
    pub at: int,
    /// How many messages were dispatched.
    pub dispatched: int,
}

/// What a tick is waiting for.
pub enum Stage {
    /// The Google account.
    Account,
    /// The account's client.
    Client,
    /// The list of messages.
    Listing,
    /// The credentials of the outbound channel.
    Target { messages: Seq<Option<Seq<char>>> },
    /// The message at hand.
    Fetching { pass: Pass, id: Seq<char> },
    /// The publication of its text.
    Publishing { pass: Pass, id: Seq<char> },
    /// Its read mark. `pause` says whether a pause is due afterwards.
    Marking { pass: Pass, id: Seq<char>, pause: bool },
    /// The end of the pause after it.
    Pausing { pass: Pass },
    /// Nothing: the tick is over. `kept` are the ids of its cursor, if it made
    /// one.
    Done { kept: Option<Set<Seq<char>>> },
}

/// The view of a [`Tick`].
pub struct TickState {
    pub job: Seq<char>,
    pub cfg: GmailJobConfig,
    /// The cursor that the tick was started with.
    pub cursor: Option<Seq<char>>,
    pub stage: Stage,
}

/// How many of the listed messages a tick goes through.
pub open spec fn limit(cfg: GmailJobConfig, messages: Seq<Option<Seq<char>>>) -> int {
    if messages.len() <= cfg.max_per_tick {
        messages.len() as int
    } else {
        cfg.max_per_tick as int
    }
}

/// Whether the message at `i` has an id that was not dealt with.
pub open spec fn is_open(
    messages: Seq<Option<Seq<char>>>,
    seen: Set<Seq<char>>,
    i: int,
) -> bool {
    messages[i] is Some && !seen.contains(messages[i]->0)
}

/// The position of the first message from `from` on that has an id that was not
/// dealt with; `end` if there is none before it.
pub open spec fn next_open(
    messages: Seq<Option<Seq<char>>>,
    seen: Set<Seq<char>>,
    from: int,
    end: int,
) -> int
    decreases end - from,
{
    if from >= end {
        end
    } else if is_open(messages, seen, from) {
        from
    } else {
        next_open(messages, seen, from + 1, end)
    }
}

/// The end of a tick that failed.
pub open spec fn failed(failure: Failure) -> (Stage, Effect) {
    (Stage::Done { kept: None }, Effect::Finish(Err(failure)))
}

/// The end of a tick that found no list of messages.
pub open spec fn nothing_listed() -> (Stage, Effect) {
    (
        Stage::Done { kept: None },
        Effect::Finish(
            Ok(
                Ack {
                    next_cursor: None,
                    next_interval_hint: None,
                    metrics: Some(TickMetrics { items_seen: 0, items_dispatched: 0 }),
                },
            ),
        ),
    )
}

/// The end of a tick that went through its messages.
pub open spec fn finished(cfg: GmailJobConfig, pass: Pass) -> (Stage, Effect) {
    let kept = seen::capped(pass.seen);
    (
        Stage::Done { kept: Some(kept) },
        Effect::Finish(
            Ok(
                Ack {
                    next_cursor: Some(seen::cursor_bytes(seen::listing(kept))),
                    next_interval_hint: None,
                    metrics: Some(
                        TickMetrics {
                            items_seen: limit(cfg, pass.messages) as u32,
                            items_dispatched: pass.dispatched as u32,
                        },
                    ),
                },
            ),
        ),
    )
}

/// The step to the next message from `from` on that was not dealt with, or to
/// the end.
pub open spec fn onward(cfg: GmailJobConfig, pass: Pass, from: int) -> (Stage, Effect) {
    let end = limit(cfg, pass.messages);
    let at = next_open(pass.messages, pass.seen, from, end);
    if at < end {
        let id = pass.messages[at]->0;
        (Stage::Fetching { pass: Pass { at, ..pass }, id }, Effect::Call(calls::fetch_request(id)))
    } else {
        finished(cfg, pass)
    }
}

/// The step after a dispatch: a pause if one is configured and more messages
/// were listed.
pub open spec fn paused(cfg: GmailJobConfig, pass: Pass) -> (Stage, Effect) {
    if pass.at + 1 < pass.messages.len() && cfg.dispatch_delay_ms > 0 {
        (Stage::Pausing { pass }, Effect::Sleep(cfg.dispatch_delay_ms))
    } else {
        onward(cfg, pass, pass.at + 1)
    }
}

/// The step that marks a message as read.
pub open spec fn marking(pass: Pass, id: Seq<char>, pause: bool) -> (Stage, Effect) {
    (Stage::Marking { pass, id, pause }, Effect::Call(calls::mark_read_request(id)))
}

/// The pass with a message dealt with.
pub open spec fn dealt_with(pass: Pass, id: Seq<char>) -> Pass {
    Pass { seen: pass.seen.insert(id), ..pass }
}

/// The pass with a message dispatched.
pub open spec fn dispatched(pass: Pass, id: Seq<char>) -> Pass {
    Pass { seen: pass.seen.insert(id), dispatched: pass.dispatched + 1, ..pass }
}

/// What follows the answer about the Google account.
pub open spec fn after_account(event: Event) -> (Stage, Effect) {
    match event {
        Event::Refused(e) => failed(Failure::Permanent("credentials_get: "@ + e@)),
        Event::Malformed(e) => failed(
            Failure::Permanent("credentials_get returned unexpected shape: "@ + e@),
        ),
        Event::Account(cred) => (Stage::Client, Effect::GetClient(cred)),
        _ => arbitrary(),
    }
}

/// What follows the answer about the account's client.
pub open spec fn after_client(cfg: GmailJobConfig, event: Event) -> (Stage, Effect) {
    match event {
        Event::ClientReady => (Stage::Listing, Effect::Call(calls::list_request(cfg))),
        Event::ClientFailed(e) => failed(e@),
        _ => arbitrary(),
    }
}

/// The ids of listed messages.
pub open spec fn ids_of(items: Seq<Json>) -> Seq<Option<Seq<char>>> {
    items.map_values(|item: Json| item.member_text("id"@))
}

/// What follows the list of messages.
pub open spec fn after_listing(job: Seq<char>, cfg: GmailJobConfig, event: Event) -> (
    Stage,
    Effect,
) {
    match event {
        Event::Reply(Err(e)) => failed(errors::classified(e@, "list messages"@)),
        Event::Reply(Ok(list)) => match list.member_list("messages"@) {
            None => nothing_listed(),
            Some(items) => {
                let rules = extract::pairs(cfg.extract@);
                match extract::first_fault(job, rules, extract::faults_of(rules)) {
                    Some(failure) => failed(failure),
                    None => (
                        Stage::Target { messages: ids_of(items) },
                        Effect::GetCredentials(cfg.deliver.channel@),
                    ),
                }
            },
        },
        _ => arbitrary(),
    }
}

/// What follows the answer about the outbound channel: the first message that
/// the job does not know by its cursor.
pub open spec fn after_target(
    job: Seq<char>,
    cfg: GmailJobConfig,
    cursor: Option<Seq<char>>,
    messages: Seq<Option<Seq<char>>>,
    event: Event,
) -> (Stage, Effect) {
    match event {
        Event::Refused(e) => failed(Failure::Permanent("credentials_get outbound: "@ + e@)),
        Event::Credentials(target) => match target.member_text("account_id"@) {
            None => failed(
                Failure::Permanent(
                    "outbound credentials_get('"@ + cfg.deliver.channel@
                        + "') missing account_id"@,
                ),
            ),
            Some(account) => after_cursor(
                cfg,
                messages,
                calls::topic_of(cfg.deliver.channel@, account),
                seen::known_by(job, seen::request_cursor(cursor)),
            ),
        },
        _ => arbitrary(),
    }
}

/// What follows the cursor.
pub open spec fn after_cursor(
    cfg: GmailJobConfig,
    messages: Seq<Option<Seq<char>>>,
    topic: Seq<char>,
    known: Result<Set<Seq<char>>, Failure>,
) -> (Stage, Effect) {
    match known {
        Err(failure) => failed(failure),
        Ok(ids) => onward(cfg, first_pass(messages, topic, ids), 0),
    }
}

/// The pass before its first message.
pub open spec fn first_pass(
    messages: Seq<Option<Seq<char>>>,
    topic: Seq<char>,
    known: Set<Seq<char>>,
) -> Pass {
    Pass { messages, topic, seen: known, at: 0, dispatched: 0 }
}

/// What follows the message at hand. One that could not be fetched is left for
/// another tick.
pub open spec fn after_fetch(
    cfg: GmailJobConfig,
    pass: Pass,
    id: Seq<char>,
    event: Event,
) -> (Stage, Effect) {
    match event {
        Event::Reply(Err(_)) => onward(cfg, pass, pass.at + 1),
        Event::Reply(Ok(msg)) => match message::judged(cfg, msg) {
            Decision::Dispatch(t) => (
                Stage::Publishing { pass, id },
                Effect::Publish {
                    topic: pass.topic,
                    payload: calls::payload_of(cfg.deliver.to@, t),
                },
            ),
            Decision::Filtered => onward(cfg, dealt_with(pass, id), pass.at + 1),
            Decision::Incomplete => if cfg.mark_read_on_dispatch {
                marking(dealt_with(pass, id), id, false)
            } else {
                onward(cfg, dealt_with(pass, id), pass.at + 1)
            },
        },
        _ => arbitrary(),
    }
}

/// What follows the publication: the read mark, so that a message whose text
/// could not be published stays unread.
pub open spec fn after_publish(
    cfg: GmailJobConfig,
    pass: Pass,
    id: Seq<char>,
    event: Event,
) -> (Stage, Effect) {
    match event {
        Event::Published(Err(e)) => failed(Failure::Transient("broker_publish: "@ + e@)),
        Event::Published(Ok(_)) => if cfg.mark_read_on_dispatch {
            marking(dispatched(pass, id), id, true)
        } else {
            paused(cfg, dispatched(pass, id))
        },
        _ => arbitrary(),
    }
}

/// What follows the read mark, whether or not it could be set.
pub open spec fn after_mark(cfg: GmailJobConfig, pass: Pass, pause: bool) -> (Stage, Effect) {
    if pause {
        paused(cfg, pass)
    } else {
        onward(cfg, pass, pass.at + 1)
    }
}

/// Whether an event is one that the stage waits for.
pub open spec fn awaits(stage: Stage, event: Event) -> bool {
    match stage {
        Stage::Account => event is Refused || event is Malformed || event is Account,
        Stage::Client => event is ClientReady || event is ClientFailed,
        Stage::Listing => event is Reply,
        Stage::Target { .. } => event is Refused || event is Credentials,
        Stage::Fetching { .. } => event is Reply,
        Stage::Publishing { .. } => event is Published,
        Stage::Marking { .. } => event is Reply,
        Stage::Pausing { .. } => event is Woke,
        Stage::Done { .. } => false,
    }
}

/// Whether a tick can go on with an event: it waits for it, and the messages
/// that it is to go through can be counted.
pub open spec fn accepts(s: TickState, event: Event) -> bool {
    &&& awaits(s.stage, event)
    &&& s.stage is Listing ==> match event {
        Event::Reply(Ok(list)) => match list.member_list("messages"@) {
            Some(items) => limit(s.cfg, ids_of(items)) <= u32::MAX,
            None => true,
        },
        _ => true,
    }
}

/// What a tick waits for after an event, and what it has done meanwhile.
pub open spec fn stage_after(s: TickState, event: Event) -> (Stage, Effect) {
    match s.stage {
        Stage::Account => after_account(event),
        Stage::Client => after_client(s.cfg, event),
        Stage::Listing => after_listing(s.job, s.cfg, event),
        Stage::Target { messages } => after_target(s.job, s.cfg, s.cursor, messages, event),
        Stage::Fetching { pass, id } => after_fetch(s.cfg, pass, id, event),
        Stage::Publishing { pass, id } => after_publish(s.cfg, pass, id, event),
        Stage::Marking { pass, id, pause } => after_mark(s.cfg, pass, pause),
        Stage::Pausing { pass } => onward(s.cfg, pass, pass.at + 1),
        Stage::Done { .. } => arbitrary(),
    }
}

/// The state of a tick after an event.
pub open spec fn next(s: TickState, event: Event) -> TickState {
    TickState { stage: stage_after(s, event).0, ..s }
}

/// What a tick has done in answer to an event.
pub open spec fn effect(s: TickState, event: Event) -> Effect {
    stage_after(s, event).1
}

/// Whether a pass is within the messages that its tick goes through, with at
/// most `most` of them dispatched.
pub open spec fn within(cfg: GmailJobConfig, pass: Pass, most: int) -> bool {
    &&& 0 <= pass.at < limit(cfg, pass.messages) <= u32::MAX
    &&& 0 <= pass.dispatched <= most
    &&& pass.seen.finite()
}

/// Whether a tick is in a state that it can get into.
pub open spec fn sound(s: TickState) -> bool {
    match s.stage {
        Stage::Target { messages } => limit(s.cfg, messages) <= u32::MAX,
        Stage::Fetching { pass, id } => {
            &&& within(s.cfg, pass, pass.at)
            &&& pass.messages[pass.at] == Some(id)
            &&& !pass.seen.contains(id)
        },
        Stage::Publishing { pass, id } => {
            &&& within(s.cfg, pass, pass.at)
            &&& pass.messages[pass.at] == Some(id)
            &&& !pass.seen.contains(id)
        },
        Stage::Marking { pass, id, .. } => {
            &&& within(s.cfg, pass, pass.at + 1)
            &&& pass.messages[pass.at] == Some(id)
            &&& pass.seen.contains(id)
        },
        Stage::Pausing { pass } => within(s.cfg, pass, pass.at + 1),
        _ => true,
    }
}

/// The position that a tick goes on to is the first that is open, and none that
/// it passes over is.
pub proof fn lemma_next_open(
    messages: Seq<Option<Seq<char>>>,
    seen: Set<Seq<char>>,
    from: int,
    end: int,
)
    requires
        from <= end,
    ensures
        from <= next_open(messages, seen, from, end) <= end,
        next_open(messages, seen, from, end) < end ==> is_open(
            messages,
            seen,
            next_open(messages, seen, from, end),
        ),
        forall|k: int|
            from <= k < next_open(messages, seen, from, end) ==> !is_open(messages, seen, k),
    decreases end - from,
{
    if from < end && !is_open(messages, seen, from) {
        lemma_next_open(messages, seen, from + 1, end);
    }
}

/// The exec side of [`Pass`].
struct Progress {
    messages: Vec<Option<String>>,
    topic: String,
    seen: SeenSet,
    at: usize,
    dispatched: u32,
}

/// The exec side of [`Stage`].
enum Phase {
    Account,
    Client,
    Listing,
    Target { messages: Vec<Option<String>> },
    Fetching { pass: Progress, id: String },
    Publishing { pass: Progress, id: String },
    Marking { pass: Progress, id: String, pause: bool },
    Pausing { pass: Progress },
    Done { kept: Option<SeenSet> },
}

impl View for Progress {
    type V = Pass;

    closed spec fn view(&self) -> Pass {
        Pass {
            messages: text::optional_texts(self.messages@),
            topic: self.topic@,
            seen: self.seen@,
            at: self.at as int,
            dispatched: self.dispatched as int,
        }
    }
}

impl View for Phase {
    type V = Stage;

    closed spec fn view(&self) -> Stage {
        match self {
            Phase::Account => Stage::Account,
            Phase::Client => Stage::Client,
            Phase::Listing => Stage::Listing,
            Phase::Target { messages } => Stage::Target {
                messages: text::optional_texts(messages@),
            },
            Phase::Fetching { pass, id } => Stage::Fetching { pass: pass@, id: id@ },
            Phase::Publishing { pass, id } => Stage::Publishing { pass: pass@, id: id@ },
            Phase::Marking { pass, id, pause } => Stage::Marking {
                pass: pass@,
                id: id@,
                pause: *pause,
            },
            Phase::Pausing { pass } => Stage::Pausing { pass: pass@ },
            Phase::Done { kept: Some(ids) } => Stage::Done { kept: Some(ids@) },
            Phase::Done { kept: None } => Stage::Done { kept: None },
        }
    }
}

/// What a finished tick says of the ids that it keeps: its cursor is a list of
/// them, each once and no more than the limit, and reading it gives them back.
pub open spec fn cursor_is_readable(stage: Stage, done: Effect) -> bool {
    stage matches Stage::Done { kept: Some(ids) } ==> done matches Effect::Finish(Ok(ack))
        && ack.next_cursor matches Some(bytes) && {
        &&& seen::cursor_ids(bytes) == Some(seen::listing(ids))
        &&& seen::listing(ids).len() <= seen::SEEN_LIMIT
        &&& seen::remembered(ack.next_cursor) == ids
    }
}

fn fail(e: PollerError) -> (out: (Phase, Action))
    ensures
        (out.0@, out.1@) == failed(e@),
{
    (Phase::Done { kept: None }, Action::Finish(Err(e)))
}

/// `prefix` and `e` in one line.
fn line(prefix: &str, e: &str) -> (all: String)
    ensures
        all@ == prefix@ + e@,
{
    let mut all = prefix.to_owned();
    all.append(e);
    all
}

impl Progress {
    fn end(&self, cfg: &GmailJobConfig) -> (end: usize)
        ensures
            end == limit(*cfg, self@.messages),
    {
        if self.messages.len() <= cfg.max_per_tick {
            self.messages.len()
        } else {
            cfg.max_per_tick
        }
    }

    fn finish(self, cfg: &GmailJobConfig) -> (out: (Phase, Action))
        requires
            limit(*cfg, self@.messages) <= u32::MAX,
        ensures
            (out.0@, out.1@) == finished(*cfg, self@),
            cursor_is_readable(out.0@, out.1@),
    {
        let end = self.end(cfg);
        let mut ids = self.seen;
        ids.cap();
        proof {
            seen::lemma_listing_exists(ids@);
        }
        let ack = TickAck {
            next_cursor: ids.to_cursor(),
            next_interval_hint: None,
            metrics: Some(
                TickMetrics { items_seen: end as u32, items_dispatched: self.dispatched },
            ),
        };
        (Phase::Done { kept: Some(ids) }, Action::Finish(Ok(ack)))
    }

    fn go_on(self, cfg: &GmailJobConfig, from: usize) -> (out: (Phase, Action))
        requires
            from <= limit(*cfg, self@.messages) <= u32::MAX,
        ensures
            (out.0@, out.1@) == onward(*cfg, self@, from as int),
            cursor_is_readable(out.0@, out.1@),
    {
        let ghost messages = self@.messages;
        let ghost seen = self@.seen;
        let end = self.end(cfg);
        let mut at: usize = from;
        while at < end
            invariant
                from <= at <= end == limit(*cfg, messages) <= u32::MAX,
                messages == self@.messages,
                seen == self@.seen,
                next_open(messages, seen, from as int, end as int) == next_open(
                    messages,
                    seen,
                    at as int,
                    end as int,
                ),
            ensures
                from <= at <= end,
                at == next_open(messages, seen, from as int, end as int),
                at < end ==> is_open(messages, seen, at as int),
            decreases end - at,
        {
            assert(messages[at as int] == text::optional(self.messages@[at as int]));
            if let Some(id) = &self.messages[at] {
                if !self.seen.contains(id.as_str()) {
                    break ;
                }
            }
            at += 1;
        }
        if at < end {
            assert(messages[at as int] == text::optional(self.messages@[at as int]));
            let id = match &self.messages[at] {
                Some(id) => id.clone(),
                None => String::new(),
            };
            let call = fetch_call(id.as_str());
            let mut pass = self;
            pass.at = at;
            (Phase::Fetching { pass, id }, Action::Call(call))
        } else {
            self.finish(cfg)
        }
    }

    fn pause(self, cfg: &GmailJobConfig) -> (out: (Phase, Action))
        requires
            self@.at < limit(*cfg, self@.messages) <= u32::MAX,
        ensures
            (out.0@, out.1@) == paused(*cfg, self@),
            cursor_is_readable(out.0@, out.1@),
    {
        if self.at + 1 < self.messages.len() && cfg.dispatch_delay_ms > 0 {
            (Phase::Pausing { pass: self }, Action::Sleep(cfg.dispatch_delay_ms))
        } else {
            let from: usize = self.at + 1;
            self.go_on(cfg, from)
        }
    }

    fn deal_with(self, id: &String) -> (pass: Progress)
        ensures
            pass@ == dealt_with(self@, id@),
    {
        let mut pass = self;
        pass.seen.insert(id.clone());
        pass
    }
}

fn read_ids(items: &Vec<Json>) -> (messages: Vec<Option<String>>)
    ensures
        text::optional_texts(messages@) == ids_of(items@),
{
    let mut messages: Vec<Option<String>> = Vec::new();
    let mut i: usize = 0;
    while i < items.len()
        invariant
            i <= items@.len(),
            text::optional_texts(messages@) =~= ids_of(items@).take(i as int),
        decreases items@.len() - i,
    {
        let id = match items[i].get_text("id") {
            Some(id) => Some(id.clone()),
            None => None,
        };
        let ghost sofar = messages@;
        messages.push(id);
        assert(text::optional_texts(messages@) =~= text::optional_texts(sofar).push(
            text::optional(id),
        ));
        i += 1;
    }
    assert(text::optional_texts(messages@) =~= ids_of(items@));
    messages
}

fn on_account(event: Event) -> (out: (Phase, Action))
    requires
        awaits(Stage::Account, event),
    ensures
        (out.0@, out.1@) == after_account(event),
{
    match event {
        Event::Refused(e) => fail(PollerError::Permanent(line("credentials_get: ", e.as_str()))),
        Event::Malformed(e) => fail(
            PollerError::Permanent(
                line("credentials_get returned unexpected shape: ", e.as_str()),
            ),
        ),
        Event::Account(cred) => (Phase::Client, Action::GetClient(cred)),
        _ => vstd::pervasive::unreached(),
    }
}

fn on_client(cfg: &GmailJobConfig, event: Event) -> (out: (Phase, Action))
    requires
        awaits(Stage::Client, event),
    ensures
        (out.0@, out.1@) == after_client(*cfg, event),
{
    match event {
        Event::ClientReady => (Phase::Listing, Action::Call(list_call(cfg))),
        Event::ClientFailed(e) => fail(e),
        _ => vstd::pervasive::unreached(),
    }
}

fn on_listing(job: &str, cfg: &GmailJobConfig, event: Event) -> (out: (Phase, Action))
    requires
        awaits(Stage::Listing, event),
    ensures
        (out.0@, out.1@) == after_listing(job@, *cfg, event),
{
    match event {
        Event::Reply(Err(e)) => fail(classify_google_err(e.as_str(), "list messages")),
        Event::Reply(Ok(list)) => match list.get_list("messages") {
            None => {
                let ack = TickAck {
                    next_cursor: None,
                    next_interval_hint: None,
                    metrics: Some(TickMetrics { items_seen: 0, items_dispatched: 0 }),
                };
                (Phase::Done { kept: None }, Action::Finish(Ok(ack)))
            },
            Some(items) => match check_patterns(job, &cfg.extract) {
                Err(e) => fail(e),
                Ok(_) => (
                    Phase::Target { messages: read_ids(items) },
                    Action::GetCredentials(cfg.deliver.channel.clone()),
                ),
            },
        },
        _ => vstd::pervasive::unreached(),
    }
}

fn on_target(
    job: &str,
    cfg: &GmailJobConfig,
    cursor: &Option<String>,
    messages: Vec<Option<String>>,
    event: Event,
) -> (out: (Phase, Action))
    requires
        event is Refused || event is Credentials,
        limit(*cfg, text::optional_texts(messages@)) <= u32::MAX,
    ensures
        (out.0@, out.1@) == after_target(
            job@,
            *cfg,
            text::optional(*cursor),
            text::optional_texts(messages@),
            event,
        ),
        cursor_is_readable(out.0@, out.1@),
{
    match event {
        Event::Refused(e) => fail(
            PollerError::Permanent(line("credentials_get outbound: ", e.as_str())),
        ),
        Event::Credentials(target) => match target.get_text("account_id") {
            None => {
                let mut all = line("outbound credentials_get('", cfg.deliver.channel.as_str());
                all.append("') missing account_id");
                fail(PollerError::Permanent(all))
            },
            Some(account) => {
                let topic = outbound_topic(cfg.deliver.channel.as_str(), account.as_str());
                on_cursor(cfg, messages, topic, known_ids(job, cursor))
            },
        },
        _ => vstd::pervasive::unreached(),
    }
}

fn on_cursor(
    cfg: &GmailJobConfig,
    messages: Vec<Option<String>>,
    topic: String,
    known: Result<SeenSet, PollerError>,
) -> (out: (Phase, Action))
    requires
        limit(*cfg, text::optional_texts(messages@)) <= u32::MAX,
    ensures
        (out.0@, out.1@) == after_cursor(
            *cfg,
            text::optional_texts(messages@),
            topic@,
            seen::known_view(known),
        ),
        cursor_is_readable(out.0@, out.1@),
{
    match known {
        Err(e) => fail(e),
        Ok(ids) => {
            let pass = Progress { messages, topic, seen: ids, at: 0, dispatched: 0 };
            pass.go_on(cfg, 0)
        },
    }
}

fn on_fetch(cfg: &GmailJobConfig, pass: Progress, id: String, event: Event) -> (out: (
    Phase,
    Action,
))
    requires
        event is Reply,
        within(*cfg, pass@, pass@.at),
    ensures
        (out.0@, out.1@) == after_fetch(*cfg, pass@, id@, event),
        cursor_is_readable(out.0@, out.1@),
{
    let from: usize = pass.at + 1;
    match event {
        Event::Reply(Err(_)) => pass.go_on(cfg, from),
        Event::Reply(Ok(msg)) => match judge(cfg, &msg) {
            Verdict::Dispatch(t) => {
                let action = Action::Publish {
                    topic: pass.topic.clone(),
                    payload: payload(cfg.deliver.to.as_str(), t.as_str()),
                };
                (Phase::Publishing { pass, id }, action)
            },
            Verdict::Filtered => pass.deal_with(&id).go_on(cfg, from),
            Verdict::Incomplete => {
                let pass = pass.deal_with(&id);
                if cfg.mark_read_on_dispatch {
                    let call = mark_read(id.as_str());
                    (Phase::Marking { pass, id, pause: false }, Action::Call(call))
                } else {
                    pass.go_on(cfg, from)
                }
            },
        },
        _ => vstd::pervasive::unreached(),
    }
}

fn on_publish(cfg: &GmailJobConfig, pass: Progress, id: String, event: Event) -> (out: (
    Phase,
    Action,
))
    requires
        event is Published,
        within(*cfg, pass@, pass@.at),
    ensures
        (out.0@, out.1@) == after_publish(*cfg, pass@, id@, event),
        cursor_is_readable(out.0@, out.1@),
{
    match event {
        Event::Published(Err(e)) => fail(
            PollerError::Transient(line("broker_publish: ", e.as_str())),
        ),
        Event::Published(Ok(_)) => {
            let mut pass = pass.deal_with(&id);
            pass.dispatched = pass.dispatched + 1;
            if cfg.mark_read_on_dispatch {
                let call = mark_read(id.as_str());
                (Phase::Marking { pass, id, pause: true }, Action::Call(call))
            } else {
                pass.pause(cfg)
            }
        },
        _ => vstd::pervasive::unreached(),
    }
}

/// One run of a job.
pub struct Tick {
    job_id: String,
    cfg: GmailJobConfig,
    cursor: Option<String>,
    phase: Phase,
}

impl View for Tick {
    type V = TickState;

    closed spec fn view(&self) -> TickState {
        TickState {
            job: self.job_id@,
            cfg: self.cfg,
            cursor: text::optional(self.cursor),
            stage: self.phase@,
        }
    }
}

proof fn lemma_onward_is_sound(s: TickState, pass: Pass, from: int)
    requires
        0 <= from <= limit(s.cfg, pass.messages) <= u32::MAX,
        0 <= pass.dispatched <= from,
        pass.seen.finite(),
    ensures
        sound(TickState { stage: onward(s.cfg, pass, from).0, ..s }),
{
    lemma_next_open(pass.messages, pass.seen, from, limit(s.cfg, pass.messages));
}

/// Every state that a tick gets into from a sound one is sound.
pub proof fn lemma_ticks_stay_sound(s: TickState, event: Event)
    requires
        sound(s),
        accepts(s, event),
    ensures
        sound(next(s, event)),
{
    broadcast use vstd::seq_lib::seq_to_set_is_finite;

    match s.stage {
        Stage::Target { messages } => {
            if let Event::Credentials(target) = event {
                if let Some(account) = target.member_text("account_id"@) {
                    if let Ok(known) = seen::known_by(s.job, seen::request_cursor(s.cursor)) {
                        let topic = calls::topic_of(s.cfg.deliver.channel@, account);
                        lemma_onward_is_sound(s, first_pass(messages, topic, known), 0);
                    }
                }
            }
        },
        Stage::Fetching { pass, id } => {
            lemma_onward_is_sound(s, pass, pass.at + 1);
            lemma_onward_is_sound(s, dealt_with(pass, id), pass.at + 1);
        },
        Stage::Publishing { pass, id } => {
            lemma_onward_is_sound(s, dispatched(pass, id), pass.at + 1);
        },
        Stage::Marking { pass, .. } => {
            lemma_onward_is_sound(s, pass, pass.at + 1);
        },
        Stage::Pausing { pass } => {
            lemma_onward_is_sound(s, pass, pass.at + 1);
        },
        _ => {},
    }
}

impl Tick {
    /// A tick is always in a state that it can get into.
    #[verifier::type_invariant]
    spec fn is_sound(self) -> bool {
        sound(self@)
    }

    /// Starts a tick of a job, with the cursor of the last one where there is
    /// one.
    pub fn begin(job_id: String, cfg: GmailJobConfig, cursor: Option<String>) -> (out: (
        Tick,
        Action,
    ))
        ensures
            out.0@ == (TickState {
                job: job_id@,
                cfg,
                cursor: text::optional(cursor),
                stage: Stage::Account,
            }),
            out.1@ == Effect::GetCredentials("google"@),
    {
        let tick = Tick { job_id, cfg, cursor, phase: Phase::Account };
        (tick, Action::GetCredentials("google".to_owned()))
    }

    /// Whether the tick can go on with an event.
    pub fn accepts(&self, event: &Event) -> (yes: bool)
        ensures
            yes == accepts(self@, *event),
    {
        match &self.phase {
            Phase::Account => matches!(
                event,
                Event::Refused(_) | Event::Malformed(_) | Event::Account(_)
            ),
            Phase::Client => matches!(event, Event::ClientReady | Event::ClientFailed(_)),
            Phase::Listing => match event {
                Event::Reply(Ok(list)) => match list.get_list("messages") {
                    Some(items) => {
                        assert(ids_of(items@).len() == items@.len());
                        items.len() <= u32::MAX as usize || self.cfg.max_per_tick
                            <= u32::MAX as usize
                    },
                    None => true,
                },
                Event::Reply(Err(_)) => true,
                _ => false,
            },
            Phase::Target { .. } => matches!(event, Event::Refused(_) | Event::Credentials(_)),
            Phase::Fetching { .. } => matches!(event, Event::Reply(_)),
            Phase::Publishing { .. } => matches!(event, Event::Published(_)),
            Phase::Marking { .. } => matches!(event, Event::Reply(_)),
            Phase::Pausing { .. } => matches!(event, Event::Woke),
            Phase::Done { .. } => false,
        }
    }

    /// The id of the message that is being fetched.
    pub fn fetching(&self) -> (id: Option<&String>)
        ensures
            match id {
                Some(found) => self@.stage matches Stage::Fetching { id, .. } && id == found@,
                None => !(self@.stage is Fetching),
            },
    {
        match &self.phase {
            Phase::Fetching { id, .. } => Some(id),
            _ => None,
        }
    }

    /// Goes on with what came of the last action.
    pub fn step(self, event: Event) -> (out: (Tick, Action))
        requires
            accepts(self@, event),
        ensures
            out.0@ == next(self@, event),
            out.1@ == effect(self@, event),
            cursor_is_readable(out.0@.stage, out.1@),
    {
        proof {
            use_type_invariant(&self);
            lemma_ticks_stay_sound(self@, event);
        }
        let Tick { job_id, cfg, cursor, phase } = self;
        let (phase, action) = match phase {
            Phase::Account => on_account(event),
            Phase::Client => on_client(&cfg, event),
            Phase::Listing => on_listing(job_id.as_str(), &cfg, event),
            Phase::Target { messages } => on_target(
                job_id.as_str(),
                &cfg,
                &cursor,
                messages,
                event,
            ),
            Phase::Fetching { pass, id } => on_fetch(&cfg, pass, id, event),
            Phase::Publishing { pass, id } => on_publish(&cfg, pass, id, event),
            Phase::Marking { pass, id, pause } => {
                if pause {
                    pass.pause(&cfg)
                } else {
                    let from: usize = pass.at + 1;
                    pass.go_on(&cfg, from)
                }
            },
            Phase::Pausing { pass } => {
                let from: usize = pass.at + 1;
                pass.go_on(&cfg, from)
            },
            Phase::Done { kept } => vstd::pervasive::unreached(),
        };
        (Tick { job_id, cfg, cursor, phase }, action)
    }
}

} // verus!
