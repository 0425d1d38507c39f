//! What holds of whole runs of a job.

use vstd::prelude::*;

use crate::calls;
use crate::config::GmailJobConfig;
use crate::errors;
use crate::errors::Failure;
use crate::extract;
use crate::json::Json;
use crate::message;
use crate::message::Decision;
use crate::seen;
use crate::seen::SEEN_LIMIT;
use crate::text;
use crate::tick;
use crate::tick::{Effect, Event, Pass, Stage, TickState};

verus! {

/// Whether a tick is at its start.
pub open spec fn at_start(s: TickState) -> bool {
    s.stage is Account
}

/// The state of a tick after some events.
pub open spec fn after(s: TickState, events: Seq<Event>) -> TickState
    decreases events.len(),
{
    if events.len() == 0 {
        s
    } else {
        tick::next(after(s, events.drop_last()), events.last())
    }
}

/// Whether a tick waits for each of some events in turn.
pub open spec fn accepted(s: TickState, events: Seq<Event>) -> bool
    decreases events.len(),
{
    events.len() == 0 || {
        &&& accepted(s, events.drop_last())
        &&& tick::accepts(after(s, events.drop_last()), events.last())
    }
}

/// What a tick has done in answer to some events.
pub open spec fn effects(s: TickState, events: Seq<Event>) -> Seq<Effect>
    decreases events.len(),
{
    if events.len() == 0 {
        Seq::empty()
    } else {
        effects(s, events.drop_last()).push(
            tick::effect(after(s, events.drop_last()), events.last()),
        )
    }
}

/// How many texts were handed out for publication.
pub open spec fn publications(done: Seq<Effect>) -> int
    decreases done.len(),
{
    if done.len() == 0 {
        0
    } else {
        publications(done.drop_last()) + if done.last() is Publish {
            1int
        } else {
            0
        }
    }
}

/// The ids that the job knows from earlier ticks: those of its cursor, if that
/// can be decoded.
pub open spec fn known(s: TickState) -> Set<Seq<char>> {
    match seen::known_by(s.job, seen::request_cursor(s.cursor)) {
        Ok(ids) => ids,
        Err(_) => Set::empty(),
    }
}

/// The ids of the messages that were dispatched.
pub open spec fn dispatched_ids(s: TickState, events: Seq<Event>) -> Set<Seq<char>>
    decreases events.len(),
{
    if events.len() == 0 {
        Set::empty()
    } else {
        let before = dispatched_ids(s, events.drop_last());
        match (after(s, events.drop_last()).stage, events.last()) {
            (Stage::Publishing { id, .. }, Event::Published(Ok(_))) => before.insert(id),
            _ => before,
        }
    }
}

/// The ids of the messages that need no further attempt: those that were
/// dispatched, and those that are not to be.
pub open spec fn settled_ids(s: TickState, events: Seq<Event>) -> Set<Seq<char>>
    decreases events.len(),
{
    if events.len() == 0 {
        Set::empty()
    } else {
        let state = after(s, events.drop_last());
        let before = settled_ids(s, events.drop_last());
        match settles(state, events.last()) {
            Some(id) => before.insert(id),
            None => before,
        }
    }
}

/// The id of the message that an event settles.
pub open spec fn settles(s: TickState, event: Event) -> Option<Seq<char>> {
    match (s.stage, event) {
        (Stage::Publishing { id, .. }, Event::Published(Ok(_))) => Some(id),
        (Stage::Fetching { id, .. }, Event::Reply(Ok(msg))) => {
            if message::judged(s.cfg, msg) is Dispatch {
                None
            } else {
                Some(id)
            }
        },
        _ => None,
    }
}

/// Whether a tick is at work on a message.
pub open spec fn works_on(stage: Stage, id: Seq<char>) -> bool {
    match stage {
        Stage::Fetching { id: current, .. } => id == current,
        Stage::Publishing { id: current, .. } => id == current,
        _ => false,
    }
}

/// Whether a pass that has gone through `gone` messages agrees with what the
/// run has done.
pub open spec fn in_step(
    pass: Pass,
    known: Set<Seq<char>>,
    settled: Set<Seq<char>>,
    sent: Set<Seq<char>>,
    gone: int,
) -> bool {
    &&& known.finite()
    &&& settled.finite()
    &&& settled.disjoint(known)
    &&& settled.len() <= gone
    &&& pass.seen == known.union(settled)
    &&& sent.finite()
    &&& sent.subset_of(settled)
    &&& sent.len() == pass.dispatched
}

/// Whether the state of a tick agrees with what the run has done: with the
/// messages that it has settled, those that it has dispatched and the number of
/// texts that it has handed out.
pub open spec fn consistent(
    s: TickState,
    settled: Set<Seq<char>>,
    sent: Set<Seq<char>>,
    count: int,
) -> bool {
    match s.stage {
        Stage::Fetching { pass, .. } => in_step(pass, known(s), settled, sent, pass.at) && count
            == pass.dispatched,
        Stage::Publishing { pass, .. } => in_step(pass, known(s), settled, sent, pass.at)
            && count == pass.dispatched + 1,
        Stage::Marking { pass, .. } => in_step(pass, known(s), settled, sent, pass.at + 1)
            && count == pass.dispatched,
        Stage::Pausing { pass } => in_step(pass, known(s), settled, sent, pass.at + 1) && count
            == pass.dispatched,
        Stage::Done { kept } => {
            &&& kept matches Some(ids) ==> {
                &&& ids == seen::capped(known(s).union(settled))
                &&& known(s).finite()
                &&& sent.len() == count
            }
            &&& settled.finite()
            &&& settled.disjoint(known(s))
            &&& settled.len() <= s.cfg.max_per_tick
            &&& sent.subset_of(settled)
            &&& sent.len() <= count <= s.cfg.max_per_tick
        },
        _ => {
            &&& count == 0
            &&& settled == Set::<Seq<char>>::empty()
            &&& sent == Set::<Seq<char>>::empty()
        },
    }
}

proof fn lemma_onward_is_consistent(
    s: TickState,
    pass: Pass,
    from: int,
    settled: Set<Seq<char>>,
    sent: Set<Seq<char>>,
)
    requires
        0 <= from <= tick::limit(s.cfg, pass.messages) <= u32::MAX,
        pass.dispatched <= from,
        in_step(pass, known(s), settled, sent, from),
    ensures
        consistent(
            TickState { stage: tick::onward(s.cfg, pass, from).0, ..s },
            settled,
            sent,
            pass.dispatched,
        ),
        tick::onward(s.cfg, pass, from).1 is Finish || tick::onward(s.cfg, pass, from).1 is Call,
{
    tick::lemma_next_open(pass.messages, pass.seen, from, tick::limit(s.cfg, pass.messages));
}

proof fn lemma_step_is_consistent(
    s: TickState,
    event: Event,
    settled: Set<Seq<char>>,
    sent: Set<Seq<char>>,
    count: int,
)
    requires
        tick::sound(s),
        tick::accepts(s, event),
        consistent(s, settled, sent, count),
    ensures
        ({
            let settled_now = match settles(s, event) {
                Some(id) => settled.insert(id),
                None => settled,
            };
            let sent_now = match (s.stage, event) {
                (Stage::Publishing { id, .. }, Event::Published(Ok(_))) => sent.insert(id),
                _ => sent,
            };
            let count_now = count + if tick::effect(s, event) is Publish {
                1int
            } else {
                0
            };
            consistent(tick::next(s, event), settled_now, sent_now, count_now)
        }),
{
    broadcast use vstd::seq_lib::seq_to_set_is_finite;

    match s.stage {
        Stage::Target { messages } => {
            if let Event::Credentials(target) = event {
                if let Some(account) = target.member_text("account_id"@) {
                    if seen::known_by(s.job, seen::request_cursor(s.cursor)) is Ok {
                        let topic = calls::topic_of(s.cfg.deliver.channel@, account);
                        let pass = tick::first_pass(messages, topic, known(s));
                        assert(known(s).union(settled) =~= known(s));
                        lemma_onward_is_consistent(s, pass, 0, settled, sent);
                    }
                }
            }
        },
        Stage::Fetching { pass, id } => {
            assert(known(s).union(settled.insert(id)) =~= pass.seen.insert(id));
            lemma_onward_is_consistent(s, pass, pass.at + 1, settled, sent);
            lemma_onward_is_consistent(
                s,
                tick::dealt_with(pass, id),
                pass.at + 1,
                settled.insert(id),
                sent,
            );
        },
        Stage::Publishing { pass, id } => {
            assert(known(s).union(settled.insert(id)) =~= pass.seen.insert(id));
            lemma_onward_is_consistent(
                s,
                tick::dispatched(pass, id),
                pass.at + 1,
                settled.insert(id),
                sent.insert(id),
            );
        },
        Stage::Marking { pass, .. } => {
            lemma_onward_is_consistent(s, pass, pass.at + 1, settled, sent);
        },
        Stage::Pausing { pass } => {
            lemma_onward_is_consistent(s, pass, pass.at + 1, settled, sent);
        },
        _ => {},
    }
}

/// In a run from the start every state is sound and agrees with what the run
/// has done; job, configuration and cursor stay as they are.
pub proof fn lemma_runs_are_consistent(start: TickState, events: Seq<Event>)
    requires
        at_start(start),
        accepted(start, events),
    ensures
        tick::sound(after(start, events)),
        after(start, events) == (TickState { stage: after(start, events).stage, ..start }),
        consistent(
            after(start, events),
            settled_ids(start, events),
            dispatched_ids(start, events),
            publications(effects(start, events)),
        ),
    decreases events.len(),
{
    if events.len() > 0 {
        let earlier = events.drop_last();
        lemma_runs_are_consistent(start, earlier);
        let s = after(start, earlier);
        tick::lemma_ticks_stay_sound(s, events.last());
        lemma_step_is_consistent(
            s,
            events.last(),
            settled_ids(start, earlier),
            dispatched_ids(start, earlier),
            publications(effects(start, earlier)),
        );
        assert(effects(start, events).drop_last() =~= effects(start, earlier));
    }
}

/// Hard cap: a run hands out no more texts than the job allows per tick.
pub proof fn lemma_publications_are_capped(start: TickState, events: Seq<Event>)
    requires
        at_start(start),
        accepted(start, events),
    ensures
        publications(effects(start, events)) <= start.cfg.max_per_tick,
{
    lemma_runs_are_consistent(start, events);
}

proof fn lemma_onward_reports(cfg: GmailJobConfig, pass: Pass, from: int)
    requires
        0 <= from <= tick::limit(cfg, pass.messages) <= u32::MAX,
        0 <= pass.dispatched <= from,
    ensures
        tick::onward(cfg, pass, from).1 matches Effect::Finish(out) ==> {
            &&& out matches Ok(ack)
            &&& ack.metrics matches Some(m)
            &&& m.items_dispatched == pass.dispatched <= m.items_seen
            &&& m.items_seen == tick::limit(cfg, pass.messages)
        },
{
}

/// How many messages were listed.
pub open spec fn listed(s: TickState, events: Seq<Event>) -> nat
    decreases events.len(),
{
    if events.len() == 0 {
        0
    } else {
        match (after(s, events.drop_last()).stage, events.last()) {
            (Stage::Listing, Event::Reply(Ok(list))) => match list.member_list("messages"@) {
                Some(items) => items.len(),
                None => 0,
            },
            _ => listed(s, events.drop_last()),
        }
    }
}

/// Whether the messages that a stage is about are `n`.
pub open spec fn goes_through(stage: Stage, n: nat) -> bool {
    match stage {
        Stage::Account => n == 0,
        Stage::Client => n == 0,
        Stage::Listing => n == 0,
        Stage::Target { messages } => messages.len() == n,
        Stage::Fetching { pass, .. } => pass.messages.len() == n,
        Stage::Publishing { pass, .. } => pass.messages.len() == n,
        Stage::Marking { pass, .. } => pass.messages.len() == n,
        Stage::Pausing { pass } => pass.messages.len() == n,
        Stage::Done { .. } => true,
    }
}

proof fn lemma_listed_messages_are_gone_through(start: TickState, events: Seq<Event>)
    requires
        at_start(start),
        accepted(start, events),
    ensures
        goes_through(after(start, events).stage, listed(start, events)),
    decreases events.len(),
{
    if events.len() > 0 {
        lemma_listed_messages_are_gone_through(start, events.drop_last());
    }
}

/// The metrics of a tick count the messages that were listed, up to the cap, and
/// among them the texts that it handed out, each of another message.
pub proof fn lemma_metrics_count_the_run(start: TickState, events: Seq<Event>)
    requires
        at_start(start),
        accepted(start, events),
        events.len() > 0,
    ensures
        effects(start, events).last() matches Effect::Finish(Ok(ack)) ==> {
            &&& ack.metrics matches Some(m)
            &&& m.items_dispatched == publications(effects(start, events))
            &&& m.items_dispatched == dispatched_ids(start, events).len()
            &&& m.items_dispatched <= m.items_seen
            &&& m.items_seen == if listed(start, events) <= start.cfg.max_per_tick {
                listed(start, events) as int
            } else {
                start.cfg.max_per_tick as int
            }
        },
{
    let earlier = events.drop_last();
    let s = after(start, earlier);
    lemma_runs_are_consistent(start, earlier);
    lemma_listed_messages_are_gone_through(start, earlier);
    assert(effects(start, events).drop_last() =~= effects(start, earlier));
    match s.stage {
        Stage::Target { messages } => {
            if let Event::Credentials(target) = events.last() {
                if let Some(account) = target.member_text("account_id"@) {
                    let topic = calls::topic_of(start.cfg.deliver.channel@, account);
                    let pass = tick::first_pass(messages, topic, known(start));
                    lemma_onward_reports(start.cfg, pass, 0);
                }
            }
        },
        Stage::Fetching { pass, id } => {
            lemma_onward_reports(start.cfg, pass, pass.at + 1);
            lemma_onward_reports(start.cfg, tick::dealt_with(pass, id), pass.at + 1);
        },
        Stage::Publishing { pass, id } => {
            lemma_onward_reports(start.cfg, tick::dispatched(pass, id), pass.at + 1);
        },
        Stage::Marking { pass, .. } => {
            lemma_onward_reports(start.cfg, pass, pass.at + 1);
        },
        Stage::Pausing { pass } => {
            lemma_onward_reports(start.cfg, pass, pass.at + 1);
        },
        _ => {},
    }
}

/// A tick never works on a message that an earlier tick has dealt with, nor on
/// one that it has settled itself.
pub proof fn lemma_no_message_is_taken_twice(
    start: TickState,
    events: Seq<Event>,
    id: Seq<char>,
)
    requires
        at_start(start),
        accepted(start, events),
        works_on(after(start, events).stage, id),
    ensures
        !known(start).contains(id),
        !settled_ids(start, events).contains(id),
        !dispatched_ids(start, events).contains(id),
{
    lemma_runs_are_consistent(start, events);
}

/// The cursor of a tick lists what was known before and what the tick has
/// settled, each message that it dispatched among it, but for the oldest where
/// that is more than the limit.
pub proof fn lemma_cursor_lists_settled_messages(
    start: TickState,
    events: Seq<Event>,
    kept: Set<Seq<char>>,
)
    requires
        at_start(start),
        accepted(start, events),
        after(start, events).stage == (Stage::Done { kept: Some(kept) }),
    ensures
        ({
            let known = known(start);
            let settled = settled_ids(start, events);
            &&& dispatched_ids(start, events).subset_of(settled)
            &&& kept == seen::capped(known.union(settled))
            &&& known.len() + settled.len() <= SEEN_LIMIT ==> kept == known.union(settled)
            &&& forall|gone: Seq<char>, other: Seq<char>|
                known.union(settled).contains(gone) && !kept.contains(gone) && kept.contains(other)
                    ==> #[trigger] text::before(gone, other)
        }),
{
    lemma_runs_are_consistent(start, events);
    let known = known(start);
    let settled = settled_ids(start, events);
    vstd::set_lib::lemma_set_disjoint_lens(known, settled);
    seen::lemma_oldest_are_dropped(known.union(settled));
}

/// The cursor of a tick is within its limit, whatever cursor the tick was given
/// and however many messages it has settled.
pub proof fn lemma_cursor_stays_within_its_limit(
    start: TickState,
    events: Seq<Event>,
    kept: Set<Seq<char>>,
)
    requires
        at_start(start),
        accepted(start, events),
        after(start, events).stage == (Stage::Done { kept: Some(kept) }),
    ensures
        kept.finite(),
        kept.len() <= SEEN_LIMIT,
        seen::listing(kept).len() == kept.len(),
{
    lemma_runs_are_consistent(start, events);
    seen::lemma_oldest_are_dropped(known(start).union(settled_ids(start, events)));
    seen::lemma_listing_exists(kept);
}

/// What a tick has kept, no tick works on that is given its cursor: a message
/// that was dispatched is not dispatched again, whether or not it could be
/// marked as read. The cursor is one that reads back, as [`tick::Tick::step`]
/// makes it, and the later request carries it.
pub proof fn lemma_later_ticks_leave_kept_messages_alone(
    start: TickState,
    events: Seq<Event>,
    kept: Set<Seq<char>>,
    later: TickState,
    later_events: Seq<Event>,
    id: Seq<char>,
)
    requires
        at_start(start),
        accepted(start, events),
        events.len() > 0,
        after(start, events).stage == (Stage::Done { kept: Some(kept) }),
        tick::cursor_is_readable(after(start, events).stage, effects(start, events).last()),
        at_start(later),
        accepted(later, later_events),
        effects(start, events).last() matches Effect::Finish(Ok(ack)) && seen::request_cursor(
            later.cursor,
        ) == Ok::<Option<Seq<u8>>, Seq<char>>(ack.next_cursor),
        kept.contains(id),
    ensures
        known(later) == kept,
        !works_on(after(later, later_events).stage, id),
{
    lemma_runs_are_consistent(later, later_events);
}

/// Whether a tick is not to hand out another text before it has paused.
pub open spec fn owes_pause(stage: Stage) -> bool {
    match stage {
        Stage::Publishing { .. } => true,
        Stage::Marking { pause, .. } => pause,
        Stage::Done { .. } => true,
        _ => false,
    }
}

proof fn lemma_step_owes_pause(s: TickState, event: Event)
    requires
        tick::sound(s),
        tick::accepts(s, event),
        s.cfg.dispatch_delay_ms > 0,
    ensures
        tick::effect(s, event) is Publish ==> !owes_pause(s.stage) && owes_pause(
            tick::next(s, event).stage,
        ),
        owes_pause(s.stage) ==> owes_pause(tick::next(s, event).stage) || tick::effect(s, event)
            == Effect::Sleep(s.cfg.dispatch_delay_ms),
{
}

/// Whether a tick has paused for `ms` milliseconds after the effect at `i` and
/// before the one at `end`.
pub open spec fn pauses_between(done: Seq<Effect>, i: int, end: int, ms: u64) -> bool {
    exists|k: int| i < k < end && #[trigger] done[k] == Effect::Sleep(ms)
}

/// The effects of a run follow from its events one by one.
proof fn lemma_effect_at(s: TickState, events: Seq<Event>, j: int)
    requires
        accepted(s, events),
        0 <= j < events.len(),
    ensures
        effects(s, events).len() == events.len(),
        effects(s, events).take(j) == effects(s, events.take(j)),
        effects(s, events)[j] == tick::effect(after(s, events.take(j)), events[j]),
        accepted(s, events.take(j + 1)),
    decreases events.len(),
{
    let earlier = events.drop_last();
    if earlier.len() > 0 {
        lemma_effect_at(s, earlier, 0);
    }
    if j < earlier.len() {
        lemma_effect_at(s, earlier, j);
        assert(earlier.take(j) =~= events.take(j));
        assert(earlier.take(j + 1) =~= events.take(j + 1));
        assert(effects(s, events).take(j) =~= effects(s, earlier).take(j));
    } else {
        assert(events.take(j) =~= earlier);
        assert(events.take(j + 1) =~= events);
        assert(effects(s, events).take(j) =~= effects(s, earlier));
    }
}

proof fn lemma_pause_is_owed_or_kept(start: TickState, events: Seq<Event>, i: int)
    requires
        at_start(start),
        accepted(start, events),
        start.cfg.dispatch_delay_ms > 0,
        0 <= i < events.len(),
        effects(start, events)[i] is Publish,
    ensures
        owes_pause(after(start, events).stage) || pauses_between(
            effects(start, events),
            i,
            events.len() as int,
            start.cfg.dispatch_delay_ms,
        ),
    decreases events.len(),
{
    let earlier = events.drop_last();
    let last = events.len() - 1;
    let done = effects(start, events);
    lemma_runs_are_consistent(start, earlier);
    lemma_step_owes_pause(after(start, earlier), events.last());
    lemma_effect_at(start, events, last);
    assert(events.take(last) =~= earlier);
    if i < last {
        assert(effects(start, earlier)[i] == done[i]);
        lemma_pause_is_owed_or_kept(start, earlier, i);
        if owes_pause(after(start, earlier).stage) {
            if !owes_pause(after(start, events).stage) {
                assert(done[last] == Effect::Sleep(start.cfg.dispatch_delay_ms));
            }
        } else {
            let k = choose|k: int|
                i < k < last && #[trigger] effects(start, earlier)[k] == Effect::Sleep(
                    start.cfg.dispatch_delay_ms,
                );
            assert(done[k] == effects(start, earlier)[k]);
        }
    }
}

/// Throttle: with a delay configured, a tick pauses for that long between any
/// two texts that it hands out.
pub proof fn lemma_dispatches_are_spaced(
    start: TickState,
    events: Seq<Event>,
    i: int,
    j: int,
)
    requires
        at_start(start),
        accepted(start, events),
        start.cfg.dispatch_delay_ms > 0,
        0 <= i < j < events.len(),
        effects(start, events)[i] is Publish,
        effects(start, events)[j] is Publish,
    ensures
        pauses_between(effects(start, events), i, j, start.cfg.dispatch_delay_ms),
{
    let done = effects(start, events);
    let earlier = events.take(j);
    lemma_effect_at(start, events, j);
    assert(events.take(j + 1).drop_last() =~= earlier);
    assert(accepted(start, earlier));
    assert(done.take(j)[i] == done[i]);
    lemma_pause_is_owed_or_kept(start, earlier, i);
    lemma_runs_are_consistent(start, earlier);
    assert(events.take(j + 1).last() == events[j]);
    lemma_step_owes_pause(after(start, earlier), events[j]);
    let k = choose|k: int|
        i < k < j && #[trigger] effects(start, earlier)[k] == Effect::Sleep(
            start.cfg.dispatch_delay_ms,
        );
    assert(done.take(j)[k] == done[k]);
}

/// The id of the message that is to be marked as read after an event: if the
/// job says so, one whose text was published, or that lacks a required field.
pub open spec fn read_mark_due(s: TickState, event: Event) -> Option<Seq<char>> {
    match (s.stage, event) {
        (Stage::Publishing { id, .. }, Event::Published(Ok(_)))
            if s.cfg.mark_read_on_dispatch => Some(id),
        (Stage::Fetching { id, .. }, Event::Reply(Ok(msg))) if s.cfg.mark_read_on_dispatch
            && message::judged(s.cfg, msg) is Incomplete => Some(id),
        _ => None,
    }
}

/// A message is marked as read when that is due and at no other time: never
/// before its text was published, and never if the job does not say so.
pub proof fn lemma_read_marks_follow_dispatch(s: TickState, event: Event)
    requires
        tick::sound(s),
        tick::accepts(s, event),
    ensures
        match tick::next(s, event).stage {
            Stage::Marking { id, .. } => read_mark_due(s, event) == Some(id) && tick::effect(
                s,
                event,
            ) == Effect::Call(calls::mark_read_request(id)),
            _ => read_mark_due(s, event) is None,
        },
        !s.cfg.mark_read_on_dispatch ==> !(tick::next(s, event).stage is Marking),
{
}

/// A text that could not be published ends the tick as one to be tried again,
/// without a cursor: its message is neither remembered nor marked as read.
pub proof fn lemma_failed_publication_ends_the_tick(s: TickState, event: Event)
    requires
        tick::accepts(s, event),
        event matches Event::Published(Err(_)),
    ensures
        tick::next(s, event).stage == (Stage::Done { kept: None }),
        tick::effect(s, event) matches Effect::Finish(Err(Failure::Transient(_))),
        settles(s, event) is None,
{
}

/// A message that could not be fetched is left for a later tick: the cursor does
/// not list it.
pub proof fn lemma_failed_fetch_is_left(s: TickState, event: Event)
    requires
        tick::sound(s),
        tick::accepts(s, event),
        s.stage is Fetching,
        event matches Event::Reply(Err(_)),
    ensures
        ({
            let pass = s.stage->Fetching_pass;
            let id = s.stage->Fetching_id;
            &&& !pass.seen.contains(id)
            &&& settles(s, event) is None
            &&& match tick::next(s, event).stage {
                Stage::Fetching { pass: then, .. } => then.seen == pass.seen,
                Stage::Done { kept: Some(ids) } => ids == seen::capped(pass.seen)
                    && !ids.contains(id),
                _ => false,
            }
        }),
{
}

/// How many kinds of stage a tick has before it.
pub open spec fn stages_left(stage: Stage) -> nat {
    match stage {
        Stage::Account => 5,
        Stage::Client => 4,
        Stage::Listing => 3,
        Stage::Target { .. } => 2,
        Stage::Done { .. } => 0,
        _ => 1,
    }
}

/// How many steps a tick has before it at most, once it has its messages.
pub open spec fn steps_left(s: TickState) -> int {
    match s.stage {
        Stage::Fetching { pass, .. } => 4 * (tick::limit(s.cfg, pass.messages) - pass.at),
        Stage::Publishing { pass, .. } => 4 * (tick::limit(s.cfg, pass.messages) - pass.at) - 1,
        Stage::Marking { pass, .. } => 4 * (tick::limit(s.cfg, pass.messages) - pass.at) - 2,
        Stage::Pausing { pass } => 4 * (tick::limit(s.cfg, pass.messages) - pass.at) - 3,
        _ => 0,
    }
}

proof fn lemma_onward_advances(s: TickState, pass: Pass)
    requires
        0 <= pass.at < tick::limit(s.cfg, pass.messages),
    ensures
        ({
            let out = tick::onward(s.cfg, pass, pass.at + 1).0;
            let left = tick::limit(s.cfg, pass.messages) - pass.at - 1;
            &&& out is Done || out is Fetching
            &&& 0 <= steps_left(TickState { stage: out, ..s }) <= 4 * left
        }),
{
    tick::lemma_next_open(
        pass.messages,
        pass.seen,
        pass.at + 1,
        tick::limit(s.cfg, pass.messages),
    );
}

/// Every tick comes to an end: each event takes it to a later kind of stage, or
/// to one with fewer steps left.
pub proof fn lemma_ticks_end(s: TickState, event: Event)
    requires
        tick::sound(s),
        tick::accepts(s, event),
    ensures
        0 <= steps_left(tick::next(s, event)),
        stages_left(tick::next(s, event).stage) <= stages_left(s.stage),
        stages_left(tick::next(s, event).stage) == stages_left(s.stage) ==> steps_left(
            tick::next(s, event),
        ) < steps_left(s),
{
    match s.stage {
        Stage::Target { messages } => {
            tick::lemma_next_open(messages, known(s), 0, tick::limit(s.cfg, messages));
        },
        Stage::Fetching { pass, id } => {
            lemma_onward_advances(s, pass);
            lemma_onward_advances(s, tick::dealt_with(pass, id));
        },
        Stage::Publishing { pass, id } => {
            lemma_onward_advances(s, tick::dispatched(pass, id));
        },
        Stage::Marking { pass, .. } => {
            lemma_onward_advances(s, pass);
        },
        Stage::Pausing { pass } => {
            lemma_onward_advances(s, pass);
        },
        _ => {},
    }
}

/// The messages that were listed.
pub open spec fn listed_items(s: TickState, events: Seq<Event>) -> Seq<Json>
    decreases events.len(),
{
    if events.len() == 0 {
        Seq::empty()
    } else {
        match (after(s, events.drop_last()).stage, events.last()) {
            (Stage::Listing, Event::Reply(Ok(list))) => match list.member_list("messages"@) {
                Some(items) => items,
                None => Seq::empty(),
            },
            _ => listed_items(s, events.drop_last()),
        }
    }
}

/// The outbound account that the host named.
pub open spec fn named_account(s: TickState, events: Seq<Event>) -> Option<Seq<char>>
    decreases events.len(),
{
    if events.len() == 0 {
        None
    } else {
        match (after(s, events.drop_last()).stage, events.last()) {
            (Stage::Target { .. }, Event::Credentials(target)) => target.member_text("account_id"@),
            _ => named_account(s, events.drop_last()),
        }
    }
}

/// Whether a message was asked for.
pub open spec fn was_fetched(done: Seq<Effect>, id: Seq<char>) -> bool {
    exists|k: int|
        0 <= k < done.len() && #[trigger] done[k] == Effect::Call(calls::fetch_request(id))
}

/// Whether each of the first `n` messages has no id, was known or was asked for.
pub open spec fn all_tried(
    items: Seq<Json>,
    known: Set<Seq<char>>,
    done: Seq<Effect>,
    n: int,
) -> bool {
    forall|k: int|
        0 <= k < n && k < items.len() ==> match (#[trigger] items[k]).member_text("id"@) {
            Some(id) => known.contains(id) || was_fetched(done, id),
            None => true,
        }
}

/// Whether a pass is about the listed messages, has tried those before `n` and has
/// dealt with none but those it knew or asked for.
pub open spec fn on_track(
    s: TickState,
    pass: Pass,
    items: Seq<Json>,
    account: Option<Seq<char>>,
    done: Seq<Effect>,
    n: int,
) -> bool {
    &&& pass.messages.len() == items.len()
    &&& forall|k: int|
        0 <= k < items.len() ==> #[trigger] pass.messages[k] == items[k].member_text("id"@)
    &&& all_tried(items, known(s), done, n)
    &&& forall|id: Seq<char>|
        #[trigger] pass.seen.contains(id) ==> known(s).contains(id) || was_fetched(done, id)
    &&& account matches Some(a) && pass.topic == "plugin.outbound."@ + s.cfg.deliver.channel@
        + "."@ + a
}

/// Whether a tick has left out none of the messages that it has gone past.
pub open spec fn leaves_none_out(
    s: TickState,
    items: Seq<Json>,
    account: Option<Seq<char>>,
    done: Seq<Effect>,
) -> bool {
    match s.stage {
        Stage::Target { messages } => {
            &&& messages.len() == items.len()
            &&& forall|k: int|
                0 <= k < items.len() ==> #[trigger] messages[k] == items[k].member_text("id"@)
        },
        Stage::Fetching { pass, id } => on_track(s, pass, items, account, done, pass.at)
            && was_fetched(done, id),
        Stage::Publishing { pass, id } => on_track(s, pass, items, account, done, pass.at)
            && was_fetched(done, id),
        Stage::Marking { pass, .. } => on_track(s, pass, items, account, done, pass.at + 1),
        Stage::Pausing { pass } => on_track(s, pass, items, account, done, pass.at + 1),
        Stage::Done { kept: Some(_) } => all_tried(
            items,
            known(s),
            done,
            s.cfg.max_per_tick as int,
        ),
        _ => true,
    }
}

proof fn lemma_fetches_are_kept(done: Seq<Effect>, more: Effect, id: Seq<char>)
    requires
        was_fetched(done, id) || more == Effect::Call(calls::fetch_request(id)),
    ensures
        was_fetched(done.push(more), id),
{
    let all = done.push(more);
    if was_fetched(done, id) {
        let k = choose|k: int|
            0 <= k < done.len() && #[trigger] done[k] == Effect::Call(calls::fetch_request(id));
        assert(all[k] == done[k]);
    } else {
        assert(all[done.len() as int] == more);
    }
}

proof fn lemma_track_is_kept(
    s: TickState,
    pass: Pass,
    items: Seq<Json>,
    account: Option<Seq<char>>,
    done: Seq<Effect>,
    n: int,
    more: Effect,
)
    requires
        on_track(s, pass, items, account, done, n),
    ensures
        on_track(s, pass, items, account, done.push(more), n),
{
    let all = done.push(more);
    assert forall|id: Seq<char>| was_fetched(done, id) implies #[trigger] was_fetched(all, id) by {
        lemma_fetches_are_kept(done, more, id);
    }
    assert forall|id: Seq<char>| #[trigger] pass.seen.contains(id) implies known(s).contains(id)
        || was_fetched(all, id) by {
        if was_fetched(done, id) {
            assert(was_fetched(all, id));
        }
    }
}

/// A message that was asked for may count as dealt with and as tried.
proof fn lemma_track_goes_on(
    s: TickState,
    pass: Pass,
    items: Seq<Json>,
    account: Option<Seq<char>>,
    done: Seq<Effect>,
    id: Seq<char>,
    then: Pass,
)
    requires
        tick::within(s.cfg, pass, pass.at),
        on_track(s, pass, items, account, done, pass.at),
        pass.messages[pass.at] == Some(id),
        was_fetched(done, id),
        then.messages == pass.messages,
        then.topic == pass.topic,
        then.seen == pass.seen || then.seen == pass.seen.insert(id),
    ensures
        on_track(s, then, items, account, done, pass.at + 1),
{
}

proof fn lemma_onward_leaves_none_out(
    s: TickState,
    pass: Pass,
    from: int,
    items: Seq<Json>,
    account: Option<Seq<char>>,
    done: Seq<Effect>,
)
    requires
        0 <= from <= tick::limit(s.cfg, pass.messages),
        on_track(s, pass, items, account, done, from),
    ensures
        leaves_none_out(
            TickState { stage: tick::onward(s.cfg, pass, from).0, ..s },
            items,
            account,
            done.push(tick::onward(s.cfg, pass, from).1),
        ),
{
    let end = tick::limit(s.cfg, pass.messages);
    let at = tick::next_open(pass.messages, pass.seen, from, end);
    let more = tick::onward(s.cfg, pass, from).1;
    tick::lemma_next_open(pass.messages, pass.seen, from, end);
    lemma_track_is_kept(s, pass, items, account, done, from, more);
    let all = done.push(more);
    assert forall|k: int| 0 <= k < at && k < items.len() implies match (
    #[trigger] items[k]).member_text("id"@) {
        Some(id) => known(s).contains(id) || was_fetched(all, id),
        None => true,
    } by {
        assert(pass.messages[k] == items[k].member_text("id"@));
        if k >= from {
            assert(!tick::is_open(pass.messages, pass.seen, k));
        }
    }
    if at < end {
        let id = pass.messages[at]->0;
        lemma_fetches_are_kept(done, more, id);
    }
}

proof fn lemma_step_leaves_none_out(
    s: TickState,
    event: Event,
    items: Seq<Json>,
    account: Option<Seq<char>>,
    done: Seq<Effect>,
)
    requires
        tick::sound(s),
        tick::accepts(s, event),
        leaves_none_out(s, items, account, done),
    ensures
        ({
            let items_now = match (s.stage, event) {
                (Stage::Listing, Event::Reply(Ok(list))) => match list.member_list("messages"@) {
                    Some(found) => found,
                    None => Seq::empty(),
                },
                _ => items,
            };
            let account_now = match (s.stage, event) {
                (Stage::Target { .. }, Event::Credentials(target)) => target.member_text(
                    "account_id"@,
                ),
                _ => account,
            };
            leaves_none_out(
                tick::next(s, event),
                items_now,
                account_now,
                done.push(tick::effect(s, event)),
            )
        }),
{
    let more = tick::effect(s, event);
    match s.stage {
        Stage::Target { messages } => {
            if let Event::Credentials(target) = event {
                if let Some(a) = target.member_text("account_id"@) {
                    let topic = calls::topic_of(s.cfg.deliver.channel@, a);
                    let pass = tick::first_pass(messages, topic, known(s));
                    if seen::known_by(s.job, seen::request_cursor(s.cursor)) is Ok {
                        lemma_onward_leaves_none_out(s, pass, 0, items, Some(a), done);
                    }
                }
            }
        },
        Stage::Fetching { pass, id } => {
            let dealt = tick::dealt_with(pass, id);
            lemma_track_goes_on(s, pass, items, account, done, id, pass);
            lemma_track_goes_on(s, pass, items, account, done, id, dealt);
            lemma_onward_leaves_none_out(s, pass, pass.at + 1, items, account, done);
            lemma_onward_leaves_none_out(s, dealt, pass.at + 1, items, account, done);
            lemma_track_is_kept(s, pass, items, account, done, pass.at, more);
            lemma_track_is_kept(s, dealt, items, account, done, pass.at + 1, more);
            lemma_fetches_are_kept(done, more, id);
        },
        Stage::Publishing { pass, id } => {
            let sent = tick::dispatched(pass, id);
            lemma_track_goes_on(s, pass, items, account, done, id, sent);
            lemma_onward_leaves_none_out(s, sent, pass.at + 1, items, account, done);
            lemma_track_is_kept(s, sent, items, account, done, pass.at + 1, more);
        },
        Stage::Marking { pass, .. } => {
            lemma_onward_leaves_none_out(s, pass, pass.at + 1, items, account, done);
            lemma_track_is_kept(s, pass, items, account, done, pass.at + 1, more);
        },
        Stage::Pausing { pass } => {
            lemma_onward_leaves_none_out(s, pass, pass.at + 1, items, account, done);
        },
        _ => {},
    }
}

/// At every point of a run, no message that the tick has gone past was left out.
pub proof fn lemma_runs_leave_none_out(start: TickState, events: Seq<Event>)
    requires
        at_start(start),
        accepted(start, events),
    ensures
        leaves_none_out(
            after(start, events),
            listed_items(start, events),
            named_account(start, events),
            effects(start, events),
        ),
    decreases events.len(),
{
    if events.len() > 0 {
        let earlier = events.drop_last();
        lemma_runs_leave_none_out(start, earlier);
        lemma_runs_are_consistent(start, earlier);
        lemma_step_leaves_none_out(
            after(start, earlier),
            events.last(),
            listed_items(start, earlier),
            named_account(start, earlier),
            effects(start, earlier),
        );
    }
}

/// A tick that ends well has asked for every listed message up to the cap that has
/// an id and was not known before: none is left out because of what became of
/// another.
pub proof fn lemma_every_new_message_is_fetched(
    start: TickState,
    events: Seq<Event>,
    kept: Set<Seq<char>>,
    i: int,
    id: Seq<char>,
)
    requires
        at_start(start),
        accepted(start, events),
        after(start, events).stage == (Stage::Done { kept: Some(kept) }),
        0 <= i < listed_items(start, events).len(),
        i < start.cfg.max_per_tick,
        listed_items(start, events)[i].member_text("id"@) == Some(id),
        !known(start).contains(id),
    ensures
        exists|k: int|
            0 <= k < effects(start, events).len() && #[trigger] effects(start, events)[k]
                == Effect::Call(calls::fetch_request(id)),
{
    lemma_runs_leave_none_out(start, events);
    lemma_runs_are_consistent(start, events);
    assert(was_fetched(effects(start, events), id));
}

/// A tick works on no message but those that were listed, up to the cap, and were
/// not known before.
pub proof fn lemma_only_new_messages_are_worked_on(
    start: TickState,
    events: Seq<Event>,
    id: Seq<char>,
) -> (i: int)
    requires
        at_start(start),
        accepted(start, events),
        works_on(after(start, events).stage, id),
    ensures
        0 <= i < listed_items(start, events).len(),
        i < start.cfg.max_per_tick,
        listed_items(start, events)[i].member_text("id"@) == Some(id),
        !known(start).contains(id),
{
    lemma_runs_leave_none_out(start, events);
    lemma_runs_are_consistent(start, events);
    match after(start, events).stage {
        Stage::Fetching { pass, .. } => {
            assert(pass.messages[pass.at] == listed_items(start, events)[pass.at].member_text(
                "id"@,
            ));
            pass.at
        },
        Stage::Publishing { pass, .. } => {
            assert(pass.messages[pass.at] == listed_items(start, events)[pass.at].member_text(
                "id"@,
            ));
            pass.at
        },
        _ => 0,
    }
}

/// What is published goes to the configured channel and the account that the host
/// named, and is addressed to the configured recipient. It is the text of the
/// message that was just fetched.
pub proof fn lemma_publications_go_where_they_should(start: TickState, events: Seq<Event>)
    requires
        at_start(start),
        accepted(start, events),
        events.len() > 0,
    ensures
        effects(start, events).last() matches Effect::Publish { topic, payload } ==> {
            &&& named_account(start, events) matches Some(account)
            &&& topic == "plugin.outbound."@ + start.cfg.deliver.channel@ + "."@ + account
            &&& events.last() matches Event::Reply(Ok(msg))
            &&& message::judged(start.cfg, msg) matches Decision::Dispatch(t)
            &&& payload == calls::object_bytes("to"@, start.cfg.deliver.to@, "text"@, t)
            &&& after(start, events.drop_last()).stage is Fetching
        },
{
    let earlier = events.drop_last();
    lemma_runs_are_consistent(start, earlier);
    lemma_runs_leave_none_out(start, earlier);
}

/// A message whose verdict is to dispatch it is published at once; one with
/// another verdict, or that could not be fetched, is not.
pub proof fn lemma_verdicts_are_carried_out(s: TickState, event: Event)
    requires
        tick::sound(s),
        tick::accepts(s, event),
    ensures
        tick::effect(s, event) is Publish <==> {
            &&& s.stage is Fetching
            &&& event matches Event::Reply(Ok(msg))
            &&& message::judged(s.cfg, msg) is Dispatch
        },
        tick::effect(s, event) is Publish ==> tick::next(s, event).stage == (Stage::Publishing {
            pass: s.stage->Fetching_pass,
            id: s.stage->Fetching_id,
        }),
{
}

/// The pass of a stage that has one.
pub open spec fn pass_of(stage: Stage) -> Option<Pass> {
    match stage {
        Stage::Fetching { pass, .. } => Some(pass),
        Stage::Publishing { pass, .. } => Some(pass),
        Stage::Marking { pass, .. } => Some(pass),
        Stage::Pausing { pass } => Some(pass),
        _ => None,
    }
}

/// Messages are taken in the order in which they were listed, and the next one is
/// the first after the last that has an id and was not dealt with. Its fetch is
/// what the tick asks for.
pub proof fn lemma_messages_are_taken_in_order(s: TickState, event: Event)
    requires
        tick::sound(s),
        tick::accepts(s, event),
    ensures
        (pass_of(s.stage) matches Some(pass) && tick::next(s, event).stage matches Stage::Fetching {
            pass: then,
            id,
        }) ==> {
            let pass = pass_of(s.stage)->0;
            let then = tick::next(s, event).stage->Fetching_pass;
            let id = tick::next(s, event).stage->Fetching_id;
            &&& pass.at < then.at < then.messages.len()
            &&& then.messages == pass.messages
            &&& then.messages[then.at] == Some(id)
            &&& !then.seen.contains(id)
            &&& tick::effect(s, event) == Effect::Call(calls::fetch_request(id))
            &&& forall|k: int|
                pass.at < k < then.at ==> match #[trigger] then.messages[k] {
                    Some(other) => then.seen.contains(other),
                    None => true,
                }
        },
{
    if let Some(pass) = pass_of(s.stage) {
        let end = tick::limit(s.cfg, pass.messages);
        match tick::next(s, event).stage {
            Stage::Fetching { pass: then, .. } => {
                tick::lemma_next_open(pass.messages, then.seen, pass.at + 1, end);
                assert forall|k: int| pass.at < k < then.at implies match
                    #[trigger] then.messages[k] {
                    Some(other) => then.seen.contains(other),
                    None => true,
                } by {
                    assert(!tick::is_open(pass.messages, then.seen, k));
                }
            },
            _ => {},
        }
    }
}

/// A tick pauses after a dispatch, once its message is marked as read where that is
/// due, for as long as is configured and only if more messages were listed. It
/// pauses at no other time.
pub proof fn lemma_pauses_follow_dispatches(s: TickState, event: Event)
    requires
        tick::sound(s),
        tick::accepts(s, event),
    ensures
        tick::effect(s, event) is Sleep <==> {
            &&& s.cfg.dispatch_delay_ms > 0
            &&& match s.stage {
                Stage::Publishing { pass, .. } => (event matches Event::Published(Ok(_)))
                    && !s.cfg.mark_read_on_dispatch && pass.at + 1 < pass.messages.len(),
                Stage::Marking { pass, pause, .. } => pause && pass.at + 1 < pass.messages.len(),
                _ => false,
            }
        },
        tick::effect(s, event) matches Effect::Sleep(ms) ==> ms == s.cfg.dispatch_delay_ms,
        tick::next(s, event).stage matches Stage::Marking { pause, .. } ==> pause == (s.stage
            is Publishing),
{
}

/// What a tick is told in answer is never out of place: whatever it asks for, it
/// waits for every answer to that, good or bad, as long as the messages can be
/// counted.
pub proof fn lemma_every_answer_is_awaited(s: TickState, event: Event, answer: Event)
    requires
        tick::sound(s),
        tick::accepts(s, event),
    ensures
        match tick::effect(s, event) {
            Effect::GetCredentials(_) => answer is Refused || answer is Credentials
                ==> tick::accepts(tick::next(s, event), answer),
            Effect::GetClient(_) => answer is ClientReady || answer is ClientFailed
                ==> tick::accepts(tick::next(s, event), answer),
            Effect::Call(_) => match answer {
                Event::Reply(Err(_)) => tick::accepts(tick::next(s, event), answer),
                Event::Reply(Ok(list)) => (list.member_list("messages"@) matches Some(items)
                    ==> items.len() <= u32::MAX || s.cfg.max_per_tick <= u32::MAX)
                    ==> tick::accepts(tick::next(s, event), answer),
                _ => true,
            },
            Effect::Publish { .. } => answer is Published ==> tick::accepts(
                tick::next(s, event),
                answer,
            ),
            Effect::Sleep(_) => tick::accepts(tick::next(s, event), Event::Woke),
            Effect::Finish(_) => tick::next(s, event).stage is Done,
        },
{
}

/// A tick starts with the account and its client and then lists the messages.
pub proof fn lemma_ticks_start_with_the_account(s: TickState, event: Event)
    requires
        tick::accepts(s, event),
    ensures
        (s.stage is Account && event is Account) ==> tick::effect(s, event) == Effect::GetClient(
            event->Account_0,
        ) && tick::next(s, event).stage is Client,
        (s.stage is Client && event is ClientReady) ==> tick::effect(s, event) == Effect::Call(
            calls::list_request(s.cfg),
        ) && tick::next(s, event).stage is Listing,
{
}

/// Once messages are listed and all patterns compile, the outbound channel is asked
/// for; without a list the tick ends well and keeps its cursor.
pub proof fn lemma_listings_lead_to_the_channel(s: TickState, list: Json)
    requires
        s.stage is Listing,
        tick::accepts(s, Event::Reply(Ok(list))),
        forall|k: int|
            0 <= k < s.cfg.extract@.len() ==> extract::pattern_error(
                (#[trigger] s.cfg.extract@[k]).1@,
            ) is None,
    ensures
        list.member_list("messages"@) is Some ==> tick::effect(s, Event::Reply(Ok(list)))
            == Effect::GetCredentials(s.cfg.deliver.channel@),
        list.member_list("messages"@) is None ==> {
            &&& tick::effect(s, Event::Reply(Ok(list))) matches Effect::Finish(Ok(ack))
            &&& ack.next_cursor is None
            &&& ack.next_interval_hint is None
            &&& ack.metrics matches Some(m)
            &&& m.items_seen == 0
            &&& m.items_dispatched == 0
        },
{
    let rules = extract::pairs(s.cfg.extract@);
    assert forall|k: int| 0 <= k < rules.len() implies extract::pattern_error(
        (#[trigger] rules[k]).1,
    ) is None by {
        assert(rules[k].1 == s.cfg.extract@[k].1@);
    }
    extract::lemma_first_faulty_rule_is_reported(s.job, rules, rules.len() as int);
}

/// A listing with a pattern that does not compile is an error of the job's
/// configuration.
pub proof fn lemma_faulty_patterns_end_the_tick(s: TickState, list: Json, i: int)
    requires
        s.stage is Listing,
        tick::accepts(s, Event::Reply(Ok(list))),
        list.member_list("messages"@) is Some,
        0 <= i < s.cfg.extract@.len(),
        extract::pattern_error(s.cfg.extract@[i].1@) is Some,
        forall|k: int|
            0 <= k < i ==> extract::pattern_error((#[trigger] s.cfg.extract@[k]).1@) is None,
    ensures
        tick::effect(s, Event::Reply(Ok(list))) == Effect::Finish(
            Err(
                Failure::Config {
                    job: s.job,
                    reason: "invalid regex for `"@ + s.cfg.extract@[i].0@ + "`: "@
                        + extract::pattern_error(s.cfg.extract@[i].1@)->0,
                },
            ),
        ),
{
    let rules = extract::pairs(s.cfg.extract@);
    assert forall|k: int| 0 <= k < i implies extract::pattern_error(
        (#[trigger] rules[k]).1,
    ) is None by {
        assert(rules[k].1 == s.cfg.extract@[k].1@);
    }
    assert(rules[i] == (s.cfg.extract@[i].0@, s.cfg.extract@[i].1@));
    extract::lemma_first_faulty_rule_is_reported(s.job, rules, i);
}

/// Each failure of the host ends the tick, with the line that says what failed.
pub proof fn lemma_failures_are_reported(s: TickState, event: Event)
    requires
        tick::accepts(s, event),
    ensures
        ({
            let done = tick::effect(s, event);
            match (s.stage, event) {
                (Stage::Account, Event::Refused(e)) => done == Effect::Finish(
                    Err(Failure::Permanent("credentials_get: "@ + e@)),
                ),
                (Stage::Account, Event::Malformed(e)) => done == Effect::Finish(
                    Err(
                        Failure::Permanent(
                            "credentials_get returned unexpected shape: "@ + e@,
                        ),
                    ),
                ),
                (Stage::Client, Event::ClientFailed(e)) => done == Effect::Finish(Err(e@)),
                (Stage::Listing, Event::Reply(Err(e))) => done == Effect::Finish(
                    Err(errors::classified(e@, "list messages"@)),
                ),
                (Stage::Target { .. }, Event::Refused(e)) => done == Effect::Finish(
                    Err(Failure::Permanent("credentials_get outbound: "@ + e@)),
                ),
                (Stage::Target { .. }, Event::Credentials(target)) => target.member_text(
                    "account_id"@,
                ) is None ==> done == Effect::Finish(
                    Err(
                        Failure::Permanent(
                            "outbound credentials_get('"@ + s.cfg.deliver.channel@
                                + "') missing account_id"@,
                        ),
                    ),
                ),
                (Stage::Publishing { .. }, Event::Published(Err(e))) => done == Effect::Finish(
                    Err(Failure::Transient("broker_publish: "@ + e@)),
                ),
                _ => true,
            }
        }),
{
}

/// Once a tick takes its messages, nothing but a failed publication makes it fail:
/// not a message that could not be fetched, and not a read mark that could not be
/// set.
pub proof fn lemma_messages_fail_on_their_own(s: TickState, event: Event)
    requires
        tick::sound(s),
        tick::accepts(s, event),
        pass_of(s.stage) is Some,
        tick::effect(s, event) matches Effect::Finish(Err(_)),
    ensures
        s.stage is Publishing,
        event matches Event::Published(Err(_)),
{
}

/// A tick that ends well after its messages leaves the schedule alone and writes
/// down the ids that it keeps, in their order.
pub proof fn lemma_end_of_a_tick(s: TickState, event: Event)
    requires
        tick::sound(s),
        tick::accepts(s, event),
        !(s.stage is Listing),
        tick::effect(s, event) matches Effect::Finish(Ok(_)),
    ensures
        ({
            &&& tick::effect(s, event) matches Effect::Finish(Ok(ack))
            &&& ack.next_interval_hint is None
            &&& tick::next(s, event).stage matches Stage::Done { kept: Some(ids) }
            &&& ack.next_cursor == Some(seen::cursor_bytes(seen::listing(ids)))
        }),
{
}

/// A tick at its start waits for every answer about the account.
pub proof fn lemma_account_is_awaited(s: TickState, answer: Event)
    requires
        at_start(s),
        answer is Refused || answer is Malformed || answer is Account,
    ensures
        tick::accepts(s, answer),
{
}

/// The ids that a tick has dealt with after an event: those before it and the one
/// that the event settles.
pub open spec fn seen_after(s: TickState, pass: Pass, event: Event) -> Set<Seq<char>> {
    match settles(s, event) {
        Some(id) => pass.seen.insert(id),
        None => pass.seen,
    }
}

/// Whether the messages from `from` to before `end` have no id or were dealt with.
pub open spec fn none_open(
    messages: Seq<Option<Seq<char>>>,
    seen: Set<Seq<char>>,
    from: int,
    end: int,
) -> bool {
    forall|k: int|
        from <= k < end && k < messages.len() ==> match #[trigger] messages[k] {
            Some(id) => seen.contains(id),
            None => true,
        }
}

proof fn lemma_onward_passes_over_none(cfg: GmailJobConfig, pass: Pass, from: int)
    requires
        0 <= from <= tick::limit(cfg, pass.messages),
    ensures
        match tick::onward(cfg, pass, from).0 {
            Stage::Fetching { pass: then, .. } => {
                &&& then.seen == pass.seen
                &&& then.messages == pass.messages
                &&& from <= then.at
                &&& none_open(pass.messages, pass.seen, from, then.at)
            },
            Stage::Done { kept } => {
                &&& kept == Some(seen::capped(pass.seen))
                &&& none_open(pass.messages, pass.seen, from, cfg.max_per_tick as int)
            },
            _ => false,
        },
{
    let end = tick::limit(cfg, pass.messages);
    let at = tick::next_open(pass.messages, pass.seen, from, end);
    tick::lemma_next_open(pass.messages, pass.seen, from, end);
    assert forall|k: int| from <= k < at && k < pass.messages.len() implies match
        #[trigger] pass.messages[k] {
        Some(id) => pass.seen.contains(id),
        None => true,
    } by {
        assert(!tick::is_open(pass.messages, pass.seen, k));
    }
}

/// What an event settles is dealt with from then on, and nothing else is. Between
/// one message and the next, or the end of a tick that ends well, none is passed
/// over that has an id and was not dealt with.
pub proof fn lemma_no_message_is_passed_over(s: TickState, pass: Pass, event: Event)
    requires
        tick::sound(s),
        tick::accepts(s, event),
        pass_of(s.stage) == Some(pass),
    ensures
        match tick::next(s, event).stage {
            Stage::Fetching { pass: then, .. } => {
                &&& then.seen == seen_after(s, pass, event)
                &&& pass.at < then.at
                &&& none_open(pass.messages, then.seen, pass.at + 1, then.at)
            },
            Stage::Publishing { pass: then, .. } => then.seen == seen_after(s, pass, event)
                && then.at == pass.at,
            Stage::Marking { pass: then, .. } => then.seen == seen_after(s, pass, event) && then.at
                == pass.at,
            Stage::Pausing { pass: then } => then.seen == seen_after(s, pass, event) && then.at
                == pass.at,
            Stage::Done { kept: Some(ids) } => {
                &&& ids == seen::capped(seen_after(s, pass, event))
                &&& none_open(
                    pass.messages,
                    seen_after(s, pass, event),
                    pass.at + 1,
                    s.cfg.max_per_tick as int,
                )
            },
            Stage::Done { kept: None } => event matches Event::Published(Err(_)),
            _ => false,
        },
{
    match s.stage {
        Stage::Fetching { id, .. } => {
            lemma_onward_passes_over_none(s.cfg, pass, pass.at + 1);
            lemma_onward_passes_over_none(s.cfg, tick::dealt_with(pass, id), pass.at + 1);
        },
        Stage::Publishing { id, .. } => {
            lemma_onward_passes_over_none(s.cfg, tick::dispatched(pass, id), pass.at + 1);
        },
        _ => {
            lemma_onward_passes_over_none(s.cfg, pass, pass.at + 1);
        },
    }
}

/// With the outbound account named and a cursor that decodes, a tick takes the
/// first message that it does not know, or ends well if it knows them all.
pub proof fn lemma_first_new_message_is_taken(s: TickState, target: Json)
    requires
        tick::sound(s),
        s.stage is Target,
        target.member_text("account_id"@) is Some,
        seen::known_by(s.job, seen::request_cursor(s.cursor)) is Ok,
    ensures
        ({
            let messages = s.stage->Target_messages;
            match tick::next(s, Event::Credentials(target)).stage {
                Stage::Fetching { pass, id } => {
                    &&& pass.messages == messages
                    &&& pass.seen == known(s)
                    &&& pass.dispatched == 0
                    &&& none_open(messages, known(s), 0, pass.at)
                    &&& tick::effect(s, Event::Credentials(target)) == Effect::Call(
                        calls::fetch_request(id),
                    )
                },
                Stage::Done { kept: Some(ids) } => {
                    &&& ids == seen::capped(known(s))
                    &&& none_open(messages, known(s), 0, s.cfg.max_per_tick as int)
                },
                _ => false,
            }
        }),
{
    let messages = s.stage->Target_messages;
    let account = target.member_text("account_id"@)->0;
    let topic = calls::topic_of(s.cfg.deliver.channel@, account);
    lemma_onward_passes_over_none(s.cfg, tick::first_pass(messages, topic, known(s)), 0);
}

/// A cursor that does not decode is an error of the job's configuration.
pub proof fn lemma_faulty_cursor_ends_the_tick(s: TickState, target: Json, reason: Seq<char>)
    requires
        s.stage is Target,
        target.member_text("account_id"@) is Some,
        seen::request_cursor(s.cursor) == Err::<Option<Seq<u8>>, Seq<char>>(reason),
    ensures
        tick::effect(s, Event::Credentials(target)) == Effect::Finish(
            Err(Failure::Config { job: s.job, reason }),
        ),
{
}

/// Whether a read mark could be set is of no consequence to the tick.
pub proof fn lemma_read_marks_are_best_effort(s: TickState, one: Event, other: Event)
    requires
        s.stage is Marking,
        tick::accepts(s, one),
        tick::accepts(s, other),
    ensures
        tick::next(s, one) == tick::next(s, other),
        tick::effect(s, one) == tick::effect(s, other),
{
}

/// What a tick does not read in a message is of no consequence: two messages with
/// the same verdict make it go on in the same way.
pub proof fn lemma_verdict_is_all_that_counts(s: TickState, one: Json, other: Json)
    requires
        s.stage is Fetching,
        message::judged(s.cfg, one) == message::judged(s.cfg, other),
    ensures
        tick::next(s, Event::Reply(Ok(one))) == tick::next(s, Event::Reply(Ok(other))),
        tick::effect(s, Event::Reply(Ok(one))) == tick::effect(s, Event::Reply(Ok(other))),
{
}

} // verus!
