//! Events of the log of a base, each of which is dealt with once.
//!
//! The log gives the time of an event to the second and no number, and a query
//! gives the events from a time on, that time included. So the time of the last
//! event that was dealt with is kept, and the hashes of the events of exactly
//! that time: they are what the next query gives once more. Where further
//! events of that time are dealt with, their hashes join those that are kept.

use vstd::prelude::*;

use crate::codec;
use crate::json::{self, Json, Tree};
use crate::sorting::{self, Named};
use crate::state::BaseState;
use crate::strmap::{before, is_before, lemma_before_irreflexive, lemma_before_total,
    lemma_before_transitive};
use crate::text;

verus! {

/// How many events a query gives at most.
pub const QUERY_LIMIT: u64 = 500;

/// An event of the log.
#[derive(Debug, Clone, PartialEq, Eq)]
pub struct LogEvent {
    /// In the form `%Y-%m-%dT%H:%M:%S`.
    pub date: String,
    pub event: String,
    pub user: String,
    pub metadata: String,
    pub comment: String,
    pub data_pres: String,
    pub level: String,
}

impl Named for LogEvent {
    open spec fn key(&self) -> Seq<char> {
        self.date@
    }

    fn name(&self) -> (r: &str) {
        self.date.as_str()
    }
}

/// What tells an event from others: all but its level.
pub open spec fn event_fields(e: LogEvent) -> Seq<(Seq<char>, Seq<char>)> {
    seq![
        ("Дата"@, e.date@),
        ("Событие"@, e.event@),
        ("ИмяПользователя"@, e.user@),
        ("Метаданные"@, e.metadata@),
        ("Комментарий"@, e.comment@),
        ("ПредставлениеДанных"@, e.data_pres@),
    ]
}

/// The hash of an event.
pub open spec fn event_hash(e: LogEvent) -> Seq<char> {
    hash_of(json::object_text(event_fields(e)))
}

/// The hash of bytes: their SHA-256 digest in hexadecimal digits.
pub open spec fn hash_of(bytes: Seq<u8>) -> Seq<char> {
    text::hex(codec::sha256_digest(bytes), 'a')
}

impl LogEvent {
    /// The hash of the event, of what tells it from others.
    pub fn hash(&self) -> (r: String)
        ensures
            r@ == event_hash(*self),
            r@.len() == 64,
    {
        let mut fields: Vec<(String, String)> = Vec::new();
        fields.push(("Дата".to_owned(), self.date.clone()));
        fields.push(("Событие".to_owned(), self.event.clone()));
        fields.push(("ИмяПользователя".to_owned(), self.user.clone()));
        fields.push(("Метаданные".to_owned(), self.metadata.clone()));
        fields.push(("Комментарий".to_owned(), self.comment.clone()));
        fields.push(("ПредставлениеДанных".to_owned(), self.data_pres.clone()));
        assert(json::pairs(fields@) =~= event_fields(*self));
        let bytes = json::write_object(&fields);
        let digest = codec::sha256(&bytes);
        proof {
            text::lemma_hex_len(digest@, 'a');
        }
        text::hex_of(&digest, false)
    }
}

// Queries.

/// The time from which events are asked for: that of the last event that was
/// dealt with, or the given one where there is none.
pub fn query_start(state: &BaseState, first_run: String) -> (r: String)
    ensures
        r@ == match state.last_processed_at {
            Some(at) => at@,
            None => first_run@,
        },
{
    match &state.last_processed_at {
        Some(at) => at.clone(),
        None => first_run,
    }
}

/// What a query of events asks for.
pub open spec fn query_of(from: Seq<char>, events: Seq<Seq<char>>) -> Tree {
    Tree::Object(
        seq![
            (
                "filter"@,
                Tree::Object(seq![("events"@, Tree::List(json::text_trees(events)))]),
            ),
            ("from"@, Tree::Text(from)),
            ("limit"@, Tree::Number(text::dec(QUERY_LIMIT as nat))),
        ],
    )
}

/// What a query asks for: events of the given kinds from a time on.
pub fn query_arguments(from: &str, trigger_events: &Vec<String>) -> (r: Json)
    ensures
        r@ == query_of(from@, text::views(trigger_events@)),
{
    let filter = json::object1("events", json::texts_json(trigger_events));
    let fields = vec![
        ("filter".to_owned(), filter),
        ("from".to_owned(), json::text_json(from)),
        ("limit".to_owned(), Json::Number(text::dec_of(QUERY_LIMIT))),
    ];
    proof {
        json::lemma_field_trees(fields@);
        assert(json::field_trees(fields@) =~= seq![
            ("filter"@, filter@),
            ("from"@, Tree::Text(from@)),
            ("limit"@, Tree::Number(text::dec(QUERY_LIMIT as nat))),
        ]);
    }
    Json::Object(fields)
}

/// The events in the value of an answer, each still a JSON value.
pub open spec fn items_in(value: Option<Tree>) -> Seq<Tree> {
    match value {
        Some(t) => match json::field(t, "items"@) {
            Some(Tree::List(items)) => items,
            _ => Seq::empty(),
        },
        None => Seq::empty(),
    }
}

/// The events in an answer, or the message about an answer that is no JSON,
/// where `written` is what it is written again and `value` its value.
pub open spec fn answered(
    answer: Seq<char>,
    written: Result<Seq<char>, Seq<char>>,
    value: Option<Tree>,
) -> Result<Seq<Tree>, Seq<char>> {
    match written {
        Ok(_) => Ok(items_in(value)),
        Err(e) => Err(
            "eventlog_query возврат не JSON: "@ + e + "\nbody[:500]="@ + text::first(answer, 500),
        ),
    }
}

/// The events in an answer, by their views.
pub open spec fn items_view(r: Result<Vec<Json>, String>) -> Result<Seq<Tree>, Seq<char>> {
    match r {
        Ok(items) => Ok(json::trees(items@)),
        Err(e) => Err(e@),
    }
}

/// The events in the value of an answer, each still a JSON value.
fn take_items(value: Option<Json>) -> (r: Vec<Json>)
    ensures
        json::trees(r@) == items_in(json::opt_tree(value)),
{
    match value {
        Some(v) => match v.into_field("items") {
            Some(Json::List(items)) => items,
            _ => Vec::new(),
        },
        None => Vec::new(),
    }
}

/// The events in an answer, or the message about an answer that is no JSON,
/// where `written` is what it is written again and `value` its value.
pub fn judge_answer(answer: &str, written: Result<String, String>, value: Option<Json>) -> (r: Result<
    Vec<Json>,
    String,
>)
    ensures
        items_view(r) == answered(answer@, json::text_result(written), json::opt_tree(value)),
{
    match written {
        Ok(_) => Ok(take_items(value)),
        Err(e) => {
            let mut m = "eventlog_query возврат не JSON: ".to_owned();
            m.append(&e);
            m.append("\nbody[:500]=");
            let head = text::first_chars(answer, 500);
            m.append(&head);
            Err(m)
        },
    }
}

/// The events in an answer, each still a JSON value, or the message about an
/// answer that is no JSON.
pub fn answered_items(answer: &str) -> (r: Result<Vec<Json>, String>)
    ensures
        items_view(r) == answered(answer@, json::json_text(answer@), json::json(answer@)),
{
    judge_answer(answer, json::write_again(answer), json::parse_json(answer))
}

/// The event was dealt with: it is of the last time, and its hash is kept.
pub open spec fn is_seen(state: BaseState, e: LogEvent) -> bool {
    state.last_processed_at matches Some(at) && e.date@ == at@ && text::views(
        state.processed_hashes_at_last_dt@,
    ).contains(event_hash(e))
}

/// The events that were not dealt with, in their order.
pub open spec fn unseen(state: BaseState, events: Seq<LogEvent>) -> Seq<LogEvent>
    decreases events.len(),
{
    if events.len() == 0 {
        Seq::empty()
    } else if is_seen(state, events.last()) {
        unseen(state, events.drop_last())
    } else {
        unseen(state, events.drop_last()).push(events.last())
    }
}

/// Whether a text is in a list.
fn list_has(list: &Vec<String>, s: &str) -> (r: bool)
    ensures
        r == text::views(list@).contains(s@),
{
    let ghost all = text::views(list@);
    for i in 0..list.len()
        invariant
            all == text::views(list@),
            forall|k: int| 0 <= k < i ==> #[trigger] all[k] != s@,
    {
        assert(all[i as int] == list@[i as int]@);
        if text::same(&list[i], s) {
            return true;
        }
    }
    false
}

/// Whether an event was dealt with.
pub fn was_seen(state: &BaseState, e: &LogEvent) -> (r: bool)
    ensures
        r == is_seen(*state, *e),
{
    match &state.last_processed_at {
        Some(at) => e.date == *at && list_has(&state.processed_hashes_at_last_dt, &e.hash()),
        None => false,
    }
}

/// The events of a reply that were not dealt with, in the order of their time.
pub fn query_new_events(state: &BaseState, events: Vec<LogEvent>) -> (r: Vec<LogEvent>)
    ensures
        r@ == sorting::in_order(unseen(*state, events@)),
{
    let ghost all = events@;
    let mut rest = events;
    let mut out: Vec<LogEvent> = Vec::new();
    let n: usize = rest.len();
    for i in 0..n
        invariant
            n == all.len(),
            rest@ == all.skip(i as int),
            out@ == unseen(*state, all.take(i as int)),
    {
        assert(all.take(i + 1).drop_last() =~= all.take(i as int));
        let e = rest.remove(0);
        assert(rest@ =~= all.skip(i + 1));
        if !was_seen(state, &e) {
            out.push(e);
        }
    }
    assert(all.take(n as int) =~= all);
    sorting::sort_by_name(out)
}

/// The latest time of events.
pub open spec fn latest(events: Seq<LogEvent>) -> Seq<char>
    decreases events.len(),
{
    if events.len() == 0 {
        Seq::empty()
    } else if events.len() == 1 || before(latest(events.drop_last()), events.last().date@) {
        events.last().date@
    } else {
        latest(events.drop_last())
    }
}

/// The hashes of the events of a time, in their order.
pub open spec fn hashes_at(events: Seq<LogEvent>, at: Seq<char>) -> Seq<Seq<char>>
    decreases events.len(),
{
    if events.len() == 0 {
        Seq::empty()
    } else if events.last().date@ == at {
        hashes_at(events.drop_last(), at).push(event_hash(events.last()))
    } else {
        hashes_at(events.drop_last(), at)
    }
}

/// The hashes that are kept for a time once the events are dealt with: those of
/// the events of that time, behind those that were kept for it before.
pub open spec fn hashes_kept(state: BaseState, events: Seq<LogEvent>, at: Seq<char>) -> Seq<
    Seq<char>,
> {
    match state.last_processed_at {
        Some(last) => if last@ == at {
            text::views(state.processed_hashes_at_last_dt@) + hashes_at(events, at)
        } else {
            hashes_at(events, at)
        },
        None => hashes_at(events, at),
    }
}

/// `after` is what is remembered once the events are dealt with.
pub open spec fn is_marked(state: BaseState, after: BaseState, events: Seq<LogEvent>) -> bool {
    if events.len() == 0 {
        after == state
    } else {
        &&& after.last_processed_at matches Some(at)
        &&& at@ == latest(events)
        &&& text::views(after.processed_hashes_at_last_dt@) == hashes_kept(
            state,
            events,
            latest(events),
        )
        &&& after.alias == state.alias
        &&& after.last_checked_at == state.last_checked_at
        &&& after.last_export_status == state.last_export_status
        &&& after.last_export_duration_sec == state.last_export_duration_sec
        &&& after.consecutive_failures == state.consecutive_failures
        &&& after.storage_mapping == state.storage_mapping
        &&& after.sql_signals == state.sql_signals
    }
}

/// Remembers that events are dealt with: the latest of their times, and the
/// hashes of the events of that time, with those that were kept for it before.
pub fn mark_events_processed(state: &mut BaseState, events: &[LogEvent])
    ensures
        is_marked(*old(state), *final(state), events@),
{
    let n: usize = events.len();
    if n == 0 {
        return;
    }
    let ghost all = events@;
    let mut at = events[0].date.clone();
    assert(all.take(1).drop_last() =~= Seq::empty());
    for i in 1..n
        invariant
            n == all.len(),
            all == events@,
            at@ == latest(all.take(i as int)),
    {
        assert(all.take(i + 1).drop_last() =~= all.take(i as int));
        if is_before(&at, &events[i].date) {
            at = events[i].date.clone();
        }
    }
    assert(all.take(n as int) =~= all);
    let same_time = match &state.last_processed_at {
        Some(last) => text::same(last, &at),
        None => false,
    };
    let mut hashes: Vec<String> = Vec::new();
    if same_time {
        std::mem::swap(&mut hashes, &mut state.processed_hashes_at_last_dt);
    }
    let ghost kept = text::views(hashes@);
    assert(kept + hashes_at(all.take(0), at@) =~= kept);
    for i in 0..n
        invariant
            n == all.len(),
            all == events@,
            text::views(hashes@) == kept + hashes_at(all.take(i as int), at@),
    {
        assert(all.take(i + 1).drop_last() =~= all.take(i as int));
        if events[i].date == at {
            let ghost before = hashes@;
            let hash = events[i].hash();
            hashes.push(hash);
            assert(text::views(hashes@) =~= text::views(before).push(hash@));
            assert(text::views(hashes@) =~= kept + hashes_at(all.take(i + 1), at@));
        }
    }
    if !same_time {
        assert(kept =~= Seq::empty());
        assert(kept + hashes_at(all, at@) =~= hashes_at(all, at@));
    }
    state.last_processed_at = Some(at);
    state.processed_hashes_at_last_dt = hashes;
}

// Laws.

proof fn lemma_unseen(state: BaseState, events: Seq<LogEvent>, e: LogEvent)
    ensures
        unseen(state, events).contains(e) <==> events.contains(e) && !is_seen(state, e),
    decreases events.len(),
{
    if events.len() > 0 {
        let e0 = events.drop_last();
        lemma_unseen(state, e0, e);
        let u0 = unseen(state, e0);
        let u = unseen(state, events);
        if events.contains(e) {
            let i = events.index_of(e);
            if i < e0.len() {
                assert(e0[i] == e);
            }
        }
        if e0.contains(e) {
            let i = e0.index_of(e);
            assert(events[i] == e);
        }
        if u0.contains(e) {
            let i = u0.index_of(e);
            assert(u[i] == e);
        }
        if u.contains(e) {
            let i = u.index_of(e);
            if i < u0.len() {
                assert(u0[i] == e);
            } else {
                assert(events[events.len() - 1] == e);
            }
        }
        if !is_seen(state, events.last()) {
            assert(u[u.len() - 1] == events.last());
        }
        assert(events[events.len() - 1] == events.last());
    }
}

/// No event of a reply is lost, and none that was dealt with is given again:
/// the new events are exactly those of the reply that were not dealt with.
pub proof fn new_events_are_the_unseen_ones(state: BaseState, events: Seq<LogEvent>, e: LogEvent)
    ensures
        sorting::in_order(unseen(state, events)).contains(e) <==> events.contains(e) && !is_seen(
            state,
            e,
        ),
{
    broadcast use vstd::seq_lib::group_to_multiset_ensures;

    lemma_unseen(state, events, e);
    let u = unseen(state, events);
    let s = sorting::in_order(u);
    sorting::sorting_keeps_every_item(u);
    assert(s.to_multiset().count(e) == u.to_multiset().count(e));
    assert(s.contains(e) <==> s.to_multiset().count(e) > 0);
    assert(u.contains(e) <==> u.to_multiset().count(e) > 0);
}

proof fn lemma_latest(events: Seq<LogEvent>, i: int)
    requires
        0 <= i < events.len(),
    ensures
        !before(latest(events), events[i].date@),
    decreases events.len(),
{
    let e0 = events.drop_last();
    let last = events.last().date@;
    if events.len() == 1 {
        lemma_before_irreflexive(last);
    } else {
        let m = latest(e0);
        if i < e0.len() {
            lemma_latest(e0, i);
            if before(m, last) && before(last, e0[i].date@) {
                lemma_before_transitive(m, last, e0[i].date@);
            }
        } else {
            lemma_before_irreflexive(last);
        }
        assert(i < e0.len() ==> events[i] == e0[i]);
    }
}

proof fn lemma_hashes_at(events: Seq<LogEvent>, at: Seq<char>, i: int)
    requires
        0 <= i < events.len(),
        events[i].date@ == at,
    ensures
        hashes_at(events, at).contains(event_hash(events[i])),
    decreases events.len(),
{
    let e0 = events.drop_last();
    let h = hashes_at(events, at);
    if i < e0.len() {
        lemma_hashes_at(e0, at, i);
        let h0 = hashes_at(e0, at);
        let k = h0.index_of(event_hash(e0[i]));
        assert(h[k] == event_hash(events[i]));
    } else {
        assert(h[h.len() - 1] == event_hash(events[i]));
    }
}

/// The event was dealt with: it is earlier than the time that is remembered, or
/// it is of that time and known.
pub open spec fn is_dealt_with(state: BaseState, e: LogEvent) -> bool {
    state.last_processed_at matches Some(at) && (before(e.date@, at@) || is_seen(state, e))
}

/// No event is earlier than the time that is remembered: what a query from that
/// time on gives.
pub open spec fn none_earlier(state: BaseState, events: Seq<LogEvent>) -> bool {
    state.last_processed_at matches Some(at) ==> forall|i: int|
        0 <= i < events.len() ==> !before((#[trigger] events[i]).date@, at@)
}

/// Events were given and marked one batch after another: `states` are what was
/// remembered before the first, between them and after the last.
pub open spec fn is_history(states: Seq<BaseState>, batches: Seq<Seq<LogEvent>>) -> bool {
    &&& states.len() == batches.len() + 1
    &&& forall|j: int|
        #![trigger batches[j]]
        0 <= j < batches.len() ==> is_marked(states[j], states[j + 1], batches[j])
            && none_earlier(states[j], batches[j])
}

proof fn lemma_marked_is_dealt_with(
    state: BaseState,
    after: BaseState,
    events: Seq<LogEvent>,
    i: int,
)
    requires
        is_marked(state, after, events),
        0 <= i < events.len(),
    ensures
        is_dealt_with(after, events[i]),
{
    let at = latest(events);
    lemma_latest(events, i);
    lemma_before_total(at, events[i].date@);
    if events[i].date@ == at {
        lemma_hashes_at(events, at, i);
        let new = hashes_at(events, at);
        let kept = hashes_kept(state, events, at);
        let k = new.index_of(event_hash(events[i]));
        assert(kept[kept.len() - new.len() + k] == new[k]);
        assert(kept.contains(event_hash(events[i])));
    }
}

proof fn lemma_latest_is_of_an_event(events: Seq<LogEvent>) -> (i: int)
    requires
        events.len() > 0,
    ensures
        0 <= i < events.len(),
        events[i].date@ == latest(events),
    decreases events.len(),
{
    let e0 = events.drop_last();
    if events.len() == 1 || before(latest(e0), events.last().date@) {
        events.len() - 1
    } else {
        let i = lemma_latest_is_of_an_event(e0);
        assert(events[i] == e0[i]);
        i
    }
}

/// What was dealt with stays so when later events, or further ones of the time
/// that is remembered, are marked.
proof fn lemma_stays_dealt_with(
    state: BaseState,
    after: BaseState,
    events: Seq<LogEvent>,
    e: LogEvent,
)
    requires
        is_marked(state, after, events),
        none_earlier(state, events),
        is_dealt_with(state, e),
    ensures
        is_dealt_with(after, e),
{
    if events.len() > 0 {
        let at = latest(events);
        let last = state.last_processed_at->0@;
        let i = lemma_latest_is_of_an_event(events);
        lemma_before_total(last, at);
        if before(last, at) {
            if before(e.date@, last) {
                lemma_before_transitive(e.date@, last, at);
            }
        } else {
            assert(last == at);
            if !before(e.date@, last) {
                let old = text::views(state.processed_hashes_at_last_dt@);
                let kept = hashes_kept(state, events, at);
                let k = old.index_of(event_hash(e));
                assert(kept[k] == old[k]);
                assert(kept.contains(event_hash(e)));
            }
        }
    }
}

proof fn lemma_history(
    states: Seq<BaseState>,
    batches: Seq<Seq<LogEvent>>,
    k: int,
    i: int,
    n: int,
)
    requires
        is_history(states, batches),
        0 <= k < n <= batches.len(),
        0 <= i < batches[k].len(),
    ensures
        is_dealt_with(states[n], batches[k][i]),
    decreases n - k,
{
    let last = batches[n - 1];
    if n == k + 1 {
        lemma_marked_is_dealt_with(states[k], states[n], last, i);
    } else {
        lemma_history(states, batches, k, i, n - 1);
        lemma_stays_dealt_with(states[n - 1], states[n], last, batches[k][i]);
    }
}

/// No event is dealt with twice: an event of any batch that was marked is not
/// among the new events of any later reply to a query from the time that is
/// remembered.
pub proof fn no_event_is_dealt_with_twice(
    states: Seq<BaseState>,
    batches: Seq<Seq<LogEvent>>,
    k: int,
    i: int,
    reply: Seq<LogEvent>,
)
    requires
        is_history(states, batches),
        0 <= k < batches.len(),
        0 <= i < batches[k].len(),
        none_earlier(states.last(), reply),
    ensures
        is_dealt_with(states.last(), batches[k][i]),
        !sorting::in_order(unseen(states.last(), reply)).contains(batches[k][i]),
{
    let e = batches[k][i];
    lemma_history(states, batches, k, i, batches.len() as int);
    new_events_are_the_unseen_ones(states.last(), reply, e);
    if reply.contains(e) {
        let j = reply.index_of(e);
        assert(reply[j] == e);
    }
}

/// An event that is later than all that were dealt with is always given.
pub proof fn later_events_are_given(
    state: BaseState,
    after: BaseState,
    events: Seq<LogEvent>,
    e: LogEvent,
)
    requires
        is_marked(state, after, events),
        events.len() > 0,
        before(latest(events), e.date@),
    ensures
        !is_seen(after, e),
{
    lemma_before_irreflexive(e.date@);
}

/// An event is known by six of its fields, under the names of the log; its hash
/// is the digest of their JSON notation.
pub proof fn event_is_known_by_its_fields(e: LogEvent)
    ensures
        event_hash(e) == text::hex(
            codec::sha256_digest(
                json::object_text(
                    seq![
                        ("Дата"@, e.date@),
                        ("Событие"@, e.event@),
                        ("ИмяПользователя"@, e.user@),
                        ("Метаданные"@, e.metadata@),
                        ("Комментарий"@, e.comment@),
                        ("ПредставлениеДанных"@, e.data_pres@),
                    ],
                ),
            ),
            'a',
        ),
{
}

/// The log is asked for the events of the given names from the given time on, a
/// limited number of them.
pub proof fn log_is_asked_from_a_time(from: Seq<char>, events: Seq<Seq<char>>)
    ensures
        json::text_field(query_of(from, events), "from"@) == Some(from),
        json::field(query_of(from, events), "limit"@) == Some(Tree::Number(text::dec(500))),
        json::field(query_of(from, events), "filter"@) matches Some(f) && json::field(f, "events"@)
            == Some(Tree::List(events.map_values(|s: Seq<char>| Tree::Text(s)))),
{
    let filter = ("filter"@, Tree::Object(seq![("events"@, Tree::List(json::text_trees(events)))]));
    let start = ("from"@, Tree::Text(from));
    let limit = ("limit"@, Tree::Number(text::dec(500)));
    let all = seq![filter, start, limit];
    reveal_strlit("filter");
    reveal_strlit("from");
    reveal_strlit("limit");
    assert("filter"@.len() == 6 && "from"@.len() == 4 && "limit"@.len() == 5);
    assert(query_of(from, events) == Tree::Object(all));
    assert(all.drop_last() =~= seq![filter, start]);
    assert(seq![filter, start].drop_last() =~= seq![filter]);
    assert(json::field_in(seq![filter], "filter"@) == Some(filter.1));
    assert(json::field_in(seq![filter, start], "filter"@) == Some(filter.1));
    assert(json::field_in(seq![filter, start], "from"@) == Some(start.1));
    assert(json::field_in(all, "from"@) == Some(start.1));
    assert(json::field_in(all, "filter"@) == Some(filter.1));
    let inner = seq![("events"@, Tree::List(json::text_trees(events)))];
    assert(json::field_in(inner, "events"@) == Some(inner[0].1));
    assert(json::text_trees(events) =~= events.map_values(|s: Seq<char>| Tree::Text(s)));
}

/// The events of an answer are the items that it lists; an answer that is no
/// JSON is an error that shows its beginning.
pub proof fn answer_lists_its_events(
    answer: Seq<char>,
    written: Result<Seq<char>, Seq<char>>,
    value: Option<Tree>,
)
    ensures
        match answered(answer, written, value) {
            Ok(items) => written is Ok && match value {
                Some(t) => match json::field(t, "items"@) {
                    Some(Tree::List(v)) => items == v,
                    _ => items.len() == 0,
                },
                None => items.len() == 0,
            },
            Err(e) => written matches Err(why) && e == "eventlog_query возврат не JSON: "@ + why
                + "\nbody[:500]="@ + text::first(answer, 500),
        },
{
}

/// An event was dealt with where it is of the very time that is remembered and
/// its hash is one of those kept for it.
pub proof fn seen_events_have_a_kept_hash(state: BaseState, e: LogEvent)
    ensures
        is_seen(state, e) <==> state.last_processed_at is Some && state.last_processed_at->Some_0@
            == e.date@ && (exists|i: int|
            0 <= i < state.processed_hashes_at_last_dt@.len()
                && (#[trigger] state.processed_hashes_at_last_dt@[i])@ == event_hash(e)),
{
    let v = state.processed_hashes_at_last_dt@;
    let w = text::views(v);
    if w.contains(event_hash(e)) {
        let k = w.index_of(event_hash(e));
        assert(w[k] == v[k]@);
    }
    if exists|i: int| 0 <= i < v.len() && (#[trigger] v[i])@ == event_hash(e) {
        let i = choose|i: int| 0 <= i < v.len() && (#[trigger] v[i])@ == event_hash(e);
        assert(w[i] == event_hash(e));
    }
}

/// The latest time of events is that of one of them, and none is later.
pub proof fn latest_time_is_the_greatest(events: Seq<LogEvent>, i: int)
    requires
        0 <= i < events.len(),
    ensures
        !before(latest(events), events[i].date@),
        exists|k: int| 0 <= k < events.len() && (#[trigger] events[k]).date@ == latest(events),
    decreases events.len(),
{
    let n = events.len() - 1;
    let rest = events.drop_last();
    let l = latest(events);
    if n == 0 {
        lemma_before_irreflexive(l);
        assert(events[0].date@ == l);
    } else {
        if i < n {
            latest_time_is_the_greatest(rest, i);
            assert(rest[i] == events[i]);
        } else {
            latest_time_is_the_greatest(rest, 0);
        }
        let l0 = latest(rest);
        if before(l0, events[n].date@) {
            lemma_before_irreflexive(l);
            assert(events[n].date@ == l);
            if i < n && before(l, events[i].date@) {
                lemma_before_transitive(l0, l, events[i].date@);
            }
        } else {
            let k = choose|k: int| 0 <= k < rest.len() && (#[trigger] rest[k]).date@ == l0;
            assert(events[k].date@ == l);
        }
    }
}

/// The hashes that are kept are those of the events of the time that is
/// remembered, and of that time alone.
pub proof fn hashes_of_the_latest_time_are_kept(
    events: Seq<LogEvent>,
    more: LogEvent,
    at: Seq<char>,
)
    ensures
        hashes_at(events.push(more), at) == if more.date@ == at {
            hashes_at(events, at).push(event_hash(more))
        } else {
            hashes_at(events, at)
        },
        hashes_at(Seq::empty(), at).len() == 0,
{
    assert(events.push(more).drop_last() =~= events);
}

/// What is remembered of events that were dealt with is the latest time and the
/// hashes of that time, with those that were kept for it; nothing else of the state
/// changes, and nothing at all where there was no event.
pub proof fn latest_second_is_remembered(
    state: BaseState,
    after: BaseState,
    events: Seq<LogEvent>,
)
    requires
        is_marked(state, after, events),
    ensures
        events.len() == 0 ==> after == state,
        events.len() > 0 ==> {
            &&& after.last_processed_at matches Some(at) && at@ == latest(events)
            &&& text::views(after.processed_hashes_at_last_dt@) == match state.last_processed_at {
                Some(last) => if last@ == latest(events) {
                    text::views(state.processed_hashes_at_last_dt@) + hashes_at(
                        events,
                        latest(events),
                    )
                } else {
                    hashes_at(events, latest(events))
                },
                None => hashes_at(events, latest(events)),
            }
            &&& after.alias == state.alias && after.last_checked_at == state.last_checked_at
            &&& after.last_export_status == state.last_export_status
            &&& after.last_export_duration_sec == state.last_export_duration_sec
            &&& after.consecutive_failures == state.consecutive_failures
            &&& after.storage_mapping == state.storage_mapping && after.sql_signals
                == state.sql_signals
        },
{
}

} // verus!
