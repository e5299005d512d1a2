//! The subscription hub: which connections are open, which topics each of
//! them follows, and the fan-out of an event to a topic's subscribers.

use std::collections::HashMap;
use std::collections::HashSet;
use tokio::sync::mpsc;
use tokio::sync::watch;
use vstd::prelude::*;

use crate::channel::{close_signals, offers, signal_close, try_deliver, DeliveryOutcome};
use crate::protocol::{EventView, ServerEvent};

verus! {

broadcast use vstd::std_specs::hash::group_hash_axioms;

/// The hub as callers see it: each open connection with the set of topics
/// it follows, and the identifier that the next connection will get.
#[verifier::ext_equal]
pub struct HubView {
    pub connections: Map<u64, Set<Seq<char>>>,
    pub next_connection_id: u64,
}

impl HubView {
    /// The connections that follow `topic`.
    pub open spec fn members(self, topic: Seq<char>) -> Set<u64> {
        self.connections.dom().filter(|id: u64| self.connections[id].contains(topic))
    }

    /// Identifiers start at 1 and every open connection's identifier was
    /// handed out before `next_connection_id`.
    pub open spec fn valid(self) -> bool {
        &&& 1 <= self.next_connection_id
        &&& self.connections.dom().finite()
        &&& forall|id: u64|
            #[trigger] self.connections.dom().contains(id) ==> 1 <= id
                < self.next_connection_id
    }

    /// The hub after a new connection is registered.
    pub open spec fn registered(self) -> HubView {
        HubView {
            connections: self.connections.insert(self.next_connection_id, Set::empty()),
            next_connection_id: (self.next_connection_id + 1) as u64,
        }
    }

    /// The hub after connection `id` subscribes to `topic`; an unknown
    /// connection leaves it unchanged.
    pub open spec fn subscribed(self, id: u64, topic: Seq<char>) -> HubView {
        if self.connections.dom().contains(id) {
            HubView {
                connections: self.connections.insert(id, self.connections[id].insert(topic)),
                next_connection_id: self.next_connection_id,
            }
        } else {
            self
        }
    }

    /// The hub after the connections in `ids` are dropped.
    pub open spec fn without(self, ids: Set<u64>) -> HubView {
        HubView {
            connections: self.connections.remove_keys(ids),
            next_connection_id: self.next_connection_id,
        }
    }

    /// The hub after connection `id` is dropped.
    pub open spec fn unregistered(self, id: u64) -> HubView {
        self.without(set![id])
    }
}

/// Subscribing a connection to a topic it already follows changes nothing.
pub proof fn lemma_subscribe_idempotent(v: HubView, id: u64, topic: Seq<char>)
    ensures
        v.subscribed(id, topic).subscribed(id, topic) == v.subscribed(id, topic),
{
    if v.connections.dom().contains(id) {
        assert(v.connections[id].insert(topic).insert(topic) =~= v.connections[id].insert(topic));
        assert(v.subscribed(id, topic).subscribed(id, topic).connections =~= v.subscribed(
            id,
            topic,
        ).connections);
    }
}

/// After a subscription, the topic's followers are the old ones plus the
/// connection, when it is open; every other topic keeps its followers.
pub proof fn lemma_subscribe_members(v: HubView, id: u64, topic: Seq<char>, other: Seq<char>)
    requires
        other != topic,
    ensures
        v.subscribed(id, topic).members(topic) == if v.connections.dom().contains(id) {
            v.members(topic).insert(id)
        } else {
            v.members(topic)
        },
        v.subscribed(id, topic).members(other) == v.members(other),
{
    assert(v.subscribed(id, topic).members(topic) =~= if v.connections.dom().contains(id) {
        v.members(topic).insert(id)
    } else {
        v.members(topic)
    });
    assert(v.subscribed(id, topic).members(other) =~= v.members(other));
}

/// A registered connection gets an identifier that no open connection
/// has, and the hub stays valid.
pub proof fn lemma_register_fresh(v: HubView)
    requires
        v.valid(),
        v.next_connection_id < u64::MAX,
    ensures
        !v.connections.dom().contains(v.next_connection_id),
        v.registered().valid(),
        v.registered().connections.dom().contains(v.next_connection_id),
        v.registered().connections[v.next_connection_id] == Set::<Seq<char>>::empty(),
{
    assert(v.registered().connections.dom() =~= v.connections.dom().insert(v.next_connection_id));
}

/// The hub after `n` registrations.
pub open spec fn registered_times(v: HubView, n: nat) -> HubView
    decreases n,
{
    if n == 0 {
        v
    } else {
        registered_times(v, (n - 1) as nat).registered()
    }
}

/// The hub after connection `id` subscribes to each of `topics` in turn.
pub open spec fn subscribed_all(v: HubView, id: u64, topics: Seq<Seq<char>>) -> HubView
    decreases topics.len(),
{
    if topics.len() == 0 {
        v
    } else {
        subscribed_all(v, id, topics.drop_last()).subscribed(id, topics.last())
    }
}

/// `n` registrations move the next identifier on by `n` and keep the hub
/// valid, so each of them hands out the identifier after the previous one.
pub proof fn lemma_register_sequence(v: HubView, n: nat)
    requires
        v.valid(),
        v.next_connection_id + n <= u64::MAX,
    ensures
        registered_times(v, n).next_connection_id == v.next_connection_id + n,
        registered_times(v, n).valid(),
    decreases n,
{
    if n > 0 {
        lemma_register_sequence(v, (n - 1) as nat);
        lemma_register_fresh(registered_times(v, (n - 1) as nat));
    }
}

/// On a new hub, the k-th registration returns `k`: before it, `k - 1`
/// registrations have moved the next identifier from 1 to `k`.
pub proof fn lemma_kth_register(k: nat)
    requires
        1 <= k < u64::MAX,
    ensures
        registered_times(
            HubView { connections: Map::empty(), next_connection_id: 1 },
            (k - 1) as nat,
        ).next_connection_id == k,
{
    let v = HubView { connections: Map::<u64, Set<Seq<char>>>::empty(), next_connection_id: 1 };
    assert(v.connections.dom() =~= Set::empty());
    lemma_register_sequence(v, (k - 1) as nat);
}

/// Registering a connection changes no topic's followers, and the new
/// connection follows no topic.
pub proof fn lemma_register_members(v: HubView, topic: Seq<char>)
    requires
        v.valid(),
    ensures
        v.registered().members(topic) == v.members(topic),
        !v.registered().members(topic).contains(v.next_connection_id),
{
    assert(v.registered().members(topic) =~= v.members(topic));
}

/// Subscriptions of `id` change no other connection and keep `id` open.
proof fn lemma_subscribed_all_elsewhere(w: HubView, id: u64, topics: Seq<Seq<char>>)
    requires
        w.connections.dom().contains(id),
    ensures
        subscribed_all(w, id, topics).connections.remove(id) == w.connections.remove(id),
        subscribed_all(w, id, topics).connections.dom().contains(id),
        subscribed_all(w, id, topics).next_connection_id == w.next_connection_id,
    decreases topics.len(),
{
    if topics.len() > 0 {
        lemma_subscribed_all_elsewhere(w, id, topics.drop_last());
        let u = subscribed_all(w, id, topics.drop_last());
        assert(u.subscribed(id, topics.last()).connections.remove(id) =~= u.connections.remove(
            id,
        ));
    }
}

/// Registering a connection, subscribing it to any topics, and dropping it
/// again leaves every open connection, and so every topic's followers, as
/// they were.
pub proof fn lemma_register_subscribe_unregister(
    v: HubView,
    topics: Seq<Seq<char>>,
    topic: Seq<char>,
)
    requires
        v.valid(),
    ensures
        subscribed_all(v.registered(), v.next_connection_id, topics).unregistered(
            v.next_connection_id,
        ).connections == v.connections,
        subscribed_all(v.registered(), v.next_connection_id, topics).unregistered(
            v.next_connection_id,
        ).members(topic) == v.members(topic),
{
    let id = v.next_connection_id;
    lemma_subscribed_all_elsewhere(v.registered(), id, topics);
    let after = subscribed_all(v.registered(), id, topics).unregistered(id);
    assert(after.connections =~= subscribed_all(v.registered(), id, topics).connections.remove(
        id,
    ));
    assert(v.registered().connections.remove(id) =~= v.connections);
    assert(after.members(topic) =~= v.members(topic));
}

/// Registering a connection and dropping it again leaves the open
/// connections as they were.
pub proof fn lemma_register_then_unregister(v: HubView)
    requires
        v.valid(),
        v.next_connection_id < u64::MAX,
    ensures
        v.registered().unregistered(v.next_connection_id).connections == v.connections,
{
    assert(v.registered().unregistered(v.next_connection_id).connections =~= v.connections);
}

/// Dropping a connection takes it out of every topic and leaves every
/// other follower in place.
pub proof fn lemma_unregister_members(v: HubView, id: u64, topic: Seq<char>)
    ensures
        v.unregistered(id).members(topic) == v.members(topic).remove(id),
        !v.unregistered(id).connections.dom().contains(id),
{
    assert(v.unregistered(id).members(topic) =~= v.members(topic).remove(id));
}

/// After a broadcast, a follower whose event was queued is still open and
/// keeps its topics; a follower whose queue was full or whose receiver was
/// gone is no longer open.
pub proof fn lemma_broadcast_outcomes(v: HubView, report: Seq<Delivery>, i: int)
    requires
        reported_ids(report).no_duplicates(),
        0 <= i < report.len(),
    ensures
        report[i].outcome == DeliveryOutcome::Delivered ==> (v.without(
            undelivered(report),
        ).connections.dom().contains(report[i].connection_id) == v.connections.dom().contains(
            report[i].connection_id,
        ) && (v.connections.dom().contains(report[i].connection_id) ==> v.without(
            undelivered(report),
        ).connections[report[i].connection_id] == v.connections[report[i].connection_id])),
        report[i].outcome != DeliveryOutcome::Delivered ==> !v.without(
            undelivered(report),
        ).connections.dom().contains(report[i].connection_id),
{
    let id = report[i].connection_id;
    if report[i].outcome == DeliveryOutcome::Delivered {
        if undelivered(report).contains(id) {
            let j = choose|j: int|
                0 <= j < report.len() && #[trigger] report[j].connection_id == id
                    && report[j].outcome != DeliveryOutcome::Delivered;
            assert(reported_ids(report)[i] == reported_ids(report)[j]);
        }
    } else {
        assert(undelivered(report).contains(id));
    }
}

/// What has been handed to one connection: every event offered to its
/// queue with what the offer returned, and the flags sent on its close
/// signal.
#[verifier::ext_equal]
pub struct Journal {
    pub offers: Seq<(EventView, DeliveryOutcome)>,
    pub close_signals: Seq<bool>,
}

/// The `queue_overflow` error offered to a connection whose queue is full.
pub open spec fn overflow_notice() -> EventView {
    EventView::Error {
        code: "queue_overflow"@,
        message: "connection outbound queue overflowed; closing socket"@,
    }
}

/// How one follower's journal changes when `event` is broadcast and the
/// offer of it returned `outcome`: the event is offered exactly once and
/// the offer's result is recorded; a queued event leads to nothing else; a
/// full queue is then offered the overflow notice once and sent the close
/// signal; a gone receiver is sent the close signal and nothing else.
pub open spec fn journal_after(
    before: Journal,
    outcome: DeliveryOutcome,
    event: EventView,
    after: Journal,
) -> bool {
    match outcome {
        DeliveryOutcome::Delivered => after == Journal {
            offers: before.offers.push((event, outcome)),
            close_signals: before.close_signals,
        },
        DeliveryOutcome::QueueFull => {
            &&& after.offers.len() == before.offers.len() + 2
            &&& after.offers.drop_last() == before.offers.push((event, outcome))
            &&& after.offers.last().0 == overflow_notice()
            &&& after.close_signals == before.close_signals.push(true)
        },
        DeliveryOutcome::Closed => after == Journal {
            offers: before.offers.push((event, outcome)),
            close_signals: before.close_signals.push(true),
        },
    }
}

/// During a broadcast every follower is offered the event exactly once and
/// the offer's result is what the report records; a follower whose event
/// was queued is not told to close; every other follower is told to close
/// once, with `true`.
pub proof fn lemma_journal_after_meaning(
    before: Journal,
    outcome: DeliveryOutcome,
    event: EventView,
    after: Journal,
)
    requires
        journal_after(before, outcome, event, after),
    ensures
        after.offers.len() > before.offers.len(),
        after.offers[before.offers.len() as int] == (event, outcome),
        after.offers.take(before.offers.len() as int) == before.offers,
        outcome == DeliveryOutcome::Delivered ==> after.offers.len() == before.offers.len() + 1
            && after.close_signals == before.close_signals,
        outcome != DeliveryOutcome::Delivered ==> after.close_signals == before.close_signals.push(
            true,
        ),
        outcome == DeliveryOutcome::Closed ==> after.offers.len() == before.offers.len() + 1,
        outcome == DeliveryOutcome::QueueFull ==> after.offers.len() == before.offers.len() + 2
            && after.offers[before.offers.len() as int + 1].0 == overflow_notice(),
{
    let n = before.offers.len() as int;
    if outcome == DeliveryOutcome::QueueFull {
        assert(after.offers[n] == after.offers.drop_last()[n]);
        assert(after.offers.take(n) =~= after.offers.drop_last().take(n));
        assert(before.offers.push((event, outcome)).take(n) =~= before.offers);
    } else {
        assert(after.offers.take(n) =~= before.offers);
    }
}

/// One connection's side of the hub. Its topics are a vector without
/// duplicates rather than a `HashSet<String>`, for the same reason as the
/// topic entries below.
struct ConnectionHandle {
    sender: mpsc::Sender<ServerEvent>,
    close_tx: watch::Sender<bool>,
    topics: Vec<String>,
}

/// The connections that follow one topic. Topics are kept in a vector of
/// entries rather than a map keyed by `String`: vstd specifies `HashMap` and
/// `HashSet` only for keys with a key model, and `String` has none.
struct TopicEntry {
    topic: String,
    members: HashSet<u64>,
}

/// Registry of open connections and of the topics they follow.
pub struct TopicHub {
    connections: HashMap<u64, ConnectionHandle>,
    topics: Vec<TopicEntry>,
    next_connection_id: u64,
    journal: Ghost<Map<u64, Journal>>,
}

/// What became of one subscriber during a broadcast.
#[derive(Debug, Clone, Copy, PartialEq, Eq, Structural)]
pub struct Delivery {
    pub connection_id: u64,
    pub outcome: DeliveryOutcome,
}

impl Default for TopicHub {
    fn default() -> (hub: Self)
        ensures
            hub.wf(),
            hub@ == (HubView { connections: Map::empty(), next_connection_id: 1 }),
            hub.journal() == Map::<u64, Journal>::empty(),
    {
        TopicHub::new()
    }
}

impl TopicHub {
    /// Every well-formed hub has a valid view.
    pub proof fn lemma_view_valid(&self)
        requires
            self.wf(),
        ensures
            self@.valid(),
    {
    }
}

/// The connections of a broadcast report whose event was not queued.
pub open spec fn undelivered(report: Seq<Delivery>) -> Set<u64> {
    Set::new(
        |id: u64|
            exists|i: int|
                0 <= i < report.len() && #[trigger] report[i].connection_id == id
                    && report[i].outcome != DeliveryOutcome::Delivered,
    )
}

/// What a broadcast of `event` on `topic` with the given report did to a
/// hub and to the journals: every follower is reported once; the
/// followers whose event was not queued are dropped; each follower's
/// journal changes as `journal_after` says, and no other journal changes.
pub open spec fn fanned_out(
    before: HubView,
    before_journal: Map<u64, Journal>,
    after: HubView,
    after_journal: Map<u64, Journal>,
    topic: Seq<char>,
    event: EventView,
    report: Seq<Delivery>,
) -> bool {
    &&& reported_ids(report).no_duplicates()
    &&& reported_ids(report).to_set() == before.members(topic)
    &&& after == before.without(undelivered(report))
    &&& after_journal.dom() == before_journal.dom()
    &&& forall|i: int|
        0 <= i < report.len() ==> before_journal.contains_key(#[trigger] report[i].connection_id)
            && journal_after(
            before_journal[report[i].connection_id],
            report[i].outcome,
            event,
            after_journal[report[i].connection_id],
        )
    &&& forall|id: u64|
        #[trigger] before_journal.contains_key(id) && !reported_ids(report).contains(id)
            ==> after_journal[id] == before_journal[id]
}

/// Taking one more entry of a report adds its connection to the
/// undelivered ones exactly when its event was not queued.
proof fn lemma_undelivered_step(report: Seq<Delivery>, i: int)
    requires
        0 <= i < report.len(),
    ensures
        undelivered(report.take(i + 1)) == if report[i].outcome != DeliveryOutcome::Delivered {
            undelivered(report.take(i)).insert(report[i].connection_id)
        } else {
            undelivered(report.take(i))
        },
{
    let done = undelivered(report.take(i));
    let next = undelivered(report.take(i + 1));
    assert(report.take(i + 1)[i] == report[i]);
    assert forall|x: u64| #[trigger] done.contains(x) implies next.contains(x) by {
        let j = choose|j: int|
            0 <= j < report.take(i).len() && #[trigger] report.take(i)[j].connection_id == x
                && report.take(i)[j].outcome != DeliveryOutcome::Delivered;
        assert(report.take(i + 1)[j] == report.take(i)[j]);
    }
    assert forall|x: u64| #[trigger] next.contains(x) && x != report[i].connection_id implies done.contains(x) by {
        let j = choose|j: int|
            0 <= j < report.take(i + 1).len() && #[trigger] report.take(i + 1)[j].connection_id == x
                && report.take(i + 1)[j].outcome != DeliveryOutcome::Delivered;
        assert(report.take(i)[j] == report.take(i + 1)[j]);
    }
    assert forall|x: u64| #[trigger] next.contains(x) && report[i].outcome == DeliveryOutcome::Delivered implies done.contains(x) by {
        let j = choose|j: int|
            0 <= j < report.take(i + 1).len() && #[trigger] report.take(i + 1)[j].connection_id == x
                && report.take(i + 1)[j].outcome != DeliveryOutcome::Delivered;
        assert(report.take(i)[j] == report.take(i + 1)[j]);
    }
    if report[i].outcome != DeliveryOutcome::Delivered {
        assert(next =~= done.insert(report[i].connection_id));
    } else {
        assert(next =~= done);
    }
}

/// The connections named in a broadcast report, in order.
pub open spec fn reported_ids(report: Seq<Delivery>) -> Seq<u64> {
    report.map_values(|d: Delivery| d.connection_id)
}

spec fn names(topics: Seq<String>) -> Seq<Seq<char>> {
    topics.map_values(|s: String| s@)
}

spec fn topic_set(handle: ConnectionHandle) -> Set<Seq<char>> {
    names(handle.topics@).to_set()
}

spec fn journal_of(handle: ConnectionHandle) -> Journal {
    Journal {
        offers: offers(handle.sender),
        close_signals: close_signals(handle.close_tx),
    }
}

spec fn entry_names(entries: Seq<TopicEntry>) -> Seq<Seq<char>> {
    entries.map_values(|e: TopicEntry| e.topic@)
}

impl View for TopicHub {
    type V = HubView;

    closed spec fn view(&self) -> HubView {
        HubView {
            connections: self.connections@.map_values(|h: ConnectionHandle| topic_set(h)),
            next_connection_id: self.next_connection_id,
        }
    }
}

impl TopicHub {
    /// The representation invariant: the view is valid, no connection
    /// lists a topic twice, no topic has two entries or an empty entry,
    /// and the topic entries list exactly the connections that follow
    /// their topic.
    pub closed spec fn wf(&self) -> bool {
        &&& self@.valid()
        &&& forall|id: u64|
            #[trigger] self.connections@.contains_key(id) ==> names(
                self.connections@[id].topics@,
            ).no_duplicates()
        &&& entry_names(self.topics@).no_duplicates()
        &&& forall|k: int|
            0 <= k < self.topics@.len() ==> !(#[trigger] self.topics@[k]).members@.is_empty()
        &&& forall|k: int, id: u64|
            #![trigger self.topics@[k].members@.contains(id)]
            #![trigger self.topics@[k], self.follows(id, self.topics@[k].topic@)]
            0 <= k < self.topics@.len() ==> (self.topics@[k].members@.contains(id)
                <==> self.follows(id, self.topics@[k].topic@))
        &&& forall|id: u64, t: Seq<char>|
            #[trigger] self.follows(id, t) ==> entry_names(self.topics@).contains(t)
        &&& forall|id: u64|
            #[trigger] self.connections@.contains_key(id) ==> self.journal@.contains_key(id)
                && self.journal@[id] == journal_of(self.connections@[id])
    }

    /// What has been handed to each connection ever registered, by
    /// identifier; a dropped connection keeps its last journal.
    pub closed spec fn journal(&self) -> Map<u64, Journal> {
        self.journal@
    }

    /// Connection `id` is open and follows topic `t`.
    spec fn follows(&self, id: u64, t: Seq<char>) -> bool {
        self@.connections.dom().contains(id) && self@.connections[id].contains(t)
    }

    /// An empty hub whose first connection will get identifier 1.
    pub fn new() -> (hub: Self)
        ensures
            hub.wf(),
            hub@ == (HubView { connections: Map::empty(), next_connection_id: 1 }),
            hub.journal() == Map::<u64, Journal>::empty(),
    {
        let hub = TopicHub {
            connections: HashMap::new(),
            topics: Vec::new(),
            next_connection_id: 1,
            journal: Ghost(Map::empty()),
        };
        assert(hub@.connections =~= Map::empty());
        hub
    }

    /// Whether one more connection can get an identifier of its own.
    pub fn can_register(&self) -> (b: bool)
        ensures
            b == (self@.next_connection_id < u64::MAX),
    {
        self.next_connection_id < u64::MAX
    }

    /// Registers a connection's queue and close signal under a fresh
    /// identifier, following no topic yet.
    pub fn register(&mut self, sender: mpsc::Sender<ServerEvent>, close_tx: watch::Sender<bool>) -> (id: u64)
        requires
            old(self).wf(),
            old(self)@.next_connection_id < u64::MAX,
        ensures
            final(self).wf(),
            id == old(self)@.next_connection_id,
            !old(self)@.connections.dom().contains(id),
            final(self)@ == old(self)@.registered(),
            final(self).journal() == old(self).journal().insert(
                id,
                Journal { offers: offers(sender), close_signals: close_signals(close_tx) },
            ),
    {
        let id = self.next_connection_id;
        self.next_connection_id = id + 1;
        let handle = ConnectionHandle { sender, close_tx, topics: Vec::new() };
        proof {
            assert(topic_set(handle) =~= Set::empty());
            self.journal = Ghost(self.journal@.insert(id, journal_of(handle)));
        }
        self.connections.insert(id, handle);
        assert(self@ =~= old(self)@.registered());
        proof {
            let pre = old(self);
            assert(names(self.connections@[id].topics@) =~= Seq::empty());
            assert forall|k: int, x: u64|
                0 <= k < self.topics@.len() implies (self.topics@[k].members@.contains(x)
                    <==> self.follows(x, self.topics@[k].topic@)) by {
                assert(pre.topics@[k].members@.contains(x) <==> pre.follows(
                    x,
                    pre.topics@[k].topic@,
                ));
            }
            assert forall|x: u64, t: Seq<char>| #[trigger] self.follows(x, t) implies entry_names(
                self.topics@,
            ).contains(t) by {
                assert(pre.follows(x, t));
            }
        }
        id
    }

    /// Makes connection `connection_id` follow `topic`; an unknown
    /// connection changes nothing, and following a topic twice is the
    /// same as following it once.
    pub fn subscribe(&mut self, connection_id: u64, topic: &str)
        requires
            old(self).wf(),
        ensures
            final(self).wf(),
            final(self)@ == old(self)@.subscribed(connection_id, topic@),
            final(self).journal() == old(self).journal(),
    {
        let key = topic.to_owned();
        let ghost pre = *self;
        match self.connections.remove(&connection_id) {
            None => {
                assert(self.connections@ =~= pre.connections@);
                assert(self@ =~= pre@);
                assert forall|x: u64, t: Seq<char>| #[trigger]
                    self.follows(x, t) == pre.follows(x, t) by {}
                assert(forall|x: u64| #[trigger]
                    self.connections@.contains_key(x) ==> names(
                        self.connections@[x].topics@,
                    ).no_duplicates());
            },
            Some(mut handle) => {
                let ghost before = handle.topics@;
                if !contains_topic(&handle.topics, &key) {
                    handle.topics.push(key.clone());
                    proof {
                        assert(names(handle.topics@) =~= names(before).push(key@));
                        lemma_push_no_duplicates(names(before), key@);
                    }
                }
                proof {
                    assert(topic_set(handle) =~= topic_set(pre.connections@[connection_id]).insert(
                        key@,
                    )) by {
                        assert(names(before).contains(key@) ==> names(handle.topics@) =~= names(
                            before,
                        ));
                        assert forall|t: Seq<char>| #[trigger]
                            topic_set(handle).contains(t) <==> (topic_set(
                                pre.connections@[connection_id],
                            ).contains(t) || t == key@) by {
                            if t == key@ && !names(before).contains(key@) {
                                assert(names(handle.topics@)[before.len() as int] == key@);
                            }
                            if topic_set(pre.connections@[connection_id]).contains(t) {
                                let j = choose|j: int|
                                    0 <= j < names(before).len() && names(before)[j] == t;
                                assert(names(handle.topics@)[j] == t);
                            }
                            if topic_set(handle).contains(t) && !names(before).contains(key@) {
                                let j = choose|j: int|
                                    0 <= j < names(handle.topics@).len() && names(handle.topics@)[j]
                                        == t;
                                if j < before.len() {
                                    assert(names(before)[j] == t);
                                }
                            }
                        }
                    }
                }
                self.connections.insert(connection_id, handle);
                let ghost mid = *self;
                let ghost mut slot: int = 0;
                assert(mid@ =~= pre@.subscribed(connection_id, topic@));
                match find_entry(&self.topics, &key) {
                    Some(k) => {
                        self.topics[k].members.insert(connection_id);
                        proof {
                            slot = k as int;
                            assert(entry_names(self.topics@) =~= entry_names(pre.topics@));
                            assert forall|i: int, x: u64|
                                0 <= i < self.topics@.len() implies (
                                self.topics@[i].members@.contains(x) <==> self.follows(
                                    x,
                                    self.topics@[i].topic@,
                                )) by {
                                assert(pre.topics@[i].members@.contains(x) <==> pre.follows(
                                    x,
                                    pre.topics@[i].topic@,
                                ));
                                if i != k as int {
                                    assert(entry_names(pre.topics@)[i] != entry_names(
                                        pre.topics@,
                                    )[k as int]);
                                }
                            }
                        }
                    },
                    None => {
                        let mut members: HashSet<u64> = HashSet::new();
                        members.insert(connection_id);
                        self.topics.push(TopicEntry { topic: key, members });
                        proof {
                            slot = pre.topics@.len() as int;
                            assert(entry_names(self.topics@) =~= entry_names(pre.topics@).push(
                                topic@,
                            ));
                            lemma_push_no_duplicates(entry_names(pre.topics@), topic@);
                            assert forall|i: int, x: u64|
                                0 <= i < self.topics@.len() implies (
                                self.topics@[i].members@.contains(x) <==> self.follows(
                                    x,
                                    self.topics@[i].topic@,
                                )) by {
                                if i < pre.topics@.len() {
                                    assert(pre.topics@[i].members@.contains(x) <==> pre.follows(
                                        x,
                                        pre.topics@[i].topic@,
                                    ));
                                    assert(entry_names(pre.topics@)[i] == pre.topics@[i].topic@);
                                } else if x != connection_id {
                                    if self.follows(x, topic@) {
                                        assert(pre.follows(x, topic@));
                                    }
                                }
                            }
                        }
                    },
                }
                proof {
                    assert(self@ == mid@);
                    assert forall|x: u64, t: Seq<char>| #[trigger]
                        self.follows(x, t) implies entry_names(self.topics@).contains(t) by {
                        if x != connection_id || t != topic@ {
                            assert(pre.follows(x, t));
                            let j = choose|j: int|
                                0 <= j < entry_names(pre.topics@).len() && entry_names(
                                    pre.topics@,
                                )[j] == t;
                            assert(entry_names(self.topics@)[j] == t);
                        } else {
                            assert(entry_names(self.topics@)[slot] == t);
                        }
                    }
                    assert forall|x: u64| #[trigger]
                        self.connections@.contains_key(x) implies names(
                        self.connections@[x].topics@,
                    ).no_duplicates() by {
                        if x != connection_id {
                            assert(pre.connections@.contains_key(x));
                        }
                    }
                }
            },
        }
    }

    /// Drops connection `connection_id` and takes it out of every topic it
    /// followed; a topic left with no follower disappears. An unknown
    /// connection changes nothing.
    pub fn unregister(&mut self, connection_id: u64)
        requires
            old(self).wf(),
        ensures
            final(self).wf(),
            final(self)@ == old(self)@.unregistered(connection_id),
            final(self).journal() == old(self).journal(),
    {
        let ghost pre = *self;
        match self.connections.remove(&connection_id) {
            None => {
                assert(self.connections@ =~= pre.connections@);
                assert(self@ =~= pre@.unregistered(connection_id));
                assert forall|x: u64, t: Seq<char>| #[trigger]
                    self.follows(x, t) == pre.follows(x, t) by {}
                assert(forall|x: u64| #[trigger]
                    self.connections@.contains_key(x) ==> names(
                        self.connections@[x].topics@,
                    ).no_duplicates());
            },
            Some(handle) => {
                let ghost followed = names(handle.topics@);
                assert(self@ =~= pre@.unregistered(connection_id));
                proof {
                    assert forall|k: int, x: u64|
                        0 <= k < self.topics@.len() implies (self.topics@[k].members@.contains(x)
                            <==> (self.follows(x, self.topics@[k].topic@) || (x == connection_id
                            && followed.contains(self.topics@[k].topic@) && !followed.take(
                            0,
                        ).contains(self.topics@[k].topic@)))) by {
                        assert(pre.topics@[k].members@.contains(x) <==> pre.follows(
                            x,
                            pre.topics@[k].topic@,
                        ));
                    }
                    assert forall|x: u64, t: Seq<char>| #[trigger]
                        self.follows(x, t) implies entry_names(self.topics@).contains(t) by {
                        assert(pre.follows(x, t));
                    }
                    assert(forall|x: u64| #[trigger]
                        self.connections@.contains_key(x) ==> names(
                            self.connections@[x].topics@,
                        ).no_duplicates());
                }
                let n = handle.topics.len();
                let mut j: usize = 0;
                while j < n
                    invariant
                        n == handle.topics@.len(),
                        followed == names(handle.topics@),
                        j <= n,
                        self.connections@ == pre.connections@.remove(connection_id),
                        self.next_connection_id == pre.next_connection_id,
                        self@ == pre@.unregistered(connection_id),
                        self.journal@ == pre.journal@,
                        pre.wf(),
                        entry_names(self.topics@).no_duplicates(),
                        forall|k: int|
                            0 <= k < self.topics@.len() ==> !(
                            #[trigger] self.topics@[k]).members@.is_empty(),
                        forall|k: int, x: u64|
                            #![trigger self.topics@[k].members@.contains(x)]
                            0 <= k < self.topics@.len() ==> (self.topics@[k].members@.contains(x)
                                <==> (self.follows(x, self.topics@[k].topic@) || (x
                                == connection_id && followed.contains(self.topics@[k].topic@)
                                && !followed.take(j as int).contains(self.topics@[k].topic@)))),
                        forall|x: u64, t: Seq<char>| #[trigger]
                            self.follows(x, t) ==> entry_names(self.topics@).contains(t),
                    decreases n - j,
                {
                    let ghost before = *self;
                    let ghost t = followed[j as int];
                    assert(followed[j as int] == handle.topics@[j as int]@);
                    assert(followed.take(j + 1) =~= followed.take(j as int).push(t));
                    assert(followed.take(j + 1)[j as int] == t);
                    match find_entry(&self.topics, &handle.topics[j]) {
                        Some(k) => {
                            self.topics[k].members.remove(&connection_id);
                            let ghost after_remove = *self;
                            proof {
                                assert(entry_names(self.topics@) =~= entry_names(before.topics@));
                                assert forall|i: int, x: u64|
                                    0 <= i < self.topics@.len() implies (
                                    self.topics@[i].members@.contains(x) <==> (self.follows(
                                        x,
                                        self.topics@[i].topic@,
                                    ) || (x == connection_id && followed.contains(
                                        self.topics@[i].topic@,
                                    ) && !followed.take(j + 1).contains(
                                        self.topics@[i].topic@,
                                    )))) by {
                                    assert(before.topics@[i].members@.contains(x) <==> (
                                    before.follows(x, before.topics@[i].topic@) || (x
                                        == connection_id && followed.contains(
                                        before.topics@[i].topic@,
                                    ) && !followed.take(j as int).contains(
                                        before.topics@[i].topic@,
                                    ))));
                                    if i != k as int {
                                        assert(entry_names(before.topics@)[i] != entry_names(
                                            before.topics@,
                                        )[k as int]);
                                    }
                                }
                                assert forall|x: u64, u: Seq<char>| #[trigger]
                                    self.follows(x, u) implies entry_names(self.topics@).contains(
                                    u,
                                ) by {
                                    assert(before.follows(x, u));
                                }
                            }
                            if self.topics[k].members.is_empty() {
                                self.topics.remove(k);
                                proof {
                                    assert(entry_names(self.topics@) =~= entry_names(
                                        after_remove.topics@,
                                    ).remove(k as int));
                                    lemma_remove_no_duplicates(
                                        entry_names(after_remove.topics@),
                                        k as int,
                                    );
                                    assert forall|i: int|
                                        0 <= i < self.topics@.len() implies #[trigger] self.topics@[i]
                                        == after_remove.topics@[if i < k { i } else { i + 1 }] by {}
                                    assert forall|x: u64, u: Seq<char>| #[trigger]
                                        self.follows(x, u) implies entry_names(
                                        self.topics@,
                                    ).contains(u) by {
                                        assert(before.follows(x, u));
                                        assert(x != connection_id);
                                        let m = choose|m: int|
                                            0 <= m < entry_names(after_remove.topics@).len()
                                                && entry_names(after_remove.topics@)[m] == u;
                                        if m == k as int {
                                            assert(after_remove.topics@[m].members@.contains(x));
                                        } else if m < k {
                                            assert(entry_names(self.topics@)[m] == u);
                                        } else {
                                            assert(entry_names(self.topics@)[m - 1] == u);
                                        }
                                    }
                                }
                            }
                        },
                        None => {
                            proof {
                                assert forall|i: int, x: u64|
                                    0 <= i < self.topics@.len() implies (
                                    self.topics@[i].members@.contains(x) <==> (self.follows(
                                        x,
                                        self.topics@[i].topic@,
                                    ) || (x == connection_id && followed.contains(
                                        self.topics@[i].topic@,
                                    ) && !followed.take(j + 1).contains(
                                        self.topics@[i].topic@,
                                    )))) by {
                                    assert(entry_names(self.topics@)[i] == self.topics@[i].topic@);
                                }
                                assert forall|x: u64, u: Seq<char>| #[trigger]
                                    self.follows(x, u) implies entry_names(self.topics@).contains(
                                    u,
                                ) by {
                                    assert(before.follows(x, u));
                                }
                            }
                        },
                    }
                    j = j + 1;
                }
                proof {
                    assert(followed.take(n as int) =~= followed);
                    assert forall|x: u64| #[trigger]
                        self.connections@.contains_key(x) implies self.journal@.contains_key(x)
                        && self.journal@[x] == journal_of(self.connections@[x]) by {
                        assert(pre.connections@.contains_key(x));
                    }
                    assert(self@.valid()) by {
                        assert(self@.connections.dom() =~= pre@.connections.dom().remove(
                            connection_id,
                        ));
                    }
                    assert forall|k: int, x: u64|
                        0 <= k < self.topics@.len() implies (self.topics@[k].members@.contains(x)
                            <==> self.follows(x, self.topics@[k].topic@)) by {}
                    assert(forall|x: u64| #[trigger]
                        self.connections@.contains_key(x) ==> names(
                            self.connections@[x].topics@,
                        ).no_duplicates());
                }
            },
        }
    }

    /// Queues `event` for every connection that follows `topic`, without
    /// waiting. A connection whose queue is full is offered a
    /// `queue_overflow` error, is told to close, and is dropped; a
    /// connection whose receiver is gone is told to close and is dropped.
    /// The report names every follower once, with what became of its event;
    /// each follower's journal changes as `journal_after` says, and no other
    /// journal changes.
    pub fn broadcast(&mut self, topic: &str, event: ServerEvent) -> (report: Vec<Delivery>)
        requires
            old(self).wf(),
        ensures
            final(self).wf(),
            fanned_out(
                old(self)@,
                old(self).journal(),
                final(self)@,
                final(self).journal(),
                topic@,
                event@,
                report@,
            ),
    {
        let ghost pre = *self;
        let key = topic.to_owned();
        let targets = match find_entry(&self.topics, &key) {
            Some(k) => {
                assert(self.topics@[k as int].members@ =~= self@.members(topic@));
                collect_members(&self.topics[k].members)
            },
            None => {
                assert forall|x: u64| !self@.members(topic@).contains(x) by {
                    if self@.members(topic@).contains(x) {
                        assert(self.follows(x, topic@));
                    }
                }
                let empty: Vec<u64> = Vec::new();
                assert(empty@.to_set() =~= self@.members(topic@));
                empty
            },
        };
        let mut report: Vec<Delivery> = Vec::new();
        let mut i: usize = 0;
        while i < targets.len()
            invariant
                pre.wf(),
                self.wf(),
                self@ == pre@,
                i <= targets@.len(),
                targets@.to_set() == pre@.members(topic@),
                targets@.no_duplicates(),
                reported_ids(report@) == targets@.take(i as int),
                self.journal@.dom() == pre.journal@.dom(),
                forall|j: int|
                    0 <= j < i ==> pre.journal@.contains_key(
                        #[trigger] report@[j].connection_id,
                    ) && journal_after(
                        pre.journal@[report@[j].connection_id],
                        report@[j].outcome,
                        event@,
                        self.journal@[report@[j].connection_id],
                    ),
                forall|id: u64|
                    #[trigger] pre.journal@.contains_key(id) && !targets@.take(i as int).contains(
                        id,
                    ) ==> self.journal@[id] == pre.journal@[id],
            decreases targets@.len() - i,
        {
            let id = targets[i];
            let ghost before = *self;
            assert(targets@.to_set().contains(id));
            assert(self.connections@.contains_key(id));
            assert(!targets@.take(i as int).contains(id)) by {
                if targets@.take(i as int).contains(id) {
                    let j = choose|j: int|
                        0 <= j < i && #[trigger] targets@.take(i as int)[j] == id;
                    assert(targets@[j] == targets@[i as int]);
                }
            }
            match self.connections.remove(&id) {
                Some(mut handle) => {
                    let ghost start = journal_of(handle);
                    let outcome = try_deliver(&mut handle.sender, event.duplicate());
                    match outcome {
                        DeliveryOutcome::QueueFull => {
                            let ghost offered = offers(handle.sender);
                            let _ = try_deliver(
                                &mut handle.sender,
                                ServerEvent::error(
                                    "queue_overflow",
                                    "connection outbound queue overflowed; closing socket",
                                ),
                            );
                            assert(offers(handle.sender).drop_last() =~= offered);
                            signal_close(&mut handle.close_tx, true);
                        },
                        DeliveryOutcome::Closed => {
                            signal_close(&mut handle.close_tx, true);
                        },
                        DeliveryOutcome::Delivered => {},
                    }
                    proof {
                        assert(journal_after(start, outcome, event@, journal_of(handle)));
                        self.journal = Ghost(self.journal@.insert(id, journal_of(handle)));
                    }
                    self.connections.insert(id, handle);
                    let ghost prior = report@;
                    report.push(Delivery { connection_id: id, outcome });
                    proof {
                        assert(reported_ids(report@) =~= reported_ids(prior).push(id));
                        assert(targets@.take(i + 1) =~= targets@.take(i as int).push(id));
                        assert(self.connections@ =~= before.connections@.insert(
                            id,
                            self.connections@[id],
                        ));
                        assert(self@ =~= before@);
                        assert forall|x: u64, t: Seq<char>| #[trigger]
                            self.follows(x, t) == before.follows(x, t) by {}
                        assert forall|x: u64| #[trigger]
                            self.connections@.contains_key(x) implies names(
                            self.connections@[x].topics@,
                        ).no_duplicates() && self.journal@.contains_key(x)
                            && self.journal@[x] == journal_of(self.connections@[x]) by {
                            assert(before.connections@.contains_key(x));
                        }
                        assert forall|x: u64|
                            #[trigger] pre.journal@.contains_key(x) && !targets@.take(
                                i + 1,
                            ).contains(x) implies self.journal@[x] == pre.journal@[x] by {
                            assert(targets@.take(i + 1)[i as int] == id);
                            if targets@.take(i as int).contains(x) {
                                let j = choose|j: int|
                                    0 <= j < i && #[trigger] targets@.take(i as int)[j] == x;
                                assert(targets@.take(i + 1)[j] == x);
                            }
                        }
                        assert forall|j: int|
                            0 <= j < i + 1 implies pre.journal@.contains_key(
                            #[trigger] report@[j].connection_id,
                        ) && journal_after(
                            pre.journal@[report@[j].connection_id],
                            report@[j].outcome,
                            event@,
                            self.journal@[report@[j].connection_id],
                        ) by {
                            if j < i {
                                assert(reported_ids(prior)[j] == targets@.take(i as int)[j]);
                                assert(report@[j] == prior[j]);
                                assert(report@[j].connection_id != id);
                            }
                        }
                    }
                },
                None => {
                    assert(false);
                },
            }
            i = i + 1;
        }
        assert(targets@.take(targets@.len() as int) =~= targets@);
        let ghost sent = *self;
        self.settle(&report);
        proof {
            assert forall|j: int|
                0 <= j < report@.len() implies old(self).journal().contains_key(
                #[trigger] report@[j].connection_id,
            ) && journal_after(
                old(self).journal()[report@[j].connection_id],
                report@[j].outcome,
                event@,
                self.journal()[report@[j].connection_id],
            ) by {
                assert(sent.journal@ == self.journal@);
            }
        }
        report
    }

    /// Drops every connection of `report` whose event was not queued.
    fn settle(&mut self, report: &Vec<Delivery>)
        requires
            old(self).wf(),
        ensures
            final(self).wf(),
            final(self)@ == old(self)@.without(undelivered(report@)),
            final(self).journal() == old(self).journal(),
    {
        let ghost pre = *self;
        let mut i: usize = 0;
        assert(undelivered(report@.take(0)) =~= Set::empty());
        assert(pre@.without(Set::empty()) =~= pre@);
        while i < report.len()
            invariant
                self.wf(),
                i <= report@.len(),
                self@ == pre@.without(undelivered(report@.take(i as int))),
                self.journal() == pre.journal(),
            decreases report@.len() - i,
        {
            let d = report[i];
            proof {
                lemma_undelivered_step(report@, i as int);
            }
            if d.outcome != DeliveryOutcome::Delivered {
                self.unregister(d.connection_id);
                assert(self@ =~= pre@.without(undelivered(report@.take(i + 1))));
            }
            i = i + 1;
        }
        assert(report@.take(report@.len() as int) =~= report@);
    }

    /// The number of connections that follow `topic`.
    pub fn topic_member_count(&self, topic: &str) -> (n: usize)
        requires
            self.wf(),
        ensures
            n == self@.members(topic@).len(),
    {
        let key = topic.to_owned();
        match find_entry(&self.topics, &key) {
            Some(k) => {
                assert(self.topics@[k as int].members@ =~= self@.members(topic@));
                self.topics[k].members.len()
            },
            None => {
                assert forall|x: u64| !self@.members(topic@).contains(x) by {
                    if self@.members(topic@).contains(x) {
                        assert(self.follows(x, topic@));
                    }
                }
                assert(self@.members(topic@) =~= Set::empty());
                0
            },
        }
    }
}

/// Pushing an element that is not there keeps a sequence free of duplicates.
proof fn lemma_push_no_duplicates<A>(s: Seq<A>, a: A)
    requires
        s.no_duplicates(),
        !s.contains(a),
    ensures
        s.push(a).no_duplicates(),
{
    assert forall|i: int, j: int|
        0 <= i < s.push(a).len() && 0 <= j < s.push(a).len() && i != j implies s.push(a)[i]
        != s.push(a)[j] by {
        if i == s.len() as int {
            assert(s[j] == s.push(a)[j]);
        } else if j == s.len() as int {
            assert(s[i] == s.push(a)[i]);
        }
    }
}

/// Removing an element keeps a sequence free of duplicates.
proof fn lemma_remove_no_duplicates<A>(s: Seq<A>, k: int)
    requires
        s.no_duplicates(),
        0 <= k < s.len(),
    ensures
        s.remove(k).no_duplicates(),
{
    let r = s.remove(k);
    assert forall|i: int, j: int| 0 <= i < r.len() && 0 <= j < r.len() && i != j implies r[i]
        != r[j] by {
        let a = if i < k { i } else { i + 1 };
        let b = if j < k { j } else { j + 1 };
        assert(r[i] == s[a]);
        assert(r[j] == s[b]);
    }
}

/// The members of `set`, each once.
fn collect_members(set: &HashSet<u64>) -> (v: Vec<u64>)
    ensures
        v@.no_duplicates(),
        v@.to_set() == set@,
{
    let mut v: Vec<u64> = Vec::new();
    for id in it: set.iter()
        invariant
            v@ == it.seq().take(it.index()).unref(),
            it.seq().unref().to_set() == set@,
            it.seq().no_duplicates(),
        ensures
            v@ =~= it.seq().unref(),
            it.seq().unref().to_set() == set@,
            it.seq().no_duplicates(),
    {
        v.push(*id);
        assert(it.seq().take(it.index() + 1).unref() =~= it.seq().take(it.index()).unref().push(*id));
    }
    proof {
        assert forall|i: int, j: int| 0 <= i < v@.len() && 0 <= j < v@.len() && i != j implies v@[i] != v@[j] by {}
    }
    v
}

/// The position of the entry for `key`, if there is one.
fn find_entry(entries: &Vec<TopicEntry>, key: &String) -> (r: Option<usize>)
    ensures
        match r {
            Some(k) => k < entries@.len() && entries@[k as int].topic@ == key@,
            None => !entry_names(entries@).contains(key@),
        },
{
    let mut i: usize = 0;
    while i < entries.len()
        invariant
            i <= entries@.len(),
            forall|j: int| 0 <= j < i ==> entries@[j].topic@ != key@,
        decreases entries@.len() - i,
    {
        if entries[i].topic == *key {
            return Some(i);
        }
        i = i + 1;
    }
    proof {
        if entry_names(entries@).contains(key@) {
            let j = choose|j: int| 0 <= j < entry_names(entries@).len() && entry_names(entries@)[j] == key@;
            assert(entries@[j].topic@ == key@);
        }
    }
    None
}

/// Whether `key` is among `topics`.
fn contains_topic(topics: &Vec<String>, key: &String) -> (b: bool)
    ensures
        b == names(topics@).contains(key@),
{
    let mut i: usize = 0;
    while i < topics.len()
        invariant
            i <= topics@.len(),
            forall|j: int| 0 <= j < i ==> topics@[j]@ != key@,
        decreases topics@.len() - i,
    {
        if topics[i] == *key {
            assert(names(topics@)[i as int] == key@);
            return true;
        }
        i = i + 1;
    }
    proof {
        if names(topics@).contains(key@) {
            let j = choose|j: int| 0 <= j < names(topics@).len() && names(topics@)[j] == key@;
            assert(topics@[j]@ == key@);
        }
    }
    false
}

} // verus!
