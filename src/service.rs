use vstd::prelude::*;
use futures::channel::mpsc::{Receiver, Sender};
use crate::entry::{JournalEntry, clone_opt, line_entry, opt_view, parse_entry};

verus! {

/// How many entries the buffer keeps; older ones are evicted first.
pub const MAX_ENTRIES: usize = 200000;

/// How many messages a subscriber's channel queues before a delivery to it fails.
pub const SUBSCRIBER_CAPACITY: usize = 10240;

/// What a query or a subscriber message carries: a run of entries and the current error.
pub struct JournalResponse {
    pub entries: Vec<JournalEntry>,
    pub error: Option<String>,
}

#[verifier::external_type_specification]
#[verifier::external_body]
#[verifier::reject_recursive_types(T)]
pub struct ExSender<T>(Sender<T>);

#[verifier::external_type_specification]
#[verifier::external_body]
#[verifier::reject_recursive_types(T)]
pub struct ExReceiver<T>(Receiver<T>);

/// Relies on `futures::channel::mpsc::channel` for a fresh bounded channel, which
/// panics only for a buffer of half its internal capacity or more, and on
/// `Sender::try_send` to queue `first`: a fresh sender is not parked and its
/// receiver is still held, so that send is accepted.
#[verifier::external_body]
fn open_channel_with(buffer: usize, first: JournalResponse) -> (r: (Sender<JournalResponse>, Receiver<JournalResponse>, bool))
    requires
        buffer <= 0x3fff_0000,
    ensures
        r.2,
{
    let (mut sender, receiver) = futures::channel::mpsc::channel(buffer);
    let queued = sender.try_send(first).is_ok();
    (sender, receiver, queued)
}

/// Relies on `Sender::try_send`: `true` when the message was queued, `false` when the
/// channel is full or its receiver is gone.
#[verifier::external_body]
fn try_deliver(sender: &mut Sender<JournalResponse>, message: JournalResponse) -> (r: bool) {
    sender.try_send(message).is_ok()
}

/// A message handed to a subscriber: its entries and its error.
pub struct Handed {
    pub entries: Seq<JournalEntry>,
    pub error: Option<Seq<char>>,
}

pub open spec fn handed(r: JournalResponse) -> Handed {
    Handed { entries: r.entries@, error: opt_view(r.error) }
}

/// The entries of a run of messages, one message after the other.
pub open spec fn all_entries(ms: Seq<Handed>) -> Seq<JournalEntry>
    decreases ms.len(),
{
    if ms.len() == 0 {
        Seq::empty()
    } else {
        all_entries(ms.drop_last()) + ms.last().entries
    }
}

pub proof fn lemma_all_entries_push(ms: Seq<Handed>, m: Handed)
    ensures
        all_entries(ms.push(m)) == all_entries(ms) + m.entries,
{
    assert(ms.push(m).drop_last() =~= ms);
}

/// A registered subscriber. `messages` is every message it has been handed, in
/// order; `received` is every entry among them, in order,
/// over all messages; `from` is the position in the append history where that run
/// starts.
pub struct Subscriber {
    pub id: u64,
    sender: Sender<JournalResponse>,
    pub from: Ghost<nat>,
    pub received: Ghost<Seq<JournalEntry>>,
    pub messages: Ghost<Seq<Handed>>,
}

pub struct SubscriberView {
    pub id: u64,
    pub from: nat,
    pub received: Seq<JournalEntry>,
    pub messages: Seq<Handed>,
}

impl View for Subscriber {
    type V = SubscriberView;

    closed spec fn view(&self) -> SubscriberView {
        SubscriberView { id: self.id, from: self.from@, received: self.received@, messages: self.messages@ }
    }
}

pub open spec fn sub_views(s: Seq<Subscriber>) -> Seq<SubscriberView> {
    s.map_values(|x: Subscriber| x@)
}

pub open spec fn sub_ids(s: Seq<SubscriberView>) -> Seq<u64> {
    s.map_values(|x: SubscriberView| x.id)
}

/// The subscribers that remain after handing out message `m` with outcomes `ok`:
/// those whose delivery succeeded, in their order, each having been handed `m`.
pub open spec fn kept(s: Seq<SubscriberView>, ok: Seq<bool>, m: Handed) -> Seq<SubscriberView>
    decreases s.len(),
{
    if s.len() == 0 || ok.len() != s.len() {
        Seq::empty()
    } else {
        let rest = kept(s.drop_last(), ok.drop_last(), m);
        if ok.last() {
            rest.push(delivered(s.last(), m))
        } else {
            rest
        }
    }
}

/// The subscriber `v` after it has been handed `m`.
pub open spec fn delivered(v: SubscriberView, m: Handed) -> SubscriberView {
    SubscriberView { received: v.received + m.entries, messages: v.messages.push(m), ..v }
}

/// `v` is one of the subscribers `s` whose delivery succeeded, handed `m`.
pub open spec fn is_delivered_from(s: Seq<SubscriberView>, ok: Seq<bool>, m: Handed, v: SubscriberView) -> bool {
    exists|j: int| 0 <= j < s.len() && ok[j] && v == delivered(#[trigger] s[j], m)
}

/// Each remaining subscriber is one of those in `s`, handed `m`, and no two
/// remaining subscribers share an id when no two in `s` did.
pub proof fn lemma_kept_members(s: Seq<SubscriberView>, ok: Seq<bool>, m: Handed)
    requires
        ok.len() == s.len(),
        forall|i: int, j: int| 0 <= i < j < s.len() ==> #[trigger] s[i].id != #[trigger] s[j].id,
    ensures
        kept(s, ok, m).len() <= s.len(),
        forall|k: int|
            0 <= k < kept(s, ok, m).len() ==> is_delivered_from(s, ok, m, #[trigger] kept(s, ok, m)[k]),
        forall|i: int, j: int|
            0 <= i < j < kept(s, ok, m).len() ==> #[trigger] kept(s, ok, m)[i].id
                != #[trigger] kept(s, ok, m)[j].id,
    decreases s.len(),
{
    if s.len() > 0 {
        let s0 = s.drop_last();
        let ok0 = ok.drop_last();
        lemma_kept_members(s0, ok0, m);
        let rest = kept(s0, ok0, m);
        let r = kept(s, ok, m);
        assert forall|k: int| 0 <= k < r.len() implies is_delivered_from(s, ok, m, #[trigger] r[k]) by {
            if k < rest.len() {
                assert(r[k] == rest[k]);
                assert(is_delivered_from(s0, ok0, m, rest[k]));
                let j = choose|j: int| 0 <= j < s0.len() && ok0[j] && rest[k] == delivered(#[trigger] s0[j], m);
                assert(s0[j] == s[j] && ok0[j] == ok[j]);
                assert(r[k] == delivered(s[j], m));
            } else {
                assert(ok[s.len() - 1]);
                assert(r[k] == delivered(s[s.len() - 1], m));
            }
        }
        assert forall|i: int, j: int| 0 <= i < j < r.len() implies #[trigger] r[i].id != #[trigger] r[j].id by {
            if j < rest.len() {
                assert(rest[i].id != rest[j].id);
            } else {
                assert(r.len() <= rest.len() + 1);
                assert(i < rest.len());
                assert(r[i] == rest[i]);
                assert(is_delivered_from(s0, ok0, m, rest[i]));
                let a = choose|a: int| 0 <= a < s0.len() && ok0[a] && rest[i] == delivered(#[trigger] s0[a], m);
                assert(s[a].id != s[s.len() - 1].id);
            }
        }
    } else {
        assert(kept(s, ok, m).len() == 0);
    }
}

/// A subscriber whose delivery succeeded remains, handed `m`.
proof fn lemma_kept_contains(s: Seq<SubscriberView>, ok: Seq<bool>, m: Handed, j: int)
    requires
        ok.len() == s.len(),
        0 <= j < s.len(),
        ok[j],
    ensures
        exists|k: int| 0 <= k < kept(s, ok, m).len() && #[trigger] kept(s, ok, m)[k] == delivered(s[j], m),
    decreases s.len(),
{
    let s0 = s.drop_last();
    let ok0 = ok.drop_last();
    let rest = kept(s0, ok0, m);
    if j == s.len() - 1 {
        assert(kept(s, ok, m)[rest.len() as int] == delivered(s[j], m));
    } else {
        assert(s0[j] == s[j] && ok0[j]);
        lemma_kept_contains(s0, ok0, m, j);
        let k = choose|k: int| 0 <= k < rest.len() && #[trigger] rest[k] == delivered(s0[j], m);
        assert(kept(s, ok, m)[k] == rest[k]);
    }
}

/// A delivery removes exactly the subscribers whose delivery failed: with distinct
/// ids, a subscriber's id remains if and only if its delivery succeeded.
pub proof fn lemma_failed_delivery_removes(s: Seq<SubscriberView>, ok: Seq<bool>, m: Handed)
    requires
        ok.len() == s.len(),
        forall|i: int, j: int| 0 <= i < j < s.len() ==> #[trigger] s[i].id != #[trigger] s[j].id,
    ensures
        forall|j: int| 0 <= j < s.len() ==> (sub_ids(kept(s, ok, m)).contains(#[trigger] s[j].id) <==> ok[j]),
{
    lemma_kept_members(s, ok, m);
    let r = kept(s, ok, m);
    assert forall|j: int| 0 <= j < s.len() implies (sub_ids(r).contains(#[trigger] s[j].id) <==> ok[j]) by {
        if ok[j] {
            lemma_kept_contains(s, ok, m, j);
            let k = choose|k: int| 0 <= k < r.len() && #[trigger] r[k] == delivered(s[j], m);
            assert(sub_ids(r)[k] == s[j].id);
        }
        if sub_ids(r).contains(s[j].id) {
            let k = choose|k: int| 0 <= k < sub_ids(r).len() && sub_ids(r)[k] == s[j].id;
            assert(is_delivered_from(s, ok, m, r[k]));
            let a = choose|a: int| 0 <= a < s.len() && ok[a] && r[k] == delivered(#[trigger] s[a], m);
            assert(s[a].id == s[j].id);
            if a != j {
                if a < j {
                    assert(s[a].id != s[j].id);
                } else {
                    assert(s[j].id != s[a].id);
                }
            }
        }
    }
}

/// After a delivery of `m` that extends the history to `h`, every remaining
/// subscriber has received exactly the history from its starting point.
proof fn lemma_kept_follow(s: Seq<SubscriberView>, ok: Seq<bool>, m: Handed, h: Seq<JournalEntry>, next: u64)
    requires
        ok.len() == s.len(),
        forall|i: int, j: int| 0 <= i < j < s.len() ==> #[trigger] s[i].id != #[trigger] s[j].id,
        forall|j: int|
            0 <= j < s.len() ==> {
                let v = #[trigger] s[j];
                &&& v.id < next
                &&& v.from <= h.len()
                &&& v.received + m.entries == h.subrange(v.from as int, h.len() as int)
                &&& v.received == all_entries(v.messages)
            },
    ensures
        forall|k: int|
            0 <= k < kept(s, ok, m).len() ==> {
                let v = #[trigger] kept(s, ok, m)[k];
                &&& v.id < next
                &&& v.from <= h.len()
                &&& v.received == h.subrange(v.from as int, h.len() as int)
                &&& v.received == all_entries(v.messages)
            },
        forall|i: int, j: int|
            0 <= i < j < kept(s, ok, m).len() ==> #[trigger] kept(s, ok, m)[i].id
                != #[trigger] kept(s, ok, m)[j].id,
{
    lemma_kept_members(s, ok, m);
    assert forall|k: int| 0 <= k < kept(s, ok, m).len() implies {
        let v = #[trigger] kept(s, ok, m)[k];
        &&& v.id < next
        &&& v.from <= h.len()
        &&& v.received == h.subrange(v.from as int, h.len() as int)
        &&& v.received == all_entries(v.messages)
    } by {
        assert(is_delivered_from(s, ok, m, kept(s, ok, m)[k]));
        let j = choose|j: int| 0 <= j < s.len() && ok[j] && kept(s, ok, m)[k] == delivered(#[trigger] s[j], m);
        assert(s[j].id < next);
        lemma_all_entries_push(s[j].messages, m);
    }
}

/// `after` is what remains of `before` once message `m` was handed to each of them,
/// for some outcome of each delivery.
pub open spec fn handed_out(before: Seq<SubscriberView>, after: Seq<SubscriberView>, m: Handed) -> bool {
    exists|ok: Seq<bool>| ok.len() == before.len() && after == #[trigger] kept(before, ok, m)
}

/// The message that tells subscribers of an error.
pub open spec fn error_message(e: Seq<char>) -> Handed {
    Handed { entries: Seq::empty(), error: Some(e) }
}

/// The last `min(len, MAX_ENTRIES)` items of a sequence.
pub open spec fn latest(h: Seq<JournalEntry>) -> Seq<JournalEntry> {
    if h.len() <= MAX_ENTRIES {
        h
    } else {
        h.subrange(h.len() - MAX_ENTRIES, h.len() as int)
    }
}

/// `count` items from `start` on, cut at the end of `s`.
pub open spec fn slice_of(s: Seq<JournalEntry>, start: nat, count: nat) -> Seq<JournalEntry> {
    if start >= s.len() {
        Seq::empty()
    } else if start + count >= s.len() {
        s.subrange(start as int, s.len() as int)
    } else {
        s.subrange(start as int, (start + count) as int)
    }
}

/// A copy of the entries of `v`.
pub fn clone_entries(v: &Vec<JournalEntry>) -> (r: Vec<JournalEntry>)
    ensures
        r@ == v@,
{
    let mut r: Vec<JournalEntry> = Vec::new();
    let mut i: usize = 0;
    while i < v.len()
        invariant
            i <= v.len(),
            r@ == v@.subrange(0, i as int),
        decreases v.len() - i,
    {
        r.push(v[i].duplicate());
        i = i + 1;
    }
    assert(r@ =~= v@);
    r
}

impl JournalResponse {
    /// A copy of this response.
    pub fn duplicate(&self) -> (r: JournalResponse)
        ensures
            r.entries@ == self.entries@,
            r.error == self.error,
    {
        JournalResponse { entries: clone_entries(&self.entries), error: clone_opt(&self.error) }
    }
}

/// The entries of `service` from `start` (0 when absent), at most `size` of them (all
/// the rest when absent), with the current error. Past the end the run is empty.
pub fn entries(service: &JournalService, start: Option<usize>, size: Option<usize>) -> (r: JournalResponse)
    ensures
        r.entries@ == slice_of(
            service.buffer(),
            match start { Some(s) => s as nat, None => 0 },
            match size { Some(n) => n as nat, None => service.buffer().len() },
        ),
        opt_view(r.error) == service.error_view(),
{
    let len = service.entries.len();
    let first: usize = match start {
        Some(s) => s,
        None => 0,
    };
    let count: usize = match size {
        Some(n) => n,
        None => len,
    };
    let mut out: Vec<JournalEntry> = Vec::new();
    if first < len {
        let end: usize = if count >= len - first {
            len
        } else {
            first + count
        };
        let mut i: usize = first;
        while i < end
            invariant
                first <= i <= end <= len,
                len == service.entries@.len(),
                out@ == service.entries@.subrange(first as int, i as int),
            decreases end - i,
        {
            out.push(service.entries[i].duplicate());
            i = i + 1;
        }
        assert(out@ =~= slice_of(service.entries@, first as nat, count as nat));
    } else {
        assert(out@ =~= slice_of(service.entries@, first as nat, count as nat));
    }
    JournalResponse { entries: out, error: clone_opt(&service.error) }
}

/// What happened to the journal tool since the last step.
pub enum TailerEvent {
    /// The tool was started and its output is being read.
    Spawned,
    /// The tool could not be started; the text says why.
    SpawnFailed(String),
    /// The tool printed one line.
    Line(String),
    /// The tool's output ended.
    Exited,
    /// Reading the tool's output failed; the text says why.
    ReadFailed(String),
}

/// What the tailing loop does next.
#[derive(Debug, Clone, Copy, PartialEq, Eq, Structural)]
pub enum TailerAction {
    /// Keep reading the running tool.
    Continue,
    /// Wait this many seconds, then start the tool again.
    Restart(u64),
}

pub open spec fn action_for(event: TailerEvent) -> TailerAction {
    match event {
        TailerEvent::SpawnFailed(_) => TailerAction::Restart(5),
        TailerEvent::ReadFailed(_) => TailerAction::Restart(5),
        TailerEvent::Exited => TailerAction::Restart(3),
        _ => TailerAction::Continue,
    }
}

/// A frame a client sends on its stream connection.
#[derive(Debug, Clone, Copy, PartialEq, Eq, Structural)]
pub enum Inbound {
    /// A protocol-level ping.
    Ping,
    /// A text or binary payload.
    Payload,
    /// Any other control frame (pong, close, continuation).
    Control,
}

/// How the stream bridge answers an inbound frame.
#[derive(Debug, Clone, Copy, PartialEq, Eq, Structural)]
pub enum InboundReply {
    /// Answer the ping with a pong carrying the same bytes.
    Pong,
    /// Answer with `rejection_text`: the stream is output-only.
    Reject,
    /// Nothing to answer.
    Ignore,
}

/// The stream is output-only: pings are answered, payloads rejected, the rest ignored.
pub fn reply_to(frame: Inbound) -> (r: InboundReply)
    ensures
        r == match frame {
            Inbound::Ping => InboundReply::Pong,
            Inbound::Payload => InboundReply::Reject,
            Inbound::Control => InboundReply::Ignore,
        },
{
    match frame {
        Inbound::Ping => InboundReply::Pong,
        Inbound::Payload => InboundReply::Reject,
        Inbound::Control => InboundReply::Ignore,
    }
}

/// The error reply to an inbound payload.
pub fn rejection_text() -> (r: String)
    ensures
        r@ == "{\"error\":\"Websocket does not support inputs.\"}"@,
{
    String::from_str("{\"error\":\"Websocket does not support inputs.\"}")
}

/// The journal state: the bounded buffer, the last appended cursor, the current error
/// and the subscribers. `history` is every entry ever appended, in order.
pub struct JournalService {
    entries: Vec<JournalEntry>,
    last_cursor: Option<String>,
    error: Option<String>,
    subscribers: Vec<Subscriber>,
    next_id: u64,
    history: Ghost<Seq<JournalEntry>>,
}

impl JournalService {
    /// Every entry ever appended, in order.
    pub closed spec fn history(&self) -> Seq<JournalEntry> {
        self.history@
    }

    pub closed spec fn buffer(&self) -> Seq<JournalEntry> {
        self.entries@
    }

    pub closed spec fn last_cursor_view(&self) -> Option<Seq<char>> {
        opt_view(self.last_cursor)
    }

    pub closed spec fn error_view(&self) -> Option<Seq<char>> {
        opt_view(self.error)
    }

    pub closed spec fn subscriber_views(&self) -> Seq<SubscriberView> {
        sub_views(self.subscribers@)
    }

    pub closed spec fn next_id_view(&self) -> u64 {
        self.next_id
    }

    /// The service's invariant: the buffer is the latest `MAX_ENTRIES` of the append
    /// history, the last cursor is that of the last appended entry, subscriber ids are
    /// distinct and below the next id, and each subscriber has received exactly the
    /// history from the point it starts at.
    pub open spec fn wf(&self) -> bool {
        let h = self.history();
        &&& self.buffer() == latest(h)
        &&& self.last_cursor_view() == (if h.len() == 0 {
            None::<Seq<char>>
        } else {
            Some(h.last().cursor@)
        })
        &&& forall|i: int|
            0 <= i < self.subscriber_views().len() ==> {
                let s = #[trigger] self.subscriber_views()[i];
                &&& s.id < self.next_id_view()
                &&& s.from <= h.len()
                &&& s.received == h.subrange(s.from as int, h.len() as int)
                &&& s.received == all_entries(s.messages)
            }
        &&& forall|i: int, j: int|
            0 <= i < j < self.subscriber_views().len() ==> #[trigger] self.subscriber_views()[i].id
                != #[trigger] self.subscriber_views()[j].id
    }
}


impl JournalService {
    /// An empty service: no entries, no subscribers, and the error that the journal
    /// is not streaming yet.
    pub fn new() -> (r: JournalService)
        ensures
            r.wf(),
            r.history().len() == 0,
            r.buffer().len() == 0,
            r.subscriber_views().len() == 0,
            r.error_view() == Some("journalctl stream not initialized"@),
    {
        let r = JournalService {
            entries: Vec::new(),
            last_cursor: None,
            error: Some(String::from_str("journalctl stream not initialized")),
            subscribers: Vec::new(),
            next_id: 0,
            history: Ghost(Seq::empty()),
        };
        assert(r.buffer() =~= latest(r.history()));
        r
    }

    /// The current error: present exactly while the journal is not streaming.
    pub fn error(&self) -> (r: Option<String>)
        ensures
            opt_view(r) == self.error_view(),
    {
        clone_opt(&self.error)
    }

    /// How many entries the buffer holds.
    pub fn len(&self) -> (r: usize)
        ensures
            r == self.buffer().len(),
    {
        self.entries.len()
    }

    /// How many subscribers are registered.
    pub fn subscriber_count(&self) -> (r: usize)
        ensures
            r == self.subscriber_views().len(),
    {
        self.subscribers.len()
    }

    /// Appends an entry unless its cursor repeats the last appended one. The buffer
    /// keeps the latest `MAX_ENTRIES` entries; the entry is handed to every
    /// subscriber, and those whose delivery fails leave the registry.
    pub fn add_entry(&mut self, entry: JournalEntry) -> (ok: Vec<bool>)
        requires
            old(self).wf(),
        ensures
            final(self).wf(),
            final(self).error_view() == old(self).error_view(),
            if old(self).last_cursor_view() == Some(entry.cursor@) {
                &&& final(self).history() == old(self).history()
                &&& final(self).buffer() == old(self).buffer()
                &&& final(self).subscriber_views() == old(self).subscriber_views()
                &&& ok@.len() == 0
            } else {
                &&& final(self).history() == old(self).history().push(entry)
                &&& final(self).buffer() == latest(old(self).buffer().push(entry))
                &&& final(self).last_cursor_view() == Some(entry.cursor@)
                &&& ok@.len() == old(self).subscriber_views().len()
                &&& final(self).subscriber_views() == kept(
                    old(self).subscriber_views(),
                    ok@,
                    Handed { entries: seq![entry], error: None },
                )
            },
    {
        let repeated = match &self.last_cursor {
            Some(c) => *c == entry.cursor,
            None => false,
        };
        if repeated {
            return Vec::new();
        }
        let ghost h0 = self.history@;
        let ghost b0 = self.entries@;
        self.last_cursor = Some(entry.cursor.clone());
        self.history = Ghost(self.history@.push(entry));
        self.entries.push(entry.duplicate());
        if self.entries.len() > MAX_ENTRIES {
            let overflow = self.entries.len() - MAX_ENTRIES;
            let kept_entries = self.entries.split_off(overflow);
            self.entries = kept_entries;
        }
        proof {
            let h = self.history@;
            assert(self.entries@ =~= latest(b0.push(entry)));
            assert(latest(b0.push(entry)) =~= latest(h));
        }
        let mut batch: Vec<JournalEntry> = Vec::new();
        batch.push(entry);
        let message = JournalResponse { entries: batch, error: None };
        proof {
            let h = self.history@;
            let s = self.subscriber_views();
            assert(message.entries@ =~= seq![entry]);
            assert(handed(message) == Handed { entries: seq![entry], error: None });
            assert forall|j: int| 0 <= j < s.len() implies {
                let v = #[trigger] s[j];
                &&& v.id < self.next_id
                &&& v.from <= h.len()
                &&& v.received + handed(message).entries == h.subrange(v.from as int, h.len() as int)
                &&& v.received == all_entries(v.messages)
            } by {
                assert(s[j] == old(self).subscriber_views()[j]);
                assert(h0.subrange(s[j].from as int, h0.len() as int) + seq![entry] =~= h.subrange(s[j].from as int, h.len() as int));
            }
        }
        let ok = self.fan_out(&message);
        proof {
            lemma_kept_follow(old(self).subscriber_views(), ok@, handed(message), self.history@, self.next_id);
        }
        ok
    }

    /// Sets the current error. A present error is also handed to every subscriber as
    /// a message with no entries; those whose delivery fails leave the registry.
    pub fn set_error(&mut self, error: Option<String>) -> (ok: Vec<bool>)
        requires
            old(self).wf(),
        ensures
            final(self).wf(),
            final(self).error_view() == opt_view(error),
            final(self).history() == old(self).history(),
            final(self).buffer() == old(self).buffer(),
            error is None ==> final(self).subscriber_views() == old(self).subscriber_views() && ok@.len() == 0,
            error is Some ==> ok@.len() == old(self).subscriber_views().len()
                && final(self).subscriber_views() == kept(
                    old(self).subscriber_views(),
                    ok@,
                    Handed { entries: Seq::empty(), error: opt_view(error) },
                ),
    {
        self.error = clone_opt(&error);
        proof {
            self.lemma_wf_keeps(old(self));
        }
        match error {
            None => Vec::new(),
            Some(e) => {
                let message = JournalResponse { entries: Vec::new(), error: Some(e) };
                proof {
                    let h = self.history@;
                    let s = self.subscriber_views();
                    assert forall|j: int| 0 <= j < s.len() implies {
                        let v = #[trigger] s[j];
                        &&& v.id < self.next_id
                        &&& v.from <= h.len()
                        &&& v.received + handed(message).entries == h.subrange(v.from as int, h.len() as int)
                        &&& v.received == all_entries(v.messages)
                    } by {
                        assert(s[j] == old(self).subscriber_views()[j]);
                        assert(s[j].received + message.entries@ =~= s[j].received);
                    }
                    assert(handed(message).entries =~= Seq::<JournalEntry>::empty());
                }
                let ok = self.fan_out(&message);
                proof {
                    lemma_kept_follow(old(self).subscriber_views(), ok@, handed(message), self.history@, self.next_id);
                }
                ok
            },
        }
    }

    /// Clears the current error: the journal is streaming.
    pub fn clear_error(&mut self)
        requires
            old(self).wf(),
        ensures
            final(self).wf(),
            final(self).error_view() is None,
            final(self).history() == old(self).history(),
            final(self).buffer() == old(self).buffer(),
            final(self).subscriber_views() == old(self).subscriber_views(),
    {
        self.error = None;
        proof {
            self.lemma_wf_keeps(old(self));
        }
    }

    /// Registers a new subscriber. Its channel holds, before anything else, one
    /// message with every buffered entry and the current error; every message handed
    /// out later follows it. Only when no id is left is nothing registered.
    pub fn ask_for_client(&mut self) -> (r: (Option<u64>, Receiver<JournalResponse>))
        requires
            old(self).wf(),
        ensures
            final(self).wf(),
            final(self).history() == old(self).history(),
            final(self).buffer() == old(self).buffer(),
            final(self).last_cursor_view() == old(self).last_cursor_view(),
            final(self).error_view() == old(self).error_view(),
            r.0 is None <==> old(self).next_id_view() == u64::MAX,
            match r.0 {
                Some(id) => id == old(self).next_id_view() && final(self).subscriber_views()
                    == old(self).subscriber_views().push(
                    SubscriberView {
                        id,
                        from: (old(self).history().len() - old(self).buffer().len()) as nat,
                        received: old(self).buffer(),
                        messages: seq![Handed { entries: old(self).buffer(), error: old(self).error_view() }],
                    },
                ),
                None => final(self).subscriber_views() == old(self).subscriber_views(),
            },
    {
        let snapshot = JournalResponse { entries: clone_entries(&self.entries), error: clone_opt(&self.error) };
        let ghost first = handed(snapshot);
        let (sender, receiver, queued) = open_channel_with(SUBSCRIBER_CAPACITY, snapshot);
        if self.next_id == u64::MAX || !queued {
            return (None, receiver);
        }
        let id = self.next_id;
        let ghost h = self.history@;
        let ghost from = (h.len() - self.entries@.len()) as nat;
        let ghost log = seq![first];
        let sub = Subscriber {
            id,
            sender,
            from: Ghost(from),
            received: Ghost(self.entries@),
            messages: Ghost(log),
        };
        self.next_id = self.next_id + 1;
        self.subscribers.push(sub);
        proof {
            assert(self.entries@ =~= h.subrange(from as int, h.len() as int));
            lemma_all_entries_push(Seq::<Handed>::empty(), first);
            assert(Seq::<Handed>::empty().push(first) =~= log);
            assert(all_entries(Seq::<Handed>::empty()) =~= Seq::<JournalEntry>::empty());
            assert(first.entries == self.entries@);
            assert(all_entries(log) =~= self.entries@);
            let s = self.subscriber_views();
            assert(s =~= old(self).subscriber_views().push(sub@));
            assert forall|i: int| 0 <= i < s.len() - 1 implies #[trigger] s[i] == old(self).subscriber_views()[i] by {}
        }
        (Some(id), receiver)
    }

    /// One step of the tailing loop: applies an event to the state and says what the
    /// loop does next. A line that parses is appended (a repeated cursor is dropped);
    /// one that does not is skipped. Every failure or end of the tool sets the error,
    /// which subscribers receive, and asks for a restart after a pause.
    pub fn handle_event(&mut self, event: TailerEvent) -> (action: TailerAction)
        requires
            old(self).wf(),
        ensures
            final(self).wf(),
            action == action_for(event),
            match event {
                TailerEvent::Spawned => final(self).error_view() is None,
                TailerEvent::SpawnFailed(m) => final(self).error_view() == Some(m@),
                TailerEvent::ReadFailed(m) => final(self).error_view() == Some(m@),
                TailerEvent::Exited => final(self).error_view() == Some("journalctl terminated"@),
                TailerEvent::Line(_) => final(self).error_view() == old(self).error_view(),
            },
            match event {
                TailerEvent::Spawned => final(self).subscriber_views() == old(self).subscriber_views(),
                TailerEvent::SpawnFailed(m) => handed_out(
                    old(self).subscriber_views(),
                    final(self).subscriber_views(),
                    error_message(m@),
                ),
                TailerEvent::ReadFailed(m) => handed_out(
                    old(self).subscriber_views(),
                    final(self).subscriber_views(),
                    error_message(m@),
                ),
                TailerEvent::Exited => handed_out(
                    old(self).subscriber_views(),
                    final(self).subscriber_views(),
                    error_message("journalctl terminated"@),
                ),
                TailerEvent::Line(_) => final(self).history() == old(self).history()
                    ==> final(self).subscriber_views() == old(self).subscriber_views(),
            },
            match event {
                TailerEvent::Line(l) => match line_entry(l@) {
                    Ok(v) => if old(self).last_cursor_view() == Some(v.cursor) {
                        final(self).history() == old(self).history()
                    } else {
                        &&& final(self).history().len() == old(self).history().len() + 1
                        &&& final(self).history().drop_last() == old(self).history()
                        &&& final(self).history().last()@ == v
                        &&& handed_out(
                            old(self).subscriber_views(),
                            final(self).subscriber_views(),
                            Handed { entries: seq![final(self).history().last()], error: None },
                        )
                    },
                    Err(_) => final(self).history() == old(self).history()
                        && final(self).buffer() == old(self).buffer()
                        && final(self).subscriber_views() == old(self).subscriber_views(),
                },
                _ => final(self).history() == old(self).history() && final(self).buffer() == old(self).buffer(),
            },
    {
        match event {
            TailerEvent::Spawned => {
                self.clear_error();
                TailerAction::Continue
            },
            TailerEvent::SpawnFailed(m) => {
                let ok = self.set_error(Some(m));
                assert(kept(old(self).subscriber_views(), ok@, error_message(m@)) == self.subscriber_views());
                TailerAction::Restart(5)
            },
            TailerEvent::ReadFailed(m) => {
                let ok = self.set_error(Some(m));
                assert(kept(old(self).subscriber_views(), ok@, error_message(m@)) == self.subscriber_views());
                TailerAction::Restart(5)
            },
            TailerEvent::Exited => {
                let text = String::from_str("journalctl terminated");
                let ok = self.set_error(Some(text));
                assert(kept(old(self).subscriber_views(), ok@, error_message(text@)) == self.subscriber_views());
                TailerAction::Restart(3)
            },
            TailerEvent::Line(l) => {
                match parse_entry(l.as_str()) {
                    Ok(e) => {
                        let ghost e0 = e;
                        let ok = self.add_entry(e);
                        proof {
                            if self.history() != old(self).history() {
                                assert(self.history().last() == e0);
                                assert(kept(old(self).subscriber_views(), ok@, Handed { entries: seq![self.history().last()], error: None })
                                    == self.subscriber_views());
                            }
                        }
                    },
                    Err(_) => {},
                }
                TailerAction::Continue
            },
        }
    }

    /// The buffer never holds more than `MAX_ENTRIES` entries: it is the latest
    /// `MAX_ENTRIES` of everything appended, the older ones evicted.
    pub proof fn lemma_buffer_bounded(&self)
        requires
            self.wf(),
        ensures
            self.buffer().len() <= MAX_ENTRIES,
            self.history().len() <= MAX_ENTRIES ==> self.buffer() == self.history(),
            self.history().len() > MAX_ENTRIES ==> self.buffer() == self.history().subrange(
                self.history().len() - MAX_ENTRIES,
                self.history().len() as int,
            ),
    {
    }

    /// The entries of every message a subscriber has been handed, its first snapshot
    /// followed by every later message, in order, are the append history from one
    /// point on, with no gap and no repeat.
    pub proof fn lemma_subscriber_sees_history(&self, i: int)
        requires
            self.wf(),
            0 <= i < self.subscriber_views().len(),
        ensures
            self.subscriber_views()[i].from <= self.history().len(),
            all_entries(self.subscriber_views()[i].messages) == self.history().subrange(
                self.subscriber_views()[i].from as int,
                self.history().len() as int,
            ),
    {
    }

    /// The invariant does not depend on the error.
    proof fn lemma_wf_keeps(&self, other: &JournalService)
        requires
            other.wf(),
            self.entries == other.entries,
            self.last_cursor == other.last_cursor,
            self.subscribers == other.subscribers,
            self.next_id == other.next_id,
            self.history == other.history,
        ensures
            self.wf(),
    {
        assert(self.subscriber_views() == other.subscriber_views());
        assert forall|i: int| 0 <= i < self.subscriber_views().len() implies {
            let s = #[trigger] self.subscriber_views()[i];
            &&& s.id < self.next_id_view()
            &&& s.from <= self.history().len()
            &&& s.received == self.history().subrange(s.from as int, self.history().len() as int)
        } by {
            assert(other.subscriber_views()[i] == self.subscriber_views()[i]);
        }
    }

    /// Hands `message` to every subscriber. A subscriber whose delivery fails leaves
    /// the registry at once; the others stay, in order. The result tells, for each
    /// subscriber in its old order, whether its delivery succeeded.
    fn fan_out(&mut self, message: &JournalResponse) -> (ok: Vec<bool>)
        ensures
            ok@.len() == old(self).subscriber_views().len(),
            final(self).subscriber_views() == kept(old(self).subscriber_views(), ok@, handed(*message)),
            final(self).buffer() == old(self).buffer(),
            final(self).last_cursor_view() == old(self).last_cursor_view(),
            final(self).error_view() == old(self).error_view(),
            final(self).next_id_view() == old(self).next_id_view(),
            final(self).history() == old(self).history(),
    {
        let mut pending: Vec<Subscriber> = Vec::new();
        std::mem::swap(&mut pending, &mut self.subscribers);
        let ghost orig = sub_views(pending@);
        let ghost extra = handed(*message);
        let n = pending.len();
        let mut ok: Vec<bool> = Vec::new();
        let mut i: usize = 0;
        while i < n
            invariant
                n == orig.len(),
                i <= n,
                extra == handed(*message),
                sub_views(pending@) == orig.subrange(i as int, n as int),
                ok@.len() == i,
                sub_views(self.subscribers@) == kept(orig.subrange(0, i as int), ok@, extra),
                self.entries == old(self).entries,
                self.last_cursor == old(self).last_cursor,
                self.error == old(self).error,
                self.next_id == old(self).next_id,
                self.history == old(self).history,
                orig == old(self).subscriber_views(),
            decreases n - i,
        {
            assert(sub_views(pending@)[0] == orig[i as int]);
            assert(sub_views(pending@).len() == pending@.len());
            let ghost old_pending = pending@;
            assert(pending@[0]@ == orig[i as int]);
            let mut sub = pending.remove(0);
            assert(sub@ == orig[i as int]);
            let delivered_ok = try_deliver(&mut sub.sender, message.duplicate());
            let ghost before = sub_views(self.subscribers@);
            if delivered_ok {
                sub.received = Ghost(sub.received@ + extra.entries);
                sub.messages = Ghost(sub.messages@.push(extra));
                assert(sub@ == delivered(orig[i as int], extra));
                self.subscribers.push(sub);
                assert(sub_views(self.subscribers@) =~= before.push(delivered(orig[i as int], extra)));
            } else {
                assert(sub_views(self.subscribers@) =~= before);
            }
            let ghost ok_before = ok@;
            ok.push(delivered_ok);
            assert(orig.subrange(0, i + 1).drop_last() =~= orig.subrange(0, i as int));
            assert(ok@.drop_last() =~= ok_before);
            assert(orig.subrange(0, i + 1).last() == orig[i as int]);
            assert(kept(orig.subrange(0, i + 1), ok@, extra) == (if delivered_ok {
                before.push(delivered(orig[i as int], extra))
            } else {
                before
            }));
            assert(pending@ =~= old_pending.subrange(1, old_pending.len() as int));
            assert forall|k: int| 0 <= k < pending@.len() implies sub_views(pending@)[k] == orig.subrange(i + 1, n as int)[k] by {
                assert(pending@[k] == old_pending[k + 1]);
                assert(sub_views(old_pending)[k + 1] == orig.subrange(i as int, n as int)[k + 1]);
            }
            assert(sub_views(pending@) =~= orig.subrange(i + 1, n as int));
            i = i + 1;
        }
        assert(orig.subrange(0, n as int) =~= orig);
        ok
    }
}

} // verus!
