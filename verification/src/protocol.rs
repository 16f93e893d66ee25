//! The bookkeeping of a multiplexed connection: which message identifiers
//! are in use, which operation waits for which responses, and what becomes
//! of a response, a deadline, an abandonment or a disconnection.
//!
//! Nothing here touches the transport. The connection hands each event to
//! this state, performs what the returned decision says, and comes back with
//! the next event.

use vstd::prelude::*;
use crate::result::LdapError;

verus! {

/// Tag number of a search result entry.
pub const SEARCH_ENTRY: u64 = 4;

/// Tag number of the message that ends a search.
pub const SEARCH_DONE: u64 = 5;

/// Tag number of a search result reference.
pub const SEARCH_REFERENCE: u64 = 19;

/// The largest message identifier.
pub const MAX_ID: i32 = 0x7fff_ffff;

/// How the responses to a request are consumed.
#[derive(Clone, Copy, PartialEq, Eq, Debug, Structural)]
pub enum SinkKind {
    /// One response completes the operation.
    Single,
    /// Responses are passed on one by one until the one that ends the search.
    Streaming,
    /// No response is awaited.
    Solo,
}

/// What becomes of a response.
#[derive(Clone, Copy, PartialEq, Eq, Debug, Structural)]
pub enum Route {
    /// The message identifier is zero: the server speaks unasked.
    Unsolicited,
    /// No operation waits under this identifier: the response is discarded.
    Drop,
    /// The response completes a single operation.
    Single,
    /// An entry or a reference of a search that goes on.
    Item,
    /// The message that ends a search: the last item of its stream.
    Done,
    /// A response that a search cannot hold: the search fails.
    Mismatch,
}

/// What becomes of an operation whose deadline passed.
#[derive(Clone, Copy, PartialEq, Eq, Debug, Structural)]
pub enum Expiry {
    /// The operation had finished or awaited nothing.
    Nothing,
    /// A single operation fails with a timeout.
    FailSingle,
    /// A search ends with a result made up by the client that says so.
    SynthesizeDone,
}

/// What the connection does to abandon an operation.
#[derive(Clone, Copy, PartialEq, Eq, Debug, Structural)]
pub struct Abandon {
    /// The identifier under which the abandon request is written, if one is left.
    pub request_id: Option<i32>,
    /// Whether an operation still waited and its sink is to be closed as cancelled.
    pub close_sink: bool,
}

impl Route {
    /// The error with which the sink of the operation is closed: a search
    /// that gets a response which it cannot hold fails with a protocol error.
    pub fn failure(self) -> (r: Option<LdapError>)
        ensures
            r == if self == Route::Mismatch {
                Some(LdapError::Protocol)
            } else {
                None
            },
    {
        match self {
            Route::Mismatch => Some(LdapError::Protocol),
            _ => None,
        }
    }
}

impl Abandon {
    /// The error with which the sink of the operation is closed, if it
    /// still waited: the operation was cancelled.
    pub fn failure(self) -> (r: Option<LdapError>)
        ensures
            r == if self.close_sink {
                Some(LdapError::Cancelled)
            } else {
                None
            },
    {
        if self.close_sink {
            Some(LdapError::Cancelled)
        } else {
            None
        }
    }
}

/// An operation that waits for responses.
#[derive(Clone, Copy, PartialEq, Eq, Debug, Structural)]
pub struct PendingOp {
    pub msgid: i32,
    pub kind: SinkKind,
}

/// Mathematical content of the bookkeeping.
pub struct MuxModel {
    /// The identifier that the next request gets.
    pub next_id: int,
    /// The operations that wait, by identifier; none of them is solo.
    pub pending: Map<int, SinkKind>,
    /// The operations that were given up while they waited.
    pub abandoned: Set<int>,
    /// Whether the connection has ended.
    pub terminal: bool,
}

/// What can happen on a connection.
pub enum Event {
    /// A request is submitted.
    Submit(SinkKind),
    /// A response arrives.
    Response { msgid: int, op: u64 },
    /// The deadline of an operation passes.
    Timeout(int),
    /// The client abandons an operation.
    Abandon(int),
    /// The server announces that it closes the connection, or the transport fails.
    Disconnect,
}

/// What an operation is told.
#[derive(PartialEq, Eq)]
pub enum Signal {
    /// The response of a single operation.
    Reply,
    /// An entry or a reference of a search.
    Item,
    /// The end of a search.
    Done,
    /// The operation failed: timeout, cancellation, mismatch or disconnection.
    Failed,
}

/// A state in which identifiers are positive and every waiting operation
/// got its identifier earlier.
pub open spec fn well_formed(s: MuxModel) -> bool {
    &&& 1 <= s.next_id <= MAX_ID + 1
    &&& forall|k: int| #[trigger] s.pending.dom().contains(k) ==> 1 <= k < s.next_id
        && s.pending[k] != SinkKind::Solo
}

/// The state of a fresh connection.
pub open spec fn initial() -> MuxModel {
    MuxModel { next_id: 1, pending: Map::empty(), abandoned: Set::empty(), terminal: false }
}

/// Whether a request can get an identifier.
pub open spec fn can_issue(s: MuxModel) -> bool {
    !s.terminal && s.next_id <= MAX_ID
}

/// The state after a request was submitted.
pub open spec fn submitted(s: MuxModel, kind: SinkKind) -> MuxModel {
    if can_issue(s) {
        MuxModel {
            next_id: s.next_id + 1,
            pending: if kind == SinkKind::Solo {
                s.pending
            } else {
                s.pending.insert(s.next_id, kind)
            },
            ..s
        }
    } else {
        s
    }
}

/// What becomes of the response `op` under the identifier `msgid`.
pub open spec fn route_of(s: MuxModel, msgid: int, op: u64) -> Route {
    if msgid == 0 {
        Route::Unsolicited
    } else if !s.pending.dom().contains(msgid) {
        Route::Drop
    } else {
        match s.pending[msgid] {
            SinkKind::Single => Route::Single,
            SinkKind::Streaming => if op == SEARCH_DONE {
                Route::Done
            } else if op == SEARCH_ENTRY || op == SEARCH_REFERENCE {
                Route::Item
            } else {
                Route::Mismatch
            },
            SinkKind::Solo => Route::Drop,
        }
    }
}

/// The state after a response was routed: the operation is retired unless
/// its search goes on.
pub open spec fn routed(s: MuxModel, msgid: int, op: u64) -> MuxModel {
    match route_of(s, msgid, op) {
        Route::Single | Route::Done | Route::Mismatch => MuxModel {
            pending: s.pending.remove(msgid),
            ..s
        },
        _ => s,
    }
}

/// What becomes of the operation `msgid` when its deadline passes.
pub open spec fn expiry_of(s: MuxModel, msgid: int) -> Expiry {
    if !s.pending.dom().contains(msgid) {
        Expiry::Nothing
    } else if s.pending[msgid] == SinkKind::Streaming {
        Expiry::SynthesizeDone
    } else {
        Expiry::FailSingle
    }
}

/// The state after a deadline passed: an operation that waited is retired
/// and remembered as given up.
pub open spec fn expired(s: MuxModel, msgid: int) -> MuxModel {
    if s.pending.dom().contains(msgid) {
        MuxModel { pending: s.pending.remove(msgid), abandoned: s.abandoned.insert(msgid), ..s }
    } else {
        s
    }
}

/// The state after the client abandoned the operation `msgid`: the
/// operation is retired and remembered as given up, and the abandon request
/// takes an identifier if one is left.
pub open spec fn abandoned(s: MuxModel, msgid: int) -> MuxModel {
    MuxModel {
        next_id: if can_issue(s) {
            s.next_id + 1
        } else {
            s.next_id
        },
        pending: s.pending.remove(msgid),
        abandoned: s.abandoned.insert(msgid),
        ..s
    }
}

/// The state after the connection ended: nothing waits any more.
pub open spec fn disconnected(s: MuxModel) -> MuxModel {
    MuxModel { pending: Map::empty(), terminal: true, ..s }
}

/// The state after an event.
pub open spec fn step(s: MuxModel, e: Event) -> MuxModel {
    match e {
        Event::Submit(kind) => submitted(s, kind),
        Event::Response { msgid, op } => routed(s, msgid, op),
        Event::Timeout(msgid) => expired(s, msgid),
        Event::Abandon(msgid) => abandoned(s, msgid),
        Event::Disconnect => disconnected(s),
    }
}

/// The identifier that an event puts on the wire, if it writes a request.
pub open spec fn issued(s: MuxModel, e: Event) -> Option<int> {
    match e {
        Event::Submit(_) | Event::Abandon(_) => if can_issue(s) {
            Some(s.next_id)
        } else {
            None
        },
        _ => None,
    }
}

/// What the operation `id` is told because of an event.
pub open spec fn signal(s: MuxModel, e: Event, id: int) -> Option<Signal> {
    if !s.pending.dom().contains(id) {
        None
    } else {
        match e {
            Event::Submit(_) => None,
            Event::Response { msgid, op } => if msgid != id {
                None
            } else {
                match route_of(s, msgid, op) {
                    Route::Single => Some(Signal::Reply),
                    Route::Item => Some(Signal::Item),
                    Route::Done => Some(Signal::Done),
                    Route::Mismatch => Some(Signal::Failed),
                    _ => None,
                }
            },
            Event::Timeout(msgid) => if msgid != id {
                None
            } else if expiry_of(s, msgid) == Expiry::SynthesizeDone {
                Some(Signal::Done)
            } else {
                Some(Signal::Failed)
            },
            Event::Abandon(msgid) => if msgid != id {
                None
            } else {
                Some(Signal::Failed)
            },
            Event::Disconnect => Some(Signal::Failed),
        }
    }
}

/// The state after a run of events.
pub open spec fn run(s: MuxModel, events: Seq<Event>) -> MuxModel
    decreases events.len(),
{
    if events.len() == 0 {
        s
    } else {
        step(run(s, events.drop_last()), events.last())
    }
}

/// The identifiers that a run of events puts on the wire, in order.
pub open spec fn written(s: MuxModel, events: Seq<Event>) -> Seq<int>
    decreases events.len(),
{
    if events.len() == 0 {
        Seq::empty()
    } else {
        let before = written(s, events.drop_last());
        match issued(run(s, events.drop_last()), events.last()) {
            Some(id) => before.push(id),
            None => before,
        }
    }
}

/// What the operation `id` is told during a run of events, in order.
pub open spec fn signals(s: MuxModel, events: Seq<Event>, id: int) -> Seq<Signal>
    decreases events.len(),
{
    if events.len() == 0 {
        Seq::empty()
    } else {
        let before = signals(s, events.drop_last(), id);
        match signal(run(s, events.drop_last()), events.last(), id) {
            Some(sig) => before.push(sig),
            None => before,
        }
    }
}

/// Every event leaves a well-formed state well-formed and never lowers the
/// next identifier.
pub proof fn lemma_step_well_formed(s: MuxModel, e: Event)
    requires
        well_formed(s),
    ensures
        well_formed(step(s, e)),
        s.next_id <= step(s, e).next_id,
        issued(s, e) matches Some(id) ==> id == s.next_id && step(s, e).next_id == id + 1,
        forall|k: int| #[trigger]
            step(s, e).pending.dom().contains(k) ==> s.pending.dom().contains(k) || k
                == s.next_id,
{
}

/// A run of events leaves a well-formed state well-formed.
pub proof fn lemma_run_well_formed(s: MuxModel, events: Seq<Event>)
    requires
        well_formed(s),
    ensures
        well_formed(run(s, events)),
        s.next_id <= run(s, events).next_id,
    decreases events.len(),
{
    if events.len() > 0 {
        lemma_run_well_formed(s, events.drop_last());
        lemma_step_well_formed(run(s, events.drop_last()), events.last());
    }
}

/// Message identifiers are never zero and strictly increase: over any run
/// of events, every identifier written is at least 1, and each is greater
/// than all written before it.
pub proof fn lemma_ids_increase(s: MuxModel, events: Seq<Event>)
    requires
        well_formed(s),
    ensures
        forall|i: int|
            0 <= i < written(s, events).len() ==> s.next_id <= #[trigger] written(s, events)[i]
                < run(s, events).next_id,
        forall|i: int, j: int|
            0 <= i < j < written(s, events).len() ==> written(s, events)[i] < written(
                s,
                events,
            )[j],
        forall|i: int| 0 <= i < written(s, events).len() ==> written(s, events)[i] >= 1,
    decreases events.len(),
{
    if events.len() > 0 {
        let earlier = events.drop_last();
        let before = written(s, earlier);
        let all = written(s, events);
        let mid = run(s, earlier);
        lemma_ids_increase(s, earlier);
        lemma_run_well_formed(s, earlier);
        lemma_step_well_formed(mid, events.last());
        assert forall|i: int| 0 <= i < all.len() implies s.next_id <= #[trigger] all[i] < run(
            s,
            events,
        ).next_id && all[i] >= 1 by {
            if i < before.len() {
                assert(all[i] == before[i]);
            }
        }
        assert forall|i: int, j: int| 0 <= i < j < all.len() implies all[i] < all[j] by {
            if j < before.len() {
                assert(all[i] == before[i] && all[j] == before[j]);
            } else {
                assert(all[i] == before[i]);
                assert(all[j] == mid.next_id);
            }
        }
    }
}

/// Responses under one identifier never change what becomes of the
/// responses under another: each operation is told of its own responses only.
pub proof fn lemma_routing_independent(s: MuxModel, a: int, op_a: u64, b: int, op_b: u64)
    requires
        a != b,
    ensures
        route_of(routed(s, b, op_b), a, op_a) == route_of(s, a, op_a),
        signal(s, Event::Response { msgid: b, op: op_b }, a).is_none(),
        routed(s, b, op_b).pending.remove(b) == s.pending.remove(b),
{
    assert(routed(s, b, op_b).pending.remove(b) =~= s.pending.remove(b));
}

/// A run of events without the responses that came under the identifier `b`.
pub open spec fn without_responses(events: Seq<Event>, b: int) -> Seq<Event>
    decreases events.len(),
{
    if events.len() == 0 {
        Seq::empty()
    } else {
        let earlier = without_responses(events.drop_last(), b);
        match events.last() {
            Event::Response { msgid, .. } => if msgid == b {
                earlier
            } else {
                earlier.push(events.last())
            },
            _ => earlier.push(events.last()),
        }
    }
}

/// Two states that differ at most in whether the operation `b` waits.
pub open spec fn same_but(s1: MuxModel, s2: MuxModel, b: int) -> bool {
    &&& s1.next_id == s2.next_id
    &&& s1.terminal == s2.terminal
    &&& forall|k: int|
        k != b ==> (#[trigger] s1.pending.dom().contains(k) == s2.pending.dom().contains(k))
            && (s1.pending.dom().contains(k) ==> s1.pending[k] == s2.pending[k])
}

/// Events keep two states alike that differ at most in the operation `b`;
/// a response under `b` changes nothing else.
proof fn lemma_step_same_but(s1: MuxModel, s2: MuxModel, e: Event, a: int, b: int)
    requires
        same_but(s1, s2, b),
        a != b,
    ensures
        same_but(step(s1, e), step(s2, e), b),
        signal(s1, e, a) == signal(s2, e, a),
        e matches Event::Response { msgid, .. } && msgid == b ==> same_but(step(s1, e), s2, b)
            && signal(s1, e, a).is_none(),
{
    assert(s1.pending.dom().contains(a) == s2.pending.dom().contains(a));
}

/// Whatever arrives under the identifier of one operation, in whatever
/// interleaving, another operation is told exactly what it would be told
/// without those responses: each receives only what is tagged with its own
/// identifier.
pub proof fn lemma_only_own_responses(s: MuxModel, events: Seq<Event>, a: int, b: int)
    requires
        a != b,
    ensures
        signals(s, events, a) == signals(s, without_responses(events, b), a),
        same_but(run(s, events), run(s, without_responses(events, b)), b),
    decreases events.len(),
{
    if events.len() > 0 {
        let earlier = events.drop_last();
        let kept = without_responses(earlier, b);
        let e = events.last();
        lemma_only_own_responses(s, earlier, a, b);
        lemma_step_same_but(run(s, earlier), run(s, kept), e, a, b);
        let skipped = e matches Event::Response { msgid, .. } && msgid == b;
        if !skipped {
            let all = without_responses(events, b);
            assert(all == kept.push(e));
            assert(all.drop_last() =~= kept);
            assert(all.last() == e);
        }
    }
}

/// An operation that does not wait and whose identifier is spent never
/// waits again.
pub proof fn lemma_retired_stays_retired(s: MuxModel, events: Seq<Event>, id: int)
    requires
        well_formed(s),
        !s.pending.dom().contains(id),
        id < s.next_id,
    ensures
        !run(s, events).pending.dom().contains(id),
        signals(s, events, id) == Seq::<Signal>::empty(),
    decreases events.len(),
{
    if events.len() > 0 {
        let earlier = events.drop_last();
        lemma_retired_stays_retired(s, earlier, id);
        lemma_run_well_formed(s, earlier);
        lemma_step_well_formed(run(s, earlier), events.last());
    }
}

/// A signal other than an item retires the operation.
proof fn lemma_closing_signal_retires(s: MuxModel, e: Event, id: int)
    requires
        well_formed(s),
        signal(s, e, id).is_some(),
        signal(s, e, id) != Some(Signal::Item),
    ensures
        !step(s, e).pending.dom().contains(id),
        id < step(s, e).next_id,
{
}

/// What an operation is told ends with its closing signal: all that comes
/// before the last signal are items. So a search is told of any number of
/// entries and references, then at most once that it is done or has failed,
/// and nothing after that.
pub proof fn lemma_stream_closes_once(s: MuxModel, events: Seq<Event>, id: int)
    requires
        well_formed(s),
    ensures
        forall|i: int|
            0 <= i < signals(s, events, id).len() - 1 ==> #[trigger] signals(s, events, id)[i]
                == Signal::Item,
        signals(s, events, id).len() > 0 && signals(s, events, id).last() != Signal::Item
            ==> !run(s, events).pending.dom().contains(id) && id < run(s, events).next_id,
    decreases events.len(),
{
    if events.len() > 0 {
        let earlier = events.drop_last();
        let before = signals(s, earlier, id);
        let mid = run(s, earlier);
        lemma_stream_closes_once(s, earlier, id);
        lemma_run_well_formed(s, earlier);
        lemma_step_well_formed(mid, events.last());
        match signal(mid, events.last(), id) {
            Some(sig) => {
                // the operation still waits, so no closing signal came before
                if before.len() > 0 && before.last() != Signal::Item {
                    assert(false);
                }
                if sig != Signal::Item {
                    lemma_closing_signal_retires(mid, events.last(), id);
                }
            },
            None => {
                if before.len() > 0 && before.last() != Signal::Item {
                    assert(!step(mid, events.last()).pending.dom().contains(id));
                }
            },
        }
    }
}

/// The bookkeeping of one connection.
pub struct ProtoBundle {
    /// The identifier that the next request gets; one more than the largest
    /// identifier once all are spent.
    next_id: u32,
    /// The operations that wait, by increasing identifier.
    pending: Vec<PendingOp>,
    /// The operations that were given up while they waited.
    abandoned: Vec<i32>,
    /// Whether the connection has ended.
    terminal: bool,
}

/// The operations of a table, by identifier.
pub open spec fn table(ops: Seq<PendingOp>) -> Map<int, SinkKind>
    decreases ops.len(),
{
    if ops.len() == 0 {
        Map::empty()
    } else {
        table(ops.drop_last()).insert(ops.last().msgid as int, ops.last().kind)
    }
}

/// The identifiers of a list, as a set.
pub open spec fn id_set(ids: Seq<i32>) -> Set<int> {
    Set::new(|k: int| exists|i: int| 0 <= i < ids.len() && #[trigger] ids[i] == k)
}

/// The identifiers of a table rise strictly.
pub open spec fn rising(ops: Seq<PendingOp>) -> bool {
    forall|i: int, j: int| 0 <= i < j < ops.len() ==> ops[i].msgid < ops[j].msgid
}

/// A table holds exactly the identifiers of its operations.
proof fn lemma_table_dom(ops: Seq<PendingOp>, k: int)
    ensures
        table(ops).dom().contains(k) <==> exists|i: int|
            0 <= i < ops.len() && (#[trigger] ops[i]).msgid == k,
    decreases ops.len(),
{
    if ops.len() > 0 {
        let shorter = ops.drop_last();
        lemma_table_dom(shorter, k);
        if table(ops).dom().contains(k) {
            if ops.last().msgid == k {
                assert(ops[ops.len() - 1].msgid == k);
            } else {
                let i = choose|i: int| 0 <= i < shorter.len() && (#[trigger] shorter[i]).msgid == k;
                assert(ops[i].msgid == k);
            }
        }
        if exists|i: int| 0 <= i < ops.len() && (#[trigger] ops[i]).msgid == k {
            let i = choose|i: int| 0 <= i < ops.len() && (#[trigger] ops[i]).msgid == k;
            if i < ops.len() - 1 {
                assert(shorter[i].msgid == k);
            }
        }
    }
}

/// A table with distinct identifiers maps each to the kind of its operation.
proof fn lemma_table_at(ops: Seq<PendingOp>, i: int)
    requires
        rising(ops),
        0 <= i < ops.len(),
    ensures
        table(ops).dom().contains(ops[i].msgid as int),
        table(ops)[ops[i].msgid as int] == ops[i].kind,
    decreases ops.len(),
{
    if i < ops.len() - 1 {
        let shorter = ops.drop_last();
        assert forall|a: int, b: int| 0 <= a < b < shorter.len() implies shorter[a].msgid
            < shorter[b].msgid by {
            assert(shorter[a] == ops[a] && shorter[b] == ops[b]);
        }
        lemma_table_at(shorter, i);
        assert(shorter[i] == ops[i]);
    }
}

/// Taking an operation out of a table takes its identifier out of the map.
proof fn lemma_table_remove(ops: Seq<PendingOp>, i: int)
    requires
        rising(ops),
        0 <= i < ops.len(),
    ensures
        table(ops.remove(i)) == table(ops).remove(ops[i].msgid as int),
        rising(ops.remove(i)),
    decreases ops.len(),
{
    let shorter = ops.drop_last();
    let less = ops.remove(i);
    assert forall|a: int, b: int| 0 <= a < b < less.len() implies less[a].msgid
        < less[b].msgid by {
        assert(less[a] == (if a < i { ops[a] } else { ops[a + 1] }));
        assert(less[b] == (if b < i { ops[b] } else { ops[b + 1] }));
    }
    if i == ops.len() - 1 {
        assert(less =~= shorter);
        lemma_table_dom(shorter, ops[i].msgid as int);
        if table(shorter).dom().contains(ops[i].msgid as int) {
            let j = choose|j: int|
                0 <= j < shorter.len() && (#[trigger] shorter[j]).msgid == ops[i].msgid;
            assert(ops[j] == shorter[j]);
        }
        assert(table(less) =~= table(ops).remove(ops[i].msgid as int));
    } else {
        assert forall|a: int, b: int| 0 <= a < b < shorter.len() implies shorter[a].msgid
            < shorter[b].msgid by {
            assert(shorter[a] == ops[a] && shorter[b] == ops[b]);
        }
        lemma_table_remove(shorter, i);
        assert(less.drop_last() =~= shorter.remove(i));
        assert(less.last() == ops.last());
        assert(shorter[i] == ops[i]);
        assert(table(less) =~= table(ops).remove(ops[i].msgid as int));
    }
}

impl ProtoBundle {
    #[verifier::type_invariant]
    spec fn inv(self) -> bool {
        &&& 1 <= self.next_id <= 0x8000_0000
        &&& rising(self.pending@)
        &&& forall|i: int|
            0 <= i < self.pending@.len() ==> 1 <= (#[trigger] self.pending@[i]).msgid
                < self.next_id && self.pending@[i].kind != SinkKind::Solo
    }

    /// The bookkeeping of a fresh connection.
    pub fn new() -> (r: ProtoBundle)
        ensures
            r@ == initial(),
            well_formed(r@),
    {
        let r = ProtoBundle {
            next_id: 1,
            pending: Vec::new(),
            abandoned: Vec::new(),
            terminal: false,
        };
        proof {
            assert(id_set(r.abandoned@) =~= Set::<int>::empty());
        }
        r
    }

    fn well_formed_now(&self)
        ensures
            well_formed(self@),
    {
        proof {
            use_type_invariant(self);
            self.lemma_table_well_formed();
        }
    }

    proof fn lemma_table_well_formed(&self)
        requires
            self.inv(),
        ensures
            well_formed(self@),
    {
        assert forall|k: int| #[trigger] self@.pending.dom().contains(k) implies 1 <= k
            < self@.next_id && self@.pending[k] != SinkKind::Solo by {
            lemma_table_dom(self.pending@, k);
            let i = choose|i: int|
                0 <= i < self.pending@.len() && (#[trigger] self.pending@[i]).msgid == k;
            lemma_table_at(self.pending@, i);
        }
    }

    /// The identifier that the next request gets, if one is left.
    pub fn next_id(&self) -> (r: Option<i32>)
        ensures
            well_formed(self@),
            r == if self@.next_id <= MAX_ID {
                Some(self@.next_id as i32)
            } else {
                None
            },
    {
        self.well_formed_now();
        proof {
            use_type_invariant(self);
        }
        if self.next_id <= 0x7fff_ffff {
            Some(self.next_id as i32)
        } else {
            None
        }
    }

    /// Whether the connection has ended.
    pub fn is_terminal(&self) -> (r: bool)
        ensures
            r == self@.terminal,
    {
        self.terminal
    }

    /// How many operations wait.
    pub fn pending_count(&self) -> (r: usize)
        ensures
            r == self@.pending.dom().len(),
            self@.pending.dom().finite(),
    {
        proof {
            use_type_invariant(self);
            lemma_table_len(self.pending@);
        }
        self.pending.len()
    }

    /// Whether nothing is in flight on a live connection: the only state in
    /// which the transport may be replaced by a secured one.
    pub fn is_quiescent(&self) -> (r: bool)
        ensures
            r == (!self@.terminal && self@.pending.dom().len() == 0),
    {
        !self.terminal && self.pending_count() == 0
    }

    /// How the operation `msgid` consumes its responses, if it waits.
    pub fn kind_of(&self, msgid: i32) -> (r: Option<SinkKind>)
        ensures
            r == if self@.pending.dom().contains(msgid as int) {
                Some(self@.pending[msgid as int])
            } else {
                None
            },
    {
        match self.find(msgid) {
            Some(i) => Some(self.pending[i].kind),
            None => None,
        }
    }

    /// Whether the operation `msgid` was given up while it waited.
    pub fn is_abandoned(&self, msgid: i32) -> (r: bool)
        ensures
            r == self@.abandoned.contains(msgid as int),
    {
        let mut i: usize = 0;
        while i < self.abandoned.len()
            invariant
                i <= self.abandoned@.len(),
                forall|j: int| 0 <= j < i ==> self.abandoned@[j] != msgid,
            decreases self.abandoned.len() - i,
        {
            if self.abandoned[i] == msgid {
                return true;
            }
            i += 1;
        }
        false
    }

    fn find(&self, msgid: i32) -> (r: Option<usize>)
        ensures
            r matches Some(i) ==> i < self.pending@.len() && self.pending@[i as int].msgid == msgid
                && self@.pending.dom().contains(msgid as int) && self@.pending[msgid as int]
                == self.pending@[i as int].kind,
            r.is_none() ==> !self@.pending.dom().contains(msgid as int),
    {
        proof {
            use_type_invariant(self);
            lemma_table_dom(self.pending@, msgid as int);
        }
        let mut i: usize = 0;
        while i < self.pending.len()
            invariant
                i <= self.pending@.len(),
                forall|j: int| 0 <= j < i ==> (#[trigger] self.pending@[j]).msgid != msgid,
                rising(self.pending@),
            decreases self.pending.len() - i,
        {
            if self.pending[i].msgid == msgid {
                proof {
                    lemma_table_at(self.pending@, i as int);
                }
                return Some(i);
            }
            i += 1;
        }
        None
    }

    fn retire(&mut self, i: usize)
        requires
            i < old(self).pending@.len(),
        ensures
            final(self)@ == (MuxModel {
                pending: old(self)@.pending.remove(old(self).pending@[i as int].msgid as int),
                ..old(self)@
            }),
    {
        proof {
            use_type_invariant(&*self);
            lemma_table_remove(self.pending@, i as int);
        }
        let ghost before = self.pending@;
        let mut ops: Vec<PendingOp> = Vec::new();
        core::mem::swap(&mut self.pending, &mut ops);
        ops.remove(i);
        proof {
            assert forall|j: int| 0 <= j < ops@.len() implies 1 <= (#[trigger] ops@[j]).msgid
                < self.next_id && ops@[j].kind != SinkKind::Solo by {
                assert(ops@[j] == (if j < i { before[j] } else { before[j + 1] }));
            }
        }
        self.pending = ops;
    }

    fn give_up(&mut self, msgid: i32)
        ensures
            final(self)@ == (MuxModel {
                abandoned: old(self)@.abandoned.insert(msgid as int),
                ..old(self)@
            }),
    {
        proof {
            use_type_invariant(&*self);
        }
        let ghost before = self.abandoned@;
        let mut ids: Vec<i32> = Vec::new();
        core::mem::swap(&mut self.abandoned, &mut ids);
        ids.push(msgid);
        self.abandoned = ids;
        proof {
            let after = self.abandoned@;
            assert forall|k: int| id_set(after).contains(k) <==> id_set(before).insert(
                msgid as int,
            ).contains(k) by {
                if id_set(after).contains(k) {
                    let i = choose|i: int| 0 <= i < after.len() && #[trigger] after[i] == k;
                    if i < before.len() {
                        assert(before[i] == k);
                    }
                }
                if id_set(before).contains(k) {
                    let i = choose|i: int| 0 <= i < before.len() && #[trigger] before[i] == k;
                    assert(after[i] == k);
                }
                if k == msgid {
                    assert(after[after.len() - 1] == k);
                }
            }
            assert(id_set(after) =~= id_set(before).insert(msgid as int));
        }
    }

    fn take_id(&mut self) -> (r: Option<i32>)
        ensures
            final(self).pending@ == old(self).pending@,
            r == if can_issue(old(self)@) {
                Some(old(self)@.next_id as i32)
            } else {
                None
            },
            final(self)@ == (MuxModel {
                next_id: if can_issue(old(self)@) {
                    old(self)@.next_id + 1
                } else {
                    old(self)@.next_id
                },
                ..old(self)@
            }),
    {
        proof {
            use_type_invariant(&*self);
        }
        if self.terminal || self.next_id > 0x7fff_ffff {
            None
        } else {
            let id = self.next_id as i32;
            self.next_id = self.next_id + 1;
            Some(id)
        }
    }

    /// Takes the next identifier for a request and, unless the request
    /// awaits nothing, lets the operation wait for responses under it.
    /// No identifier is given once the connection has ended or all are spent.
    pub fn submit(&mut self, kind: SinkKind) -> (r: Option<i32>)
        ensures
            r == if can_issue(old(self)@) {
                Some(old(self)@.next_id as i32)
            } else {
                None
            },
            r matches Some(id) ==> id >= 1,
            final(self)@ == submitted(old(self)@, kind),
            well_formed(old(self)@),
            well_formed(final(self)@),
    {
        self.well_formed_now();
        let r = self.submit_step(kind);
        self.well_formed_now();
        r
    }

    fn submit_step(&mut self, kind: SinkKind) -> (r: Option<i32>)
        ensures
            r == if can_issue(old(self)@) {
                Some(old(self)@.next_id as i32)
            } else {
                None
            },
            r matches Some(id) ==> id >= 1,
            final(self)@ == submitted(old(self)@, kind),
    {
        proof {
            use_type_invariant(&*self);
        }
        let ghost earlier = self.pending@;
        match self.take_id() {
            Some(id) => {
                if kind != SinkKind::Solo {
                    proof {
                        use_type_invariant(&*self);
                    }
                    let ghost before = self.pending@;
                    assert(forall|j: int|
                        0 <= j < before.len() ==> (#[trigger] before[j]).msgid < id);
                    let mut ops: Vec<PendingOp> = Vec::new();
                    core::mem::swap(&mut self.pending, &mut ops);
                    ops.push(PendingOp { msgid: id, kind });
                    proof {
                        assert(ops@.drop_last() =~= before);
                        assert forall|a: int, b: int| 0 <= a < b < ops@.len() implies ops@[a].msgid
                            < ops@[b].msgid by {
                            if b < before.len() {
                                assert(ops@[a] == before[a] && ops@[b] == before[b]);
                            } else {
                                assert(ops@[a] == before[a]);
                            }
                        }
                        assert forall|j: int| 0 <= j < ops@.len() implies 1 <= (
                        #[trigger] ops@[j]).msgid < self.next_id && ops@[j].kind
                            != SinkKind::Solo by {
                            if j < before.len() {
                                assert(ops@[j] == before[j]);
                            }
                        }
                    }
                    self.pending = ops;
                }
                Some(id)
            },
            None => None,
        }
    }

    /// Decides what becomes of a response and retires the operation that it
    /// completes.
    pub fn route(&mut self, msgid: i32, op: u64) -> (r: Route)
        ensures
            r == route_of(old(self)@, msgid as int, op),
            final(self)@ == routed(old(self)@, msgid as int, op),
            well_formed(old(self)@),
            well_formed(final(self)@),
    {
        self.well_formed_now();
        let r = self.route_step(msgid, op);
        self.well_formed_now();
        r
    }

    fn route_step(&mut self, msgid: i32, op: u64) -> (r: Route)
        ensures
            r == route_of(old(self)@, msgid as int, op),
            final(self)@ == routed(old(self)@, msgid as int, op),
    {
        if msgid == 0 {
            return Route::Unsolicited;
        }
        match self.find(msgid) {
            None => Route::Drop,
            Some(i) => {
                proof {
                    use_type_invariant(&*self);
                }
                match self.pending[i].kind {
                    SinkKind::Single => {
                        self.retire(i);
                        Route::Single
                    },
                    SinkKind::Streaming => {
                        if op == SEARCH_DONE {
                            self.retire(i);
                            Route::Done
                        } else if op == SEARCH_ENTRY || op == SEARCH_REFERENCE {
                            Route::Item
                        } else {
                            self.retire(i);
                            Route::Mismatch
                        }
                    },
                    SinkKind::Solo => Route::Drop,
                }
            },
        }
    }

    /// Decides what becomes of an operation whose deadline passed. An
    /// operation that still waited is retired and remembered as given up, so
    /// that a late response is discarded.
    pub fn timeout(&mut self, msgid: i32) -> (r: Expiry)
        ensures
            r == expiry_of(old(self)@, msgid as int),
            final(self)@ == expired(old(self)@, msgid as int),
            well_formed(old(self)@),
            well_formed(final(self)@),
    {
        self.well_formed_now();
        let r = self.timeout_step(msgid);
        self.well_formed_now();
        r
    }

    fn timeout_step(&mut self, msgid: i32) -> (r: Expiry)
        ensures
            r == expiry_of(old(self)@, msgid as int),
            final(self)@ == expired(old(self)@, msgid as int),
    {
        match self.find(msgid) {
            None => Expiry::Nothing,
            Some(i) => {
                let streaming = self.pending[i].kind == SinkKind::Streaming;
                self.retire(i);
                self.give_up(msgid);
                if streaming {
                    Expiry::SynthesizeDone
                } else {
                    Expiry::FailSingle
                }
            },
        }
    }

    /// Gives up the operation `msgid`: it is retired and remembered as given
    /// up, its sink is to be closed if it still waited, and the abandon
    /// request takes the next identifier if one is left.
    pub fn abandon(&mut self, msgid: i32) -> (r: Abandon)
        ensures
            r.request_id == if can_issue(old(self)@) {
                Some(old(self)@.next_id as i32)
            } else {
                None
            },
            r.close_sink == old(self)@.pending.dom().contains(msgid as int),
            final(self)@ == abandoned(old(self)@, msgid as int),
            well_formed(old(self)@),
            well_formed(final(self)@),
    {
        self.well_formed_now();
        let r = self.abandon_step(msgid);
        self.well_formed_now();
        r
    }

    fn abandon_step(&mut self, msgid: i32) -> (r: Abandon)
        ensures
            r.request_id == if can_issue(old(self)@) {
                Some(old(self)@.next_id as i32)
            } else {
                None
            },
            r.close_sink == old(self)@.pending.dom().contains(msgid as int),
            final(self)@ == abandoned(old(self)@, msgid as int),
    {
        let close_sink = match self.find(msgid) {
            Some(i) => {
                self.retire(i);
                true
            },
            None => {
                assert(self@.pending.remove(msgid as int) =~= self@.pending);
                false
            },
        };
        self.give_up(msgid);
        let request_id = self.take_id();
        Abandon { request_id, close_sink }
    }

    /// Ends the connection. The identifiers of the operations that waited
    /// come back in rising order: each of them fails.
    pub fn disconnect(&mut self) -> (ids: Vec<i32>)
        ensures
            final(self)@ == disconnected(old(self)@),
            well_formed(old(self)@),
            well_formed(final(self)@),
            id_set(ids@) == old(self)@.pending.dom(),
            forall|i: int, j: int| 0 <= i < j < ids@.len() ==> ids@[i] < ids@[j],
    {
        self.well_formed_now();
        let ids = self.disconnect_step();
        self.well_formed_now();
        ids
    }

    fn disconnect_step(&mut self) -> (ids: Vec<i32>)
        ensures
            final(self)@ == disconnected(old(self)@),
            id_set(ids@) == old(self)@.pending.dom(),
            forall|i: int, j: int| 0 <= i < j < ids@.len() ==> ids@[i] < ids@[j],
    {
        proof {
            use_type_invariant(&*self);
        }
        let mut ids: Vec<i32> = Vec::new();
        let mut i: usize = 0;
        while i < self.pending.len()
            invariant
                i <= self.pending@.len(),
                ids@.len() == i,
                forall|j: int| 0 <= j < i ==> ids@[j] == (#[trigger] self.pending@[j]).msgid,
            decreases self.pending.len() - i,
        {
            ids.push(self.pending[i].msgid);
            i += 1;
        }
        proof {
            let ops = self.pending@;
            assert forall|k: int| id_set(ids@).contains(k) <==> table(ops).dom().contains(k) by {
                lemma_table_dom(ops, k);
                if id_set(ids@).contains(k) {
                    let j = choose|j: int| 0 <= j < ids@.len() && #[trigger] ids@[j] == k;
                    assert(ops[j].msgid == k);
                }
                if table(ops).dom().contains(k) {
                    let j = choose|j: int| 0 <= j < ops.len() && (#[trigger] ops[j]).msgid == k;
                    assert(ids@[j] == k);
                }
            }
            assert(id_set(ids@) =~= table(ops).dom());
            assert forall|a: int, b: int| 0 <= a < b < ids@.len() implies ids@[a] < ids@[b] by {
                assert(ids@[a] == ops[a].msgid && ids@[b] == ops[b].msgid);
            }
        }
        self.pending = Vec::new();
        self.terminal = true;
        ids
    }
}

/// A table with distinct identifiers holds as many as it has operations.
proof fn lemma_table_len(ops: Seq<PendingOp>)
    requires
        rising(ops),
    ensures
        table(ops).dom().finite(),
        table(ops).dom().len() == ops.len(),
    decreases ops.len(),
{
    if ops.len() > 0 {
        let shorter = ops.drop_last();
        assert forall|a: int, b: int| 0 <= a < b < shorter.len() implies shorter[a].msgid
            < shorter[b].msgid by {
            assert(shorter[a] == ops[a] && shorter[b] == ops[b]);
        }
        lemma_table_len(shorter);
        lemma_table_dom(shorter, ops.last().msgid as int);
        if table(shorter).dom().contains(ops.last().msgid as int) {
            let j = choose|j: int|
                0 <= j < shorter.len() && (#[trigger] shorter[j]).msgid == ops.last().msgid;
            assert(ops[j] == shorter[j]);
        }
    }
}

impl View for ProtoBundle {
    type V = MuxModel;

    closed spec fn view(&self) -> MuxModel {
        MuxModel {
            next_id: self.next_id as int,
            pending: table(self.pending@),
            abandoned: id_set(self.abandoned@),
            terminal: self.terminal,
        }
    }
}

} // verus!
