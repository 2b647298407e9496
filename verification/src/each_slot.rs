//! A run that sends one transaction for every slot.
//!
//! The run is told of new slots and of what became of each send; it says which
//! slot to send for next, and which signatures to check together.
use vstd::arithmetic::div_mod::{
    lemma_fundamental_div_mod, lemma_fundamental_div_mod_converse, lemma_mod_add_multiples_vanish,
    lemma_mod_bound, lemma_small_mod,
};
use vstd::prelude::*;

use crate::stats::RunStats;
use crate::status::{queue_status_batch, SentSignature, StatusBatch};
use crate::types::Signature;

verus! {

/// What has happened.
#[derive(Debug, Clone, Copy)]
pub enum RunEvent {
    /// The ledger has reached this slot.
    Tick(u64),
    /// The transaction was sent, under this signature.
    Sent(Signature),
    /// The transaction was not sent.
    SendFailed,
    /// The run is to stop.
    Stop,
}

/// What to do next.
#[derive(Debug, Clone, Copy, PartialEq, Eq, Structural)]
pub enum RunAction {
    /// Wait for a new slot.
    Wait,
    /// Send a transaction for this slot.
    SendFor(u64),
    /// The run is over.
    Finish,
}

/// The state of a run.
#[verifier::ext_equal]
pub struct RunView {
    /// The last slot that is done with.
    pub last: u64,
    /// The slot that the ledger has reached.
    pub target: u64,
    /// How many transactions to send at most.
    pub limit: Option<u64>,
    /// How many transactions were sent.
    pub sent: u64,
    /// How many signatures are checked together.
    pub batch_size: usize,
    /// The signatures that no batch holds yet.
    pub pending: Seq<SentSignature>,
    /// The number of the next batch.
    pub next_batch_id: u64,
    /// Whether a send is under way.
    pub awaiting: bool,
    /// Whether the run is over.
    pub done: bool,
}

/// A batch as it is queued: its number and its signatures.
pub type Queued = (u64, Seq<SentSignature>);

/// What one event leads to.
#[verifier::ext_equal]
pub struct RunStep {
    pub state: RunView,
    pub queued: Option<Queued>,
    pub action: RunAction,
}

impl RunView {
    /// A run that starts after slot `last`.
    pub open spec fn initial(last: u64, limit: Option<u64>, batch_size: usize) -> RunView {
        RunView {
            last,
            target: last,
            limit,
            sent: 0,
            batch_size,
            pending: Seq::empty(),
            next_batch_id: 1,
            awaiting: false,
            done: false,
        }
    }

    /// What every state of a run keeps.
    pub open spec fn wf(self) -> bool {
        &&& self.last <= self.target
        &&& self.sent <= self.last
        &&& self.batch_size > 0
        &&& self.pending.len() < self.batch_size
        &&& self.awaiting ==> self.last < self.target && !self.done
        &&& self.limit matches Some(max) ==> {
            &&& self.sent <= max
            &&& self.awaiting ==> self.sent < max
        }
        &&& self.done ==> self.pending.len() == 0
        &&& !self.awaiting && !self.done ==> self.last == self.target
    }

    /// Whether an event can happen: the outcome of a send while one is under
    /// way, anything else while none is.
    pub open spec fn accepts(self, event: RunEvent) -> bool {
        &&& !self.done
        &&& self.awaiting == (event is Sent || event is SendFailed)
    }

    /// Queues the pending signatures, if there are any.
    pub open spec fn flushed(self) -> (RunView, Option<Queued>) {
        if self.pending.len() == 0 {
            (self, None)
        } else {
            (
                RunView {
                    pending: Seq::empty(),
                    next_batch_id: (self.next_batch_id + 1) as u64,
                    ..self
                },
                Some((self.next_batch_id, self.pending)),
            )
        }
    }

    /// Ends the run: what is pending is queued.
    pub open spec fn finished(self) -> RunStep {
        let (flushed, queued) = self.flushed();
        RunStep {
            state: RunView { awaiting: false, done: true, ..flushed },
            queued,
            action: RunAction::Finish,
        }
    }

    /// Goes on with the next slot, waits where there is none, or ends the run
    /// where a slot is left and the limit is reached.
    pub open spec fn advanced(self) -> RunStep {
        if self.last == self.target {
            RunStep {
                state: RunView { awaiting: false, ..self },
                queued: None,
                action: RunAction::Wait,
            }
        } else if self.limit matches Some(max) && self.sent >= max {
            self.finished()
        } else {
            RunStep {
                state: RunView { awaiting: true, ..self },
                queued: None,
                action: RunAction::SendFor((self.last + 1) as u64),
            }
        }
    }

    /// The state once the send under way has succeeded.
    pub open spec fn with_sent(self, signature: Signature) -> RunView {
        let slot = (self.last + 1) as u64;
        RunView {
            last: slot,
            sent: (self.sent + 1) as u64,
            pending: self.pending.push(SentSignature { slot, signature }),
            ..self
        }
    }

    /// What an event leads to.
    pub open spec fn after(self, event: RunEvent) -> RunStep {
        match event {
            RunEvent::Tick(current) => if current <= self.last {
                RunStep { state: self, queued: None, action: RunAction::Wait }
            } else {
                RunView { target: current, ..self }.advanced()
            },
            RunEvent::Sent(signature) => {
                let sent = self.with_sent(signature);
                if sent.pending.len() >= self.batch_size {
                    let (flushed, queued) = sent.flushed();
                    RunStep { queued, ..flushed.advanced() }
                } else {
                    sent.advanced()
                }
            },
            RunEvent::SendFailed => RunView {
                last: (self.last + 1) as u64,
                ..self
            }.advanced(),
            RunEvent::Stop => self.finished(),
        }
    }
}

/// A run that sends one transaction for every slot.
pub struct EachSlotRun {
    last_slot: u64,
    current_slot: u64,
    max_slots: Option<u64>,
    sent_count: u64,
    status_batch_size: usize,
    pending_batch: Vec<SentSignature>,
    next_batch_id: u64,
    awaiting: bool,
    done: bool,
}

impl View for EachSlotRun {
    type V = RunView;

    closed spec fn view(&self) -> RunView {
        RunView {
            last: self.last_slot,
            target: self.current_slot,
            limit: self.max_slots,
            sent: self.sent_count,
            batch_size: self.status_batch_size,
            pending: self.pending_batch@,
            next_batch_id: self.next_batch_id,
            awaiting: self.awaiting,
            done: self.done,
        }
    }
}

/// What a queued batch says.
pub open spec fn queued_view(queued: Option<StatusBatch>) -> Option<Queued> {
    match queued {
        Some(queue) => Some((queue.batch_id, queue.batch@)),
        None => None,
    }
}

impl EachSlotRun {
    /// A run that starts after slot `last_slot`, sends at most `max_slots`
    /// transactions, and checks `status_batch_size` signatures together.
    pub fn new(last_slot: u64, max_slots: Option<u64>, status_batch_size: usize) -> (run: Self)
        requires
            status_batch_size > 0,
        ensures
            run@ == RunView::initial(last_slot, max_slots, status_batch_size),
            run@.wf(),
    {
        EachSlotRun {
            last_slot,
            current_slot: last_slot,
            max_slots,
            sent_count: 0,
            status_batch_size,
            pending_batch: Vec::new(),
            next_batch_id: 1,
            awaiting: false,
            done: false,
        }
    }

    /// How many transactions were sent.
    pub fn sent_count(&self) -> (sent: u64)
        ensures
            sent == self@.sent,
    {
        self.sent_count
    }

    /// The number of the next batch.
    pub fn next_batch_id(&self) -> (id: u64)
        ensures
            id == self@.next_batch_id,
    {
        self.next_batch_id
    }

    fn flush(&mut self) -> (queued: Option<StatusBatch>)
        requires
            old(self)@.pending.len() > 0 ==> old(self)@.next_batch_id < u64::MAX,
        ensures
            (final(self)@, queued_view(queued)) == old(self)@.flushed(),
    {
        let queued = queue_status_batch(&mut self.next_batch_id, &mut self.pending_batch);
        assert(self.pending_batch@ =~= Seq::<SentSignature>::empty());
        queued
    }

    fn finish(&mut self) -> (next: (Option<StatusBatch>, RunAction))
        requires
            old(self)@.pending.len() > 0 ==> old(self)@.next_batch_id < u64::MAX,
        ensures
            (RunStep { state: final(self)@, queued: queued_view(next.0), action: next.1 }) == old(
                self,
            )@.finished(),
    {
        let queued = self.flush();
        self.awaiting = false;
        self.done = true;
        (queued, RunAction::Finish)
    }

    fn advance(&mut self) -> (next: (Option<StatusBatch>, RunAction))
        requires
            old(self)@.last <= old(self)@.target,
            old(self)@.pending.len() > 0 ==> old(self)@.next_batch_id < u64::MAX,
        ensures
            (RunStep { state: final(self)@, queued: queued_view(next.0), action: next.1 }) == old(
                self,
            )@.advanced(),
    {
        if self.last_slot == self.current_slot {
            self.awaiting = false;
            return (None, RunAction::Wait);
        }
        match self.max_slots {
            Some(max_slots) => {
                if self.sent_count >= max_slots {
                    return self.finish();
                }
            },
            None => {},
        }
        self.awaiting = true;
        (None, RunAction::SendFor(self.last_slot + 1))
    }

    /// Takes an event and says what to do next, and which signatures to check
    /// now. A send that succeeded is counted as scheduled.
    pub fn step(&mut self, event: RunEvent, stats: &mut RunStats) -> (next: (
        Option<StatusBatch>,
        RunAction,
    ))
        requires
            old(self)@.wf(),
            old(self)@.accepts(event),
            old(self)@.next_batch_id < u64::MAX,
        ensures
            final(self)@.wf(),
            (RunStep { state: final(self)@, queued: queued_view(next.0), action: next.1 }) == old(
                self,
            )@.after(event),
            *final(stats) == if event is Sent {
                old(stats).with_scheduled()
            } else {
                *old(stats)
            },
    {
        match event {
            RunEvent::Tick(current_slot) => {
                if current_slot <= self.last_slot {
                    return (None, RunAction::Wait);
                }
                self.current_slot = current_slot;
                self.advance()
            },
            RunEvent::Sent(signature) => {
                let slot: u64 = self.last_slot + 1;
                self.last_slot = slot;
                self.sent_count += 1;
                stats.record_scheduled();
                self.pending_batch.push(SentSignature { slot, signature });
                if self.pending_batch.len() >= self.status_batch_size {
                    let queued = self.flush();
                    let (_, action) = self.advance();
                    (queued, action)
                } else {
                    self.advance()
                }
            },
            RunEvent::SendFailed => {
                self.last_slot += 1;
                self.advance()
            },
            RunEvent::Stop => self.finish(),
        }
    }
}

/// What a run has done so far.
#[verifier::ext_equal]
pub struct RunTrace {
    /// The state that it is in.
    pub state: RunView,
    /// The slots that it has sent for.
    pub slots: Seq<u64>,
    /// The transactions that were sent.
    pub sent: Seq<SentSignature>,
    /// The batches that it has queued.
    pub queued: Seq<Queued>,
}

/// What a run that starts in `start` does on a sequence of events.
pub open spec fn trace(start: RunView, events: Seq<RunEvent>) -> RunTrace
    decreases events.len(),
{
    if events.len() == 0 {
        RunTrace { state: start, slots: Seq::empty(), sent: Seq::empty(), queued: Seq::empty() }
    } else {
        let before = trace(start, events.drop_last());
        let step = before.state.after(events.last());
        RunTrace {
            state: step.state,
            slots: match step.action {
                RunAction::SendFor(slot) => before.slots.push(slot),
                _ => before.slots,
            },
            sent: match events.last() {
                RunEvent::Sent(signature) => before.sent.push(
                    SentSignature { slot: (before.state.last + 1) as u64, signature },
                ),
                _ => before.sent,
            },
            queued: match step.queued {
                Some(batch) => before.queued.push(batch),
                None => before.queued,
            },
        }
    }
}

/// Whether every event of a sequence can happen when its turn comes.
pub open spec fn can_happen(start: RunView, events: Seq<RunEvent>) -> bool
    decreases events.len(),
{
    events.len() > 0 ==> {
        let before = trace(start, events.drop_last()).state;
        &&& can_happen(start, events.drop_last())
        &&& before.accepts(events.last())
        &&& before.next_batch_id < u64::MAX
    }
}

/// The signatures of all batches, one batch after the other.
pub open spec fn joined(queued: Seq<Queued>) -> Seq<SentSignature>
    decreases queued.len(),
{
    if queued.len() == 0 {
        Seq::empty()
    } else {
        joined(queued.drop_last()) + queued.last().1
    }
}

proof fn lemma_joined_push(queued: Seq<Queued>, batch: Queued)
    ensures
        joined(queued.push(batch)) == joined(queued) + batch.1,
{
    assert(queued.push(batch).drop_last() =~= queued);
}

/// Every state of a run is well formed.
pub proof fn law_states_stay_well_formed(
    last: u64,
    limit: Option<u64>,
    batch_size: usize,
    events: Seq<RunEvent>,
)
    requires
        batch_size > 0,
        can_happen(RunView::initial(last, limit, batch_size), events),
    ensures
        trace(RunView::initial(last, limit, batch_size), events).state.wf(),
        trace(RunView::initial(last, limit, batch_size), events).state.limit == limit,
        trace(RunView::initial(last, limit, batch_size), events).state.batch_size == batch_size,
    decreases events.len(),
{
    if events.len() > 0 {
        law_states_stay_well_formed(last, limit, batch_size, events.drop_last());
    }
}

/// A run sends for every slot after the one it starts at, in order, without a
/// gap, and for none twice.
pub proof fn law_each_slot_once_in_order(
    last: u64,
    limit: Option<u64>,
    batch_size: usize,
    events: Seq<RunEvent>,
)
    requires
        batch_size > 0,
        can_happen(RunView::initial(last, limit, batch_size), events),
    ensures
        ({
            let t = trace(RunView::initial(last, limit, batch_size), events);
            &&& forall|i: int| 0 <= i < t.slots.len() ==> #[trigger] t.slots[i] == last + 1 + i
            &&& last + t.slots.len() == t.state.last + if t.state.awaiting {
                1int
            } else {
                0int
            }
        }),
    decreases events.len(),
{
    if events.len() > 0 {
        law_states_stay_well_formed(last, limit, batch_size, events.drop_last());
        law_each_slot_once_in_order(last, limit, batch_size, events.drop_last());
    }
}

/// A run never sends more transactions than it may, and counts what it sends.
pub proof fn law_run_respects_limit(
    last: u64,
    limit: Option<u64>,
    batch_size: usize,
    events: Seq<RunEvent>,
)
    requires
        batch_size > 0,
        can_happen(RunView::initial(last, limit, batch_size), events),
    ensures
        ({
            let t = trace(RunView::initial(last, limit, batch_size), events);
            &&& t.sent.len() == t.state.sent
            &&& limit matches Some(max) ==> t.sent.len() <= max
        }),
    decreases events.len(),
{
    law_states_stay_well_formed(last, limit, batch_size, events);
    if events.len() > 0 {
        law_states_stay_well_formed(last, limit, batch_size, events.drop_last());
        law_run_respects_limit(last, limit, batch_size, events.drop_last());
    }
}

/// No sent transaction is lost: the batches hold what was sent, in order, but
/// for what is still pending, and once the run is over nothing is. The batches
/// are numbered from one on, and all but the last hold as many signatures as
/// are checked together.
pub proof fn law_batches_hold_what_was_sent(
    last: u64,
    limit: Option<u64>,
    batch_size: usize,
    events: Seq<RunEvent>,
)
    requires
        batch_size > 0,
        can_happen(RunView::initial(last, limit, batch_size), events),
    ensures
        ({
            let t = trace(RunView::initial(last, limit, batch_size), events);
            &&& joined(t.queued) + t.state.pending == t.sent
            &&& t.state.done ==> joined(t.queued) == t.sent
            &&& t.state.next_batch_id == t.queued.len() + 1
            &&& forall|i: int| 0 <= i < t.queued.len() ==> (#[trigger] t.queued[i]).0 == i + 1
            &&& forall|i: int|
                0 <= i < t.queued.len() ==> 0 < (#[trigger] t.queued[i]).1.len() <= batch_size
            &&& forall|i: int|
                0 <= i < t.queued.len() && (i < t.queued.len() - 1 || !t.state.done) ==> (
                #[trigger] t.queued[i]).1.len() == batch_size
        }),
    decreases events.len(),
{
    let start = RunView::initial(last, limit, batch_size);
    let t = trace(start, events);
    law_states_stay_well_formed(last, limit, batch_size, events);
    if events.len() > 0 {
        let before = trace(start, events.drop_last());
        law_states_stay_well_formed(last, limit, batch_size, events.drop_last());
        law_batches_hold_what_was_sent(last, limit, batch_size, events.drop_last());
        let step = before.state.after(events.last());
        if let Some(batch) = step.queued {
            lemma_joined_push(before.queued, batch);
        }
        assert(joined(t.queued) + t.state.pending =~= t.sent);
    }
    if t.state.done {
        assert(joined(t.queued) + t.state.pending =~= joined(t.queued));
    }
}

/// The amount for a slot: a base, and a jitter that depends on the slot.
pub open spec fn amount(base: u64, jitter: u64, slot: u64) -> int {
    base + slot as int % jitter as int
}

/// What is transferred for a slot: a base, and a jitter that depends on the
/// slot.
pub fn slot_lamports(lamports_base: u64, lamports_jitter: u64, slot: u64) -> (lamports: u64)
    requires
        lamports_jitter > 0,
        lamports_base + slot % lamports_jitter <= u64::MAX,
    ensures
        lamports == lamports_base + slot % lamports_jitter,
        lamports == amount(lamports_base, lamports_jitter, slot),
{
    lamports_base + slot % lamports_jitter
}

/// Two slots that are less than the jitter apart get different amounts, so that
/// their transactions differ.
pub proof fn law_jitter_tells_slots_apart(
    lamports_base: u64,
    lamports_jitter: u64,
    slot: u64,
    later: u64,
)
    requires
        slot < later < slot + lamports_jitter,
    ensures
        lamports_base + slot % lamports_jitter != lamports_base + later % lamports_jitter,
        amount(lamports_base, lamports_jitter, slot) != amount(lamports_base, lamports_jitter, later),
{
    let n = lamports_jitter as int;
    lemma_fundamental_div_mod(slot as int, n);
    lemma_fundamental_div_mod(later as int, n);
    if slot % lamports_jitter == later % lamports_jitter {
        let a = slot as int / n;
        let b = later as int / n;
        assert(n * b - n * a == later - slot);
        assert(0 < n * (b - a) < n ==> false) by (nonlinear_arith);
        assert(n * b - n * a == n * (b - a)) by (nonlinear_arith);
    }
}

/// The amounts start at the base, go up by one from slot to slot, stay under the
/// base and the jitter together, and come round after as many slots as the
/// jitter has.
pub proof fn law_jitter_goes_round(base: u64, jitter: u64, slot: u64)
    requires
        jitter > 0,
    ensures
        base <= amount(base, jitter, slot) < base + jitter,
        slot < jitter ==> amount(base, jitter, slot) == base + slot,
        slot + jitter <= u64::MAX ==> amount(base, jitter, (slot + jitter) as u64) == amount(
            base,
            jitter,
            slot,
        ),
        slot < u64::MAX ==> amount(base, jitter, (slot + 1) as u64) == if amount(base, jitter, slot)
            + 1 == base + jitter {
            base as int
        } else {
            amount(base, jitter, slot) + 1
        },
{
    let n = jitter as int;
    let s = slot as int;
    lemma_fundamental_div_mod(s, n);
    lemma_mod_bound(s, n);
    if slot < jitter {
        lemma_small_mod(slot as nat, jitter as nat);
    }
    lemma_mod_add_multiples_vanish(s, n);
    let q = s / n;
    let r = s % n;
    assert(q * n == n * q) by (nonlinear_arith);
    if r + 1 < n {
        lemma_fundamental_div_mod_converse(s + 1, n, q, r + 1);
    } else {
        assert(n * (q + 1) == n * q + n) by (nonlinear_arith);
        assert((q + 1) * n == n * (q + 1)) by (nonlinear_arith);
        lemma_fundamental_div_mod_converse(s + 1, n, q + 1, 0);
    }
}

/// While a slot is left and fewer transactions were sent than may be, a run goes
/// on with the next slot: it neither waits nor ends. Without a slot left it
/// waits, and it ends by itself only where a slot is left and as many were sent
/// as may be.
pub proof fn law_run_goes_on(state: RunView, event: RunEvent)
    requires
        state.wf(),
        state.accepts(event),
        event !is Stop,
    ensures
        ({
            let step = state.after(event);
            let last = if event is Sent || event is SendFailed {
                state.last + 1
            } else {
                state.last as int
            };
            let target = match event {
                RunEvent::Tick(current) => if current > state.target {
                    current
                } else {
                    state.target
                },
                _ => state.target,
            };
            let sent = if event is Sent {
                state.sent + 1
            } else {
                state.sent as int
            };
            let may_send = state.limit matches Some(max) ==> sent < max;
            &&& step.state.last == last
            &&& step.state.target == target
            &&& step.state.sent == sent
            &&& step.action == RunAction::Wait <==> last == target
            &&& last < target && may_send ==> step.action == RunAction::SendFor((last + 1) as u64)
            &&& last < target && !may_send ==> step.action == RunAction::Finish
            &&& step.state.done <==> step.action == RunAction::Finish
            &&& step.state.awaiting <==> step.action is SendFor
        }),
{
}

/// A run that is told to stop is over, and queues what is pending.
pub proof fn law_run_stops_when_told(state: RunView)
    requires
        state.wf(),
        state.accepts(RunEvent::Stop),
    ensures
        state.after(RunEvent::Stop).action == RunAction::Finish,
        state.after(RunEvent::Stop).state.done,
        state.pending.len() > 0 ==> state.after(RunEvent::Stop).queued == Some(
            (state.next_batch_id, state.pending),
        ),
        state.pending.len() == 0 ==> state.after(RunEvent::Stop).queued is None,
{
}

/// A batch is queued as soon as as many signatures are pending as are checked
/// together, and not before, unless the run ends.
pub proof fn law_batch_is_queued_when_full(state: RunView, signature: Signature)
    requires
        state.wf(),
        state.accepts(RunEvent::Sent(signature)),
        state.next_batch_id < u64::MAX,
    ensures
        ({
            let step = state.after(RunEvent::Sent(signature));
            let pending = state.pending.push(
                SentSignature { slot: (state.last + 1) as u64, signature },
            );
            if pending.len() == state.batch_size || step.state.done {
                &&& step.queued == Some((state.next_batch_id, pending))
                &&& step.state.pending.len() == 0
                &&& step.state.next_batch_id == state.next_batch_id + 1
            } else {
                &&& step.queued is None
                &&& step.state.pending == pending
                &&& step.state.next_batch_id == state.next_batch_id
            }
        }),
{
}

/// A run that was not told to stop is over only once it has sent exactly as many
/// transactions as it may; without a limit it never ends by itself.
pub proof fn law_run_ends_only_at_its_limit(
    last: u64,
    limit: Option<u64>,
    batch_size: usize,
    events: Seq<RunEvent>,
)
    requires
        batch_size > 0,
        can_happen(RunView::initial(last, limit, batch_size), events),
        forall|i: int| 0 <= i < events.len() ==> #[trigger] events[i] !is Stop,
    ensures
        ({
            let t = trace(RunView::initial(last, limit, batch_size), events);
            t.state.done ==> (limit matches Some(max) && t.sent.len() == max && t.state.sent
                == max)
        }),
    decreases events.len(),
{
    if events.len() > 0 {
        let front = events.drop_last();
        let start = RunView::initial(last, limit, batch_size);
        let before = trace(start, front).state;
        assert forall|i: int| 0 <= i < front.len() implies #[trigger] front[i] !is Stop by {
            assert(events[i] == front[i]);
        }
        assert(events[events.len() - 1] !is Stop);
        law_states_stay_well_formed(last, limit, batch_size, front);
        law_states_stay_well_formed(last, limit, batch_size, events);
        law_run_respects_limit(last, limit, batch_size, events);
        law_run_goes_on(before, events.last());
    }
}

/// While a run waits it has sent for every slot up to the last one that it was
/// told of.
pub proof fn law_run_catches_up(
    last: u64,
    limit: Option<u64>,
    batch_size: usize,
    events: Seq<RunEvent>,
)
    requires
        batch_size > 0,
        can_happen(RunView::initial(last, limit, batch_size), events),
    ensures
        ({
            let t = trace(RunView::initial(last, limit, batch_size), events);
            &&& t.state.target >= last
            &&& forall|i: int|
                0 <= i < events.len() ==> (#[trigger] events[i] matches RunEvent::Tick(slot)
                    ==> slot <= t.state.target)
            &&& t.state.target == last || exists|i: int|
                0 <= i < events.len() && #[trigger] events[i] == RunEvent::Tick(t.state.target)
            &&& !t.state.done && !t.state.awaiting ==> t.state.last == t.state.target
                && t.slots.len() == t.state.target - last
        }),
    decreases events.len(),
{
    let start = RunView::initial(last, limit, batch_size);
    law_states_stay_well_formed(last, limit, batch_size, events);
    law_each_slot_once_in_order(last, limit, batch_size, events);
    if events.len() > 0 {
        let front = events.drop_last();
        let before = trace(start, front).state;
        let t = trace(start, events);
        law_states_stay_well_formed(last, limit, batch_size, front);
        law_run_catches_up(last, limit, batch_size, front);
        if events.last() is Stop {
            assert(t.state.target == before.target);
        } else {
            law_run_goes_on(before, events.last());
        }
        assert forall|i: int| 0 <= i < events.len() implies (
        #[trigger] events[i] matches RunEvent::Tick(slot) ==> slot <= t.state.target) by {
            if i < front.len() {
                assert(front[i] == events[i]);
            }
        }
        if t.state.target != last {
            if t.state.target == before.target {
                let i = choose|i: int|
                    0 <= i < front.len() && #[trigger] front[i] == RunEvent::Tick(before.target);
                assert(events[i] == RunEvent::Tick(t.state.target));
            } else {
                assert(events[events.len() - 1] == RunEvent::Tick(t.state.target));
            }
        }
    }
}

/// A run that is not over takes the outcome of a send while one is under way,
/// and a new slot or the word to stop while none is.
pub proof fn law_what_can_happen(state: RunView, slot: u64, signature: Signature)
    requires
        !state.done,
    ensures
        state.accepts(RunEvent::Sent(signature)) == state.awaiting,
        state.accepts(RunEvent::SendFailed) == state.awaiting,
        state.accepts(RunEvent::Tick(slot)) == !state.awaiting,
        state.accepts(RunEvent::Stop) == !state.awaiting,
{
}

/// A queued batch shows its number and all of its signatures.
pub proof fn law_queued_batch_is_shown(queued: Option<StatusBatch>)
    ensures
        queued_view(queued) is Some <==> queued is Some,
        queued matches Some(queue) ==> queued_view(queued) == Some((queue.batch_id, queue.batch@)),
{
}

} // verus!
