//! Whether sent transactions have landed: batches of signatures, the RPC
//! clients that are asked in turn, and what the answers amount to.
use solana_commitment_config::CommitmentConfig;
use solana_transaction_status_client_types::{TransactionConfirmationStatus, TransactionStatus};
use vstd::arithmetic::div_mod::{
    lemma_fundamental_div_mod, lemma_fundamental_div_mod_converse, lemma_mod_bound,
};
use vstd::prelude::*;

use crate::stats::{BatchTally, RunStats};
use crate::types::Signature;

verus! {

/// A transaction that was sent, and the slot that it was sent for.
#[derive(Debug, Clone, Copy)]
pub struct SentSignature {
    pub slot: u64,
    pub signature: Signature,
}

/// How far the cluster has come with a transaction.
#[derive(Debug, Clone, Copy, PartialEq, Eq, Structural)]
pub enum ConfirmationStatus {
    Processed,
    Confirmed,
    Finalized,
}

/// What an RPC node says of a signature that it has seen.
#[derive(Debug, Clone)]
pub struct SignatureStatus {
    /// The slot in which the transaction was processed.
    pub slot: u64,
    /// Blocks since then; `None` when it is rooted.
    pub confirmations: Option<usize>,
    /// How far the cluster has come, where the node tells.
    pub confirmation_status: Option<ConfirmationStatus>,
    /// The error that the transaction ended with, if any.
    pub err: Option<String>,
}

/// What became of a transaction.
#[derive(Debug, Clone, Copy, PartialEq, Eq, Structural)]
pub enum Landing {
    /// It was confirmed.
    Landed,
    /// It was confirmed, with an error.
    LandedWithError,
    /// It was seen, and is not confirmed.
    Unconfirmed,
    /// It was not seen.
    Missing,
}

/// Whether a status satisfies the commitment level "confirmed". Nodes that do
/// not tell how far the cluster has come are taken by their block count.
pub open spec fn confirmed(
    confirmations: Option<usize>,
    confirmation_status: Option<ConfirmationStatus>,
) -> bool {
    match confirmation_status {
        Some(status) => status != ConfirmationStatus::Processed,
        None => confirmations matches Some(blocks) ==> blocks > 1,
    }
}

/// Calls `TransactionStatus::satisfies_commitment` with
/// `CommitmentConfig::confirmed()`. Trusted: the answer is `confirmed` of the
/// status's confirmations and confirmation status; its other fields are not
/// read.
#[verifier::external_body]
fn satisfies_confirmed(
    slot: u64,
    confirmations: Option<usize>,
    confirmation_status: Option<ConfirmationStatus>,
) -> (satisfied: bool)
    ensures
        satisfied == confirmed(confirmations, confirmation_status),
{
    let confirmation_status = confirmation_status.map(
        |status|
            match status {
                ConfirmationStatus::Processed => TransactionConfirmationStatus::Processed,
                ConfirmationStatus::Confirmed => TransactionConfirmationStatus::Confirmed,
                ConfirmationStatus::Finalized => TransactionConfirmationStatus::Finalized,
            },
    );
    TransactionStatus { slot, confirmations, status: Ok(()), err: None, confirmation_status }
        .satisfies_commitment(CommitmentConfig::confirmed())
}

/// What an answer says of a transaction.
pub open spec fn landing(status: Option<SignatureStatus>) -> Landing {
    match status {
        None => Landing::Missing,
        Some(status) => if !confirmed(status.confirmations, status.confirmation_status) {
            Landing::Unconfirmed
        } else if status.err is Some {
            Landing::LandedWithError
        } else {
            Landing::Landed
        },
    }
}

/// How many answers say that a transaction ended so.
pub open spec fn count(statuses: Seq<Option<SignatureStatus>>, end: Landing) -> nat
    decreases statuses.len(),
{
    if statuses.len() == 0 {
        0
    } else {
        count(statuses.drop_last(), end) + if landing(statuses.last()) == end {
            1nat
        } else {
            0nat
        }
    }
}

/// The answers that belong to a batch of `len` signatures: one each, in order,
/// as far as there are answers.
pub open spec fn answers(statuses: Seq<Option<SignatureStatus>>, len: nat) -> Seq<
    Option<SignatureStatus>,
> {
    if statuses.len() <= len {
        statuses
    } else {
        statuses.take(len as int)
    }
}

/// The tally of the answers for a batch of `len` signatures.
pub open spec fn tally(statuses: Seq<Option<SignatureStatus>>, len: nat) -> BatchTally {
    let answered = answers(statuses, len);
    BatchTally {
        landed: count(answered, Landing::Landed) as u64,
        landed_with_error: count(answered, Landing::LandedWithError) as u64,
        unconfirmed: count(answered, Landing::Unconfirmed) as u64,
        missing: count(answered, Landing::Missing) as u64,
    }
}

/// What an answer says of a transaction.
pub fn landing_of(status: &Option<SignatureStatus>) -> (end: Landing)
    ensures
        end == landing(*status),
{
    match status {
        None => Landing::Missing,
        Some(status) => {
            if !satisfies_confirmed(status.slot, status.confirmations, status.confirmation_status) {
                Landing::Unconfirmed
            } else {
                match status.err {
                    Some(_) => Landing::LandedWithError,
                    None => Landing::Landed,
                }
            }
        },
    }
}

proof fn lemma_counts_add_up(statuses: Seq<Option<SignatureStatus>>)
    ensures
        count(statuses, Landing::Landed) + count(statuses, Landing::LandedWithError) + count(
            statuses,
            Landing::Unconfirmed,
        ) + count(statuses, Landing::Missing) == statuses.len(),
    decreases statuses.len(),
{
    if statuses.len() > 0 {
        lemma_counts_add_up(statuses.drop_last());
    }
}

/// Tallies the answers for a batch.
pub fn tally_batch(batch: &[SentSignature], statuses: &[Option<SignatureStatus>]) -> (result:
    BatchTally)
    ensures
        result == tally(statuses@, batch@.len()),
{
    let mut result = BatchTally { landed: 0, landed_with_error: 0, unconfirmed: 0, missing: 0 };
    let ghost answered = answers(statuses@, batch@.len());
    let mut i: usize = 0;
    assert(answered.take(0) =~= Seq::<Option<SignatureStatus>>::empty());
    while i < batch.len() && i < statuses.len()
        invariant
            answered == answers(statuses@, batch@.len()),
            i <= answered.len(),
            result.landed == count(answered.take(i as int), Landing::Landed),
            result.landed_with_error == count(answered.take(i as int), Landing::LandedWithError),
            result.unconfirmed == count(answered.take(i as int), Landing::Unconfirmed),
            result.missing == count(answered.take(i as int), Landing::Missing),
        decreases answered.len() - i,
    {
        proof {
            assert(answered.take(i + 1).drop_last() =~= answered.take(i as int));
            assert(answered[i as int] == statuses@[i as int]);
            lemma_counts_add_up(answered.take(i as int));
        }
        match landing_of(&statuses[i]) {
            Landing::Landed => {
                result.landed += 1;
            },
            Landing::LandedWithError => {
                result.landed_with_error += 1;
            },
            Landing::Unconfirmed => {
                result.unconfirmed += 1;
            },
            Landing::Missing => {
                result.missing += 1;
            },
        }
        i += 1;
    }
    assert(answered.take(i as int) =~= answered);
    result
}

/// Every answer of a batch is tallied once: the four counts add up to the
/// number of answers, or of signatures where there are fewer.
pub proof fn law_tally_adds_up(statuses: Seq<Option<SignatureStatus>>, len: nat)
    requires
        len <= u64::MAX,
    ensures
        ({
            let t = tally(statuses, len);
            t.landed + t.landed_with_error + t.unconfirmed + t.missing == if statuses.len() <= len {
                statuses.len()
            } else {
                len
            }
        }),
{
    lemma_counts_add_up(answers(statuses, len));
}

/// Signatures that are checked together.
#[derive(Debug, Clone)]
pub struct StatusBatch {
    pub batch_id: u64,
    pub batch: Vec<SentSignature>,
}

/// Makes a batch of the pending signatures, under the next number, unless there
/// are none.
pub fn queue_status_batch(next_batch_id: &mut u64, pending_batch: &mut Vec<SentSignature>) -> (
queued: Option<StatusBatch>)
    requires
        old(pending_batch)@.len() > 0 ==> *old(next_batch_id) < u64::MAX,
    ensures
        final(pending_batch)@ == Seq::<SentSignature>::empty(),
        match queued {
            None => {
                &&& old(pending_batch)@.len() == 0
                &&& *final(next_batch_id) == *old(next_batch_id)
            },
            Some(queue) => {
                &&& old(pending_batch)@.len() > 0
                &&& queue.batch_id == *old(next_batch_id)
                &&& queue.batch@ == old(pending_batch)@
                &&& *final(next_batch_id) == *old(next_batch_id) + 1
            },
        },
{
    if pending_batch.len() == 0 {
        assert(pending_batch@ =~= Seq::<SentSignature>::empty());
        return None;
    }
    let batch_id: u64 = *next_batch_id;
    *next_batch_id = batch_id + 1;
    let mut batch: Vec<SentSignature> = Vec::new();
    std::mem::swap(&mut batch, pending_batch);
    Some(StatusBatch { batch_id, batch })
}

/// Clients that take turns. Tasks that share the clients share this one value,
/// and with it the position.
pub struct StatusClients<C> {
    clients: Vec<C>,
    next: usize,
}

impl<C> StatusClients<C> {
    /// There is at least one client.
    #[verifier::type_invariant]
    spec fn inhabited(self) -> bool {
        self.clients@.len() > 0
    }

    /// The clients, in the order of their turns.
    pub closed spec fn clients(&self) -> Seq<C> {
        self.clients@
    }

    /// How many turns were taken; wraps around.
    pub closed spec fn turns(&self) -> usize {
        self.next
    }

    /// What a turn does: `client` has it, and `after` is left.
    pub open spec fn took_turn(self, after: Self, client: C) -> bool {
        &&& client == self.clients()[(self.turns() as nat % self.clients().len()) as int]
        &&& after.clients() == self.clients()
        &&& after.turns() == self.turns().wrapping_add(1)
    }

    /// Clients of whom none has had a turn.
    pub fn new(clients: Vec<C>) -> (status_clients: Self)
        requires
            clients@.len() > 0,
        ensures
            status_clients.clients() == clients@,
            status_clients.turns() == 0,
    {
        StatusClients { clients, next: 0 }
    }

    /// How many clients there are.
    pub fn len(&self) -> (len: usize)
        ensures
            len == self.clients().len(),
            len > 0,
    {
        proof {
            use_type_invariant(self);
        }
        self.clients.len()
    }

    /// The client whose turn it is.
    pub fn next(&mut self) -> (client: &C)
        ensures
            old(self).took_turn(*final(self), *client),
    {
        proof {
            use_type_invariant(&*self);
        }
        let idx: usize = self.next % self.clients.len();
        self.next = self.next.wrapping_add(1);
        &self.clients[idx]
    }
}

/// The clients have their turns in strict rotation, whoever asks: after `k`
/// turns the next one goes to the client at `k` modulo their number, until the
/// count of turns is full.
pub proof fn law_turns_go_round<C>(states: Seq<StatusClients<C>>, taken: Seq<C>, k: int)
    requires
        states.len() == taken.len() + 1,
        states[0].turns() == 0,
        states[0].clients().len() > 0,
        forall|i: int|
            0 <= i < taken.len() ==> (#[trigger] states[i]).took_turn(states[i + 1], taken[i]),
        0 <= k < taken.len(),
        k <= usize::MAX,
    ensures
        taken[k] == states[0].clients()[k % states[0].clients().len() as int],
        states[k].turns() == k,
        states[k].clients() == states[0].clients(),
    decreases k,
{
    assert(states[k].took_turn(states[k + 1], taken[k]));
    if k > 0 {
        law_turns_go_round(states, taken, k - 1);
        assert(states[k - 1].took_turn(states[k], taken[k - 1]));
    }
}

/// As many turns as there are clients give each client one turn, as long as the
/// number of turns has not wrapped around.
#[verifier::spinoff_prover]
pub proof fn law_every_client_has_its_turn(turns: nat, len: nat, client: nat)
    requires
        client < len,
    ensures
        exists|k: nat| k < len && #[trigger] ((turns + k) % len) == client,
        forall|j: nat, k: nat|
            j < k < len ==> #[trigger] ((turns + j) % len) != #[trigger] ((turns + k) % len),
{
    let n = len as int;
    lemma_fundamental_div_mod(turns as int, n);
    lemma_mod_bound(turns as int, n);
    let first = turns % len;
    let q = turns as int / n;
    assert(q * n == n * q) by (nonlinear_arith);
    assert((q + 1) * n == n * q + n) by (nonlinear_arith);
    let k: nat = if client >= first {
        (client - first) as nat
    } else {
        (client + len - first) as nat
    };
    if client >= first {
        lemma_fundamental_div_mod_converse(
            (turns + k) as int,
            n,
            q,
            client as int,
        );
    } else {
        lemma_fundamental_div_mod_converse(
            (turns + k) as int,
            n,
            q + 1,
            client as int,
        );
    }
    assert((turns + k) % len == client);
    assert forall|j: nat, k: nat| j < k < len implies #[trigger] ((turns + j) % len)
        != #[trigger] ((turns + k) % len) by {
        lemma_fundamental_div_mod((turns + j) as int, n);
        lemma_fundamental_div_mod((turns + k) as int, n);
        if (turns + j) % len == (turns + k) % len {
            let a = (turns + j) as int / n;
            let b = (turns + k) as int / n;
            assert(n * b - n * a == k - j);
            assert(0 < n * (b - a) < n ==> false) by (nonlinear_arith);
            assert(n * b - n * a == n * (b - a)) by (nonlinear_arith);
        }
    }
}

/// What has become of the last question to a client.
#[derive(Debug)]
pub enum StatusEvent {
    /// None was asked yet.
    Begin,
    /// It was answered.
    Answered(Vec<Option<SignatureStatus>>),
    /// It failed.
    Failed,
}

/// How the check of a batch ended.
#[derive(Debug, Clone, Copy, PartialEq, Eq, Structural)]
pub enum BatchReport {
    /// A client told the statuses.
    Checked(BatchTally),
    /// No client could tell them.
    Unknown,
}

/// What to do next.
#[derive(Debug, Clone, Copy, PartialEq, Eq, Structural)]
pub enum StatusAction {
    /// Ask the client whose turn it is for the statuses.
    Query,
    /// The check is over.
    Done(BatchReport),
}

/// The check of one batch: it asks one client after the other until one
/// answers, each at most once.
pub struct StatusBatchCheck {
    queue: StatusBatch,
    tries_left: usize,
}

impl StatusBatchCheck {
    /// The batch that is checked.
    pub closed spec fn batch(&self) -> Seq<SentSignature> {
        self.queue.batch@
    }

    /// The number of the batch.
    pub closed spec fn id(&self) -> u64 {
        self.queue.batch_id
    }

    /// How many more clients may be asked.
    pub closed spec fn tries_left(&self) -> usize {
        self.tries_left
    }

    /// What a step does: from this state and these counters, on `event`, to
    /// `after` and `counters`, with `action` to be taken.
    pub open spec fn stepped(
        self,
        event: StatusEvent,
        stats: RunStats,
        after: Self,
        counters: RunStats,
        action: StatusAction,
    ) -> bool {
        &&& after.batch() == self.batch()
        &&& after.id() == self.id()
        &&& match event {
            StatusEvent::Answered(statuses) => {
                let t = tally(statuses@, self.batch().len());
                &&& action == StatusAction::Done(BatchReport::Checked(t))
                &&& counters == stats.with_batch(self.batch().len() as u64, t)
                &&& after.tries_left() == 0
            },
            _ => if self.tries_left() > 0 {
                &&& action == StatusAction::Query
                &&& counters == stats
                &&& after.tries_left() == self.tries_left() - 1
            } else {
                &&& action == StatusAction::Done(BatchReport::Unknown)
                &&& counters == stats.with_rpc_error()
                &&& after.tries_left() == 0
            },
        }
    }

    /// A check of `queue` for which no client was asked yet, and that may ask
    /// `client_count` of them.
    pub open spec fn fresh(self, queue: StatusBatch, client_count: usize) -> bool {
        &&& self.batch() == queue.batch@
        &&& self.id() == queue.batch_id
        &&& self.tries_left() == client_count
    }

    /// A check that may ask `client_count` clients.
    pub fn new(queue: StatusBatch, client_count: usize) -> (check: Self)
        ensures
            check.batch() == queue.batch@,
            check.id() == queue.batch_id,
            check.tries_left() == client_count,
            check.fresh(queue, client_count),
    {
        StatusBatchCheck { queue, tries_left: client_count }
    }

    /// The number of the batch.
    pub fn batch_id(&self) -> (id: u64)
        ensures
            id == self.id(),
    {
        self.queue.batch_id
    }

    /// The sent transactions of the batch.
    pub fn entries(&self) -> (entries: &[SentSignature])
        ensures
            entries@ == self.batch(),
    {
        self.queue.batch.as_slice()
    }

    /// The signatures to ask about, in order.
    pub fn signatures(&self) -> (signatures: Vec<Signature>)
        ensures
            signatures@ == self.batch().map_values(|entry: SentSignature| entry.signature),
    {
        let mut signatures: Vec<Signature> = Vec::new();
        let mut i: usize = 0;
        while i < self.queue.batch.len()
            invariant
                i <= self.queue.batch@.len(),
                signatures@.len() == i,
                forall|j: int| 0 <= j < i ==> signatures@[j] == self.queue.batch@[j].signature,
            decreases self.queue.batch@.len() - i,
        {
            signatures.push(self.queue.batch[i].signature);
            i += 1;
        }
        signatures
    }

    /// Takes the outcome of the last question and says what to do next.
    ///
    /// The first answer is tallied and ends the check. When no client is left
    /// to ask, the batch counts as an RPC error.
    pub fn step(&mut self, event: StatusEvent, stats: &mut RunStats) -> (action: StatusAction)
        ensures
            old(self).stepped(event, *old(stats), *final(self), *final(stats), action),
            final(self).batch() == old(self).batch(),
            final(self).id() == old(self).id(),
            match event {
                StatusEvent::Answered(statuses) => {
                    let t = tally(statuses@, old(self).batch().len());
                    &&& action == StatusAction::Done(BatchReport::Checked(t))
                    &&& *final(stats) == old(stats).with_batch(old(self).batch().len() as u64, t)
                    &&& final(self).tries_left() == 0
                },
                _ => if old(self).tries_left() > 0 {
                    &&& action == StatusAction::Query
                    &&& *final(stats) == *old(stats)
                    &&& final(self).tries_left() == old(self).tries_left() - 1
                } else {
                    &&& action == StatusAction::Done(BatchReport::Unknown)
                    &&& *final(stats) == old(stats).with_rpc_error()
                    &&& final(self).tries_left() == 0
                },
            },
    {
        match event {
            StatusEvent::Answered(statuses) => {
                self.tries_left = 0;
                let result = tally_batch(self.queue.batch.as_slice(), statuses.as_slice());
                stats.record_batch(self.queue.batch.len() as u64, result);
                StatusAction::Done(BatchReport::Checked(result))
            },
            _ => {
                if self.tries_left > 0 {
                    self.tries_left = self.tries_left - 1;
                    StatusAction::Query
                } else {
                    stats.record_rpc_error();
                    StatusAction::Done(BatchReport::Unknown)
                }
            },
        }
    }
}

/// Among the transactions that satisfy the commitment level "confirmed" the
/// error alone decides: without one a transaction has landed, with one it has
/// landed with an error, whatever else is known of it. The others that were seen
/// are unconfirmed, and only those that were not seen are missing.
pub proof fn law_error_decides_among_the_confirmed(status: SignatureStatus)
    ensures
        ({
            let satisfied = match status.confirmation_status {
                Some(ConfirmationStatus::Processed) => false,
                Some(ConfirmationStatus::Confirmed) => true,
                Some(ConfirmationStatus::Finalized) => true,
                None => status.confirmations is None || status.confirmations->0 >= 2,
            };
            &&& landing(Some(status)) == Landing::Landed <==> satisfied && status.err is None
            &&& landing(Some(status)) == Landing::LandedWithError <==> satisfied
                && status.err is Some
            &&& landing(Some(status)) == Landing::Unconfirmed <==> !satisfied
        }),
        landing(None) == Landing::Missing,
        landing(Some(status)) != Landing::Missing,
{
}

proof fn lemma_count_is_filter(statuses: Seq<Option<SignatureStatus>>, end: Landing)
    ensures
        count(statuses, end) == statuses.filter(
            |status: Option<SignatureStatus>| landing(status) == end,
        ).len(),
    decreases statuses.len(),
{
    reveal(Seq::filter);
    if statuses.len() > 0 {
        lemma_count_is_filter(statuses.drop_last(), end);
    }
}

/// Each count of a tally is the number of answers that say so, of those that
/// belong to a signature of the batch.
pub proof fn law_tally_counts_the_answers(
    statuses: Seq<Option<SignatureStatus>>,
    len: nat,
    answered: Seq<Option<SignatureStatus>>,
)
    requires
        len <= u64::MAX,
        statuses.len() <= len ==> answered == statuses,
        statuses.len() > len ==> answered == statuses.take(len as int),
    ensures
        tally(statuses, len).landed == answered.filter(
            |s: Option<SignatureStatus>| landing(s) == Landing::Landed,
        ).len(),
        tally(statuses, len).landed_with_error == answered.filter(
            |s: Option<SignatureStatus>| landing(s) == Landing::LandedWithError,
        ).len(),
        tally(statuses, len).unconfirmed == answered.filter(
            |s: Option<SignatureStatus>| landing(s) == Landing::Unconfirmed,
        ).len(),
        tally(statuses, len).missing == answered.filter(
            |s: Option<SignatureStatus>| landing(s) == Landing::Missing,
        ).len(),
{
    lemma_counts_add_up(answered);
    lemma_count_is_filter(answered, Landing::Landed);
    lemma_count_is_filter(answered, Landing::LandedWithError);
    lemma_count_is_filter(answered, Landing::Unconfirmed);
    lemma_count_is_filter(answered, Landing::Missing);
}

/// One more answer for a signature of the batch adds one to the count that it
/// belongs to, and to no other.
pub proof fn law_each_answer_counts_once(
    statuses: Seq<Option<SignatureStatus>>,
    more: Option<SignatureStatus>,
    len: nat,
)
    requires
        statuses.len() < len <= u64::MAX,
    ensures
        ({
            let before = tally(statuses, len);
            let after = tally(statuses.push(more), len);
            &&& after.landed - before.landed == if landing(more) == Landing::Landed {
                1int
            } else {
                0int
            }
            &&& after.landed_with_error - before.landed_with_error == if landing(more)
                == Landing::LandedWithError {
                1int
            } else {
                0int
            }
            &&& after.unconfirmed - before.unconfirmed == if landing(more)
                == Landing::Unconfirmed {
                1int
            } else {
                0int
            }
            &&& after.missing - before.missing == if landing(more) == Landing::Missing {
                1int
            } else {
                0int
            }
        }),
{
    assert(statuses.push(more).drop_last() =~= statuses);
    lemma_counts_add_up(statuses);
    lemma_counts_add_up(statuses.push(more));
}

/// The check of a batch asks at most as many clients as it may. The first answer
/// ends it, and its tally is counted once; only when every client has failed is
/// the batch counted as an RPC error, once.
pub proof fn law_check_asks_until_answered(
    states: Seq<StatusBatchCheck>,
    events: Seq<StatusEvent>,
    stats: Seq<RunStats>,
    actions: Seq<StatusAction>,
)
    requires
        actions.len() > 0,
        events.len() == actions.len(),
        states.len() == actions.len() + 1,
        stats.len() == actions.len() + 1,
        forall|i: int|
            0 <= i < actions.len() ==> (#[trigger] states[i]).stepped(
                events[i],
                stats[i],
                states[i + 1],
                stats[i + 1],
                actions[i],
            ),
        forall|i: int| 0 <= i < actions.len() - 1 ==> #[trigger] actions[i] is Query,
        actions.last() is Done,
    ensures
        actions.len() - 1 <= states[0].tries_left(),
        match events.last() {
            StatusEvent::Answered(statuses) => {
                let t = tally(statuses@, states[0].batch().len());
                &&& actions.last() == StatusAction::Done(BatchReport::Checked(t))
                &&& stats.last() == stats[0].with_batch(states[0].batch().len() as u64, t)
            },
            _ => {
                &&& actions.len() - 1 == states[0].tries_left()
                &&& actions.last() == StatusAction::Done(BatchReport::Unknown)
                &&& stats.last() == stats[0].with_rpc_error()
            },
        },
    decreases actions.len(),
{
    assert(states[0].stepped(events[0], stats[0], states[1], stats[1], actions[0]));
    if actions.len() > 1 {
        assert(actions[0] is Query);
        let s = states.drop_first();
        let a = actions.drop_first();
        assert forall|i: int| 0 <= i < a.len() implies (#[trigger] s[i]).stepped(
            events.drop_first()[i],
            stats.drop_first()[i],
            s[i + 1],
            stats.drop_first()[i + 1],
            a[i],
        ) by {
            assert(states[i + 1].stepped(
                events[i + 1],
                stats[i + 1],
                states[i + 2],
                stats[i + 2],
                actions[i + 1],
            ));
        }
        assert forall|i: int| 0 <= i < a.len() - 1 implies #[trigger] a[i] is Query by {
            assert(actions[i + 1] is Query);
        }
        law_check_asks_until_answered(s, events.drop_first(), stats.drop_first(), a);
    }
}

/// A fresh check gives every client its chance: it gives a batch up only after
/// it has asked as many clients as there are and all have failed, and an answer
/// before that is tallied over the whole batch.
pub proof fn law_fresh_check_asks_every_client(
    queue: StatusBatch,
    client_count: usize,
    states: Seq<StatusBatchCheck>,
    events: Seq<StatusEvent>,
    stats: Seq<RunStats>,
    actions: Seq<StatusAction>,
)
    requires
        actions.len() > 0,
        events.len() == actions.len(),
        states.len() == actions.len() + 1,
        stats.len() == actions.len() + 1,
        states[0].fresh(queue, client_count),
        forall|i: int|
            0 <= i < actions.len() ==> (#[trigger] states[i]).stepped(
                events[i],
                stats[i],
                states[i + 1],
                stats[i + 1],
                actions[i],
            ),
        forall|i: int| 0 <= i < actions.len() - 1 ==> #[trigger] actions[i] is Query,
        actions.last() is Done,
    ensures
        actions.len() - 1 <= client_count,
        actions.last() == StatusAction::Done(BatchReport::Unknown) ==> actions.len() - 1
            == client_count,
        events.last() matches StatusEvent::Answered(statuses) ==> actions.last()
            == StatusAction::Done(BatchReport::Checked(tally(statuses@, queue.batch@.len()))),
{
    law_check_asks_until_answered(states, events, stats, actions);
}

} // verus!
