//! A send over open QUIC connections, one leader after the other.
use bytes::Bytes;
use vstd::prelude::*;

use crate::error::{SendError, SendErrorKind};
use crate::fanout::{
    addr_book, law_targets_miss_no_socket, law_targets_use_each_socket_once, next_target, targets,
};
use crate::tpu_info::LeaderTpuInfo;
use crate::types::{Pubkey, SocketAddr, TpuPortKind};
use crate::wire::{bytes_clone, wire_bytes};

verus! {

/// What became of an attempt to write to one leader.
#[derive(Debug, Clone, Copy, PartialEq, Eq, Structural)]
pub enum DirectOutcome {
    /// No connection to the leader's socket is open.
    NoConnection,
    /// The transaction was written.
    Written,
    /// The connection failed while the transaction was written.
    WriteFailed,
}

/// What has become of the last attempt.
#[derive(Debug, Clone, Copy, PartialEq, Eq, Structural)]
pub enum DirectEvent {
    /// There was none yet.
    Begin,
    /// It ended so.
    Attempted(DirectOutcome),
}

/// What to do next.
#[derive(Debug)]
pub enum DirectAction {
    /// Write the transaction to the open connection to `leader` at `addr`.
    Write { leader: Pubkey, addr: SocketAddr },
    /// The send is over: how many leaders it was written to.
    Return(Result<usize, SendError>),
}

/// How many attempts ended with a write.
pub open spec fn written(outcomes: Seq<DirectOutcome>) -> nat
    decreases outcomes.len(),
{
    if outcomes.len() == 0 {
        0
    } else {
        written(outcomes.drop_last()) + if outcomes.last() == DirectOutcome::Written {
            1nat
        } else {
            0nat
        }
    }
}

/// What a send amounts to once its attempts have ended: how many leaders it was
/// written to, or, if none, how far it got.
pub open spec fn verdict(outcomes: Seq<DirectOutcome>) -> Result<nat, SendErrorKind> {
    if written(outcomes) > 0 {
        Ok(written(outcomes))
    } else if outcomes.len() == 0 {
        Err(SendErrorKind::NoKnownTpuAddress)
    } else if forall|i: int|
        0 <= i < outcomes.len() ==> outcomes[i] == DirectOutcome::NoConnection {
        Err(SendErrorKind::NoReadyDirectConnection)
    } else {
        Err(SendErrorKind::DirectWriteFailed)
    }
}

/// What the outcomes of all attempts amount to.
pub fn direct_verdict(outcomes: &[DirectOutcome]) -> (result: Result<usize, SendErrorKind>)
    ensures
        match result {
            Ok(sent_count) => verdict(outcomes@) == Ok::<nat, SendErrorKind>(sent_count as nat),
            Err(kind) => verdict(outcomes@) == Err::<nat, SendErrorKind>(kind),
        },
        result is Ok <==> exists|i: int|
            0 <= i < outcomes@.len() && #[trigger] outcomes@[i] == DirectOutcome::Written,
{
    proof {
        law_one_write_is_a_success(outcomes@);
    }
    let mut sent_count: usize = 0;
    let mut direct_write_failed: bool = false;
    let mut i: usize = 0;
    assert(outcomes@.take(0) =~= Seq::<DirectOutcome>::empty());
    while i < outcomes.len()
        invariant
            sent_count <= i <= outcomes.len(),
            sent_count == written(outcomes@.take(i as int)),
            sent_count == 0 ==> (direct_write_failed <==> exists|j: int|
                0 <= j < i && outcomes@[j] != DirectOutcome::NoConnection),
        decreases outcomes.len() - i,
    {
        assert(outcomes@.take(i + 1).drop_last() =~= outcomes@.take(i as int));
        match outcomes[i] {
            DirectOutcome::NoConnection => {},
            DirectOutcome::Written => {
                sent_count += 1;
            },
            DirectOutcome::WriteFailed => {
                direct_write_failed = true;
                assert(outcomes@[i as int] != DirectOutcome::NoConnection);
            },
        }
        i += 1;
    }
    assert(outcomes@.take(i as int) =~= outcomes@);
    if sent_count > 0 {
        Ok(sent_count)
    } else if outcomes.len() == 0 {
        Err(SendErrorKind::NoKnownTpuAddress)
    } else if !direct_write_failed {
        Err(SendErrorKind::NoReadyDirectConnection)
    } else {
        Err(SendErrorKind::DirectWriteFailed)
    }
}

/// A send in progress: which leaders are left, which sockets have been tried,
/// and how the attempts ended.
pub struct DirectSend {
    wire: Bytes,
    leaders: Vec<Pubkey>,
    next: usize,
    seen: Vec<SocketAddr>,
    outcomes: Vec<DirectOutcome>,
}

impl DirectSend {
    /// The bytes of the transaction.
    pub closed spec fn wire(&self) -> Seq<u8> {
        wire_bytes(self.wire)
    }

    /// The leaders not yet looked at.
    pub closed spec fn left(&self) -> Seq<Pubkey> {
        self.leaders@.skip(self.next as int)
    }

    /// The sockets that have been tried.
    pub closed spec fn seen(&self) -> Seq<SocketAddr> {
        self.seen@
    }

    /// How the attempts ended.
    pub closed spec fn outcomes(&self) -> Seq<DirectOutcome> {
        self.outcomes@
    }

    /// The position lies in the list of leaders.
    pub closed spec fn wf(&self) -> bool {
        self.next <= self.leaders@.len()
    }

    /// The attempts that are still to be made if `info` stays as it is: always
    /// at the normal TPU port, and at each socket once.
    pub open spec fn todo(&self, info: LeaderTpuInfo) -> Seq<(Pubkey, SocketAddr)> {
        targets(self.left(), self.seen(), addr_book(info, TpuPortKind::Normal))
    }

    /// Whether a leader is passed over: its socket is unknown or was tried.
    pub open spec fn passes_over(&self, leader: Pubkey, info: LeaderTpuInfo) -> bool {
        info.addr(leader, TpuPortKind::Normal) matches Some(addr) ==> self.seen().contains(addr)
    }

    /// The outcomes with `event` taken into account.
    pub open spec fn outcomes_after(&self, event: DirectEvent) -> Seq<DirectOutcome> {
        match event {
            DirectEvent::Begin => self.outcomes(),
            DirectEvent::Attempted(outcome) => self.outcomes().push(outcome),
        }
    }

    /// What a step does: from this state, on `event`, to `after`, with `action`
    /// to be taken.
    pub open spec fn stepped(
        self,
        event: DirectEvent,
        info: LeaderTpuInfo,
        after: Self,
        action: DirectAction,
    ) -> bool {
        let looked_at = self.left().len() - after.left().len();
        let passed_over = match action {
            DirectAction::Write { .. } => looked_at - 1,
            DirectAction::Return(_) => looked_at,
        };
        &&& after.wire() == self.wire()
        &&& after.outcomes() == self.outcomes_after(event)
        &&& forall|i: int|
            0 <= i < passed_over ==> self.passes_over(#[trigger] self.left()[i], info)
        &&& match action {
            DirectAction::Write { leader, addr } => {
                &&& self.todo(info).len() > 0
                &&& (leader, addr) == self.todo(info)[0]
                &&& after.todo(info) == self.todo(info).drop_first()
                &&& looked_at > 0
                &&& after.left() == self.left().skip(looked_at)
                &&& leader == self.left()[looked_at - 1]
                &&& after.seen() == self.seen().push(addr)
            },
            DirectAction::Return(result) => {
                &&& self.todo(info).len() == 0
                &&& after.left().len() == 0
                &&& after.seen() == self.seen()
                &&& match result {
                    Ok(sent_count) => verdict(after.outcomes()) == Ok::<nat, SendErrorKind>(
                        sent_count as nat,
                    ),
                    Err(e) => {
                        &&& verdict(after.outcomes()) == Err::<nat, SendErrorKind>(e.kind)
                        &&& wire_bytes(e.txn) == self.wire()
                    },
                }
            },
        }
    }

    /// A send of `wire` to `leaders` that has not begun.
    pub fn new(wire: Bytes, leaders: Vec<Pubkey>) -> (send: Self)
        ensures
            send.wf(),
            send.wire() == wire_bytes(wire),
            send.left() == leaders@,
            send.seen() == Seq::<SocketAddr>::empty(),
            send.outcomes() == Seq::<DirectOutcome>::empty(),
    {
        assert(leaders@.skip(0) =~= leaders@);
        DirectSend { wire, leaders, next: 0, seen: Vec::new(), outcomes: Vec::new() }
    }

    /// The bytes to write.
    pub fn wire_transaction(&self) -> (wire: Bytes)
        ensures
            wire_bytes(wire) == self.wire(),
    {
        bytes_clone(&self.wire)
    }

    /// Takes the outcome of the last attempt and says what to do next.
    ///
    /// The next attempt is at the first leader that is not passed over. When
    /// none is left the outcomes decide what the send amounts to, and an error
    /// carries the transaction.
    pub fn step(&mut self, event: DirectEvent, info: &LeaderTpuInfo) -> (action: DirectAction)
        requires
            old(self).wf(),
        ensures
            final(self).wf(),
            old(self).stepped(event, *info, *final(self), action),
    {
        match event {
            DirectEvent::Begin => {},
            DirectEvent::Attempted(outcome) => {
                self.outcomes.push(outcome);
            },
        }
        match next_target(
            self.leaders.as_slice(),
            self.next,
            self.seen.as_slice(),
            info,
            TpuPortKind::Normal,
        ) {
            Some((at, addr)) => {
                let leader = self.leaders[at];
                self.next = at + 1;
                self.seen.push(addr);
                proof {
                    assert(old(self).todo(*info).drop_first() =~= self.todo(*info));
                    assert(self.left() =~= old(self).left().skip(self.next - old(self).next));
                }
                DirectAction::Write { leader, addr }
            },
            None => {
                self.next = self.leaders.len();
                match direct_verdict(self.outcomes.as_slice()) {
                    Ok(sent_count) => DirectAction::Return(Ok(sent_count)),
                    Err(kind) => DirectAction::Return(
                        Err(SendError { kind, txn: bytes_clone(&self.wire) }),
                    ),
                }
            },
        }
    }
}

/// What the step that leads to action `i` is told: the outcome of the attempt
/// before it, if there was one.
pub open spec fn event_before(outcomes: Seq<DirectOutcome>, i: int) -> DirectEvent {
    if i == 0 {
        DirectEvent::Begin
    } else {
        DirectEvent::Attempted(outcomes[i - 1])
    }
}

/// A send that has been driven to its end: the states that it went through, how
/// its attempts ended, and the actions that it asked for.
pub open spec fn driven(
    states: Seq<DirectSend>,
    outcomes: Seq<DirectOutcome>,
    actions: Seq<DirectAction>,
    info: LeaderTpuInfo,
) -> bool {
    &&& actions.len() == outcomes.len() + 1
    &&& states.len() == outcomes.len() + 2
    &&& states[0].outcomes().len() == 0
    &&& forall|i: int|
        0 <= i < actions.len() ==> (#[trigger] states[i]).stepped(
            event_before(outcomes, i),
            info,
            states[i + 1],
            actions[i],
        )
    &&& forall|i: int| 0 <= i < actions.len() - 1 ==> #[trigger] actions[i] is Write
    &&& actions.last() is Return
}

proof fn lemma_write_step(
    before: DirectSend,
    event: DirectEvent,
    info: LeaderTpuInfo,
    after: DirectSend,
    action: DirectAction,
)
    requires
        before.stepped(event, info, after, action),
        action is Write,
    ensures
        before.todo(info).len() > 0,
        after.todo(info) == before.todo(info).drop_first(),
        after.wire() == before.wire(),
        after.outcomes() == before.outcomes_after(event),
        action matches DirectAction::Write { leader, addr } && (leader, addr) == before.todo(
            info,
        )[0],
{
}

/// Before action `k`, `k` targets have been tried, and the outcomes of all but
/// the last of them have been noted.
#[verifier::spinoff_prover]
proof fn lemma_driven_prefix(
    states: Seq<DirectSend>,
    outcomes: Seq<DirectOutcome>,
    actions: Seq<DirectAction>,
    info: LeaderTpuInfo,
    k: int,
)
    requires
        driven(states, outcomes, actions, info),
        0 <= k < actions.len(),
    ensures
        k <= states[0].todo(info).len(),
        states[k].todo(info) == states[0].todo(info).skip(k),
        states[k].wire() == states[0].wire(),
        states[k].outcomes() == outcomes.take(if k == 0 {
            0
        } else {
            k - 1
        }),
    decreases k,
{
    let todo = states[0].todo(info);
    if k == 0 {
        assert(todo.skip(0) =~= todo);
        assert(states[0].outcomes() =~= outcomes.take(0));
    } else {
        let at = k - 1;
        lemma_driven_prefix(states, outcomes, actions, info, at);
        assert(actions[at] is Write);
        let event = event_before(outcomes, at);
        lemma_write_step(states[at], event, info, states[at + 1], actions[at]);
        assert(todo.skip(at).drop_first() =~= todo.skip(k));
        assert(states[k].outcomes() =~= outcomes.take(at));
    }
}

/// A send tries each of its targets once, in order; then the outcomes of all
/// attempts decide what it amounts to.
#[verifier::spinoff_prover]
pub proof fn law_direct_send_tries_every_target(
    states: Seq<DirectSend>,
    outcomes: Seq<DirectOutcome>,
    actions: Seq<DirectAction>,
    info: LeaderTpuInfo,
)
    requires
        driven(states, outcomes, actions, info),
    ensures
        outcomes.len() == states[0].todo(info).len(),
        forall|i: int|
            0 <= i < outcomes.len() ==> (#[trigger] actions[i] matches DirectAction::Write {
                leader,
                addr,
            } && (leader, addr) == states[0].todo(info)[i]),
        match actions.last()->Return_0 {
            Ok(sent_count) => verdict(outcomes) == Ok::<nat, SendErrorKind>(sent_count as nat),
            Err(e) => {
                &&& verdict(outcomes) == Err::<nat, SendErrorKind>(e.kind)
                &&& wire_bytes(e.txn) == states[0].wire()
            },
        },
{
    let todo = states[0].todo(info);
    let n = outcomes.len() as int;
    lemma_driven_prefix(states, outcomes, actions, info, n);
    assert(states[n].stepped(event_before(outcomes, n), info, states[n + 1], actions[n]));
    assert(states[n + 1].outcomes() =~= outcomes);
    assert forall|i: int| 0 <= i < outcomes.len() implies (#[trigger] actions[i] matches
        DirectAction::Write { leader, addr } && (leader, addr) == todo[i]) by {
        lemma_driven_prefix(states, outcomes, actions, info, i);
        let event = event_before(outcomes, i);
        lemma_write_step(states[i], event, info, states[i + 1], actions[i]);
        assert(todo.skip(i)[0] == todo[i]);
    }
}

proof fn lemma_written_counts(outcomes: Seq<DirectOutcome>)
    ensures
        written(outcomes) == outcomes.filter(|o: DirectOutcome| o == DirectOutcome::Written).len(),
        written(outcomes) > 0 <==> exists|i: int|
            0 <= i < outcomes.len() && #[trigger] outcomes[i] == DirectOutcome::Written,
    decreases outcomes.len(),
{
    reveal(Seq::filter);
    if outcomes.len() > 0 {
        let front = outcomes.drop_last();
        lemma_written_counts(front);
        if written(front) > 0 {
            let i = choose|i: int|
                0 <= i < front.len() && #[trigger] front[i] == DirectOutcome::Written;
            assert(outcomes[i] == DirectOutcome::Written);
        }
        if outcomes.last() == DirectOutcome::Written {
            assert(outcomes[outcomes.len() - 1] == DirectOutcome::Written);
        }
        if exists|i: int|
            0 <= i < outcomes.len() && #[trigger] outcomes[i] == DirectOutcome::Written {
            let i = choose|i: int|
                0 <= i < outcomes.len() && #[trigger] outcomes[i] == DirectOutcome::Written;
            if i < front.len() {
                assert(front[i] == DirectOutcome::Written);
            }
        }
    }
}

/// A send succeeds exactly when one of its attempts ended with a write, whatever
/// became of the others, and tells how many did. Otherwise the error names how
/// far the send got: to no socket, to no open connection, or to a connection
/// that failed.
pub proof fn law_one_write_is_a_success(outcomes: Seq<DirectOutcome>)
    ensures
        verdict(outcomes) is Ok <==> exists|i: int|
            0 <= i < outcomes.len() && #[trigger] outcomes[i] == DirectOutcome::Written,
        verdict(outcomes) matches Ok(sent_count) ==> sent_count == outcomes.filter(
            |o: DirectOutcome| o == DirectOutcome::Written,
        ).len(),
        verdict(outcomes) == Err::<nat, SendErrorKind>(SendErrorKind::NoKnownTpuAddress)
            <==> outcomes.len() == 0,
        verdict(outcomes) == Err::<nat, SendErrorKind>(SendErrorKind::NoReadyDirectConnection) <==> {
            &&& outcomes.len() > 0
            &&& forall|i: int|
                0 <= i < outcomes.len() ==> #[trigger] outcomes[i] == DirectOutcome::NoConnection
        },
        verdict(outcomes) == Err::<nat, SendErrorKind>(SendErrorKind::DirectWriteFailed) <==> {
            &&& forall|i: int|
                0 <= i < outcomes.len() ==> #[trigger] outcomes[i] != DirectOutcome::Written
            &&& exists|i: int|
                0 <= i < outcomes.len() && #[trigger] outcomes[i] == DirectOutcome::WriteFailed
        },
{
    lemma_written_counts(outcomes);
    if outcomes.len() > 0 {
        assert(outcomes[0] == outcomes[0]);
        if forall|i: int|
            0 <= i < outcomes.len() ==> #[trigger] outcomes[i] == DirectOutcome::NoConnection {
            assert(outcomes[0] == DirectOutcome::NoConnection);
        } else {
            let i = choose|i: int|
                0 <= i < outcomes.len() && #[trigger] outcomes[i] != DirectOutcome::NoConnection;
            if written(outcomes) == 0 {
                assert(outcomes[i] == DirectOutcome::WriteFailed);
            }
        }
    }
}

/// A send that nothing has been tried for, driven to its end, tries the known
/// normal socket of each of its leaders once, and no other. It succeeds exactly
/// when one of the attempts ended with a write.
pub proof fn law_direct_send_reaches_every_socket(
    states: Seq<DirectSend>,
    outcomes: Seq<DirectOutcome>,
    actions: Seq<DirectAction>,
    info: LeaderTpuInfo,
)
    requires
        driven(states, outcomes, actions, info),
        states[0].seen().len() == 0,
    ensures
        forall|leader: Pubkey|
            states[0].left().contains(leader) && (#[trigger] info.addr(
                leader,
                TpuPortKind::Normal,
            )) is Some ==> exists|i: int|
                0 <= i < outcomes.len() && Some((#[trigger] actions[i])->addr) == info.addr(
                    leader,
                    TpuPortKind::Normal,
                ),
        forall|i: int|
            0 <= i < outcomes.len() ==> {
                &&& #[trigger] actions[i] matches DirectAction::Write { leader, addr }
                &&& states[0].left().contains(leader)
                &&& info.addr(leader, TpuPortKind::Normal) == Some(addr)
            },
        forall|i: int, j: int|
            0 <= i < j < outcomes.len() ==> (#[trigger] actions[i])->addr != (
            #[trigger] actions[j])->addr,
        actions.last()->Return_0 is Ok <==> exists|i: int|
            0 <= i < outcomes.len() && #[trigger] outcomes[i] == DirectOutcome::Written,
        actions.last()->Return_0 matches Ok(sent_count) ==> sent_count == outcomes.filter(
            |o: DirectOutcome| o == DirectOutcome::Written,
        ).len(),
        actions.last()->Return_0 matches Err(e) ==> wire_bytes(e.txn) == states[0].wire(),
{
    let book = addr_book(info, TpuPortKind::Normal);
    let leaders = states[0].left();
    let seen = states[0].seen();
    let todo = states[0].todo(info);
    assert(seen =~= Seq::<SocketAddr>::empty());
    law_direct_send_tries_every_target(states, outcomes, actions, info);
    law_one_write_is_a_success(outcomes);
    law_targets_use_each_socket_once(leaders, seen, book);
    assert forall|i: int| 0 <= i < outcomes.len() implies {
        &&& #[trigger] actions[i] matches DirectAction::Write { leader, addr }
        &&& leaders.contains(leader)
        &&& info.addr(leader, TpuPortKind::Normal) == Some(addr)
    } by {
        assert(todo[i] == targets(leaders, seen, book)[i]);
    }
    assert forall|leader: Pubkey|
        leaders.contains(leader) && (#[trigger] info.addr(
            leader,
            TpuPortKind::Normal,
        )) is Some implies exists|i: int|
        0 <= i < outcomes.len() && Some((#[trigger] actions[i])->addr) == info.addr(
            leader,
            TpuPortKind::Normal,
        ) by {
        let addr = info.addr(leader, TpuPortKind::Normal)->0;
        law_targets_miss_no_socket(leaders, seen, book, leader, addr);
        let i = choose|i: int|
            0 <= i < todo.len() && (#[trigger] targets(leaders, seen, book)[i]).1 == addr;
        assert(actions[i] is Write);
    }
    assert forall|i: int, j: int| 0 <= i < j < outcomes.len() implies (#[trigger] actions[i])->addr
        != (#[trigger] actions[j])->addr by {
        assert(todo[i].1 != todo[j].1);
    }
}

/// A step takes note of how the last attempt ended, and goes to the first leader
/// that is left with a known normal socket that was not tried. The send ends where
/// there is none, and then an error carries the transaction.
pub proof fn law_direct_step_goes_to_the_next(
    before: DirectSend,
    event: DirectEvent,
    info: LeaderTpuInfo,
    after: DirectSend,
    action: DirectAction,
) -> (at: int)
    requires
        before.stepped(event, info, after, action),
    ensures
        after.wire() == before.wire(),
        event is Begin ==> after.outcomes() == before.outcomes(),
        event matches DirectEvent::Attempted(outcome) ==> after.outcomes()
            == before.outcomes().push(outcome),
        0 <= at <= before.left().len(),
        action is Return <==> at == before.left().len(),
        forall|i: int|
            0 <= i < at ==> {
                let addr = info.addr(#[trigger] before.left()[i], TpuPortKind::Normal);
                addr is Some ==> before.seen().contains(addr->0)
            },
        action matches DirectAction::Write { leader, addr } ==> {
            &&& leader == before.left()[at]
            &&& info.addr(leader, TpuPortKind::Normal) == Some(addr)
            &&& !before.seen().contains(addr)
            &&& after.left() == before.left().skip(at + 1)
            &&& after.seen() == before.seen().push(addr)
        },
        action matches DirectAction::Return(result) ==> {
            &&& after.left().len() == 0
            &&& result is Ok <==> exists|i: int|
                0 <= i < after.outcomes().len() && #[trigger] after.outcomes()[i]
                    == DirectOutcome::Written
            &&& result matches Err(e) ==> wire_bytes(e.txn) == before.wire()
        },
{
    let looked_at = before.left().len() - after.left().len();
    law_targets_use_each_socket_once(
        before.left(),
        before.seen(),
        addr_book(info, TpuPortKind::Normal),
    );
    law_one_write_is_a_success(after.outcomes());
    if let DirectAction::Write { leader, addr } = action {
        assert(before.todo(info)[0] == (leader, addr));
        looked_at - 1
    } else {
        looked_at
    }
}

} // verus!
