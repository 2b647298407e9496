//! A send to many destinations, one after the other.
use bytes::Bytes;
use vstd::prelude::*;

use crate::channel::{TpuSenderTxn, TxnView};
use crate::error::{SendError, SendErrorKind};
use crate::fanout::{
    addr_book, law_pending_keeps_order, law_pending_uses_each_socket_once,
    law_pending_without_coalescing, next_pending, pending,
};
use crate::tpu_info::LeaderTpuInfo;
use crate::types::{Pubkey, Signature, SocketAddr, TpuPortKind};
use crate::wire::{bytes_clone, wire_bytes};

verus! {

/// What has become of the transaction that was handed out last.
#[derive(Debug, Clone, Copy, PartialEq, Eq, Structural)]
pub enum DeliveryEvent {
    /// None was handed out yet.
    Begin,
    /// The queue took it.
    Delivered,
    /// The queue is closed.
    Closed,
}

/// What to do next.
#[derive(Debug)]
pub enum DeliveryAction {
    /// Wait for room in the queue and put this transaction there.
    Send(TpuSenderTxn),
    /// The send is over.
    Return(Result<(), SendError>),
}

/// A send in progress: which destinations are left, and which sockets have been
/// used.
pub struct ManyDestSend {
    tx_sig: Signature,
    wire: Bytes,
    dests: Vec<Pubkey>,
    next: usize,
    seen: Vec<SocketAddr>,
    coalesce: bool,
    kind: TpuPortKind,
    fanout: bool,
    delivered: bool,
}

impl ManyDestSend {
    /// The signature of the transaction.
    pub closed spec fn sig(&self) -> Signature {
        self.tx_sig
    }

    /// The bytes of the transaction.
    pub closed spec fn wire(&self) -> Seq<u8> {
        wire_bytes(self.wire)
    }

    /// The destinations not yet looked at.
    pub closed spec fn left(&self) -> Seq<Pubkey> {
        self.dests@.skip(self.next as int)
    }

    /// The sockets of the destinations that were sent to.
    pub closed spec fn seen(&self) -> Seq<SocketAddr> {
        self.seen@
    }

    /// Whether a socket is used once only.
    pub closed spec fn coalesces(&self) -> bool {
        self.coalesce
    }

    /// Which sockets are compared.
    pub closed spec fn port(&self) -> TpuPortKind {
        self.kind
    }

    /// Whether it is enough to reach one destination. Otherwise all count.
    pub closed spec fn fanout(&self) -> bool {
        self.fanout
    }

    /// Whether the queue has taken a transaction.
    pub closed spec fn delivered(&self) -> bool {
        self.delivered
    }

    /// The position lies in the list of destinations.
    pub closed spec fn wf(&self) -> bool {
        self.next <= self.dests@.len()
    }

    /// The destinations that are still to be sent to if `info` stays as it is.
    pub open spec fn todo(&self, info: LeaderTpuInfo) -> Seq<Pubkey> {
        pending(self.left(), self.seen(), self.coalesces(), addr_book(info, self.port()))
    }

    /// Whether a destination is passed over: its socket has been used.
    pub open spec fn passes_over(&self, dest: Pubkey, info: LeaderTpuInfo) -> bool {
        &&& self.coalesces()
        &&& info.addr(dest, self.port()) matches Some(addr)
        &&& self.seen().contains(addr)
    }

    /// The transaction as it is handed out for `dest`.
    pub open spec fn txn_for(&self, dest: Pubkey) -> TxnView {
        TxnView {
            tx_sig: self.sig(),
            remote_peer: dest,
            wire: self.wire(),
            remote_peer_addr: None,
            fast: false,
        }
    }

    /// The same transaction, sent under the same rules.
    pub open spec fn same_send(&self, other: &Self) -> bool {
        &&& self.sig() == other.sig()
        &&& self.wire() == other.wire()
        &&& self.coalesces() == other.coalesces()
        &&& self.port() == other.port()
        &&& self.fanout() == other.fanout()
    }

    /// What a step does: from this state, on `event`, to `after`, with `action`
    /// to be taken.
    pub open spec fn stepped(
        self,
        event: DeliveryEvent,
        info: LeaderTpuInfo,
        after: Self,
        action: DeliveryAction,
    ) -> bool {
        &&& after.same_send(&self)
        &&& after.delivered() == (self.delivered() || event is Delivered)
        &&& match event {
            DeliveryEvent::Closed => {
                &&& if self.fanout() && self.delivered() {
                    action matches DeliveryAction::Return(Ok(_))
                } else {
                    &&& action matches DeliveryAction::Return(Err(e))
                    &&& e.kind == SendErrorKind::Closed
                    &&& wire_bytes(e.txn) == self.wire()
                }
                &&& after.left().len() == 0
                &&& after.seen() == self.seen()
            },
            _ => {
                let looked_at = self.left().len() - after.left().len();
                let passed_over = match action {
                    DeliveryAction::Send(_) => looked_at - 1,
                    DeliveryAction::Return(_) => looked_at,
                };
                &&& forall|i: int|
                    0 <= i < passed_over ==> self.passes_over(#[trigger] self.left()[i], info)
                &&& match action {
                    DeliveryAction::Send(txn) => {
                        &&& self.todo(info).len() > 0
                        &&& txn@ == self.txn_for(self.todo(info)[0])
                        &&& after.todo(info) == self.todo(info).drop_first()
                        &&& looked_at > 0
                        &&& after.left() == self.left().skip(looked_at)
                        &&& txn.remote_peer == self.left()[looked_at - 1]
                        &&& after.seen() == match info.addr(txn.remote_peer, self.port()) {
                            Some(addr) => self.seen().push(addr),
                            None => self.seen(),
                        }
                    },
                    DeliveryAction::Return(result) => {
                        &&& self.todo(info).len() == 0
                        &&& result is Ok
                        &&& after.left().len() == 0
                        &&& after.seen() == self.seen()
                    },
                }
            },
        }
    }

    /// A send of `wire` to `dests` that has not begun.
    pub fn new(
        tx_sig: Signature,
        wire: Bytes,
        dests: Vec<Pubkey>,
        coalesce: bool,
        kind: TpuPortKind,
        fanout: bool,
    ) -> (send: Self)
        ensures
            send.wf(),
            send.sig() == tx_sig,
            send.wire() == wire_bytes(wire),
            send.left() == dests@,
            send.seen() == Seq::<SocketAddr>::empty(),
            send.coalesces() == coalesce,
            send.port() == kind,
            send.fanout() == fanout,
            !send.delivered(),
    {
        assert(dests@.skip(0) =~= dests@);
        ManyDestSend {
            tx_sig,
            wire,
            dests,
            next: 0,
            seen: Vec::new(),
            coalesce,
            kind,
            fanout,
            delivered: false,
        }
    }

    /// Takes the outcome of the last hand-out and says what to do next.
    ///
    /// The next destination is the first that is not passed over. The send ends
    /// well when none is left. When the queue is closed a fanout that has reached
    /// a destination ends well too; any other send ends with the transaction.
    pub fn step(&mut self, event: DeliveryEvent, info: &LeaderTpuInfo) -> (action: DeliveryAction)
        requires
            old(self).wf(),
        ensures
            final(self).wf(),
            old(self).stepped(event, *info, *final(self), action),
    {
        match event {
            DeliveryEvent::Closed => {
                self.next = self.dests.len();
                if self.fanout && self.delivered {
                    return DeliveryAction::Return(Ok(()));
                }
                DeliveryAction::Return(
                    Err(SendError { kind: SendErrorKind::Closed, txn: bytes_clone(&self.wire) }),
                )
            },
            _ => {
                if let DeliveryEvent::Delivered = event {
                    self.delivered = true;
                }
                match next_pending(
                    self.dests.as_slice(),
                    self.next,
                    self.seen.as_slice(),
                    self.coalesce,
                    info,
                    self.kind,
                ) {
                    Some((at, addr)) => {
                        let dest = self.dests[at];
                        self.next = at + 1;
                        match addr {
                            Some(a) => {
                                self.seen.push(a);
                            },
                            None => {},
                        }
                        proof {
                            let todo = old(self).todo(*info);
                            assert(todo.drop_first() =~= self.todo(*info));
                            assert(self.left() =~= old(self).left().skip(
                                self.next - old(self).next,
                            ));
                        }
                        DeliveryAction::Send(
                            TpuSenderTxn {
                                tx_sig: self.tx_sig,
                                remote_peer: dest,
                                wire: bytes_clone(&self.wire),
                                remote_peer_addr: None,
                                fast: false,
                            },
                        )
                    },
                    None => {
                        self.next = self.dests.len();
                        DeliveryAction::Return(Ok(()))
                    },
                }
            },
        }
    }
}

/// A send whose transactions the queue takes hands out one for each pending
/// destination, in order, and then ends well. With nothing pending it ends at
/// once.
pub proof fn law_delivers_to_every_pending_destination(
    states: Seq<ManyDestSend>,
    events: Seq<DeliveryEvent>,
    actions: Seq<DeliveryAction>,
    info: LeaderTpuInfo,
)
    requires
        actions.len() > 0,
        events.len() == actions.len(),
        states.len() == actions.len() + 1,
        forall|i: int| 0 <= i < events.len() ==> #[trigger] events[i] !is Closed,
        forall|i: int|
            0 <= i < actions.len() ==> (#[trigger] states[i]).stepped(
                events[i],
                info,
                states[i + 1],
                actions[i],
            ),
        forall|i: int| 0 <= i < actions.len() - 1 ==> #[trigger] actions[i] is Send,
        actions.last() is Return,
    ensures
        actions.len() == states[0].todo(info).len() + 1,
        forall|i: int|
            0 <= i < actions.len() - 1 ==> ((#[trigger] actions[i])->Send_0)@ == states[0].txn_for(
                states[0].todo(info)[i],
            ),
        actions.last()->Return_0 is Ok,
    decreases actions.len(),
{
    assert(states[0].stepped(events[0], info, states[1], actions[0]));
    assert(events[0] !is Closed);
    if actions.len() > 1 {
        assert(actions[0] is Send);
        let s = states.drop_first();
        let e = events.drop_first();
        let a = actions.drop_first();
        assert forall|i: int| 0 <= i < a.len() implies (#[trigger] s[i]).stepped(
            e[i],
            info,
            s[i + 1],
            a[i],
        ) by {
            assert(states[i + 1].stepped(events[i + 1], info, states[i + 2], actions[i + 1]));
        }
        assert forall|i: int| 0 <= i < e.len() implies #[trigger] e[i] !is Closed by {
            assert(events[i + 1] !is Closed);
        }
        assert forall|i: int| 0 <= i < a.len() - 1 implies #[trigger] a[i] is Send by {
            assert(actions[i + 1] is Send);
        }
        law_delivers_to_every_pending_destination(s, e, a, info);
        assert forall|i: int| 0 <= i < actions.len() - 1 implies ((
        #[trigger] actions[i])->Send_0)@ == states[0].txn_for(states[0].todo(info)[i]) by {
            if i > 0 {
                assert(a[i - 1] == actions[i]);
            }
        }
    }
}

/// A fanout with something to hand out ends well exactly when the queue has
/// taken at least one transaction. Any other send ends well exactly when the
/// queue was not found closed.
pub proof fn law_fanout_needs_one_delivery(
    states: Seq<ManyDestSend>,
    events: Seq<DeliveryEvent>,
    actions: Seq<DeliveryAction>,
    info: LeaderTpuInfo,
)
    requires
        actions.len() > 0,
        events.len() == actions.len(),
        states.len() == actions.len() + 1,
        states[0].todo(info).len() > 0,
        !states[0].delivered(),
        events[0] is Begin,
        forall|i: int| 1 <= i < events.len() ==> #[trigger] events[i] !is Begin,
        forall|i: int|
            0 <= i < actions.len() ==> (#[trigger] states[i]).stepped(
                events[i],
                info,
                states[i + 1],
                actions[i],
            ),
        forall|i: int| 0 <= i < actions.len() - 1 ==> #[trigger] actions[i] is Send,
        actions.last() is Return,
    ensures
        states[0].fanout() ==> (actions.last()->Return_0 is Ok <==> exists|i: int|
            0 <= i < events.len() && #[trigger] events[i] is Delivered),
        !states[0].fanout() ==> (actions.last()->Return_0 is Ok <==> forall|i: int|
            0 <= i < events.len() ==> #[trigger] events[i] !is Closed),
{
    let n = actions.len() as int - 1;
    lemma_deliveries_noted(states, events, actions, info, n);
    assert(states[0].stepped(events[0], info, states[1], actions[0]));
    assert(states[n].stepped(events[n], info, states[n + 1], actions[n]));
    assert forall|i: int| 0 <= i < n implies #[trigger] events[i] !is Closed by {
        assert(actions[i] is Send);
        assert(states[i].stepped(events[i], info, states[i + 1], actions[i]));
    }
    if events[n] is Closed {
        if states[n].delivered() {
            let j = choose|j: int| 0 <= j < n && #[trigger] events[j] is Delivered;
            assert(events[j] is Delivered);
        }
    } else {
        assert(n > 0);
        assert(events[n] is Delivered);
    }
}

/// Before step `k` it is noted whether an earlier event was a delivery.
proof fn lemma_deliveries_noted(
    states: Seq<ManyDestSend>,
    events: Seq<DeliveryEvent>,
    actions: Seq<DeliveryAction>,
    info: LeaderTpuInfo,
    k: int,
)
    requires
        events.len() == actions.len(),
        states.len() == actions.len() + 1,
        !states[0].delivered(),
        forall|i: int|
            0 <= i < actions.len() ==> (#[trigger] states[i]).stepped(
                events[i],
                info,
                states[i + 1],
                actions[i],
            ),
        0 <= k <= actions.len(),
    ensures
        states[k].delivered() <==> exists|j: int| 0 <= j < k && #[trigger] events[j] is Delivered,
        states[k].fanout() == states[0].fanout(),
    decreases k,
{
    if k > 0 {
        lemma_deliveries_noted(states, events, actions, info, k - 1);
        assert(states[k - 1].stepped(events[k - 1], info, states[k], actions[k - 1]));
        if states[k - 1].delivered() {
            let j = choose|j: int| 0 <= j < k - 1 && #[trigger] events[j] is Delivered;
            assert(events[j] is Delivered);
        }
    }
}

/// A fresh send whose transactions the queue takes hands out the transaction as
/// it is, with its signature, for destinations in the order of their list. It
/// leaves out no destination but, when it coalesces, one whose known socket is
/// that of a destination before it.
pub proof fn law_send_to_many_reaches_all(
    states: Seq<ManyDestSend>,
    events: Seq<DeliveryEvent>,
    actions: Seq<DeliveryAction>,
    info: LeaderTpuInfo,
) -> (places: Seq<int>)
    requires
        actions.len() > 0,
        events.len() == actions.len(),
        states.len() == actions.len() + 1,
        states[0].seen().len() == 0,
        forall|i: int| 0 <= i < events.len() ==> #[trigger] events[i] !is Closed,
        forall|i: int|
            0 <= i < actions.len() ==> (#[trigger] states[i]).stepped(
                events[i],
                info,
                states[i + 1],
                actions[i],
            ),
        forall|i: int| 0 <= i < actions.len() - 1 ==> #[trigger] actions[i] is Send,
        actions.last() is Return,
    ensures
        places.len() == actions.len() - 1,
        actions.last()->Return_0 is Ok,
        forall|i: int|
            0 <= i < places.len() ==> {
                let txn = (#[trigger] actions[i])->Send_0;
                &&& 0 <= places[i] < states[0].left().len()
                &&& txn.remote_peer == states[0].left()[places[i]]
                &&& txn.tx_sig == states[0].sig()
                &&& wire_bytes(txn.wire) == states[0].wire()
                &&& txn.remote_peer_addr is None
                &&& !txn.fast
            },
        forall|i: int, j: int|
            0 <= i < j < places.len() ==> #[trigger] places[i] < #[trigger] places[j],
        forall|p: int|
            0 <= p < states[0].left().len() ==> (#[trigger] places.contains(p) <==> !{
                &&& states[0].coalesces()
                &&& info.addr(states[0].left()[p], states[0].port()) is Some
                &&& exists|q: int|
                    0 <= q < p && info.addr(#[trigger] states[0].left()[q], states[0].port())
                        == info.addr(states[0].left()[p], states[0].port())
            }),
{
    let first = states[0];
    let dests = first.left();
    let book = addr_book(info, first.port());
    let nothing = Seq::<SocketAddr>::empty();
    assert(first.seen() =~= nothing);
    law_delivers_to_every_pending_destination(states, events, actions, info);
    let todo = first.todo(info);
    let places = if first.coalesces() {
        law_pending_keeps_order(dests, nothing, book)
    } else {
        law_pending_without_coalescing(dests, nothing, book);
        Seq::new(dests.len(), |i: int| i)
    };
    assert forall|i: int| 0 <= i < places.len() implies {
        let txn = (#[trigger] actions[i])->Send_0;
        &&& 0 <= places[i] < dests.len()
        &&& txn.remote_peer == dests[places[i]]
        &&& txn.tx_sig == first.sig()
        &&& wire_bytes(txn.wire) == first.wire()
        &&& txn.remote_peer_addr is None
        &&& !txn.fast
    } by {
        let txn = actions[i]->Send_0;
        assert(txn@ == first.txn_for(todo[i]));
        assert(todo[i] == dests[places[i]]);
    }
    assert forall|p: int| 0 <= p < dests.len() implies (#[trigger] places.contains(p) <==> !{
        &&& first.coalesces()
        &&& info.addr(dests[p], first.port()) is Some
        &&& exists|q: int|
            0 <= q < p && info.addr(#[trigger] dests[q], first.port()) == info.addr(
                dests[p],
                first.port(),
            )
    }) by {
        assert(book(dests[p]) == info.addr(dests[p], first.port()));
        if first.coalesces() {
            assert forall|q: int| 0 <= q < p implies book(#[trigger] dests[q]) == info.addr(
                dests[q],
                first.port(),
            ) by {}
        } else {
            assert(places[p] == p);
        }
    }
    places
}

/// From step to step a send keeps its transaction and its rules. Only a closed
/// queue makes it fail, and the error carries the transaction.
pub proof fn law_send_keeps_its_rules(
    before: ManyDestSend,
    event: DeliveryEvent,
    info: LeaderTpuInfo,
    after: ManyDestSend,
    action: DeliveryAction,
)
    requires
        before.stepped(event, info, after, action),
    ensures
        after.sig() == before.sig(),
        after.wire() == before.wire(),
        after.coalesces() == before.coalesces(),
        after.port() == before.port(),
        after.fanout() == before.fanout(),
        after.delivered() <==> before.delivered() || event is Delivered,
        action is Return ==> after.left().len() == 0,
        action is Send ==> event !is Closed && after.left().len() < before.left().len(),
        action matches DeliveryAction::Return(Err(e)) ==> {
            &&& event is Closed
            &&& !(before.fanout() && before.delivered())
            &&& e.kind == SendErrorKind::Closed
            &&& wire_bytes(e.txn) == before.wire()
        },
{
}

/// While the queue is open a step goes to the first destination that is left and
/// not to be passed over, and looks at none behind it; only a send that coalesces
/// passes over a destination, and only one whose known socket was used. The send
/// ends where all that is left is to be passed over.
pub proof fn law_step_goes_to_the_next(
    before: ManyDestSend,
    event: DeliveryEvent,
    info: LeaderTpuInfo,
    after: ManyDestSend,
    action: DeliveryAction,
) -> (at: int)
    requires
        before.stepped(event, info, after, action),
        event !is Closed,
    ensures
        0 <= at <= before.left().len(),
        action is Return <==> at == before.left().len(),
        forall|i: int|
            0 <= i < at ==> {
                let addr = info.addr(#[trigger] before.left()[i], before.port());
                before.coalesces() && addr is Some && before.seen().contains(addr->0)
            },
        action matches DeliveryAction::Send(txn) ==> {
            let addr = info.addr(before.left()[at], before.port());
            &&& txn.remote_peer == before.left()[at]
            &&& txn.tx_sig == before.sig()
            &&& wire_bytes(txn.wire) == before.wire()
            &&& !(before.coalesces() && addr is Some && before.seen().contains(addr->0))
            &&& after.left() == before.left().skip(at + 1)
            &&& addr is Some ==> after.seen() == before.seen().push(addr->0)
            &&& addr is None ==> after.seen() == before.seen()
        },
        action matches DeliveryAction::Return(result) ==> result is Ok,
{
    let looked_at = before.left().len() - after.left().len();
    if let DeliveryAction::Send(txn) = action {
        assert(txn@ == before.txn_for(before.todo(info)[0]));
        if before.coalesces() {
            law_pending_uses_each_socket_once(
                before.left(),
                before.seen(),
                addr_book(info, before.port()),
            );
            assert(before.todo(info)[0] == txn.remote_peer);
        }
        looked_at - 1
    } else {
        looked_at
    }
}

/// A socket that was used stays used, whatever is announced in the meantime: a
/// send that coalesces hands out nothing for a destination whose known socket it
/// has used before.
pub proof fn law_used_socket_stays_used(
    states: Seq<ManyDestSend>,
    events: Seq<DeliveryEvent>,
    infos: Seq<LeaderTpuInfo>,
    actions: Seq<DeliveryAction>,
    i: int,
    j: int,
)
    requires
        events.len() == actions.len(),
        infos.len() == actions.len(),
        states.len() == actions.len() + 1,
        forall|k: int|
            0 <= k < actions.len() ==> (#[trigger] states[k]).stepped(
                events[k],
                infos[k],
                states[k + 1],
                actions[k],
            ),
        states[0].coalesces(),
        0 <= i < j < actions.len(),
        actions[i] is Send,
        actions[j] is Send,
        infos[i].addr(actions[i]->Send_0.remote_peer, states[0].port()) is Some,
    ensures
        infos[i].addr(actions[i]->Send_0.remote_peer, states[0].port()) != infos[j].addr(
            actions[j]->Send_0.remote_peer,
            states[0].port(),
        ),
{
    let port = states[0].port();
    let used = infos[i].addr(actions[i]->Send_0.remote_peer, port)->0;
    lemma_rules_kept(states, events, infos, actions, i);
    lemma_rules_kept(states, events, infos, actions, j);
    assert(states[i].stepped(events[i], infos[i], states[i + 1], actions[i]));
    assert(states[i + 1].seen() == states[i].seen().push(used));
    assert(states[i + 1].seen()[states[i].seen().len() as int] == used);
    lemma_seen_kept(states, events, infos, actions, used, i + 1, j);
    let last = states[j];
    assert(last.stepped(events[j], infos[j], states[j + 1], actions[j]));
    law_pending_uses_each_socket_once(last.left(), last.seen(), addr_book(infos[j], port));
    assert(last.todo(infos[j])[0] == actions[j]->Send_0.remote_peer);
}

proof fn lemma_rules_kept(
    states: Seq<ManyDestSend>,
    events: Seq<DeliveryEvent>,
    infos: Seq<LeaderTpuInfo>,
    actions: Seq<DeliveryAction>,
    k: int,
)
    requires
        events.len() == actions.len(),
        infos.len() == actions.len(),
        states.len() == actions.len() + 1,
        forall|k: int|
            0 <= k < actions.len() ==> (#[trigger] states[k]).stepped(
                events[k],
                infos[k],
                states[k + 1],
                actions[k],
            ),
        0 <= k <= actions.len(),
    ensures
        states[k].coalesces() == states[0].coalesces(),
        states[k].port() == states[0].port(),
    decreases k,
{
    if k > 0 {
        lemma_rules_kept(states, events, infos, actions, k - 1);
        assert(states[k - 1].stepped(events[k - 1], infos[k - 1], states[k], actions[k - 1]));
    }
}

proof fn lemma_seen_kept(
    states: Seq<ManyDestSend>,
    events: Seq<DeliveryEvent>,
    infos: Seq<LeaderTpuInfo>,
    actions: Seq<DeliveryAction>,
    used: SocketAddr,
    from: int,
    to: int,
)
    requires
        events.len() == actions.len(),
        infos.len() == actions.len(),
        states.len() == actions.len() + 1,
        forall|k: int|
            0 <= k < actions.len() ==> (#[trigger] states[k]).stepped(
                events[k],
                infos[k],
                states[k + 1],
                actions[k],
            ),
        0 <= from <= to <= actions.len(),
        states[from].seen().contains(used),
    ensures
        states[to].seen().contains(used),
    decreases to - from,
{
    if from < to {
        let seen = states[from].seen();
        let next = states[from + 1].seen();
        assert(states[from].stepped(events[from], infos[from], states[from + 1], actions[from]));
        let at = choose|at: int| 0 <= at < seen.len() && seen[at] == used;
        assert(next[at] == used);
        lemma_seen_kept(states, events, infos, actions, used, from + 1, to);
    }
}

} // verus!
