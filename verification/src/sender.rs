//! The sender: what it knows of the ledger, and what each way of sending makes
//! of it.
use bytes::Bytes;
use vstd::prelude::*;
use vstd::slice::{slice_subrange, slice_to_vec};

use crate::blocklist::{Blocklist, NoBlocklist, ShieldBlockList};
use crate::channel::{Offer, QueueReply, TpuSender, TpuSenderTxn, TxnView};
use crate::config::{TpuSenderConfig, FAST_SEND_MAX_LEADERS};
use crate::direct::{DirectOutcome, DirectSend};
use crate::error::{SendError, SendErrorKind};
use crate::fanout::{addr_book, fanout_targets, targets};
use crate::many_dest::ManyDestSend;
use crate::schedule::{
    blocked_steps, consecutive_leader_slots, distinct, every_slot, lemma_distinct_grows, lemma_distinct_push,
    lemma_every_slot_grows, lemma_filter_push, unknown_slots, ManagedLeaderSchedule,
};
use crate::slot::{PoisonError, SlotTracker};
use crate::tpu_info::LeaderTpuInfo;
use crate::types::{contains_key, Pubkey, Signature, SocketAddr, TpuPortKind};
use crate::wire::{
    bytes_as_slice, bytes_clone, bytes_from_owner, complete, first_signature,
    first_signature_from_wire_transaction, signature_of_complete_transaction, wire_bytes,
};

verus! {

/// A sender that knows the leader schedule and the tip of the ledger.
pub struct YellowstoneTpuSender {
    base_tpu_sender: TpuSender,
    coalesce_send_many_tpu_port_collision: bool,
    slot_tracker: SlotTracker,
    leader_schedule: ManagedLeaderSchedule,
    leader_tpu_info: LeaderTpuInfo,
    tpu_port_kind: TpuPortKind,
    send_fanout_slots: u64,
}

/// The slots that a fanout of `fanout_slots` spans: at least one.
pub open spec fn span(fanout_slots: u64) -> int {
    if fanout_slots == 0 {
        1
    } else {
        fanout_slots as int
    }
}

/// The first two keys, or as many as there are.
pub open spec fn first_two(keys: Seq<Pubkey>) -> Seq<Pubkey> {
    if keys.len() <= FAST_SEND_MAX_LEADERS {
        keys
    } else {
        keys.take(FAST_SEND_MAX_LEADERS as int)
    }
}

/// Where the fast window that starts at `slot` ends.
pub open spec fn fast_end(slot: u64, fanout_slots: u64) -> int {
    if slot + span(fanout_slots) <= u64::MAX {
        slot + span(fanout_slots)
    } else {
        u64::MAX as int
    }
}

/// The blocked peers that an optional blocklist stands for.
pub open spec fn blocked_by<B: Blocklist>(blocklist: Option<&B>) -> spec_fn(Pubkey) -> bool {
    |peer: Pubkey| blocklist matches Some(list) && list.blocks(peer)
}

/// The keys that are not blocked.
pub open spec fn allowed(keys: Seq<Pubkey>, blocked: spec_fn(Pubkey) -> bool) -> Seq<Pubkey> {
    keys.filter(|key: Pubkey| !blocked(key))
}

/// How many of the leader's slots have passed at `slot`, when every leader has
/// four slots that start at a multiple of four.
pub open spec fn into_boundary(slot: u64) -> int {
    slot as int % 4
}

/// The leaders that a send at `slot` goes to by boundary: the leader of the
/// current four slots, and the next one when half of them have passed.
pub open spec fn boundary_leaders(leaders: Map<u64, Pubkey>, slot: u64) -> Seq<Pubkey> {
    let floor = slot - into_boundary(slot);
    if into_boundary(slot) >= 2 {
        seq![leaders[floor as u64], leaders[(floor + 4) as u64]]
    } else {
        seq![leaders[floor as u64]]
    }
}

impl YellowstoneTpuSender {
    /// The last reading of the slot stream.
    pub closed spec fn slot(&self) -> Result<u64, PoisonError> {
        self.slot_tracker@
    }

    /// The leader schedule.
    pub closed spec fn schedule(&self) -> ManagedLeaderSchedule {
        self.leader_schedule
    }

    /// The known TPU sockets.
    pub closed spec fn info(&self) -> LeaderTpuInfo {
        self.leader_tpu_info
    }

    /// Whether a send to many uses a shared socket once only.
    pub closed spec fn coalesces(&self) -> bool {
        self.coalesce_send_many_tpu_port_collision
    }

    /// The port kind of a send to many.
    pub closed spec fn port(&self) -> TpuPortKind {
        self.tpu_port_kind
    }

    /// The configured fanout window.
    pub closed spec fn fanout(&self) -> u64 {
        self.send_fanout_slots
    }

    /// Every offer made to the transaction queue.
    pub closed spec fn offers(&self) -> Seq<Offer> {
        self.base_tpu_sender.offers()
    }

    /// The leaders of the fast paths: the first two different leaders of the
    /// window, as far as they are known.
    pub open spec fn fast_leaders(&self, fanout_slots: u64) -> Result<Seq<Pubkey>, SendErrorKind> {
        match self.slot() {
            Err(_) => Err(SendErrorKind::SlotTrackerDisconnected),
            Ok(slot) => if self.schedule().is_poisoned() && slot < u64::MAX {
                Err(SendErrorKind::ManagedLeaderScheduleDisconnected)
            } else {
                Ok(
                    first_two(
                        distinct(
                            every_slot(
                                self.schedule()@,
                                slot as int,
                                (fast_end(slot, fanout_slots) - slot) as nat,
                            ),
                        ),
                    ),
                )
            },
        }
    }

    /// Fills `leaders` with the fast paths' leaders and returns their number.
    pub fn fill_fast_fanout_leaders(
        &self,
        fanout_slots: u64,
        leaders: &mut [Pubkey; 2],
    ) -> (filled: Result<usize, SendErrorKind>)
        ensures
            match filled {
                Ok(len) => {
                    &&& len <= 2
                    &&& self.fast_leaders(fanout_slots) == Ok::<Seq<Pubkey>, SendErrorKind>(
                        final(leaders)@.take(len as int),
                    )
                    &&& forall|i: int| len <= i < 2 ==> final(leaders)@[i] == old(leaders)@[i]
                },
                Err(kind) => {
                    &&& self.fast_leaders(fanout_slots) == Err::<Seq<Pubkey>, SendErrorKind>(kind)
                    &&& *final(leaders) == *old(leaders)
                },
            },
    {
        let current_slot: u64 = match self.slot_tracker.load() {
            Ok(slot) => slot,
            Err(_) => {
                return Err(SendErrorKind::SlotTrackerDisconnected);
            },
        };
        let reach: u64 = if fanout_slots == 0 {
            1
        } else {
            fanout_slots
        };
        let end_slot: u64 = current_slot.saturating_add(reach);
        let mut leader_slot: u64 = current_slot;
        let mut len: usize = 0;
        let ghost schedule = self.leader_schedule@;
        let ghost start = current_slot as int;
        let ghost n = (end_slot - current_slot) as nat;
        let ghost mut i: nat = 0;
        let ghost before = leaders@;
        assert(leaders@.take(0) =~= distinct(every_slot(schedule, start, 0)));
        while leader_slot < end_slot && len < FAST_SEND_MAX_LEADERS
            invariant
                len <= 2,
                i <= n,
                self.slot() == Ok::<u64, PoisonError>(current_slot),
                end_slot == fast_end(current_slot, fanout_slots),
                start == current_slot,
                schedule == self.schedule()@,
                n == end_slot - current_slot,
                leader_slot == start + i,
                i > 0 ==> !self.schedule().is_poisoned(),
                distinct(every_slot(schedule, start, i)) == leaders@.take(len as int),
                before == old(leaders)@,
                i == 0 ==> *leaders == *old(leaders),
                forall|k: int| len <= k < 2 ==> leaders@[k] == before[k],
            decreases n - i,
        {
            let ghost known = every_slot(schedule, start, i);
            match self.leader_schedule.get_leader(leader_slot) {
                Ok(Some(leader)) => {
                    proof {
                        lemma_distinct_push(known, leader);
                    }
                    if !contains_key(slice_subrange(leaders.as_slice(), 0, len), &leader) {
                        let ghost filled = leaders@.take(len as int);
                        leaders[len] = leader;
                        len += 1;
                        assert(leaders@.take(len as int) =~= filled.push(leader));
                    }
                },
                Ok(None) => {},
                Err(_) => {
                    return Err(SendErrorKind::ManagedLeaderScheduleDisconnected);
                },
            }
            leader_slot += 1;
            proof {
                i = i + 1;
            }
        }
        proof {
            lemma_every_slot_grows(schedule, start, i, n);
            let known = every_slot(schedule, start, i);
            let more = choose|more: Seq<Pubkey>| #[trigger]
                (known + more) == every_slot(schedule, start, n);
            lemma_distinct_grows(known, more);
            if len < 2 {
                assert(i == n);
            }
            assert(first_two(distinct(every_slot(schedule, start, n))) =~= leaders@.take(
                len as int,
            ));
        }
        Ok(len)
    }

    /// What stays when a sender only uses its queue.
    pub open spec fn same_knowledge(&self, other: &Self) -> bool {
        &&& self.slot() == other.slot()
        &&& self.schedule() == other.schedule()
        &&& self.info() == other.info()
        &&& self.coalesces() == other.coalesces()
        &&& self.port() == other.port()
        &&& self.fanout() == other.fanout()
    }

    /// A sender set up by `tpu`, with what its services know at the start.
    pub fn new(
        base_tpu_sender: TpuSender,
        tpu: &TpuSenderConfig,
        slot_tracker: SlotTracker,
        leader_schedule: ManagedLeaderSchedule,
        leader_tpu_info: LeaderTpuInfo,
    ) -> (sender: Self)
        ensures
            sender.slot() == slot_tracker@,
            sender.schedule() == leader_schedule,
            sender.info() == leader_tpu_info,
            sender.coalesces(),
            sender.port() == tpu.tpu_port,
            sender.fanout() == tpu.send_fanout_slots,
            sender.offers() == base_tpu_sender.offers(),
    {
        YellowstoneTpuSender {
            base_tpu_sender,
            coalesce_send_many_tpu_port_collision: true,
            slot_tracker,
            leader_schedule,
            leader_tpu_info,
            tpu_port_kind: tpu.tpu_port,
            send_fanout_slots: tpu.send_fanout_slots,
        }
    }

    /// The latest slot, unless the slot stream has stopped.
    pub fn current_slot(&self) -> (slot: Result<u64, PoisonError>)
        ensures
            slot == self.slot(),
    {
        self.slot_tracker.load()
    }

    /// Takes a new reading of the slot stream.
    pub fn set_slot(&mut self, slot_tracker: SlotTracker)
        ensures
            final(self).slot() == slot_tracker@,
            final(self).schedule() == old(self).schedule(),
            final(self).info() == old(self).info(),
            final(self).coalesces() == old(self).coalesces(),
            final(self).port() == old(self).port(),
            final(self).fanout() == old(self).fanout(),
            final(self).offers() == old(self).offers(),
    {
        self.slot_tracker = slot_tracker;
    }

    /// Takes a new leader schedule.
    pub fn set_leader_schedule(&mut self, leader_schedule: ManagedLeaderSchedule)
        ensures
            final(self).slot() == old(self).slot(),
            final(self).schedule() == leader_schedule,
            final(self).info() == old(self).info(),
            final(self).coalesces() == old(self).coalesces(),
            final(self).port() == old(self).port(),
            final(self).fanout() == old(self).fanout(),
            final(self).offers() == old(self).offers(),
    {
        self.leader_schedule = leader_schedule;
    }

    /// Takes new TPU sockets.
    pub fn set_leader_tpu_info(&mut self, leader_tpu_info: LeaderTpuInfo)
        ensures
            final(self).slot() == old(self).slot(),
            final(self).schedule() == old(self).schedule(),
            final(self).info() == leader_tpu_info,
            final(self).coalesces() == old(self).coalesces(),
            final(self).port() == old(self).port(),
            final(self).fanout() == old(self).fanout(),
            final(self).offers() == old(self).offers(),
    {
        self.leader_tpu_info = leader_tpu_info;
    }

    /// Sets whether a send to many uses a socket that validators share once
    /// only. A new sender does.
    pub fn set_coalesce_many_dest_collision(&mut self, coalesce: bool)
        ensures
            final(self).slot() == old(self).slot(),
            final(self).schedule() == old(self).schedule(),
            final(self).info() == old(self).info(),
            final(self).coalesces() == coalesce,
            final(self).port() == old(self).port(),
            final(self).fanout() == old(self).fanout(),
            final(self).offers() == old(self).offers(),
    {
        self.coalesce_send_many_tpu_port_collision = coalesce;
    }

    /// The known TPU sockets, for a send in progress.
    pub fn leader_tpu_info(&self) -> (info: &LeaderTpuInfo)
        ensures
            *info == self.info(),
    {
        &self.leader_tpu_info
    }

    /// The first signature of a serialized transaction.
    pub fn first_signature_from_wire_transaction(wire_txn: &[u8]) -> (signature: Option<Signature>)
        ensures
            signature matches Some(s) ==> first_signature(wire_txn@) == Some(s@),
            signature is None ==> first_signature(wire_txn@) is None,
    {
        first_signature_from_wire_transaction(wire_txn)
    }

    /// The leaders that a fast send goes to, with the sockets that it uses, or
    /// why it goes to none.
    pub open spec fn fast_plan(&self, fanout_slots: u64) -> Result<
        Seq<(Pubkey, SocketAddr)>,
        SendErrorKind,
    > {
        match self.fast_leaders(fanout_slots) {
            Err(kind) => Err(kind),
            Ok(leaders) => {
                let plan = targets(
                    leaders,
                    Seq::empty(),
                    addr_book(self.info(), TpuPortKind::Normal),
                );
                if leaders.len() == 0 {
                    Err(SendErrorKind::NoKnownLeader)
                } else if plan.len() == 0 {
                    Err(SendErrorKind::NoKnownTpuAddress)
                } else {
                    Ok(plan)
                }
            },
        }
    }

    /// The chosen leaders of the fast paths, or the error that ends a send.
    fn choose_fast_leaders(&self, fanout_slots: u64) -> (chosen: Result<Vec<Pubkey>, SendErrorKind>)
        ensures
            match chosen {
                Ok(leaders) => {
                    &&& leaders@.len() > 0
                    &&& self.fast_leaders(fanout_slots) == Ok::<Seq<Pubkey>, SendErrorKind>(
                        leaders@,
                    )
                },
                Err(kind) => match self.fast_leaders(fanout_slots) {
                    Ok(leaders) => leaders.len() == 0 && kind == SendErrorKind::NoKnownLeader,
                    Err(k) => kind == k,
                },
            },
    {
        let mut leaders: [Pubkey; 2] = [[0u8;32];2];
        match self.fill_fast_fanout_leaders(fanout_slots, &mut leaders) {
            Err(kind) => Err(kind),
            Ok(leader_count) => {
                if leader_count == 0 {
                    return Err(SendErrorKind::NoKnownLeader);
                }
                let chosen = slice_to_vec(slice_subrange(leaders.as_slice(), 0, leader_count));
                assert(chosen@ =~= leaders@.take(leader_count as int));
                Ok(chosen)
            },
        }
    }

    /// Fast-path send with the configured fanout window. See
    /// [`Self::try_send_wire_transaction_fanout_slots_fast`].
    pub fn try_send_wire_transaction_fast(&mut self, sig: Signature, wire_txn: Bytes) -> (sent:
        Result<usize, SendError>)
        ensures
            fast_sent(
                *old(self),
                *final(self),
                sig,
                wire_bytes(wire_txn),
                old(self).fanout(),
                sent,
            ),
    {
        let fanout_slots: u64 = self.send_fanout_slots;
        self.try_send_wire_transaction_fanout_slots_fast(sig, wire_txn, fanout_slots)
    }

    /// Fast-path send of a serialized transaction whose signature is read from
    /// its bytes, which must hold all of its signatures and a message. Returns
    /// the signature and the number of leader sends scheduled.
    pub fn try_send_wire_transaction_bytes_fast(&mut self, wire_txn: Bytes) -> (sent: Result<
        (Signature, usize),
        SendError,
    >)
        ensures
            if complete(wire_bytes(wire_txn)) {
                exists|sig: Signature|
                    first_signature(wire_bytes(wire_txn)) == Some(#[trigger] sig@) && fast_sent(
                        *old(self),
                        *final(self),
                        sig,
                        wire_bytes(wire_txn),
                        old(self).fanout(),
                        match sent {
                            Ok((_, sent_count)) => Ok(sent_count),
                            Err(e) => Err(e),
                        },
                    ) && (sent matches Ok((s, _)) ==> s == sig)
            } else {
                &&& sent matches Err(e)
                &&& e.kind == SendErrorKind::InvalidWireTransaction
                &&& e.txn == wire_txn
                &&& *final(self) == *old(self)
            },
    {
        let sig = match signature_of_complete_transaction(bytes_as_slice(&wire_txn)) {
            Some(sig) => sig,
            None => {
                return Err(
                    SendError { kind: SendErrorKind::InvalidWireTransaction, txn: wire_txn },
                );
            },
        };
        match self.try_send_wire_transaction_fast(sig, wire_txn) {
            Ok(sent_count) => Ok((sig, sent_count)),
            Err(e) => Err(e),
        }
    }

    /// Fast-path send of a serialized transaction to the first two leaders of a
    /// window of `fanout_slots` slots, at their normal TPU ports.
    ///
    /// The transaction is offered to the queue once per socket, without waiting
    /// for room, until the queue refuses it. Returns how many sends were
    /// scheduled.
    pub fn try_send_wire_transaction_fanout_slots_fast(
        &mut self,
        sig: Signature,
        wire_txn: Bytes,
        fanout_slots: u64,
    ) -> (sent: Result<usize, SendError>)
        ensures
            fast_sent(*old(self), *final(self), sig, wire_bytes(wire_txn), fanout_slots, sent),
    {
        let leaders = match self.choose_fast_leaders(fanout_slots) {
            Ok(leaders) => leaders,
            Err(kind) => {
                return Err(SendError { kind, txn: wire_txn });
            },
        };
        let plan = fanout_targets(leaders.as_slice(), &self.leader_tpu_info, TpuPortKind::Normal);
        if plan.len() == 0 {
            return Err(SendError { kind: SendErrorKind::NoKnownTpuAddress, txn: wire_txn });
        }
        let mut scheduled_count: usize = 0;
        assert(self.offers().take(self.offers().len() as int) =~= self.offers());
        while scheduled_count < plan.len()
            invariant
                scheduled_count <= plan@.len(),
                plan@.len() > 0,
                self.same_knowledge(old(self)),
                old(self).fast_plan(fanout_slots) == Ok::<Seq<(Pubkey, SocketAddr)>, SendErrorKind>(
                    plan@,
                ),
                offered_so_far(
                    old(self).offers(),
                    self.offers(),
                    sig,
                    wire_bytes(wire_txn),
                    plan@,
                    scheduled_count as int,
                ),
                forall|i: int|
                    0 <= i < scheduled_count ==> (#[trigger] self.offers()[old(self).offers().len()
                        + i]).reply == QueueReply::Taken,
            decreases plan@.len() - scheduled_count,
        {
            let (leader, addr) = plan[scheduled_count];
            let tpu_txn = TpuSenderTxn::from_fast_bytes_with_addr(
                sig,
                leader,
                bytes_clone(&wire_txn),
                addr,
            );
            let ghost earlier = self.offers();
            let taken = self.base_tpu_sender.try_send_txn(tpu_txn);
            proof {
                let offer = self.offers().last();
                assert(self.offers() =~= earlier.push(offer));
                lemma_offered_push(
                    old(self).offers(),
                    earlier,
                    sig,
                    wire_bytes(wire_txn),
                    plan@,
                    scheduled_count as int,
                    offer,
                );
                assert forall|i: int| 0 <= i < scheduled_count implies (
                #[trigger] self.offers()[old(self).offers().len() + i]).reply
                    == QueueReply::Taken by {
                    assert(self.offers()[old(self).offers().len() + i] == earlier[old(
                        self,
                    ).offers().len() + i]);
                }
            }
            match taken {
                Ok(()) => {
                    scheduled_count += 1;
                },
                Err(refusal) => {
                    return Err(refusal.into_send_error());
                },
            }
        }
        assert(self.offers()[old(self).offers().len() + (scheduled_count - 1)]
            == self.offers().last());
        Ok(scheduled_count)
    }

    /// Direct fast-path send with the configured fanout window. See
    /// [`Self::send_wire_transaction_fanout_slots_direct_fast`].
    pub fn send_wire_transaction_direct_fast(&self, sig: Signature, wire_txn: Bytes) -> (begun:
        Result<DirectSend, SendError>)
        ensures
            self.direct_begun(wire_bytes(wire_txn), self.fanout(), begun),
    {
        self.send_wire_transaction_fanout_slots_direct_fast(sig, wire_txn, self.send_fanout_slots)
    }

    /// Direct fast-path send of a serialized transaction whose signature is
    /// read from its bytes, which must hold all of its signatures and a message.
    pub fn send_wire_transaction_bytes_direct_fast(&self, wire_txn: Bytes) -> (begun: Result<
        (Signature, DirectSend),
        SendError,
    >)
        ensures
            if complete(wire_bytes(wire_txn)) {
                &&& self.direct_begun(
                    wire_bytes(wire_txn),
                    self.fanout(),
                    match begun {
                        Ok((_, send)) => Ok(send),
                        Err(e) => Err(e),
                    },
                )
                &&& begun matches Ok((sig, _)) ==> first_signature(wire_bytes(wire_txn)) == Some(
                    sig@,
                )
            } else {
                &&& begun matches Err(e)
                &&& e.kind == SendErrorKind::InvalidWireTransaction
                &&& e.txn == wire_txn
            },
    {
        let sig = match signature_of_complete_transaction(bytes_as_slice(&wire_txn)) {
            Some(sig) => sig,
            None => {
                return Err(
                    SendError { kind: SendErrorKind::InvalidWireTransaction, txn: wire_txn },
                );
            },
        };
        match self.send_wire_transaction_direct_fast(sig, wire_txn) {
            Ok(send) => Ok((sig, send)),
            Err(e) => Err(e),
        }
    }

    /// What a direct send begins with: the fast paths' leaders, none of them
    /// tried yet, or the error that keeps it from beginning.
    pub open spec fn direct_begun(
        &self,
        wire: Seq<u8>,
        fanout_slots: u64,
        begun: Result<DirectSend, SendError>,
    ) -> bool {
        match self.fast_leaders(fanout_slots) {
            Err(kind) => {
                &&& begun matches Err(e)
                &&& e.kind == kind
                &&& wire_bytes(e.txn) == wire
            },
            Ok(leaders) => if leaders.len() == 0 {
                &&& begun matches Err(e)
                &&& e.kind == SendErrorKind::NoKnownLeader
                &&& wire_bytes(e.txn) == wire
            } else {
                &&& begun matches Ok(send)
                &&& send.wf()
                &&& send.wire() == wire
                &&& send.left() == leaders
                &&& send.seen() == Seq::<SocketAddr>::empty()
                &&& send.outcomes() == Seq::<DirectOutcome>::empty()
            },
        }
    }

    /// Direct fast-path send to the first two leaders of a window of
    /// `fanout_slots` slots: writes to open QUIC connections, past the queue.
    /// The caller drives the send that this begins.
    pub fn send_wire_transaction_fanout_slots_direct_fast(
        &self,
        _sig: Signature,
        wire_txn: Bytes,
        fanout_slots: u64,
    ) -> (begun: Result<DirectSend, SendError>)
        ensures
            self.direct_begun(wire_bytes(wire_txn), fanout_slots, begun),
    {
        match self.choose_fast_leaders(fanout_slots) {
            Ok(leaders) => Ok(DirectSend::new(wire_txn, leaders)),
            Err(kind) => Err(SendError { kind, txn: wire_txn }),
        }
    }
}

impl YellowstoneTpuSender {
    /// Whether the slots of a window can be numbered and counted on this
    /// machine.
    pub open spec fn window_fits(&self, fanout_slots: u64) -> bool {
        self.slot() matches Ok(slot) ==> {
            &&& slot + span(fanout_slots) <= u64::MAX
            &&& (span(fanout_slots) + 3) / 4 <= usize::MAX
        }
    }

    /// The known leaders of a window, slot by slot.
    pub open spec fn window_leaders(&self, slot: u64, fanout_slots: u64) -> Seq<Pubkey> {
        every_slot(self.schedule()@, slot as int, span(fanout_slots) as nat)
    }

    /// The different leaders of a window that are not blocked, in slot order,
    /// and how many of its steps of four slots start at a blocked leader.
    pub open spec fn upcoming(
        &self,
        fanout_slots: u64,
        blocked: spec_fn(Pubkey) -> bool,
    ) -> Result<(Seq<Pubkey>, nat), SendErrorKind> {
        match self.slot() {
            Err(_) => Err(SendErrorKind::SlotTrackerDisconnected),
            Ok(slot) => if self.schedule().is_poisoned() {
                Err(SendErrorKind::ManagedLeaderScheduleDisconnected)
            } else {
                let leaders = self.window_leaders(slot, fanout_slots);
                let n = span(fanout_slots) as nat;
                Ok(
                    (
                        distinct(allowed(leaders, blocked)),
                        blocked_steps(self.schedule()@, slot as int, n, blocked),
                    ),
                )
            },
        }
    }

    /// Whether the slots of a window can be numbered and counted on this
    /// machine.
    pub fn fits_window(&self, fanout_slots: u64) -> (fits: bool)
        ensures
            fits == self.window_fits(fanout_slots),
    {
        let reach: u64 = if fanout_slots == 0 {
            1
        } else {
            fanout_slots
        };
        match self.slot_tracker.load() {
            Err(_) => true,
            Ok(slot) => match slot.checked_add(reach) {
                None => false,
                Some(_) => ((reach - 1) / 4 + 1) as u128 <= usize::MAX as u128,
            },
        }
    }

    /// The different leaders from the current slot through the window of
    /// `fanout_slots` slots, in slot order.
    pub fn upcoming_leaders_for_fanout_slots(&self, fanout_slots: u64) -> (upcoming: Result<
        Vec<Pubkey>,
        SendErrorKind,
    >)
        requires
            self.window_fits(fanout_slots),
        ensures
            match upcoming {
                Ok(leaders) => {
                    &&& self.slot() matches Ok(slot)
                    &&& !self.schedule().is_poisoned()
                    &&& leaders@ == distinct(self.window_leaders(slot, fanout_slots))
                },
                Err(SendErrorKind::SlotTrackerDisconnected) => self.slot() is Err,
                Err(SendErrorKind::ManagedLeaderScheduleDisconnected) => {
                    &&& self.slot() is Ok
                    &&& self.schedule().is_poisoned()
                },
                Err(_) => false,
            },
    {
        match self.upcoming_leaders_for_fanout_slots_with_blocklist::<NoBlocklist>(
            fanout_slots,
            None,
        ) {
            Ok((leaders, _blocked_count)) => {
                proof {
                    let blocked = blocked_by::<NoBlocklist>(None);
                    law_nothing_blocked_allows_all(
                        self.window_leaders(self.slot()->Ok_0, fanout_slots),
                        blocked,
                    );
                }
                Ok(leaders)
            },
            Err(kind) => Err(kind),
        }
    }

    /// The different leaders of the window that `blocklist` does not block, and
    /// at how many steps of four slots, from the current slot on, the leader is
    /// blocked.
    pub fn upcoming_leaders_for_fanout_slots_with_blocklist<B: Blocklist>(
        &self,
        fanout_slots: u64,
        blocklist: Option<&B>,
    ) -> (upcoming: Result<(Vec<Pubkey>, usize), SendErrorKind>)
        requires
            self.window_fits(fanout_slots),
        ensures
            match upcoming {
                Ok((leaders, blocked_count)) => self.upcoming(fanout_slots, blocked_by(blocklist))
                    == Ok::<(Seq<Pubkey>, nat), SendErrorKind>(
                    (leaders@, blocked_count as nat),
                ),
                Err(kind) => self.upcoming(fanout_slots, blocked_by(blocklist)) == Err::<
                    (Seq<Pubkey>, nat),
                    SendErrorKind,
                >(kind),
            },
    {
        match self.survey_window(fanout_slots, blocklist) {
            Ok((leaders, blocked_count, _)) => Ok((leaders, blocked_count)),
            Err(kind) => Err(kind),
        }
    }

    /// The upcoming leaders of a window, the count of blocked ones, and whether
    /// any leader of the window is known.
    fn survey_window<B: Blocklist>(&self, fanout_slots: u64, blocklist: Option<&B>) -> (surveyed:
        Result<(Vec<Pubkey>, usize, bool), SendErrorKind>)
        requires
            self.window_fits(fanout_slots),
        ensures
            match surveyed {
                Ok((leaders, blocked_count, any_known)) => {
                    &&& self.upcoming(fanout_slots, blocked_by(blocklist)) == Ok::<
                        (Seq<Pubkey>, nat),
                        SendErrorKind,
                    >((leaders@, blocked_count as nat))
                    &&& any_known == (self.window_leaders(self.slot()->Ok_0, fanout_slots).len()
                        > 0)
                },
                Err(kind) => self.upcoming(fanout_slots, blocked_by(blocklist)) == Err::<
                    (Seq<Pubkey>, nat),
                    SendErrorKind,
                >(kind),
            },
    {
        let current_slot: u64 = match self.slot_tracker.load() {
            Ok(slot) => slot,
            Err(_) => {
                return Err(SendErrorKind::SlotTrackerDisconnected);
            },
        };
        let reach: u64 = if fanout_slots == 0 {
            1
        } else {
            fanout_slots
        };
        let mut leaders: Vec<Pubkey> = Vec::new();
        let mut blocked_count: usize = 0;
        let mut any_known: bool = false;
        let mut passed: u64 = 0;
        let ghost schedule = self.leader_schedule@;
        let ghost start = current_slot as int;
        let ghost blocked = blocked_by(blocklist);
        let ghost keep = |key: Pubkey| !blocked(key);
        proof {
            let none = every_slot(schedule, start, 0);
            reveal(Seq::filter);
            assert(none.filter(keep) =~= none);
        }
        while passed < reach
            invariant
                passed <= reach,
                reach == span(fanout_slots),
                start == current_slot,
                start + reach <= u64::MAX,
                (reach + 3) / 4 <= usize::MAX,
                self.slot() == Ok::<u64, PoisonError>(current_slot),
                schedule == self.schedule()@,
                passed > 0 ==> !self.schedule().is_poisoned(),
                blocked == blocked_by(blocklist),
                keep == (|key: Pubkey| !blocked(key)),
                leaders@ == distinct(every_slot(schedule, start, passed as nat).filter(keep)),
                blocked_count == blocked_steps(schedule, start, passed as nat, blocked),
                blocked_count <= (passed + 3) / 4,
                any_known == (every_slot(schedule, start, passed as nat).len() > 0),
            decreases reach - passed,
        {
            let ghost known = every_slot(schedule, start, passed as nat);
            match self.leader_schedule.get_leader(current_slot + passed) {
                Ok(Some(leader)) => {
                    proof {
                        lemma_filter_push(known, keep, leader);
                        lemma_distinct_push(known.filter(keep), leader);
                    }
                    any_known = true;
                    let skip: bool = match blocklist {
                        Some(list) => list.is_blocked(&leader),
                        None => false,
                    };
                    if skip {
                        if passed % consecutive_leader_slots() == 0 {
                            blocked_count += 1;
                        }
                    } else if !contains_key(leaders.as_slice(), &leader) {
                        leaders.push(leader);
                    }
                },
                Ok(None) => {},
                Err(_) => {
                    return Err(SendErrorKind::ManagedLeaderScheduleDisconnected);
                },
            }
            passed += 1;
        }
        assert(every_slot(schedule, start, passed as nat).filter(keep) == allowed(
            every_slot(schedule, start, passed as nat),
            blocked,
        ));
        Ok((leaders, blocked_count, any_known))
    }

    /// The slots of a window whose leader is not known, in order; none when the
    /// slot or the schedule cannot be read.
    pub open spec fn unknown_in_window(&self, fanout_slots: u64) -> Seq<u64> {
        match self.slot() {
            Ok(slot) if !self.schedule().is_poisoned() => unknown_slots(
                self.schedule()@,
                slot as int,
                span(fanout_slots) as nat,
            ),
            _ => Seq::empty(),
        }
    }

    /// The slots of a window whose leader is not known, in order; none when the
    /// slot or the schedule cannot be read.
    pub fn unknown_leader_slots(&self, fanout_slots: u64) -> (unknown: Vec<u64>)
        requires
            self.window_fits(fanout_slots),
        ensures
            unknown@ == match self.slot() {
                Ok(slot) if !self.schedule().is_poisoned() => unknown_slots(
                    self.schedule()@,
                    slot as int,
                    span(fanout_slots) as nat,
                ),
                _ => Seq::empty(),
            },
            unknown@ == self.unknown_in_window(fanout_slots),
    {
        let mut unknown: Vec<u64> = Vec::new();
        let current_slot: u64 = match self.slot_tracker.load() {
            Ok(slot) => slot,
            Err(_) => {
                return unknown;
            },
        };
        let reach: u64 = if fanout_slots == 0 {
            1
        } else {
            fanout_slots
        };
        let mut passed: u64 = 0;
        while passed < reach
            invariant
                passed <= reach,
                reach == span(fanout_slots),
                current_slot + reach <= u64::MAX,
                self.slot() == Ok::<u64, PoisonError>(current_slot),
                passed > 0 ==> !self.schedule().is_poisoned(),
                unknown@ == unknown_slots(self.schedule()@, current_slot as int, passed as nat),
            decreases reach - passed,
        {
            let slot: u64 = current_slot + passed;
            match self.leader_schedule.get_leader(slot) {
                Ok(Some(_)) => {},
                Ok(None) => {
                    unknown.push(slot);
                },
                Err(_) => {
                    return unknown;
                },
            }
            passed += 1;
        }
        unknown
    }

    /// Whether the leaders that a send by boundary needs are known.
    pub open spec fn boundary_known(&self) -> bool {
        self.slot() matches Ok(slot) ==> self.schedule().is_poisoned() || {
            let floor = slot - into_boundary(slot);
            &&& self.schedule()@.contains_key(floor as u64)
            &&& into_boundary(slot) >= 2 ==> {
                &&& floor + 4 <= u64::MAX
                &&& self.schedule()@.contains_key((floor + 4) as u64)
            }
        }
    }

    /// The known leaders that a send looks up, before any is blocked: those of
    /// the configured fanout window, or, without one, those of the boundary.
    pub open spec fn lookups(&self) -> Seq<Pubkey> {
        let slot = self.slot()->Ok_0;
        if self.fanout() > 0 {
            self.window_leaders(slot, self.fanout())
        } else {
            boundary_leaders(self.schedule()@, slot)
        }
    }

    /// Whether a send can look up the leaders it needs.
    pub open spec fn can_choose(&self) -> bool {
        if self.fanout() > 0 {
            self.window_fits(self.fanout())
        } else {
            self.boundary_known()
        }
    }

    /// Where a send goes: to the leaders that it looks up and that are not
    /// blocked, in a window each once. It is refused where there is none.
    pub open spec fn destinations(&self, blocked: spec_fn(Pubkey) -> bool) -> Result<
        Seq<Pubkey>,
        SendErrorKind,
    > {
        match self.slot() {
            Err(_) => Err(SendErrorKind::SlotTrackerDisconnected),
            Ok(_) => if self.schedule().is_poisoned() {
                Err(SendErrorKind::ManagedLeaderScheduleDisconnected)
            } else {
                let leaders = if self.fanout() > 0 {
                    distinct(allowed(self.lookups(), blocked))
                } else {
                    allowed(self.lookups(), blocked)
                };
                if leaders.len() > 0 {
                    Ok(leaders)
                } else if self.lookups().len() > 0 {
                    Err(SendErrorKind::RemotePeerBlocked)
                } else {
                    Err(SendErrorKind::NoKnownLeader)
                }
            },
        }
    }

    /// What a send to many begins with: no destination tried, under the
    /// sender's rules for shared sockets.
    pub open spec fn many_dest_begun(
        &self,
        sig: Signature,
        wire: Seq<u8>,
        dests: Seq<Pubkey>,
        fanout: bool,
        send: ManyDestSend,
    ) -> bool {
        &&& send.wf()
        &&& send.sig() == sig
        &&& send.wire() == wire
        &&& send.left() == dests
        &&& send.seen() == Seq::<SocketAddr>::empty()
        &&& send.coalesces() == self.coalesces()
        &&& send.port() == self.port()
        &&& send.fanout() == fanout
        &&& !send.delivered()
    }

    /// What a send to chosen leaders begins with, or the error that keeps it
    /// from beginning. A fanout ends well once it has reached one of them.
    pub open spec fn fanout_begun(
        &self,
        sig: Signature,
        wire: Seq<u8>,
        dests: Result<Seq<Pubkey>, SendErrorKind>,
        fanout: bool,
        begun: Result<ManyDestSend, SendError>,
    ) -> bool {
        match dests {
            Err(kind) => {
                &&& begun matches Err(e)
                &&& e.kind == kind
                &&& wire_bytes(e.txn) == wire
            },
            Ok(leaders) => {
                &&& begun matches Ok(send)
                &&& self.many_dest_begun(sig, wire, leaders, fanout, send)
            },
        }
    }

    /// Whether a send can look up the leaders it needs.
    pub fn can_choose_leaders(&self) -> (can: bool)
        ensures
            can == self.can_choose(),
    {
        if self.send_fanout_slots > 0 {
            return self.fits_window(self.send_fanout_slots);
        }
        let slot: u64 = match self.slot_tracker.load() {
            Err(_) => {
                return true;
            },
            Ok(slot) => slot,
        };
        let reminder: u64 = slot % consecutive_leader_slots();
        let floor: u64 = slot - reminder;
        match self.leader_schedule.get_leader(floor) {
            Err(_) => true,
            Ok(None) => false,
            Ok(Some(_)) => {
                if reminder < 2 {
                    return true;
                }
                match floor.checked_add(consecutive_leader_slots()) {
                    None => false,
                    Some(next) => match self.leader_schedule.get_leader(next) {
                        Ok(Some(_)) => true,
                        _ => false,
                    },
                }
            },
        }
    }

    /// Chooses the leaders of a send by boundary that are not blocked.
    fn choose_by_boundary<B: Blocklist>(&self, blocklist: Option<&B>) -> (chosen: Result<
        Vec<Pubkey>,
        SendErrorKind,
    >)
        requires
            self.boundary_known(),
        ensures
            match chosen {
                Ok(leaders) => {
                    &&& self.slot() matches Ok(slot)
                    &&& !self.schedule().is_poisoned()
                    &&& leaders@ == allowed(
                        boundary_leaders(self.schedule()@, slot),
                        blocked_by(blocklist),
                    )
                },
                Err(SendErrorKind::SlotTrackerDisconnected) => self.slot() is Err,
                Err(SendErrorKind::ManagedLeaderScheduleDisconnected) => {
                    &&& self.slot() is Ok
                    &&& self.schedule().is_poisoned()
                },
                Err(_) => false,
            },
    {
        let current_slot: u64 = match self.slot_tracker.load() {
            Ok(slot) => slot,
            Err(_) => {
                return Err(SendErrorKind::SlotTrackerDisconnected);
            },
        };
        let reminder: u64 = current_slot % consecutive_leader_slots();
        let floor_leader_boundary: u64 = current_slot - reminder;
        // Half way through a leader's slots the next leader is sent to as well.
        let n: u64 = if reminder >= 2 {
            2
        } else {
            1
        };
        let mut leaders: Vec<Pubkey> = Vec::new();
        let ghost known = boundary_leaders(self.schedule()@, current_slot);
        let ghost blocked = blocked_by(blocklist);
        let ghost keep = |key: Pubkey| !blocked(key);
        proof {
            reveal(Seq::filter);
            assert(known.take(0).filter(keep) =~= Seq::<Pubkey>::empty());
        }
        let mut i: u64 = 0;
        while i < n
            invariant
                i <= n <= 2,
                n == known.len(),
                floor_leader_boundary == current_slot - into_boundary(current_slot),
                self.slot() == Ok::<u64, PoisonError>(current_slot),
                self.boundary_known(),
                known == boundary_leaders(self.schedule()@, current_slot),
                i > 0 ==> !self.schedule().is_poisoned(),
                blocked == blocked_by(blocklist),
                keep == (|key: Pubkey| !blocked(key)),
                leaders@ == known.take(i as int).filter(keep),
            decreases n - i,
        {
            match self.leader_schedule.get_leader(
                if i == 0 {
                    floor_leader_boundary
                } else {
                    floor_leader_boundary + consecutive_leader_slots()
                },
            ) {
                Ok(Some(leader)) => {
                    proof {
                        assert(leader == known[i as int]);
                        assert(known.take(i + 1) =~= known.take(i as int).push(leader));
                        lemma_filter_push(known.take(i as int), keep, leader);
                    }
                    let skip: bool = match blocklist {
                        Some(list) => list.is_blocked(&leader),
                        None => false,
                    };
                    if !skip {
                        leaders.push(leader);
                    }
                },
                Ok(None) => {},
                Err(_) => {
                    return Err(SendErrorKind::ManagedLeaderScheduleDisconnected);
                },
            }
            i += 1;
        }
        assert(known.take(i as int) =~= known);
        Ok(leaders)
    }

    /// The leaders that a send goes to when it passes over those that
    /// `blocklist` blocks.
    pub fn choose_destinations<B: Blocklist>(&self, blocklist: Option<&B>) -> (chosen: Result<
        Vec<Pubkey>,
        SendErrorKind,
    >)
        requires
            self.can_choose(),
        ensures
            match chosen {
                Ok(leaders) => self.destinations(blocked_by(blocklist)) == Ok::<
                    Seq<Pubkey>,
                    SendErrorKind,
                >(leaders@),
                Err(kind) => self.destinations(blocked_by(blocklist)) == Err::<
                    Seq<Pubkey>,
                    SendErrorKind,
                >(kind),
            },
    {
        let (leaders, any_known): (Vec<Pubkey>, bool) = if self.send_fanout_slots > 0 {
            match self.survey_window(self.send_fanout_slots, blocklist) {
                Ok((leaders, _, any_known)) => (leaders, any_known),
                Err(kind) => {
                    return Err(kind);
                },
            }
        } else {
            match self.choose_by_boundary(blocklist) {
                Ok(leaders) => (leaders, true),
                Err(kind) => {
                    return Err(kind);
                },
            }
        };
        if leaders.len() > 0 {
            Ok(leaders)
        } else if any_known {
            Err(SendErrorKind::RemotePeerBlocked)
        } else {
            Err(SendErrorKind::NoKnownLeader)
        }
    }

    /// Begins a send of `txn` to `dests`, one after the other. With no
    /// destinations the send is over at once.
    pub fn send_txn_many_dest(&self, sig: Signature, txn: Vec<u8>, dests: &[Pubkey]) -> (send:
        ManyDestSend)
        ensures
            self.many_dest_begun(sig, txn@, dests@, false, send),
    {
        self.many_dest(sig, bytes_from_owner(txn), slice_to_vec(dests), false)
    }

    fn many_dest(&self, sig: Signature, wire_txn: Bytes, dests: Vec<Pubkey>, fanout: bool) -> (send:
        ManyDestSend)
        ensures
            self.many_dest_begun(sig, wire_bytes(wire_txn), dests@, fanout, send),
    {
        ManyDestSend::new(
            sig,
            wire_txn,
            dests,
            self.coalesce_send_many_tpu_port_collision,
            self.tpu_port_kind,
            fanout,
        )
    }

    /// Begins a send of `txn` to the chosen leaders, past the blocked ones. It
    /// begins only where there is a leader to send to, and ends well once one
    /// has been reached.
    fn send_txn_fanout_with_blocklist<B: Blocklist>(
        &self,
        sig: Signature,
        txn: Vec<u8>,
        blocklist: Option<&B>,
    ) -> (begun: Result<ManyDestSend, SendError>)
        requires
            self.can_choose(),
        ensures
            self.fanout_begun(sig, txn@, self.destinations(blocked_by(blocklist)), true, begun),
    {
        let wire_txn = bytes_from_owner(txn);
        match self.choose_destinations(blocklist) {
            Ok(leaders) => Ok(self.many_dest(sig, wire_txn, leaders, true)),
            Err(kind) => Err(SendError { kind, txn: wire_txn }),
        }
    }

    /// Begins a send of `txn` to the chosen leaders. The same as
    /// [`Self::send_txn_with_blocklist`] with a [`NoBlocklist`].
    pub fn send_txn(&self, sig: Signature, txn: Vec<u8>) -> (begun: Result<ManyDestSend, SendError>)
        requires
            self.can_choose(),
        ensures
            self.fanout_begun(
                sig,
                txn@,
                self.destinations(blocked_by(Some(&NoBlocklist))),
                true,
                begun,
            ),
    {
        self.send_txn_with_blocklist(sig, txn, Some(NoBlocklist))
    }

    /// Begins a send of `txn` to the different leaders of a window of
    /// `fanout_slots` slots: to all of them, as
    /// [`Self::send_txn_many_dest`] does, however many they are.
    pub fn send_txn_fanout_slots(&self, sig: Signature, txn: Vec<u8>, fanout_slots: u64) -> (begun:
        Result<ManyDestSend, SendError>)
        requires
            self.window_fits(fanout_slots),
        ensures
            self.fanout_begun(
                sig,
                txn@,
                match self.upcoming(fanout_slots, |peer: Pubkey| false) {
                    Ok((leaders, _)) => Ok(leaders),
                    Err(kind) => Err(kind),
                },
                false,
                begun,
            ),
    {
        let wire_txn = bytes_from_owner(txn);
        proof {
            if let Ok(slot) = self.slot() {
                law_nothing_blocked_allows_all(
                    self.window_leaders(slot, fanout_slots),
                    |peer: Pubkey| false,
                );
            }
        }
        match self.upcoming_leaders_for_fanout_slots(fanout_slots) {
            Ok(leaders) => Ok(self.many_dest(sig, wire_txn, leaders, false)),
            Err(kind) => Err(SendError { kind, txn: wire_txn }),
        }
    }

    /// Begins a send of `txn` to the chosen leaders, past those that
    /// `blocklist` blocks.
    pub fn send_txn_with_blocklist<B: Blocklist>(
        &self,
        sig: Signature,
        txn: Vec<u8>,
        blocklist: Option<B>,
    ) -> (begun: Result<ManyDestSend, SendError>)
        requires
            self.can_choose(),
        ensures
            self.fanout_begun(
                sig,
                txn@,
                self.destinations(
                    blocked_by(
                        match blocklist {
                            Some(list) => Some(&list),
                            None => None,
                        },
                    ),
                ),
                true,
                begun,
            ),
    {
        match &blocklist {
            Some(list) => self.send_txn_fanout_with_blocklist(sig, txn, Some(list)),
            None => self.send_txn_fanout_with_blocklist::<B>(sig, txn, None),
        }
    }

    /// Begins a send of `txn` to the chosen leaders, past those that shield
    /// policies do not allow.
    pub fn send_txn_with_shield_policies(
        &self,
        sig: Signature,
        txn: Vec<u8>,
        shield: ShieldBlockList<'_>,
    ) -> (begun: Result<ManyDestSend, SendError>)
        requires
            self.can_choose(),
        ensures
            self.fanout_begun(sig, txn@, self.destinations(blocked_by(Some(&shield))), true, begun),
    {
        self.send_txn_fanout_with_blocklist(sig, txn, Some(&shield))
    }
}

impl YellowstoneTpuSender {
    /// Whether two senders know the same of the ledger and send by the same
    /// rules.
    pub open spec fn agrees_with(&self, other: &Self) -> bool {
        &&& self.slot() == other.slot()
        &&& self.schedule()@ == other.schedule()@
        &&& self.schedule().is_poisoned() == other.schedule().is_poisoned()
        &&& forall|peer: Pubkey| #[trigger]
            self.info().contact(peer) == other.info().contact(peer)
        &&& self.coalesces() == other.coalesces()
        &&& self.port() == other.port()
        &&& self.fanout() == other.fanout()
    }
}

impl Clone for YellowstoneTpuSender {
    /// A sender to the same queue that knows the same.
    fn clone(&self) -> (copy: Self)
        ensures
            copy.agrees_with(self),
            copy.offers() == Seq::<Offer>::empty(),
    {
        YellowstoneTpuSender {
            base_tpu_sender: self.base_tpu_sender.clone(),
            coalesce_send_many_tpu_port_collision: self.coalesce_send_many_tpu_port_collision,
            slot_tracker: self.slot_tracker,
            leader_schedule: self.leader_schedule.clone(),
            leader_tpu_info: self.leader_tpu_info.clone(),
            tpu_port_kind: self.tpu_port_kind,
            send_fanout_slots: self.send_fanout_slots,
        }
    }
}

/// When nobody is blocked every key is allowed.
pub proof fn law_nothing_blocked_allows_all(keys: Seq<Pubkey>, blocked: spec_fn(Pubkey) -> bool)
    requires
        forall|key: Pubkey| !#[trigger] blocked(key),
    ensures
        allowed(keys, blocked) == keys,
    decreases keys.len(),
{
    reveal(Seq::filter);
    if keys.len() > 0 {
        law_nothing_blocked_allows_all(keys.drop_last(), blocked);
        assert(keys.drop_last().push(keys.last()) =~= keys);
    } else {
        assert(allowed(keys, blocked) =~= keys);
    }
}

/// The transaction as it is offered to the queue for one leader.
pub open spec fn fast_txn(sig: Signature, wire: Seq<u8>, target: (Pubkey, SocketAddr)) -> TxnView {
    TxnView {
        tx_sig: sig,
        remote_peer: target.0,
        wire,
        remote_peer_addr: Some(target.1),
        fast: true,
    }
}

/// The queue has been offered the transaction for the first `count` targets of
/// a plan, in order, and nothing else.
pub open spec fn offered_so_far(
    before: Seq<Offer>,
    after: Seq<Offer>,
    sig: Signature,
    wire: Seq<u8>,
    plan: Seq<(Pubkey, SocketAddr)>,
    count: int,
) -> bool {
    &&& 0 <= count <= plan.len()
    &&& after.len() == before.len() + count
    &&& after.take(before.len() as int) == before
    &&& forall|i: int|
        0 <= i < count ==> (#[trigger] after[before.len() + i]).txn == fast_txn(sig, wire, plan[i])
}

proof fn lemma_offered_push(
    before: Seq<Offer>,
    after: Seq<Offer>,
    sig: Signature,
    wire: Seq<u8>,
    plan: Seq<(Pubkey, SocketAddr)>,
    count: int,
    offer: Offer,
)
    requires
        offered_so_far(before, after, sig, wire, plan, count),
        count < plan.len(),
        offer.txn == fast_txn(sig, wire, plan[count]),
    ensures
        offered_so_far(before, after.push(offer), sig, wire, plan, count + 1),
{
    let longer = after.push(offer);
    assert(longer.take(before.len() as int) =~= after.take(before.len() as int));
    assert forall|i: int| 0 <= i < count + 1 implies (#[trigger] longer[before.len() + i]).txn
        == fast_txn(sig, wire, plan[i]) by {
        if i < count {
            assert(longer[before.len() + i] == after[before.len() + i]);
        }
    }
}

/// What a fast send does and returns.
///
/// Without a plan nothing is offered and the error says why. With one, the
/// transaction is offered for each target in order as long as the queue takes
/// it; the send succeeds when the queue took all, and otherwise the last answer
/// is the error. Every error carries the transaction.
pub open spec fn fast_sent(
    before: YellowstoneTpuSender,
    after: YellowstoneTpuSender,
    sig: Signature,
    wire: Seq<u8>,
    fanout_slots: u64,
    sent: Result<usize, SendError>,
) -> bool {
    let count = after.offers().len() - before.offers().len();
    &&& after.same_knowledge(&before)
    &&& sent matches Err(e) ==> wire_bytes(e.txn) == wire
    &&& match before.fast_plan(fanout_slots) {
        Err(kind) => {
            &&& sent matches Err(e)
            &&& e.kind == kind
            &&& after.offers() == before.offers()
        },
        Ok(plan) => {
            &&& count > 0
            &&& offered_so_far(before.offers(), after.offers(), sig, wire, plan, count)
            &&& forall|i: int|
                0 <= i < count - 1 ==> (#[trigger] after.offers()[before.offers().len() + i]).reply
                    == QueueReply::Taken
            &&& match after.offers().last().reply {
                QueueReply::Taken => {
                    &&& count == plan.len()
                    &&& sent matches Ok(scheduled_count)
                    &&& scheduled_count == plan.len()
                },
                QueueReply::Full => {
                    &&& sent matches Err(e)
                    &&& e.kind == SendErrorKind::QueueFull
                },
                QueueReply::Closed => {
                    &&& sent matches Err(e)
                    &&& e.kind == SendErrorKind::Closed
                },
            }
        },
    }
}

} // verus!
