use bytes::Bytes;
use std::collections::{BTreeSet, HashMap, HashSet};
use tokio::sync::mpsc;
use tpu_sender::blocklist::{Blocklist, NoBlocklist, PolicyAnswer, PolicySnapshot, ShieldBlockList};
use tpu_sender::channel::{TpuSender, TpuSenderTxn};
use tpu_sender::config::{
    TpuSenderConfig, YellowstoneTpuSenderConfig, DEFAULT_TPU_SENDER_CHANNEL_CAPACITY,
    FAST_SEND_MAX_LEADERS,
};
use tpu_sender::direct::{direct_verdict, DirectAction, DirectEvent, DirectOutcome, DirectSend};
use tpu_sender::error::{SendError, SendErrorKind};
use tpu_sender::fanout::fanout_targets;
use tpu_sender::many_dest::{DeliveryAction, DeliveryEvent, ManyDestSend};
use tpu_sender::schedule::ManagedLeaderSchedule;
use tpu_sender::sender::YellowstoneTpuSender;
use tpu_sender::slot::{PoisonError, SlotTracker};
use tpu_sender::tpu_info::{LeaderTpuInfo, TpuContact};
use tpu_sender::types::{Pubkey, Signature, SocketAddr, TpuPortKind};

const SIG: Signature = [9; 64];

fn key(n: u8) -> Pubkey {
    let mut bytes = [0; 32];
    bytes[31] = n;
    bytes
}

fn addr(n: u16) -> SocketAddr {
    SocketAddr::V4 { ipv4: 0x0a00_0001, port: n }
}

fn contacts(entries: &[(u8, Option<u16>, Option<u16>)]) -> LeaderTpuInfo {
    let mut info = LeaderTpuInfo::new();
    for (peer, normal, forwards) in entries {
        info.announce(TpuContact {
            peer: key(*peer),
            normal: normal.map(addr),
            forwards: forwards.map(addr),
        });
    }
    info
}

struct Setup {
    slot: Result<u64, PoisonError>,
    leaders: Vec<(u64, u8)>,
    info: LeaderTpuInfo,
    fanout: u64,
    port: TpuPortKind,
    room: usize,
}

fn build(setup: Setup) -> (YellowstoneTpuSender, mpsc::Receiver<TpuSenderTxn>) {
    let (tx, rx) = mpsc::channel(setup.room);
    let tpu = TpuSenderConfig {
        num_endpoints: 1,
        max_send_attempt: 1,
        leader_prediction_lookahead: None,
        tpu_port: setup.port,
        send_fanout_slots: setup.fanout,
    };
    let mut schedule = ManagedLeaderSchedule::new();
    for (slot, leader) in setup.leaders {
        schedule.assign(slot, key(leader));
    }
    let sender = YellowstoneTpuSender::new(
        TpuSender::new(tx),
        &tpu,
        SlotTracker::new(setup.slot),
        schedule,
        setup.info,
    );
    (sender, rx)
}

fn usual() -> Setup {
    Setup {
        slot: Ok(100),
        leaders: vec![(100, 1), (104, 2), (108, 3)],
        info: contacts(&[(1, Some(11), Some(21)), (2, Some(12), Some(22)), (3, Some(13), None)]),
        fanout: 8,
        port: TpuPortKind::Normal,
        room: 8,
    }
}

fn wire() -> Bytes {
    let mut bytes = vec![1u8];
    bytes.extend_from_slice(&SIG);
    bytes.extend_from_slice(b"message");
    Bytes::from(bytes)
}

fn drain(rx: &mut mpsc::Receiver<TpuSenderTxn>) -> Vec<TpuSenderTxn> {
    let mut taken = Vec::new();
    while let Ok(txn) = rx.try_recv() {
        taken.push(txn);
    }
    taken
}

fn kind<T>(result: Result<T, SendError>) -> SendErrorKind {
    match result {
        Ok(_) => panic!("the send succeeded"),
        Err(e) => e.kind,
    }
}

// Hands every transaction to the queue and returns the peers in order.
fn deliver(send: &mut ManyDestSend, info: &LeaderTpuInfo) -> Vec<Pubkey> {
    let mut peers = Vec::new();
    let mut event = DeliveryEvent::Begin;
    loop {
        match send.step(event, info) {
            DeliveryAction::Send(txn) => {
                assert_eq!(txn.tx_sig, SIG);
                assert_eq!(txn.wire, wire());
                assert_eq!(txn.remote_peer_addr, None);
                assert!(!txn.fast);
                peers.push(txn.remote_peer);
                event = DeliveryEvent::Delivered;
            }
            DeliveryAction::Return(result) => {
                assert!(result.is_ok());
                return peers;
            }
        }
    }
}

#[test]
fn fast_send_offers_one_transaction_per_leader() {
    let (mut sender, mut rx) = build(usual());
    assert_eq!(sender.try_send_wire_transaction_fast(SIG, wire()).unwrap(), 2);
    let taken = drain(&mut rx);
    assert_eq!(taken.len(), 2);
    for (txn, n) in taken.iter().zip([1u8, 2]) {
        assert_eq!(txn.tx_sig, SIG);
        assert_eq!(txn.remote_peer, key(n));
        assert_eq!(txn.wire, wire());
        assert_eq!(txn.remote_peer_addr, Some(addr(10 + n as u16)));
        assert!(txn.fast);
    }
}

#[test]
fn fast_send_always_uses_the_normal_port() {
    let (mut sender, mut rx) = build(Setup { port: TpuPortKind::Forwards, ..usual() });
    assert_eq!(sender.try_send_wire_transaction_fast(SIG, wire()).unwrap(), 2);
    let addrs: Vec<_> = drain(&mut rx).iter().map(|t| t.remote_peer_addr).collect();
    assert_eq!(addrs, vec![Some(addr(11)), Some(addr(12))]);
}

#[test]
fn fast_send_reads_the_signature_from_the_bytes() {
    let (mut sender, mut rx) = build(usual());
    assert_eq!(sender.try_send_wire_transaction_bytes_fast(wire()).unwrap(), (SIG, 2));
    assert_eq!(drain(&mut rx)[0].tx_sig, SIG);
    let error = sender
        .try_send_wire_transaction_bytes_fast(Bytes::from_static(b"\x01short"))
        .unwrap_err();
    assert_eq!(error.kind, SendErrorKind::InvalidWireTransaction);
    assert_eq!(error.txn, Bytes::from_static(b"\x01short"));
    assert_eq!(drain(&mut rx).len(), 0);
}

#[test]
fn malformed_bytes_are_not_sent() {
    let (mut sender, mut rx) = build(usual());
    let mut one_of_two = vec![2u8];
    one_of_two.extend_from_slice(&[7; 64]);
    let without_message = wire().slice(..65);
    for bytes in [Bytes::from(one_of_two), without_message] {
        let error = sender.try_send_wire_transaction_bytes_fast(bytes.clone()).unwrap_err();
        assert_eq!(error.kind, SendErrorKind::InvalidWireTransaction);
        assert_eq!(error.txn, bytes);
        let error = sender
            .send_wire_transaction_bytes_direct_fast(bytes.clone())
            .err()
            .unwrap();
        assert_eq!(error.kind, SendErrorKind::InvalidWireTransaction);
        assert_eq!(error.txn, bytes);
    }
    assert_eq!(drain(&mut rx).len(), 0);
}

#[test]
fn fast_send_uses_a_shared_socket_once() {
    let info = contacts(&[(1, Some(11), None), (2, Some(11), None)]);
    let (mut sender, mut rx) = build(Setup { info, ..usual() });
    assert_eq!(
        sender.try_send_wire_transaction_fanout_slots_fast(SIG, wire(), 8).unwrap(),
        1
    );
    let taken = drain(&mut rx);
    assert_eq!(taken.len(), 1);
    assert_eq!(taken[0].remote_peer, key(1));
}

#[test]
fn fast_send_passes_over_leaders_without_a_socket() {
    let info = contacts(&[(1, None, Some(21)), (2, Some(12), None)]);
    let (mut sender, mut rx) = build(Setup { info, ..usual() });
    assert_eq!(sender.try_send_wire_transaction_fast(SIG, wire()).unwrap(), 1);
    assert_eq!(drain(&mut rx)[0].remote_peer, key(2));
}

#[test]
fn fast_send_errors() {
    let (mut sender, _rx) = build(Setup { leaders: vec![], ..usual() });
    assert_eq!(
        kind(sender.try_send_wire_transaction_fast(SIG, wire())),
        SendErrorKind::NoKnownLeader
    );
    let (mut sender, _rx) = build(Setup { info: contacts(&[]), ..usual() });
    let error = sender.try_send_wire_transaction_fast(SIG, wire()).unwrap_err();
    assert_eq!(error.kind, SendErrorKind::NoKnownTpuAddress);
    assert_eq!(error.txn, wire());
    let (mut sender, _rx) = build(Setup { slot: Err(PoisonError), ..usual() });
    assert_eq!(
        kind(sender.try_send_wire_transaction_fast(SIG, wire())),
        SendErrorKind::SlotTrackerDisconnected
    );
}

#[test]
fn fast_send_stops_at_a_full_queue() {
    let (mut sender, mut rx) = build(Setup { room: 1, ..usual() });
    let error = sender.try_send_wire_transaction_fast(SIG, wire()).unwrap_err();
    assert_eq!(error.kind, SendErrorKind::QueueFull);
    assert_eq!(error.txn, wire());
    let taken = drain(&mut rx);
    assert_eq!(taken.len(), 1);
    assert_eq!(taken[0].remote_peer, key(1));
}

#[test]
fn fast_send_stops_at_a_closed_queue() {
    let (mut sender, rx) = build(usual());
    drop(rx);
    let error = sender.try_send_wire_transaction_fast(SIG, wire()).unwrap_err();
    assert_eq!(error.kind, SendErrorKind::Closed);
    assert_eq!(error.txn, wire());
}

#[test]
fn a_clone_sends_to_the_same_queue() {
    let (sender, mut rx) = build(usual());
    let mut copy = sender.clone();
    assert_eq!(copy.try_send_wire_transaction_fast(SIG, wire()).unwrap(), 2);
    assert_eq!(drain(&mut rx).len(), 2);
}

#[test]
fn fanout_targets_keep_order_and_skip_shared_sockets() {
    let info = contacts(&[(1, Some(11), None), (2, Some(11), None), (4, Some(14), Some(11))]);
    assert_eq!(
        fanout_targets(&[key(2), key(3), key(1), key(4)], &info, TpuPortKind::Normal),
        vec![(key(2), addr(11)), (key(4), addr(14))]
    );
    assert_eq!(
        fanout_targets(&[key(2), key(4)], &info, TpuPortKind::Forwards),
        vec![(key(4), addr(11))]
    );
}

// Runs a direct send, answering each attempt by leader.
fn attempt(
    send: &mut DirectSend,
    info: &LeaderTpuInfo,
    answer: impl Fn(Pubkey) -> DirectOutcome,
) -> (Vec<(Pubkey, SocketAddr)>, Result<usize, SendError>) {
    let mut tried = Vec::new();
    let mut event = DirectEvent::Begin;
    loop {
        match send.step(event, info) {
            DirectAction::Write { leader, addr } => {
                tried.push((leader, addr));
                event = DirectEvent::Attempted(answer(leader));
            }
            DirectAction::Return(result) => return (tried, result),
        }
    }
}

#[test]
fn direct_send_writes_to_the_current_and_the_next_leader() {
    let (sender, mut rx) = build(Setup { port: TpuPortKind::Forwards, ..usual() });
    let (sig, mut send) = sender.send_wire_transaction_bytes_direct_fast(wire()).unwrap();
    assert_eq!(sig, SIG);
    assert_eq!(send.wire_transaction(), wire());
    let (tried, result) =
        attempt(&mut send, sender.leader_tpu_info(), |_| DirectOutcome::Written);
    assert_eq!(tried, vec![(key(1), addr(11)), (key(2), addr(12))]);
    assert_eq!(result.unwrap(), 2);
    assert_eq!(drain(&mut rx).len(), 0);
}

#[test]
fn direct_send_succeeds_when_one_write_does() {
    let (sender, _rx) = build(usual());
    let mut send = sender.send_wire_transaction_direct_fast(SIG, wire()).unwrap();
    let (_, result) = attempt(&mut send, sender.leader_tpu_info(), |leader| {
        if leader == key(1) {
            DirectOutcome::WriteFailed
        } else {
            DirectOutcome::Written
        }
    });
    assert_eq!(result.unwrap(), 1);
}

#[test]
fn direct_send_errors() {
    let (sender, _rx) = build(usual());
    let mut send = sender.send_wire_transaction_direct_fast(SIG, wire()).unwrap();
    let (_, result) =
        attempt(&mut send, sender.leader_tpu_info(), |_| DirectOutcome::NoConnection);
    let error = result.unwrap_err();
    assert_eq!(error.kind, SendErrorKind::NoReadyDirectConnection);
    assert_eq!(error.txn, wire());

    let mut send = sender.send_wire_transaction_direct_fast(SIG, wire()).unwrap();
    let (_, result) = attempt(&mut send, sender.leader_tpu_info(), |leader| {
        if leader == key(1) {
            DirectOutcome::NoConnection
        } else {
            DirectOutcome::WriteFailed
        }
    });
    assert_eq!(kind(result), SendErrorKind::DirectWriteFailed);

    let (sender, _rx) = build(Setup { info: contacts(&[]), ..usual() });
    let mut send = sender.send_wire_transaction_direct_fast(SIG, wire()).unwrap();
    let (tried, result) =
        attempt(&mut send, sender.leader_tpu_info(), |_| DirectOutcome::Written);
    assert!(tried.is_empty());
    assert_eq!(kind(result), SendErrorKind::NoKnownTpuAddress);

    let (sender, _rx) = build(Setup { leaders: vec![], ..usual() });
    assert_eq!(
        kind(sender.send_wire_transaction_direct_fast(SIG, wire())),
        SendErrorKind::NoKnownLeader
    );
    let (sender, _rx) = build(usual());
    assert_eq!(
        kind(sender.send_wire_transaction_bytes_direct_fast(Bytes::from_static(b"\x00"))),
        SendErrorKind::InvalidWireTransaction
    );
}

#[test]
fn direct_send_with_one_unknown_socket_and_no_connection() {
    let info = contacts(&[(2, Some(12), None)]);
    let (sender, _rx) = build(Setup { info, ..usual() });
    let mut send = sender.send_wire_transaction_direct_fast(SIG, wire()).unwrap();
    let (tried, result) =
        attempt(&mut send, sender.leader_tpu_info(), |_| DirectOutcome::NoConnection);
    assert_eq!(tried, vec![(key(2), addr(12))]);
    assert_eq!(kind(result), SendErrorKind::NoReadyDirectConnection);
}

#[test]
fn direct_send_tries_a_shared_socket_once() {
    let info = contacts(&[(1, Some(11), None), (2, Some(11), None)]);
    let (sender, _rx) = build(Setup { info, ..usual() });
    let mut send = sender
        .send_wire_transaction_fanout_slots_direct_fast(SIG, wire(), 8)
        .unwrap();
    let (tried, result) =
        attempt(&mut send, sender.leader_tpu_info(), |_| DirectOutcome::Written);
    assert_eq!(tried, vec![(key(1), addr(11))]);
    assert_eq!(result.unwrap(), 1);
}

#[test]
fn direct_verdicts() {
    assert_eq!(direct_verdict(&[]), Err(SendErrorKind::NoKnownTpuAddress));
    assert_eq!(
        direct_verdict(&[DirectOutcome::NoConnection]),
        Err(SendErrorKind::NoReadyDirectConnection)
    );
    assert_eq!(
        direct_verdict(&[DirectOutcome::WriteFailed, DirectOutcome::NoConnection]),
        Err(SendErrorKind::DirectWriteFailed)
    );
    assert_eq!(
        direct_verdict(&[DirectOutcome::WriteFailed, DirectOutcome::Written]),
        Ok(1)
    );
}

#[test]
fn send_to_many_reaches_every_destination_in_order() {
    let (sender, _rx) = build(usual());
    let mut send =
        sender.send_txn_many_dest(SIG, wire().to_vec(), &[key(3), key(9), key(1), key(9)]);
    assert_eq!(
        deliver(&mut send, sender.leader_tpu_info()),
        vec![key(3), key(9), key(1), key(9)]
    );
}

#[test]
fn send_to_many_without_destinations_is_over_at_once() {
    let (sender, _rx) = build(usual());
    let mut send = sender.send_txn_many_dest(SIG, wire().to_vec(), &[]);
    assert_eq!(deliver(&mut send, sender.leader_tpu_info()), Vec::<Pubkey>::new());
}

#[test]
fn send_to_many_coalesces_shared_sockets_unless_told_otherwise() {
    let info = contacts(&[(1, Some(11), Some(21)), (2, Some(11), Some(22))]);
    let (mut sender, _rx) = build(Setup { info, ..usual() });
    let dests = [key(1), key(2), key(1)];
    let mut send = sender.send_txn_many_dest(SIG, wire().to_vec(), &dests);
    assert_eq!(deliver(&mut send, sender.leader_tpu_info()), vec![key(1)]);
    sender.set_coalesce_many_dest_collision(false);
    let mut send = sender.send_txn_many_dest(SIG, wire().to_vec(), &dests);
    assert_eq!(deliver(&mut send, sender.leader_tpu_info()), dests.to_vec());
}

#[test]
fn send_to_many_compares_the_configured_ports() {
    let info = contacts(&[(1, Some(11), Some(21)), (2, Some(11), Some(22))]);
    let (sender, _rx) = build(Setup { info, port: TpuPortKind::Forwards, ..usual() });
    let mut send = sender.send_txn_many_dest(SIG, wire().to_vec(), &[key(1), key(2)]);
    assert_eq!(deliver(&mut send, sender.leader_tpu_info()), vec![key(1), key(2)]);
}

#[test]
fn send_to_many_ends_when_the_queue_is_closed() {
    let (sender, _rx) = build(usual());
    let mut send = sender.send_txn_many_dest(SIG, wire().to_vec(), &[key(1), key(2)]);
    let info = sender.leader_tpu_info();
    assert!(matches!(send.step(DeliveryEvent::Begin, info), DeliveryAction::Send(_)));
    match send.step(DeliveryEvent::Closed, info) {
        DeliveryAction::Return(Err(error)) => {
            assert_eq!(error.kind, SendErrorKind::Closed);
            assert_eq!(error.txn, wire());
        }
        other => panic!("{other:?}"),
    }
}

#[test]
fn send_goes_to_the_window() {
    let (sender, _rx) = build(Setup { fanout: 12, ..usual() });
    let mut send = sender.send_txn(SIG, wire().to_vec()).unwrap();
    assert_eq!(
        deliver(&mut send, sender.leader_tpu_info()),
        vec![key(1), key(2), key(3)]
    );
    let mut send = sender.send_txn_fanout_slots(SIG, wire().to_vec(), 8).unwrap();
    assert_eq!(deliver(&mut send, sender.leader_tpu_info()), vec![key(1), key(2)]);
}

#[test]
fn send_by_boundary_adds_the_next_leader_half_way() {
    for (slot, expected) in [
        (100, vec![key(1)]),
        (101, vec![key(1)]),
        (102, vec![key(1), key(2)]),
        (103, vec![key(1), key(2)]),
        (104, vec![key(2)]),
    ] {
        let (sender, _rx) = build(Setup { slot: Ok(slot), fanout: 0, ..usual() });
        assert!(sender.can_choose_leaders());
        let mut send = sender.send_txn(SIG, wire().to_vec()).unwrap();
        assert_eq!(deliver(&mut send, sender.leader_tpu_info()), expected);
    }
}

#[test]
fn send_without_a_known_leader_is_refused() {
    let (sender, _rx) = build(Setup { leaders: vec![], ..usual() });
    for error in [
        sender.send_txn(SIG, wire().to_vec()).err().unwrap(),
        sender
            .send_txn_with_blocklist(SIG, wire().to_vec(), Some(vec![key(1)]))
            .err()
            .unwrap(),
    ] {
        assert_eq!(error.kind, SendErrorKind::NoKnownLeader);
        assert_eq!(error.txn, wire());
    }
    let mut send = sender.send_txn_fanout_slots(SIG, wire().to_vec(), 8).unwrap();
    assert_eq!(deliver(&mut send, sender.leader_tpu_info()), Vec::<Pubkey>::new());
}

// Steps through a send whose first `taken` transactions the queue takes, before
// it is closed.
fn deliver_until_closed(
    send: &mut ManyDestSend,
    info: &LeaderTpuInfo,
    taken: usize,
) -> Result<(), SendError> {
    let mut event = DeliveryEvent::Begin;
    let mut handed_out = 0;
    loop {
        match send.step(event, info) {
            DeliveryAction::Send(_) => {
                handed_out += 1;
                event = if handed_out <= taken {
                    DeliveryEvent::Delivered
                } else {
                    DeliveryEvent::Closed
                };
            }
            DeliveryAction::Return(result) => return result,
        }
    }
}

#[test]
fn a_fanout_succeeds_once_one_send_is_taken() {
    for (fanout, slot) in [(0, 102), (8, 100)] {
        let (sender, _rx) = build(Setup { slot: Ok(slot), fanout, ..usual() });
        let info = sender.leader_tpu_info();
        for taken in 0..3 {
            let mut send = sender.send_txn(SIG, wire().to_vec()).unwrap();
            let result = deliver_until_closed(&mut send, info, taken);
            if taken == 0 {
                let error = result.unwrap_err();
                assert_eq!(error.kind, SendErrorKind::Closed);
                assert_eq!(error.txn, wire());
            } else {
                assert!(result.is_ok());
            }
        }
    }
}

#[test]
fn a_send_to_many_needs_all_sends_taken() {
    let (sender, _rx) = build(usual());
    let info = sender.leader_tpu_info();
    for taken in 0..3 {
        let mut send = sender.send_txn_many_dest(SIG, wire().to_vec(), &[key(1), key(2)]);
        assert_eq!(deliver_until_closed(&mut send, info, taken).is_ok(), taken == 2);
        let mut send = sender.send_txn_fanout_slots(SIG, wire().to_vec(), 8).unwrap();
        assert_eq!(deliver_until_closed(&mut send, info, taken).is_ok(), taken == 2);
    }
}

#[test]
fn destinations_are_chosen_past_the_blocked() {
    let (sender, _rx) = build(Setup { fanout: 12, ..usual() });
    assert_eq!(
        sender.choose_destinations(Some(&NoBlocklist)),
        Ok(vec![key(1), key(2), key(3)])
    );
    assert_eq!(
        sender.choose_destinations(Some(&vec![key(1), key(3)])),
        Ok(vec![key(2)])
    );
    assert_eq!(
        sender.choose_destinations(Some(&vec![key(1), key(2), key(3)])),
        Err(SendErrorKind::RemotePeerBlocked)
    );
}

#[test]
fn send_errors_carry_the_transaction() {
    for fanout in [0, 8] {
        let (sender, _rx) = build(Setup { slot: Err(PoisonError), fanout, ..usual() });
        let error = sender.send_txn(SIG, wire().to_vec()).err().unwrap();
        assert_eq!(error.kind, SendErrorKind::SlotTrackerDisconnected);
        assert_eq!(error.txn, wire());
        let (mut sender, _rx) = build(Setup { fanout, ..usual() });
        let mut stopped = ManagedLeaderSchedule::new();
        stopped.poison();
        sender.set_leader_schedule(stopped);
        let error = sender.send_txn(SIG, wire().to_vec()).err().unwrap();
        assert_eq!(error.kind, SendErrorKind::ManagedLeaderScheduleDisconnected);
        assert_eq!(error.txn, wire());
        let error = sender.send_txn_fanout_slots(SIG, wire().to_vec(), 8).err().unwrap();
        assert_eq!(error.kind, SendErrorKind::ManagedLeaderScheduleDisconnected);
    }
}

#[test]
fn blocked_leaders_are_not_sent_to() {
    let (sender, _rx) = build(Setup { fanout: 12, ..usual() });
    let mut send = sender
        .send_txn_with_blocklist(SIG, wire().to_vec(), Some(vec![key(2)]))
        .unwrap();
    assert_eq!(deliver(&mut send, sender.leader_tpu_info()), vec![key(1), key(3)]);
    let mut send = sender
        .send_txn_with_blocklist::<NoBlocklist>(SIG, wire().to_vec(), None)
        .unwrap();
    assert_eq!(
        deliver(&mut send, sender.leader_tpu_info()),
        vec![key(1), key(2), key(3)]
    );
}

#[test]
fn a_send_to_blocked_leaders_only_is_refused() {
    for fanout in [0, 12] {
        let leaders = vec![(100, 1), (102, 1), (104, 2), (106, 2), (108, 3), (110, 3)];
        let (sender, _rx) = build(Setup { slot: Ok(102), fanout, leaders, ..usual() });
        let everybody = vec![key(1), key(2), key(3)];
        let error = sender
            .send_txn_with_blocklist(SIG, wire().to_vec(), Some(everybody))
            .err()
            .unwrap();
        assert_eq!(error.kind, SendErrorKind::RemotePeerBlocked);
        assert_eq!(error.txn, wire());
    }
}

#[test]
fn a_send_is_refused_as_blocked_wherever_the_blocked_leaders_are() {
    let leaders = vec![(101, 1), (102, 1), (103, 1)];
    let (sender, _rx) = build(Setup { leaders, ..usual() });
    let error = sender
        .send_txn_with_blocklist(SIG, wire().to_vec(), Some(vec![key(1)]))
        .err()
        .unwrap();
    assert_eq!(error.kind, SendErrorKind::RemotePeerBlocked);
}

#[test]
fn every_kind_of_blocklist() {
    let hash: HashSet<Pubkey> = [key(1)].into_iter().collect();
    assert!(hash.is_blocked(&key(1)));
    assert!(!hash.is_blocked(&key(2)));
    let tree: BTreeSet<Pubkey> = [key(1), key(3)].into_iter().collect();
    assert!(tree.is_blocked(&key(3)));
    assert!(!tree.is_blocked(&key(2)));
    let entries: HashMap<Pubkey, &str> = [(key(1), "why")].into_iter().collect();
    assert!(entries.is_blocked(&key(1)));
    assert!(!entries.is_blocked(&key(2)));
    let list = vec![key(1), key(4)];
    assert!(list.is_blocked(&key(4)));
    assert!(!list.is_blocked(&key(2)));
    let slice: &[Pubkey] = &list;
    assert!(slice.is_blocked(&key(1)));
    assert!(!slice.is_blocked(&key(2)));
    assert!(!NoBlocklist.is_blocked(&key(1)));
}

#[test]
fn shield_policies() {
    let answer = |policies: &[u8], peer: u8, allowed: bool| PolicyAnswer {
        policies: policies.iter().map(|n| key(*n)).collect(),
        peer: key(peer),
        allowed,
    };
    let store = PolicySnapshot::new(vec![
        answer(&[50], 1, true),
        answer(&[50], 2, false),
        answer(&[50, 51], 1, false),
        answer(&[50], 1, false),
    ]);
    assert_eq!(store.is_allowed(&[key(50)], &key(1)), Some(true));
    assert_eq!(store.is_allowed(&[key(50)], &key(2)), Some(false));
    assert_eq!(store.is_allowed(&[key(50), key(51)], &key(1)), Some(false));
    assert_eq!(store.is_allowed(&[key(51)], &key(1)), None);
    let policies = [key(50)];
    for in_doubt in [true, false] {
        let shield = ShieldBlockList {
            policy_store: &store,
            shield_policy_addresses: &policies,
            default_return_value: in_doubt,
        };
        assert!(!shield.is_blocked(&key(1)));
        assert!(shield.is_blocked(&key(2)));
        assert_eq!(shield.is_blocked(&key(3)), !in_doubt);
        let (sender, _rx) = build(Setup { fanout: 12, ..usual() });
        let mut send = sender
            .send_txn_with_shield_policies(SIG, wire().to_vec(), shield)
            .unwrap();
        let expected = if in_doubt { vec![key(1), key(3)] } else { vec![key(1)] };
        assert_eq!(deliver(&mut send, sender.leader_tpu_info()), expected);
    }
}

#[test]
fn the_default_config() {
    let config: YellowstoneTpuSenderConfig<u8, u16, u32, bool> = Default::default();
    assert_eq!(config.channel_capacity, DEFAULT_TPU_SENDER_CHANNEL_CAPACITY);
    assert_eq!(DEFAULT_TPU_SENDER_CHANNEL_CAPACITY, 100_000);
    assert_eq!(FAST_SEND_MAX_LEADERS, 2);
    assert_eq!((config.tpu, config.tpu_info, config.schedule, config.stake), (0, 0, 0, false));
}
