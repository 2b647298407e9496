use tokio::sync::mpsc;
use tpu_sender::blocklist::NoBlocklist;
use tpu_sender::channel::TpuSender;
use tpu_sender::config::TpuSenderConfig;
use tpu_sender::error::SendErrorKind;
use tpu_sender::schedule::ManagedLeaderSchedule;
use tpu_sender::sender::YellowstoneTpuSender;
use tpu_sender::slot::{PoisonError, SlotTracker};
use tpu_sender::tpu_info::{LeaderTpuInfo, TpuContact};
use tpu_sender::types::{Pubkey, SocketAddr, TpuPortKind};

fn key(n: u8) -> Pubkey {
    let mut bytes = [0; 32];
    bytes[31] = n;
    bytes
}

fn schedule(entries: &[(u64, u8)]) -> ManagedLeaderSchedule {
    let mut schedule = ManagedLeaderSchedule::new();
    for (slot, leader) in entries {
        schedule.assign(*slot, key(*leader));
    }
    schedule
}

fn sender_at(
    slot: Result<u64, PoisonError>,
    leaders: ManagedLeaderSchedule,
    fanout: u64,
) -> YellowstoneTpuSender {
    let (tx, _rx) = mpsc::channel(8);
    let tpu = TpuSenderConfig {
        num_endpoints: 1,
        max_send_attempt: 1,
        leader_prediction_lookahead: None,
        tpu_port: TpuPortKind::Normal,
        send_fanout_slots: fanout,
    };
    YellowstoneTpuSender::new(
        TpuSender::new(tx),
        &tpu,
        SlotTracker::new(slot),
        leaders,
        LeaderTpuInfo::new(),
    )
}

fn fast(sender: &YellowstoneTpuSender, fanout: u64) -> Result<Vec<Pubkey>, SendErrorKind> {
    let mut buffer = [key(200), key(201)];
    let len = sender.fill_fast_fanout_leaders(fanout, &mut buffer)?;
    for (i, k) in buffer.iter().enumerate().skip(len) {
        assert_eq!(*k, key(200 + i as u8));
    }
    Ok(buffer[..len].to_vec())
}

#[test]
fn current_slot_is_the_last_reading() {
    let mut sender = sender_at(Ok(77), schedule(&[]), 8);
    assert_eq!(sender.current_slot(), Ok(77));
    sender.set_slot(SlotTracker::new(Ok(78)));
    assert_eq!(sender.current_slot(), Ok(78));
    sender.set_slot(SlotTracker::new(Err(PoisonError)));
    assert_eq!(sender.current_slot(), Err(PoisonError));
}

#[test]
fn fast_leaders_are_the_current_and_the_next_leader() {
    let sender = sender_at(Ok(100), schedule(&[(100, 1), (104, 2), (108, 3)]), 8);
    assert_eq!(fast(&sender, 8), Ok(vec![key(1), key(2)]));
    assert_eq!(fast(&sender, 5), Ok(vec![key(1), key(2)]));
    assert_eq!(fast(&sender, 4), Ok(vec![key(1)]));
    assert_eq!(fast(&sender, 1), Ok(vec![key(1)]));
    assert_eq!(fast(&sender, 0), Ok(vec![key(1)]));
    assert_eq!(fast(&sender, 100), Ok(vec![key(1), key(2)]));
}

#[test]
fn fast_leaders_step_over_repeated_and_unknown_leaders() {
    let sender = sender_at(Ok(100), schedule(&[(100, 1), (104, 1), (112, 3), (116, 4)]), 8);
    assert_eq!(fast(&sender, 8), Ok(vec![key(1)]));
    assert_eq!(fast(&sender, 12), Ok(vec![key(1)]));
    assert_eq!(fast(&sender, 13), Ok(vec![key(1), key(3)]));
}

#[test]
fn fast_leaders_are_looked_up_from_the_current_slot_on() {
    let sender = sender_at(Ok(101), schedule(&[(100, 1), (101, 2), (104, 3), (105, 4)]), 8);
    assert_eq!(fast(&sender, 8), Ok(vec![key(2), key(3)]));
    assert_eq!(fast(&sender, 3), Ok(vec![key(2)]));
    assert_eq!(fast(&sender, 4), Ok(vec![key(2), key(3)]));
}

#[test]
fn fast_leaders_without_a_schedule_or_a_slot() {
    let empty = sender_at(Ok(100), schedule(&[]), 8);
    assert_eq!(fast(&empty, 8), Ok(vec![]));
    let mut stopped = schedule(&[(100, 1)]);
    stopped.poison();
    let sender = sender_at(Ok(100), stopped, 8);
    assert_eq!(fast(&sender, 8), Err(SendErrorKind::ManagedLeaderScheduleDisconnected));
    let sender = sender_at(Err(PoisonError), schedule(&[(100, 1)]), 8);
    assert_eq!(fast(&sender, 8), Err(SendErrorKind::SlotTrackerDisconnected));
}

#[test]
fn fast_leaders_at_the_end_of_the_slot_numbers() {
    let last = u64::MAX - 2;
    let sender = sender_at(Ok(last), schedule(&[(last, 1)]), 8);
    assert_eq!(fast(&sender, 8), Ok(vec![key(1)]));
    let mut stopped = schedule(&[(u64::MAX, 1)]);
    stopped.poison();
    let sender = sender_at(Ok(u64::MAX), stopped, 8);
    assert_eq!(fast(&sender, 8), Ok(vec![]));
}

#[test]
fn upcoming_leaders_of_a_window() {
    let leaders = schedule(&[(100, 1), (104, 2), (108, 1), (112, 3), (116, 4)]);
    let sender = sender_at(Ok(100), leaders, 8);
    assert_eq!(
        sender.upcoming_leaders_for_fanout_slots(16),
        Ok(vec![key(1), key(2), key(3)])
    );
    assert_eq!(sender.upcoming_leaders_for_fanout_slots(0), Ok(vec![key(1)]));
    assert_eq!(
        sender.upcoming_leaders_for_fanout_slots(17),
        Ok(vec![key(1), key(2), key(3), key(4)])
    );
    assert_eq!(
        sender.upcoming_leaders_for_fanout_slots(400),
        Ok(vec![key(1), key(2), key(3), key(4)])
    );
}

#[test]
fn upcoming_leaders_count_the_blocked_slots() {
    let leaders = schedule(&[(100, 1), (104, 2), (108, 1), (112, 3)]);
    let sender = sender_at(Ok(100), leaders, 8);
    assert_eq!(
        sender.upcoming_leaders_for_fanout_slots_with_blocklist(16, Some(&vec![key(1)])),
        Ok((vec![key(2), key(3)], 2))
    );
    assert_eq!(
        sender.upcoming_leaders_for_fanout_slots_with_blocklist(16, Some(&NoBlocklist)),
        Ok((vec![key(1), key(2), key(3)], 0))
    );
    assert_eq!(
        sender.upcoming_leaders_for_fanout_slots_with_blocklist::<NoBlocklist>(16, None),
        Ok((vec![key(1), key(2), key(3)], 0))
    );
}

#[test]
fn blocked_leaders_are_counted_once_per_step_of_four() {
    let every_slot: Vec<(u64, u8)> = (100..116u64)
        .map(|slot| (slot, [1, 2, 1, 3][(slot as usize - 100) / 4]))
        .collect();
    let sender = sender_at(Ok(100), schedule(&every_slot), 8);
    assert_eq!(
        sender.upcoming_leaders_for_fanout_slots_with_blocklist(16, Some(&vec![key(1)])),
        Ok((vec![key(2), key(3)], 2))
    );
    let blocklist = vec![key(1), key(2)];
    for (fanout, count) in [(0, 1), (1, 1), (4, 1), (5, 2), (8, 2), (9, 3), (12, 3), (13, 3)] {
        let (leaders, blocked_count) = sender
            .upcoming_leaders_for_fanout_slots_with_blocklist(fanout, Some(&blocklist))
            .unwrap();
        assert_eq!(blocked_count, count);
        assert!(leaders.len() + blocked_count <= (fanout.max(1) as usize).div_ceil(4));
    }
    let late = sender_at(Ok(103), schedule(&every_slot), 8);
    assert_eq!(
        late.upcoming_leaders_for_fanout_slots_with_blocklist(2, Some(&vec![key(2)])),
        Ok((vec![key(1)], 0))
    );
    assert_eq!(
        late.upcoming_leaders_for_fanout_slots_with_blocklist(2, Some(&vec![key(1)])),
        Ok((vec![key(2)], 1))
    );
}

#[test]
fn upcoming_leaders_of_stopped_services() {
    let mut stopped = schedule(&[(100, 1)]);
    stopped.poison();
    let sender = sender_at(Ok(100), stopped, 8);
    assert_eq!(
        sender.upcoming_leaders_for_fanout_slots(8),
        Err(SendErrorKind::ManagedLeaderScheduleDisconnected)
    );
    let sender = sender_at(Err(PoisonError), schedule(&[(100, 1)]), 8);
    assert_eq!(
        sender.upcoming_leaders_for_fanout_slots(8),
        Err(SendErrorKind::SlotTrackerDisconnected)
    );
}

#[test]
fn fast_leaders_lead_the_upcoming_ones() {
    let leaders = schedule(&[(40, 9), (44, 9), (48, 5), (56, 6), (60, 9)]);
    let sender = sender_at(Ok(40), leaders, 8);
    for fanout in 0..40 {
        let all = sender.upcoming_leaders_for_fanout_slots(fanout).unwrap();
        let two: Vec<Pubkey> = all.into_iter().take(2).collect();
        assert_eq!(fast(&sender, fanout), Ok(two));
    }
}

#[test]
fn windows_that_cannot_be_numbered() {
    let sender = sender_at(Ok(u64::MAX - 8), schedule(&[]), 8);
    assert!(sender.fits_window(8));
    assert!(!sender.fits_window(9));
    let sender = sender_at(Ok(u64::MAX), schedule(&[]), 8);
    assert!(!sender.fits_window(0));
    let sender = sender_at(Err(PoisonError), schedule(&[]), 8);
    assert!(sender.fits_window(u64::MAX));
}

#[test]
fn leaders_that_can_be_chosen() {
    assert!(sender_at(Ok(100), schedule(&[]), 8).can_choose_leaders());
    assert!(!sender_at(Ok(100), schedule(&[]), 0).can_choose_leaders());
    assert!(sender_at(Ok(101), schedule(&[(100, 1)]), 0).can_choose_leaders());
    assert!(!sender_at(Ok(102), schedule(&[(100, 1)]), 0).can_choose_leaders());
    assert!(sender_at(Ok(102), schedule(&[(100, 1), (104, 2)]), 0).can_choose_leaders());
    assert!(!sender_at(Ok(u64::MAX), schedule(&[(u64::MAX - 3, 1)]), 0).can_choose_leaders());
    let mut stopped = schedule(&[]);
    stopped.poison();
    assert!(sender_at(Ok(102), stopped, 0).can_choose_leaders());
    assert!(sender_at(Err(PoisonError), schedule(&[]), 0).can_choose_leaders());
}

#[test]
fn schedules_and_sockets_are_replaced() {
    let mut sender = sender_at(Ok(100), schedule(&[(100, 1)]), 8);
    sender.set_leader_schedule(schedule(&[(100, 2)]));
    assert_eq!(fast(&sender, 1), Ok(vec![key(2)]));
    let addr = SocketAddr::V4 { ipv4: 0x7f00_0001, port: 8009 };
    let other = SocketAddr::V6 { ipv6: 1, port: 9, flowinfo: 0, scope_id: 0 };
    let mut info = LeaderTpuInfo::new();
    info.announce(TpuContact { peer: key(2), normal: Some(addr), forwards: None });
    sender.set_leader_tpu_info(info);
    let info = sender.leader_tpu_info();
    assert_eq!(info.get_quic_dest_addr(&key(2), TpuPortKind::Normal), Some(addr));
    assert_eq!(info.get_quic_dest_addr(&key(2), TpuPortKind::Forwards), None);
    assert_eq!(info.get_quic_dest_addr(&key(3), TpuPortKind::Normal), None);
    let mut newer = info.clone();
    newer.announce(TpuContact { peer: key(2), normal: None, forwards: Some(other) });
    assert_eq!(newer.get_quic_dest_addr(&key(2), TpuPortKind::Normal), None);
    assert_eq!(newer.get_quic_dest_addr(&key(2), TpuPortKind::Forwards), Some(other));
    assert_eq!(info.get_quic_dest_addr(&key(2), TpuPortKind::Normal), Some(addr));
}

#[test]
fn a_clone_chooses_like_its_sender() {
    let sender = sender_at(Ok(100), schedule(&[(100, 1), (104, 2)]), 8);
    let copy = sender.clone();
    assert_eq!(copy.current_slot(), Ok(100));
    assert_eq!(fast(&copy, 8), fast(&sender, 8));
    assert_eq!(
        copy.upcoming_leaders_for_fanout_slots(8),
        sender.upcoming_leaders_for_fanout_slots(8)
    );
}

#[test]
fn a_window_misses_no_leader() {
    let by_fours: Vec<(u64, u8)> = (100..140).map(|slot| (slot, (slot / 4) as u8)).collect();
    for slot in 100..104u64 {
        let sender = sender_at(Ok(slot), schedule(&by_fours), 8);
        for fanout in 1..30u64 {
            let listed = sender.upcoming_leaders_for_fanout_slots(fanout).unwrap();
            let mut wanted: Vec<Pubkey> =
                (slot..slot + fanout).map(|s| key((s / 4) as u8)).collect();
            wanted.dedup();
            assert_eq!(listed, wanted);
            wanted.truncate(2);
            assert_eq!(fast(&sender, fanout), Ok(wanted));
        }
    }
}

#[test]
fn a_window_that_starts_late_in_a_leaders_slots() {
    let leaders: Vec<(u64, u8)> = (0..12).map(|slot| (slot, 1 + (slot / 4) as u8)).collect();
    let sender = sender_at(Ok(3), schedule(&leaders), 8);
    assert_eq!(
        sender.upcoming_leaders_for_fanout_slots(8),
        Ok(vec![key(1), key(2), key(3)])
    );
    assert_eq!(fast(&sender, 2), Ok(vec![key(1), key(2)]));
}

#[test]
fn slots_without_a_known_leader() {
    let mut sender = sender_at(Ok(100), schedule(&[(100, 1), (102, 2), (104, 3)]), 8);
    assert_eq!(sender.unknown_leader_slots(6), vec![101, 103, 105]);
    assert_eq!(sender.unknown_leader_slots(0), Vec::<u64>::new());
    let mut stopped = schedule(&[]);
    stopped.poison();
    sender.set_leader_schedule(stopped);
    assert_eq!(sender.unknown_leader_slots(6), Vec::<u64>::new());
    sender.set_slot(SlotTracker::new(Err(PoisonError)));
    assert_eq!(sender.unknown_leader_slots(6), Vec::<u64>::new());
}

#[test]
fn an_empty_blocklist_blocks_nobody() {
    let sender = sender_at(Ok(100), schedule(&[(100, 1), (104, 2)]), 8);
    assert_eq!(
        sender.upcoming_leaders_for_fanout_slots_with_blocklist(8, Some(&Vec::<Pubkey>::new())),
        sender.upcoming_leaders_for_fanout_slots_with_blocklist(8, Some(&NoBlocklist))
    );
}
