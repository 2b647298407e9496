use tpu_sender::each_slot::{EachSlotRun, RunAction, RunEvent};
use tpu_sender::overseer::{dependency_names, task_report, Report, TaskEnd};
use tpu_sender::stats::{log_summary, BatchTally, RunStats, TpuSenderResponse};
use tpu_sender::status::{
    landing_of, queue_status_batch, tally_batch, BatchReport, ConfirmationStatus, Landing,
    SentSignature, SignatureStatus, StatusAction, StatusBatch, StatusBatchCheck, StatusClients,
    StatusEvent,
};
use tpu_sender::types::SocketAddr;

const ADDR: SocketAddr = SocketAddr::V4 { ipv4: 1, port: 2 };

fn sent(slot: u64) -> SentSignature {
    SentSignature { slot, signature: [slot as u8; 64] }
}

fn status(
    confirmations: Option<usize>,
    confirmation_status: Option<ConfirmationStatus>,
    err: Option<&str>,
) -> Option<SignatureStatus> {
    Some(SignatureStatus {
        slot: 5,
        confirmations,
        confirmation_status,
        err: err.map(|e| e.to_string()),
    })
}

fn failed(reason: &str) -> TpuSenderResponse {
    TpuSenderResponse::TxFailed {
        tx_sig: [0; 64],
        remote_peer_identity: [1; 32],
        remote_peer_addr: ADDR,
        failure_reason: reason.to_string(),
    }
}

#[test]
fn wire_reports_are_counted() {
    let mut stats = RunStats::default();
    stats.record_response(&TpuSenderResponse::TxSent {
        tx_sig: [0; 64],
        remote_peer_identity: [1; 32],
        remote_peer_addr: ADDR,
    });
    stats.record_response(&failed("connection lost"));
    stats.record_response(&failed("closed by peer: disallowed"));
    stats.record_response(&TpuSenderResponse::TxDrop {
        remote_peer_identity: [1; 32],
        drop_reason: "evicted".to_string(),
        dropped_tx_vec: vec![([0; 64], 1), ([1; 64], 2), ([2; 64], 1)],
    });
    assert_eq!(
        stats,
        RunStats {
            wire_sent: 1,
            wire_failed: 2,
            wire_disallowed: 1,
            wire_dropped: 3,
            ..RunStats::default()
        }
    );
    assert!(stats.wire_disallowed <= stats.wire_failed);
}

#[test]
fn counters_wrap_around() {
    let mut stats = RunStats { scheduled: u64::MAX, ..RunStats::default() };
    stats.record_scheduled();
    assert_eq!(stats.scheduled, 0);
}

#[test]
fn the_summary_line() {
    let stats = RunStats {
        scheduled: 10,
        wire_sent: 20,
        wire_failed: 3,
        wire_disallowed: 1,
        wire_dropped: 2,
        status_batches: 4,
        status_checked: 9,
        status_landed: 5,
        status_landed_with_error: 1,
        status_unconfirmed: 2,
        status_missing: 6,
        status_rpc_errors: 7,
    };
    assert_eq!(
        log_summary(&stats, "50.00"),
        "SUMMARY scheduled=10, checked=9, landed=5, landed_with_error=1, landing_pct=50.00, \
         missing=6, unconfirmed=2, status_batches=4, status_rpc_errors=7, wire_sent=20, \
         wire_failed=3, wire_disallowed=1, wire_dropped=2"
    );
    assert_eq!(stats.landing_fraction(), Some((5, 10)));
    assert_eq!(RunStats::default().landing_fraction(), None);
}

#[test]
fn what_a_status_says() {
    let processed = Some(ConfirmationStatus::Processed);
    let confirmed = Some(ConfirmationStatus::Confirmed);
    let finalized = Some(ConfirmationStatus::Finalized);
    assert_eq!(landing_of(&None), Landing::Missing);
    assert_eq!(landing_of(&status(Some(0), processed, None)), Landing::Unconfirmed);
    assert_eq!(landing_of(&status(None, processed, Some("e"))), Landing::Unconfirmed);
    assert_eq!(landing_of(&status(Some(0), confirmed, None)), Landing::Landed);
    assert_eq!(landing_of(&status(None, finalized, None)), Landing::Landed);
    assert_eq!(landing_of(&status(Some(3), confirmed, Some("e"))), Landing::LandedWithError);
}

#[test]
fn statuses_of_older_nodes_go_by_their_block_count() {
    assert_eq!(landing_of(&status(None, None, None)), Landing::Landed);
    assert_eq!(landing_of(&status(Some(2), None, None)), Landing::Landed);
    assert_eq!(landing_of(&status(Some(1), None, None)), Landing::Unconfirmed);
    assert_eq!(landing_of(&status(Some(0), None, Some("e"))), Landing::Unconfirmed);
}

#[test]
fn batches_are_tallied() {
    let confirmed = Some(ConfirmationStatus::Confirmed);
    let statuses = vec![
        status(Some(1), confirmed, None),
        None,
        status(Some(1), confirmed, Some("e")),
        status(Some(1), Some(ConfirmationStatus::Processed), None),
        status(Some(1), confirmed, None),
    ];
    let batch: Vec<SentSignature> = (1..=5).map(sent).collect();
    let tally = tally_batch(&batch, &statuses);
    assert_eq!(
        tally,
        BatchTally { landed: 2, landed_with_error: 1, unconfirmed: 1, missing: 1 }
    );
    assert_eq!(
        tally.landed + tally.landed_with_error + tally.unconfirmed + tally.missing,
        batch.len() as u64
    );
}

#[test]
fn a_tally_stops_with_the_shorter_list() {
    let batch: Vec<SentSignature> = (1..=2).map(sent).collect();
    let none: [Option<SignatureStatus>; 3] = [None, None, None];
    assert_eq!(tally_batch(&batch, &none).missing, 2);
    assert_eq!(tally_batch(&batch, &none[..1]).missing, 1);
    assert_eq!(tally_batch(&[], &none).missing, 0);
}

#[test]
fn clients_take_turns() {
    let mut clients = StatusClients::new(vec!["a", "b", "c"]);
    assert_eq!(clients.len(), 3);
    let turns: Vec<&str> = (0..7).map(|_| *clients.next()).collect();
    assert_eq!(turns, vec!["a", "b", "c", "a", "b", "c", "a"]);
}

fn check(client_count: usize) -> StatusBatchCheck {
    let batch = StatusBatch { batch_id: 4, batch: vec![sent(1), sent(2)] };
    StatusBatchCheck::new(batch, client_count)
}

#[test]
fn a_batch_check_ends_with_the_first_answer() {
    let mut stats = RunStats::default();
    let mut check = check(3);
    assert_eq!(check.batch_id(), 4);
    assert_eq!(check.signatures(), vec![[1; 64], [2; 64]]);
    assert_eq!(check.entries()[1].slot, 2);
    assert_eq!(check.step(StatusEvent::Begin, &mut stats), StatusAction::Query);
    assert_eq!(check.step(StatusEvent::Failed, &mut stats), StatusAction::Query);
    assert_eq!(stats, RunStats::default());
    let answer = vec![status(None, None, None), None];
    let tally = BatchTally { landed: 1, landed_with_error: 0, unconfirmed: 0, missing: 1 };
    assert_eq!(
        check.step(StatusEvent::Answered(answer), &mut stats),
        StatusAction::Done(BatchReport::Checked(tally))
    );
    assert_eq!(
        stats,
        RunStats {
            status_batches: 1,
            status_checked: 2,
            status_landed: 1,
            status_missing: 1,
            ..RunStats::default()
        }
    );
}

#[test]
fn a_batch_check_asks_every_client_once() {
    let mut stats = RunStats::default();
    let mut check = check(2);
    assert_eq!(check.step(StatusEvent::Begin, &mut stats), StatusAction::Query);
    assert_eq!(check.step(StatusEvent::Failed, &mut stats), StatusAction::Query);
    assert_eq!(
        check.step(StatusEvent::Failed, &mut stats),
        StatusAction::Done(BatchReport::Unknown)
    );
    assert_eq!(stats, RunStats { status_rpc_errors: 1, ..RunStats::default() });
}

#[test]
fn a_short_answer_still_counts_the_whole_batch_as_checked() {
    let mut stats = RunStats::default();
    let mut check = check(1);
    check.step(StatusEvent::Begin, &mut stats);
    check.step(StatusEvent::Answered(vec![None]), &mut stats);
    assert_eq!((stats.status_checked, stats.status_missing), (2, 1));
}

#[test]
fn batches_are_numbered() {
    let mut id = 1;
    let mut pending = Vec::new();
    assert!(queue_status_batch(&mut id, &mut pending).is_none());
    assert_eq!(id, 1);
    pending.push(sent(3));
    let batch = queue_status_batch(&mut id, &mut pending).unwrap();
    assert_eq!((batch.batch_id, batch.batch.len(), batch.batch[0].slot), (1, 1, 3));
    assert_eq!(id, 2);
    assert!(pending.is_empty());
}

// Plays a run: `ticks` are the slots that the ledger reports, and sends for the
// slots in `failing` fail.
fn play(
    start: u64,
    limit: Option<u64>,
    batch_size: usize,
    ticks: &[u64],
    failing: &[u64],
) -> (Vec<u64>, Vec<(u64, Vec<u64>)>, RunStats, bool) {
    let mut run = EachSlotRun::new(start, limit, batch_size);
    let mut stats = RunStats::default();
    let mut slots = Vec::new();
    let mut queued = Vec::new();
    let mut finished = false;
    'ticks: for tick in ticks {
        let mut event = RunEvent::Tick(*tick);
        loop {
            let (batch, action) = run.step(event, &mut stats);
            if let Some(batch) = batch {
                queued.push((batch.batch_id, batch.batch.iter().map(|e| e.slot).collect()));
            }
            match action {
                RunAction::Wait => break,
                RunAction::SendFor(slot) => {
                    slots.push(slot);
                    event = if failing.contains(&slot) {
                        RunEvent::SendFailed
                    } else {
                        RunEvent::Sent([slot as u8; 64])
                    };
                }
                RunAction::Finish => {
                    finished = true;
                    break 'ticks;
                }
            }
        }
    }
    if !finished {
        let (batch, action) = run.step(RunEvent::Stop, &mut stats);
        assert_eq!(action, RunAction::Finish);
        if let Some(batch) = batch {
            queued.push((batch.batch_id, batch.batch.iter().map(|e| e.slot).collect()));
        }
    }
    assert_eq!(run.sent_count(), stats.scheduled);
    assert_eq!(run.next_batch_id(), queued.len() as u64 + 1);
    (slots, queued, stats, finished)
}

#[test]
fn a_run_sends_for_every_slot_once() {
    let (slots, queued, stats, finished) = play(10, None, 100, &[10, 11, 9, 11, 14], &[]);
    assert_eq!(slots, vec![11, 12, 13, 14]);
    assert_eq!(queued, vec![(1, vec![11, 12, 13, 14])]);
    assert_eq!(stats.scheduled, 4);
    assert!(!finished);
}

#[test]
fn a_run_goes_on_after_a_failed_send() {
    let (slots, queued, stats, _) = play(10, None, 2, &[15], &[12]);
    assert_eq!(slots, vec![11, 12, 13, 14, 15]);
    assert_eq!(queued, vec![(1, vec![11, 13]), (2, vec![14, 15])]);
    assert_eq!(stats.scheduled, 4);
}

#[test]
fn a_run_stops_at_its_limit_when_another_slot_comes() {
    let (slots, queued, _, finished) = play(10, Some(2), 100, &[12], &[]);
    assert_eq!((slots, finished), (vec![11, 12], false));
    assert_eq!(queued, vec![(1, vec![11, 12])]);
    let (slots, _, _, finished) = play(10, Some(2), 100, &[12, 13], &[]);
    assert_eq!((slots, finished), (vec![11, 12], true));
    let (slots, _, stats, finished) = play(10, Some(2), 100, &[20], &[11]);
    assert_eq!((slots, finished), (vec![11, 12, 13], true));
    assert_eq!(stats.scheduled, 2);
    let (slots, queued, _, finished) = play(10, Some(0), 100, &[20], &[]);
    assert_eq!((slots, queued, finished), (vec![], vec![], true));
}

#[test]
fn a_run_queues_what_is_left() {
    let (_, queued, _, _) = play(0, None, 3, &[7], &[]);
    assert_eq!(queued, vec![(1, vec![1, 2, 3]), (2, vec![4, 5, 6]), (3, vec![7])]);
    let (_, queued, _, _) = play(0, Some(5), 2, &[20], &[]);
    assert_eq!(queued, vec![(1, vec![1, 2]), (2, vec![3, 4]), (3, vec![5])]);
}

#[test]
fn ended_tasks_are_reported() {
    let names = dependency_names();
    assert_eq!(
        names,
        vec!["tpu-info-service", "managed-leader-schedule", "stake-info-service", "slot-tracker"]
    );
    match task_report(&names, 3, TaskEnd::Failed("Err(JoinError)")) {
        Report::Error(text) => assert_eq!(
            text,
            "Yellowstone TPU sender dependency task 'slot-tracker' has failed with Err(JoinError)"
        ),
        other => panic!("{other:?}"),
    }
    match task_report(&names, 0, TaskEnd::Finished) {
        Report::Warn(text) => assert_eq!(
            text,
            "Yellowstone TPU sender dependency task 'tpu-info-service' has finished"
        ),
        other => panic!("{other:?}"),
    }
    match task_report(&names, 4, TaskEnd::Finished) {
        Report::Warn(text) => assert_eq!(
            text,
            "Yellowstone TPU sender dependency task 'unknown' has finished"
        ),
        other => panic!("{other:?}"),
    }
}
