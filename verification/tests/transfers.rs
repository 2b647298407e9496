use bytes::Bytes;
use solana_keypair::Keypair;
use solana_signer::Signer;
use solana_transaction::versioned::VersionedTransaction;
use tokio::sync::mpsc;
use tpu_sender::channel::TpuSender;
use tpu_sender::config::TpuSenderConfig;
use tpu_sender::error::SendErrorKind;
use tpu_sender::many_dest::{DeliveryAction, DeliveryEvent};
use tpu_sender::schedule::ManagedLeaderSchedule;
use tpu_sender::sender::YellowstoneTpuSender;
use tpu_sender::slot::SlotTracker;
use tpu_sender::tpu_info::LeaderTpuInfo;
use tpu_sender::transfer::{
    can_send_lamports, route_transfer, send_lamports, sign_transfer, transfer_instruction,
    TransferSend,
};
use tpu_sender::types::{Pubkey, TpuPortKind};

const BLOCKHASH: [u8; 32] = [5; 32];

fn sender(slots: &[(u64, u8)], fanout: u64) -> YellowstoneTpuSender {
    let (tx, _rx) = mpsc::channel(8);
    let mut schedule = ManagedLeaderSchedule::new();
    for (slot, leader) in slots {
        schedule.assign(*slot, [*leader; 32]);
    }
    let tpu = TpuSenderConfig {
        num_endpoints: 1,
        max_send_attempt: 1,
        leader_prediction_lookahead: None,
        tpu_port: TpuPortKind::Normal,
        send_fanout_slots: fanout,
    };
    YellowstoneTpuSender::new(
        TpuSender::new(tx),
        &tpu,
        SlotTracker::new(Ok(100)),
        schedule,
        LeaderTpuInfo::new(),
    )
}

fn first_wire(send: TransferSend, sender: &YellowstoneTpuSender) -> (Bytes, Option<Pubkey>) {
    match send {
        TransferSend::Direct(send) => (send.wire_transaction(), None),
        TransferSend::Queued(mut send) => {
            match send.step(DeliveryEvent::Begin, sender.leader_tpu_info()) {
                DeliveryAction::Send(txn) => (txn.wire, Some(txn.remote_peer)),
                other => panic!("{other:?}"),
            }
        }
    }
}

#[test]
fn a_transfer_is_signed_and_serialized() {
    let identity = Keypair::new_from_array([7; 32]);
    let sender = sender(&[(100, 1)], 8);
    let (signature, send) =
        send_lamports(&sender, &identity.to_bytes(), &[3; 32], 1456, &BLOCKHASH, 8, true)
            .unwrap()
            .unwrap();
    let (wire, _) = first_wire(send, &sender);
    assert_eq!(wire[0], 1);
    assert_eq!(&wire[1..65], &signature);
    let transaction: VersionedTransaction = bincode::deserialize(&wire).unwrap();
    assert_eq!(transaction.signatures.len(), 1);
    assert_eq!(transaction.signatures[0].as_ref(), &signature);
    let message = &transaction.message;
    assert_eq!(message.recent_blockhash().to_bytes(), BLOCKHASH);
    let keys = message.static_account_keys();
    assert_eq!(keys.len(), 3);
    assert_eq!(keys[0], identity.pubkey());
    assert_eq!(keys[1].to_bytes(), [3; 32]);
    assert_eq!(keys[2].to_bytes(), [0; 32]);
    let instruction = &message.instructions()[0];
    let mut data = vec![2u8, 0, 0, 0];
    data.extend_from_slice(&1456u64.to_le_bytes());
    assert_eq!(instruction.data, data);
    assert_eq!(instruction.accounts, vec![0, 1]);
    let signed = identity.sign_message(&message.serialize());
    assert_eq!(signed.as_ref(), &signature);
}

#[test]
fn the_transfer_instruction() {
    let instruction = transfer_instruction(&[1; 32], &[2; 32], 0x0102_0304_0506_0708);
    assert_eq!(instruction.program_id, [0; 32]);
    assert_eq!(instruction.accounts, vec![([1; 32], true, true), ([2; 32], false, true)]);
    assert_eq!(instruction.data, vec![2, 0, 0, 0, 8, 7, 6, 5, 4, 3, 2, 1]);
}

#[test]
fn the_signed_bytes_are_what_is_sent() {
    let identity = Keypair::new_from_array([7; 32]);
    let wire = sign_transfer(&identity.to_bytes(), &[3; 32], 1456, &BLOCKHASH).unwrap();
    let transaction: VersionedTransaction = bincode::deserialize(&wire).unwrap();
    assert_eq!(transaction.message.static_account_keys()[0], identity.pubkey());
    assert_eq!(identity.to_bytes()[32..], identity.pubkey().to_bytes());
    let sender = sender(&[(100, 1)], 8);
    let (signature, send) =
        send_lamports(&sender, &identity.to_bytes(), &[3; 32], 1456, &BLOCKHASH, 8, false)
            .unwrap()
            .unwrap();
    assert_eq!(wire[1..65], signature);
    assert_eq!(first_wire(send, &sender).0, wire);
}

#[test]
fn a_transfer_to_oneself() {
    let identity = Keypair::new_from_array([7; 32]);
    let sender = sender(&[(100, 1)], 8);
    let recipient = identity.pubkey().to_bytes();
    let (signature, send) =
        send_lamports(&sender, &identity.to_bytes(), &recipient, 1, &BLOCKHASH, 8, true)
            .unwrap()
            .unwrap();
    let (wire, _) = first_wire(send, &sender);
    let transaction: VersionedTransaction = bincode::deserialize(&wire).unwrap();
    assert_eq!(transaction.message.static_account_keys().len(), 2);
    assert_eq!(transaction.signatures[0].as_ref(), &signature);
}

#[test]
fn the_same_transfer_has_the_same_signature() {
    let identity = Keypair::new_from_array([8; 32]).to_bytes();
    let sender = sender(&[(100, 1)], 8);
    let sign = |lamports: u64| {
        send_lamports(&sender, &identity, &[3; 32], lamports, &BLOCKHASH, 8, true)
            .unwrap()
            .unwrap()
            .0
    };
    assert_eq!(sign(10), sign(10));
    assert_ne!(sign(10), sign(11));
}

#[test]
fn no_transfer_without_a_key_pair() {
    let sender = sender(&[(100, 1)], 8);
    let mut bytes = Keypair::new_from_array([7; 32]).to_bytes();
    bytes[63] ^= 1;
    assert!(send_lamports(&sender, &bytes, &[3; 32], 1, &BLOCKHASH, 8, true).is_none());
}

#[test]
fn transfers_take_the_route_that_is_asked_for() {
    let identity = Keypair::new_from_array([7; 32]).to_bytes();
    let sender = sender(&[(100, 1), (104, 2)], 0);
    for (fanout, fast) in [(0, false), (8, false), (0, true), (8, true)] {
        assert!(can_send_lamports(&sender, fanout, fast));
        let (_, send) =
            send_lamports(&sender, &identity, &[3; 32], 1, &BLOCKHASH, fanout, fast)
                .unwrap()
                .unwrap();
        assert_eq!(matches!(send, TransferSend::Direct(_)), fast);
        let (_, peer) = first_wire(send, &sender);
        assert_eq!(peer, if fast { None } else { Some([1; 32]) });
    }
}

#[test]
fn routes_that_cannot_be_taken() {
    let empty = sender(&[], 0);
    assert!(!can_send_lamports(&empty, 0, false));
    assert!(can_send_lamports(&empty, 8, false));
    assert!(!can_send_lamports(&empty, u64::MAX, false));
    assert!(can_send_lamports(&empty, u64::MAX, true));
    let error = route_transfer(&empty, [1; 64], vec![1, 2, 3], 8, true).err().unwrap();
    assert_eq!(error.kind, SendErrorKind::NoKnownLeader);
    assert_eq!(error.txn, Bytes::from_static(&[1, 2, 3]));
}
