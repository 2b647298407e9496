use bytes::Bytes;
use tpu_sender::error::{SendError, SendErrorKind, UnknownLeaderError};
use tpu_sender::sender::YellowstoneTpuSender;
use tpu_sender::wire::{
    decode_shortvec_len, first_signature_from_wire_transaction, signature_of_complete_transaction,
};

fn signature(fill: u8) -> [u8; 64] {
    let mut bytes = [fill; 64];
    bytes[0] = fill.wrapping_add(1);
    bytes[63] = fill.wrapping_add(2);
    bytes
}

fn layout(prefix: &[u8], signatures: &[[u8; 64]], message: &[u8]) -> Vec<u8> {
    let mut wire = prefix.to_vec();
    for s in signatures {
        wire.extend_from_slice(s);
    }
    wire.extend_from_slice(message);
    wire
}

#[test]
fn shortvec_one_byte() {
    assert_eq!(decode_shortvec_len(&[0]), Some((0, 1)));
    assert_eq!(decode_shortvec_len(&[1, 9, 9]), Some((1, 1)));
    assert_eq!(decode_shortvec_len(&[0x7f]), Some((127, 1)));
}

#[test]
fn shortvec_two_bytes() {
    assert_eq!(decode_shortvec_len(&[0x80, 0x01]), Some((128, 2)));
    assert_eq!(decode_shortvec_len(&[0xff, 0x7f, 0xff]), Some((16383, 2)));
}

#[test]
fn shortvec_three_bytes() {
    assert_eq!(decode_shortvec_len(&[0x80, 0x80, 0x01]), Some((16384, 3)));
    assert_eq!(decode_shortvec_len(&[0xff, 0xff, 0x03]), Some((65535, 3)));
    assert_eq!(decode_shortvec_len(&[0xff, 0xff, 0x7f]), Some((2_097_151, 3)));
}

#[test]
fn shortvec_takes_padded_encodings() {
    assert_eq!(decode_shortvec_len(&[0x80, 0x00]), Some((0, 2)));
    assert_eq!(decode_shortvec_len(&[0x81, 0x80, 0x00]), Some((1, 3)));
}

#[test]
fn shortvec_refuses_unfinished_and_overlong_lengths() {
    assert_eq!(decode_shortvec_len(&[]), None);
    assert_eq!(decode_shortvec_len(&[0x80]), None);
    assert_eq!(decode_shortvec_len(&[0xff, 0xff]), None);
    assert_eq!(decode_shortvec_len(&[0xff, 0xff, 0xff]), None);
    assert_eq!(decode_shortvec_len(&[0x80, 0x80, 0x80, 0x01]), None);
}

#[test]
fn shortvec_round_trip_over_all_lengths() {
    for n in 0usize..0x20_0000 {
        let mut bytes = Vec::new();
        let mut rest = n;
        while rest >= 128 {
            bytes.push((rest % 128 + 128) as u8);
            rest /= 128;
        }
        bytes.push(rest as u8);
        let width = bytes.len();
        bytes.push(0xaa);
        assert_eq!(decode_shortvec_len(&bytes), Some((n, width)));
    }
}

#[test]
fn first_signature_follows_the_count() {
    let one = layout(&[1], &[signature(7)], b"message");
    assert_eq!(first_signature_from_wire_transaction(&one), Some(signature(7)));
    let two = layout(&[2], &[signature(7), signature(90)], b"message");
    assert_eq!(first_signature_from_wire_transaction(&two), Some(signature(7)));
    let wide = layout(&[0x81, 0x01], &[signature(3)], b"");
    assert_eq!(
        YellowstoneTpuSender::first_signature_from_wire_transaction(&wide),
        Some(signature(3))
    );
}

#[test]
fn first_signature_needs_a_count_and_all_bytes() {
    assert_eq!(first_signature_from_wire_transaction(&[]), None);
    assert_eq!(first_signature_from_wire_transaction(&[0x80]), None);
    let none = layout(&[0], &[signature(7)], b"message");
    assert_eq!(first_signature_from_wire_transaction(&none), None);
    let exact = layout(&[1], &[signature(7)], b"");
    assert_eq!(exact.len(), 65);
    assert_eq!(first_signature_from_wire_transaction(&exact), Some(signature(7)));
    assert_eq!(first_signature_from_wire_transaction(&exact[..64]), None);
}

#[test]
fn a_complete_transaction_holds_its_signatures_and_a_message() {
    let one = layout(&[1], &[signature(7)], b"m");
    assert_eq!(signature_of_complete_transaction(&one), Some(signature(7)));
    let two = layout(&[2], &[signature(7), signature(9)], b"m");
    assert_eq!(signature_of_complete_transaction(&two), Some(signature(7)));
    for short in [
        layout(&[1], &[signature(7)], b""),
        layout(&[2], &[signature(7), signature(9)], b""),
        layout(&[2], &[signature(7)], b"message"),
        layout(&[0], &[], b"message"),
        layout(&[0xff, 0xff, 0x7f], &[signature(7)], b"message"),
        vec![],
    ] {
        assert_eq!(signature_of_complete_transaction(&short), None);
    }
}

#[test]
fn error_texts() {
    let texts = [
        (SendErrorKind::Closed, "tpu sender disconnected"),
        (SendErrorKind::QueueFull, "tpu sender queue full"),
        (SendErrorKind::InvalidWireTransaction, "invalid serialized transaction"),
        (SendErrorKind::NoKnownLeader, "no known leader in fanout window"),
        (SendErrorKind::NoKnownTpuAddress, "no known TPU address for fanout leaders"),
        (
            SendErrorKind::NoReadyDirectConnection,
            "no ready direct TPU connection for fanout leaders",
        ),
        (SendErrorKind::DirectWriteFailed, "direct TPU write failed"),
        (SendErrorKind::SlotTrackerDisconnected, "slot tracker disconnected"),
        (
            SendErrorKind::ManagedLeaderScheduleDisconnected,
            "managed leader schedule disconnected",
        ),
        (SendErrorKind::RemotePeerBlocked, "destination(s) blocked"),
    ];
    for (kind, text) in texts {
        assert_eq!(kind.message(), text);
        let error = SendError { kind, txn: Bytes::from_static(b"tx") };
        assert_eq!(error.message(), format!("{text} for transaction"));
    }
}

#[test]
fn unknown_leader_texts_hold_the_base58_key() {
    let system_program = UnknownLeaderError::new(Bytes::from_static(b"tx"), [0; 32]);
    assert_eq!(
        system_program.message(),
        "unknown leader 11111111111111111111111111111111 for transaction"
    );
    assert_eq!(
        system_program.debug_text(),
        "unknown leader: 11111111111111111111111111111111"
    );
    let mut key = [0u8; 32];
    key[31] = 1;
    let next = UnknownLeaderError::new(Bytes::from_static(b"tx"), key);
    assert_eq!(
        next.debug_text(),
        "unknown leader: 11111111111111111111111111111112"
    );
}
