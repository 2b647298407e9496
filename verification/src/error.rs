//! Why a transaction was not sent.
use bytes::Bytes;
use vstd::prelude::*;
use vstd::string::StringExecFns;

use crate::types::Pubkey;

verus! {

/// The base58 text of 32 bytes.
pub uninterp spec fn base58(key: Seq<u8>) -> Seq<char>;

/// Calls `solana_pubkey::Pubkey::to_string`. Trusted: the text depends on the
/// key's bytes alone; `base58` names it.
#[verifier::external_body]
fn pubkey_to_string(key: &Pubkey) -> (text: String)
    ensures
        text@ == base58(key@),
{
    solana_pubkey::Pubkey::from(*key).to_string()
}

/// Why a send failed.
#[derive(Debug, Clone, Copy, PartialEq, Eq, Structural)]
pub enum SendErrorKind {
    /// The channel to the TPU event loop is closed.
    Closed,
    /// The internal transaction queue is full.
    QueueFull,
    /// The serialized transaction is malformed or holds no signature.
    InvalidWireTransaction,
    /// No leader is known in the fanout window.
    NoKnownLeader,
    /// No TPU QUIC address is known for the fast fanout leaders.
    NoKnownTpuAddress,
    /// No direct TPU QUIC connection is open to the fanout leaders.
    NoReadyDirectConnection,
    /// The direct TPU QUIC write failed on every open fanout connection.
    DirectWriteFailed,
    /// The slot tracker has stopped.
    SlotTrackerDisconnected,
    /// The leader schedule service has stopped.
    ManagedLeaderScheduleDisconnected,
    /// Every destination is on the caller's blocklist.
    RemotePeerBlocked,
}

impl SendErrorKind {
    /// What the error says.
    pub open spec fn text(self) -> Seq<char> {
        match self {
            SendErrorKind::Closed => "tpu sender disconnected"@,
            SendErrorKind::QueueFull => "tpu sender queue full"@,
            SendErrorKind::InvalidWireTransaction => "invalid serialized transaction"@,
            SendErrorKind::NoKnownLeader => "no known leader in fanout window"@,
            SendErrorKind::NoKnownTpuAddress => "no known TPU address for fanout leaders"@,
            SendErrorKind::NoReadyDirectConnection =>
                "no ready direct TPU connection for fanout leaders"@,
            SendErrorKind::DirectWriteFailed => "direct TPU write failed"@,
            SendErrorKind::SlotTrackerDisconnected => "slot tracker disconnected"@,
            SendErrorKind::ManagedLeaderScheduleDisconnected =>
                "managed leader schedule disconnected"@,
            SendErrorKind::RemotePeerBlocked => "destination(s) blocked"@,
        }
    }

    /// What the error says.
    pub fn message(self) -> (text: &'static str)
        ensures
            text@ == self.text(),
    {
        match self {
            SendErrorKind::Closed => "tpu sender disconnected",
            SendErrorKind::QueueFull => "tpu sender queue full",
            SendErrorKind::InvalidWireTransaction => "invalid serialized transaction",
            SendErrorKind::NoKnownLeader => "no known leader in fanout window",
            SendErrorKind::NoKnownTpuAddress => "no known TPU address for fanout leaders",
            SendErrorKind::NoReadyDirectConnection =>
                "no ready direct TPU connection for fanout leaders",
            SendErrorKind::DirectWriteFailed => "direct TPU write failed",
            SendErrorKind::SlotTrackerDisconnected => "slot tracker disconnected",
            SendErrorKind::ManagedLeaderScheduleDisconnected =>
                "managed leader schedule disconnected",
            SendErrorKind::RemotePeerBlocked => "destination(s) blocked",
        }
    }
}

/// A failed send, with the transaction that it was about.
#[derive(Debug)]
pub struct SendError {
    /// Why the send failed.
    pub kind: SendErrorKind,
    /// The transaction that was not sent.
    pub txn: Bytes,
}

impl SendError {
    /// What the error says.
    pub fn message(&self) -> (text: String)
        ensures
            text@ == self.kind.text() + " for transaction"@,
    {
        String::from_str(self.kind.message()).concat(" for transaction")
    }
}

/// A transaction whose leader is unknown.
pub struct UnknownLeaderError {
    txn: Bytes,
    unknown_leader: Pubkey,
}

impl UnknownLeaderError {
    /// The transaction that has no destination.
    pub closed spec fn txn(&self) -> Bytes {
        self.txn
    }

    /// The leader of which nothing is known.
    pub closed spec fn leader(&self) -> Pubkey {
        self.unknown_leader
    }

    /// The error for `txn`, bound for `unknown_leader`.
    pub fn new(txn: Bytes, unknown_leader: Pubkey) -> (error: Self)
        ensures
            error.txn() == txn,
            error.leader() == unknown_leader,
    {
        UnknownLeaderError { txn, unknown_leader }
    }

    /// What the error says.
    pub fn message(&self) -> (text: String)
        ensures
            text@ == "unknown leader "@ + base58(self.leader()@) + " for transaction"@,
    {
        String::from_str("unknown leader ").concat(
            pubkey_to_string(&self.unknown_leader).as_str(),
        ).concat(" for transaction")
    }

    /// What a log line says of the error.
    pub fn debug_text(&self) -> (text: String)
        ensures
            text@ == "unknown leader: "@ + base58(self.leader()@),
    {
        String::from_str("unknown leader: ").concat(
            pubkey_to_string(&self.unknown_leader).as_str(),
        )
    }
}

} // verus!
