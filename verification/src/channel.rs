//! The bounded queue to the TPU event loop.
use bytes::Bytes;
use tokio::sync::mpsc::error::TrySendError;
use tokio::sync::mpsc::Sender;
use vstd::prelude::*;

use crate::error::{SendError, SendErrorKind};
use crate::types::{Pubkey, Signature, SocketAddr};
use crate::wire::wire_bytes;

verus! {

/// A transaction on its way to one validator.
#[derive(Debug)]
pub struct TpuSenderTxn {
    /// The signature that identifies the transaction.
    pub tx_sig: Signature,
    /// The validator to send to.
    pub remote_peer: Pubkey,
    /// The serialized transaction.
    pub wire: Bytes,
    /// The socket to send to, where it was resolved beforehand.
    pub remote_peer_addr: Option<SocketAddr>,
    /// Whether the transaction was queued by the fast path.
    pub fast: bool,
}

/// What a [`TpuSenderTxn`] says.
#[verifier::ext_equal]
pub struct TxnView {
    pub tx_sig: Signature,
    pub remote_peer: Pubkey,
    pub wire: Seq<u8>,
    pub remote_peer_addr: Option<SocketAddr>,
    pub fast: bool,
}

impl View for TpuSenderTxn {
    type V = TxnView;

    open spec fn view(&self) -> TxnView {
        TxnView {
            tx_sig: self.tx_sig,
            remote_peer: self.remote_peer,
            wire: wire_bytes(self.wire),
            remote_peer_addr: self.remote_peer_addr,
            fast: self.fast,
        }
    }
}

impl TpuSenderTxn {
    /// A fast-path transaction for `leader` at a known socket.
    pub fn from_fast_bytes_with_addr(
        tx_sig: Signature,
        leader: Pubkey,
        wire: Bytes,
        addr: SocketAddr,
    ) -> (txn: Self)
        ensures
            txn.tx_sig == tx_sig,
            txn.remote_peer == leader,
            txn.wire == wire,
            txn.remote_peer_addr == Some(addr),
            txn.fast,
    {
        TpuSenderTxn { tx_sig, remote_peer: leader, wire, remote_peer_addr: Some(addr), fast: true }
    }
}

/// Why the queue did not take a transaction, which it hands back.
#[derive(Debug)]
pub enum TpuSenderTrySendError {
    /// The queue is full.
    Full(TpuSenderTxn),
    /// The queue is closed.
    Closed(TpuSenderTxn),
}

/// `tokio::sync::mpsc::Sender`, the sending half of a bounded channel.
#[verifier::external_type_specification]
#[verifier::external_body]
#[verifier::reject_recursive_types(T)]
pub struct ExSender<T>(Sender<T>);

/// Calls `tokio::sync::mpsc::Sender::clone`, which gives another sending half of
/// the same channel. Nothing is said of a channel, so nothing is said of that.
#[verifier::external_body]
fn channel_clone(channel: &Sender<TpuSenderTxn>) -> Sender<TpuSenderTxn> {
    channel.clone()
}

/// What the queue answered to an offer.
#[derive(Debug, Clone, Copy, PartialEq, Eq, Structural)]
pub enum QueueReply {
    Taken,
    Full,
    Closed,
}

/// A transaction that was offered to the queue, and the answer.
pub struct Offer {
    pub txn: TxnView,
    pub reply: QueueReply,
}

/// The answer that the result of an offer stands for.
pub open spec fn reply_of(taken: Result<(), TpuSenderTrySendError>) -> QueueReply {
    match taken {
        Ok(_) => QueueReply::Taken,
        Err(TpuSenderTrySendError::Full(_)) => QueueReply::Full,
        Err(TpuSenderTrySendError::Closed(_)) => QueueReply::Closed,
    }
}

impl TpuSenderTrySendError {
    /// The transaction that was handed back.
    pub open spec fn txn(self) -> TpuSenderTxn {
        match self {
            TpuSenderTrySendError::Full(txn) => txn,
            TpuSenderTrySendError::Closed(txn) => txn,
        }
    }

    /// The send error that a refused offer amounts to: it carries the bytes of
    /// the transaction that was handed back.
    pub fn into_send_error(self) -> (error: SendError)
        ensures
            error.kind == match self {
                TpuSenderTrySendError::Full(_) => SendErrorKind::QueueFull,
                TpuSenderTrySendError::Closed(_) => SendErrorKind::Closed,
            },
            error.txn == self.txn().wire,
    {
        match self {
            TpuSenderTrySendError::Full(txn) => SendError {
                kind: SendErrorKind::QueueFull,
                txn: txn.wire,
            },
            TpuSenderTrySendError::Closed(txn) => SendError {
                kind: SendErrorKind::Closed,
                txn: txn.wire,
            },
        }
    }
}

/// The sending half of the transaction queue.
pub struct TpuSender {
    channel: Sender<TpuSenderTxn>,
    offers: Ghost<Seq<Offer>>,
}

impl TpuSender {
    /// Every offer that has been made to the queue through this sender, in
    /// order.
    pub closed spec fn offers(&self) -> Seq<Offer> {
        self.offers@
    }

    /// A sender that has offered nothing yet.
    pub fn new(channel: Sender<TpuSenderTxn>) -> (sender: Self)
        ensures
            sender.offers() == Seq::<Offer>::empty(),
    {
        TpuSender { channel, offers: Ghost(Seq::empty()) }
    }

    /// Offers a transaction to the queue, without waiting for room: calls
    /// `tokio::sync::mpsc::Sender::try_send`. Trusted: this transaction, and
    /// nothing else, is handed to the channel, and the log of offers holds it
    /// with the channel's answer; a refused transaction comes back as it was.
    /// Whether the channel takes it depends on who else sends and receives, so
    /// nothing is said of that.
    #[verifier::external_body]
    pub(crate) fn try_send_txn(&mut self, txn: TpuSenderTxn) -> (taken: Result<
        (),
        TpuSenderTrySendError,
    >)
        ensures
            final(self).offers() == old(self).offers().push(
                (Offer { txn: txn@, reply: reply_of(taken) }),
            ),
            taken matches Err(refusal) ==> refusal.txn() == txn,
    {
        match self.channel.try_send(txn) {
            Ok(()) => Ok(()),
            Err(TrySendError::Full(back)) => Err(TpuSenderTrySendError::Full(back)),
            Err(TrySendError::Closed(back)) => Err(TpuSenderTrySendError::Closed(back)),
        }
    }
}

impl Clone for TpuSender {
    /// Another sender to the same queue, that has offered nothing yet.
    fn clone(&self) -> (copy: Self)
        ensures
            copy.offers() == Seq::<Offer>::empty(),
    {
        TpuSender::new(channel_clone(&self.channel))
    }
}

/// The answer to an offer tells a taken one, a full queue and a closed queue
/// apart.
pub proof fn law_answers_differ(taken: Result<(), TpuSenderTrySendError>)
    ensures
        reply_of(taken) == QueueReply::Taken <==> taken is Ok,
        reply_of(taken) == QueueReply::Full <==> taken is Err && taken->Err_0 is Full,
        reply_of(taken) == QueueReply::Closed <==> taken is Err && taken->Err_0 is Closed,
{
}

/// The view of a transaction shows all of it: two that look alike are sent alike.
pub proof fn law_view_shows_the_transaction(txn: TpuSenderTxn)
    ensures
        txn@.tx_sig == txn.tx_sig,
        txn@.remote_peer == txn.remote_peer,
        txn@.wire == wire_bytes(txn.wire),
        txn@.remote_peer_addr == txn.remote_peer_addr,
        txn@.fast == txn.fast,
{
}

} // verus!
