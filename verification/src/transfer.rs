//! A signed transfer of lamports, and the way it is sent.
use solana_keypair::Keypair;
use solana_message::{v0, VersionedMessage};
use solana_signer::Signer;
use solana_system_interface::instruction::transfer;
use solana_transaction::versioned::VersionedTransaction;
use solana_transaction::{AccountMeta, Instruction};
use vstd::bytes::{
    lemma_auto_spec_u64_to_from_le_bytes, spec_u64_from_le_bytes, spec_u64_to_le_bytes,
};
use vstd::prelude::*;

use crate::blocklist::NoBlocklist;
use crate::direct::DirectSend;
use crate::error::{SendError, SendErrorKind};
use crate::laws::{law_upcoming_leaders, leads, leads_before};
use crate::many_dest::ManyDestSend;
use crate::sender::{blocked_by, YellowstoneTpuSender};
use crate::slot::PoisonError;
use crate::types::{Pubkey, Signature};
use crate::wire::{
    bytes_from_owner, first_signature, first_signature_from_wire_transaction, wire_bytes,
};

verus! {

/// An account that an instruction names: its key, whether it signs, and whether
/// it is written to.
pub type PlainAccount = (Pubkey, bool, bool);

/// An instruction as plain values.
#[derive(Debug)]
pub struct PlainInstruction {
    /// The program that is invoked.
    pub program_id: Pubkey,
    /// The accounts that it is given.
    pub accounts: Vec<PlainAccount>,
    /// What it is told.
    pub data: Vec<u8>,
}

/// The bytes of the accounts' keys, with the flags.
pub open spec fn account_views(accounts: Seq<PlainAccount>) -> Seq<(Seq<u8>, bool, bool)> {
    accounts.map_values(|account: PlainAccount| (account.0@, account.1, account.2))
}

/// The public key of a key pair's 64 bytes; `None` where they are no key pair.
pub uninterp spec fn pubkey_of(identity: Seq<u8>) -> Option<Seq<u8>>;

/// The serialized version 0 transaction of one instruction, with this payer and
/// no lookup tables, signed over `blockhash` by the key pair `identity` alone;
/// `None` where it cannot be compiled or signed so.
pub uninterp spec fn signed_v0(
    identity: Seq<u8>,
    payer: Seq<u8>,
    program_id: Seq<u8>,
    accounts: Seq<(Seq<u8>, bool, bool)>,
    data: Seq<u8>,
    blockhash: Seq<u8>,
) -> Option<Seq<u8>>;

/// Calls `Keypair::try_from` on the bytes of a key pair, and `Keypair::pubkey`.
/// Trusted: whether the bytes are a key pair depends on them alone; `pubkey_of`
/// names the key. The key is the second half of the bytes, since it is compared
/// with the one that the first half yields.
#[verifier::external_body]
fn keypair_pubkey(identity: &[u8; 64]) -> (key: Option<Pubkey>)
    ensures
        match key {
            Some(k) => {
                &&& pubkey_of(identity@) == Some(k@)
                &&& k@ == identity@.subrange(32, 64)
            },
            None => pubkey_of(identity@) is None,
        },
{
    Keypair::try_from(identity.as_slice()).ok().map(|pair| pair.pubkey().to_bytes())
}

/// Calls `solana_system_interface::instruction::transfer`. Trusted: the
/// instruction invokes the system program, whose key is all zeros; it names the
/// sender, who signs, and the recipient, who does not, and writes to both; its
/// data are the number two in four bytes and the lamports in eight, the least
/// significant byte first.
#[verifier::external_body]
fn system_transfer(from: &Pubkey, to: &Pubkey, lamports: u64) -> (instruction: PlainInstruction)
    ensures
        instruction.program_id@ == system_program(),
        instruction.accounts@ == seq![(*from, true, true), (*to, false, true)],
        instruction.data@ == transfer_data(lamports),
{
    let built = transfer(&(*from).into(), &(*to).into(), lamports);
    PlainInstruction {
        program_id: built.program_id.to_bytes(),
        accounts: built.accounts.iter().map(
            |account| (account.pubkey.to_bytes(), account.is_signer, account.is_writable),
        ).collect(),
        data: built.data,
    }
}

/// Compiles, signs and serializes: `v0::Message::try_compile` without lookup
/// tables, `VersionedTransaction::try_new` with the key pair of
/// `Keypair::try_from` as the only signer, and `bincode::serialize`; `None`
/// where one of them fails.
///
/// Trusted: the bytes depend on the arguments alone, since accounts are compiled
/// in the order of their keys and Ed25519 signatures are deterministic;
/// `signed_v0` names them. With one signer there is one signature, so they start
/// with the count one, and at least the signature follows. More than 65535
/// accounts or bytes of data cannot be serialized, and would panic.
#[verifier::external_body]
fn sign_v0(
    identity: &[u8; 64],
    payer: &Pubkey,
    instruction: &PlainInstruction,
    blockhash: &[u8; 32],
) -> (signed: Option<Vec<u8>>)
    requires
        instruction.accounts@.len() <= 0xffff,
        instruction.data@.len() <= 0xffff,
    ensures
        signed_v0(
            identity@,
            payer@,
            instruction.program_id@,
            account_views(instruction.accounts@),
            instruction.data@,
            blockhash@,
        ) == match signed {
            Some(wire) => Some(wire@),
            None => None,
        },
        signed matches Some(wire) ==> wire@.len() >= 65 && wire@[0] == 1,
{
    let accounts = instruction.accounts.iter().map(
        |account|
            AccountMeta { pubkey: account.0.into(), is_signer: account.1, is_writable: account.2 },
    ).collect();
    let program_id = instruction.program_id.into();
    let built = Instruction { program_id, accounts, data: instruction.data.clone() };
    let blockhash = solana_hash::Hash::from(*blockhash);
    let message = v0::Message::try_compile(&(*payer).into(), &[built], &[], blockhash).ok()?;
    let identity = Keypair::try_from(identity.as_slice()).ok()?;
    let signed = VersionedTransaction::try_new(VersionedMessage::V0(message), &[&identity]).ok()?;
    bincode::serialize(&signed).ok()
}

/// The key of the system program.
pub open spec fn system_program() -> Seq<u8> {
    Seq::new(32, |i: int| 0u8)
}

/// What the system program is told for a transfer: instruction number two, and
/// the amount.
pub open spec fn transfer_data(lamports: u64) -> Seq<u8> {
    seq![2u8, 0, 0, 0] + spec_u64_to_le_bytes(lamports)
}

/// The serialized transfer of `lamports` from the key pair `identity`, which
/// pays and signs, to `recipient`, over `blockhash`; `None` where `identity` is
/// no key pair or signs nothing.
pub open spec fn signed_transfer(
    identity: Seq<u8>,
    recipient: Seq<u8>,
    lamports: u64,
    blockhash: Seq<u8>,
) -> Option<Seq<u8>> {
    match pubkey_of(identity) {
        None => None,
        Some(payer) => signed_v0(
            identity,
            payer,
            system_program(),
            seq![(payer, true, true), (recipient, false, true)],
            transfer_data(lamports),
            blockhash,
        ),
    }
}

/// The instruction that moves `lamports` from `payer` to `recipient`.
pub fn transfer_instruction(payer: &Pubkey, recipient: &Pubkey, lamports: u64) -> (instruction:
    PlainInstruction)
    ensures
        instruction.program_id@ == system_program(),
        instruction.accounts@ == seq![(*payer, true, true), (*recipient, false, true)],
        instruction.data@ == transfer_data(lamports),
{
    system_transfer(payer, recipient, lamports)
}

/// Builds, signs and serializes a transfer from `identity` to `recipient`.
pub fn sign_transfer(
    identity: &[u8; 64],
    recipient: &Pubkey,
    lamports: u64,
    blockhash: &[u8; 32],
) -> (signed: Option<Vec<u8>>)
    ensures
        signed_transfer(identity@, recipient@, lamports, blockhash@) == match signed {
            Some(wire) => Some(wire@),
            None => None,
        },
        signed matches Some(wire) ==> wire@.len() >= 65 && wire@[0] == 1,
{
    match keypair_pubkey(identity) {
        None => None,
        Some(payer) => {
            let instruction = transfer_instruction(&payer, recipient, lamports);
            proof {
                lemma_auto_spec_u64_to_from_le_bytes();
                assert(account_views(instruction.accounts@) =~= seq![
                    (payer@, true, true),
                    (recipient@, false, true),
                ]);
            }
            sign_v0(identity, &payer, &instruction, blockhash)
        },
    }
}

/// A transfer on its way.
pub enum TransferSend {
    /// Over open connections, past the queue.
    Direct(DirectSend),
    /// Through the queue, to many destinations.
    Queued(ManyDestSend),
}

/// Whether the leaders of a transfer can be looked up.
pub open spec fn can_route(
    sender: YellowstoneTpuSender,
    send_fanout_slots: u64,
    fast_wire: bool,
) -> bool {
    fast_wire || if send_fanout_slots == 0 {
        sender.can_choose()
    } else {
        sender.window_fits(send_fanout_slots)
    }
}

/// How a serialized transfer sets out: directly when it is to be fast, to the
/// leaders that the sender chooses when no window is given, and else to those
/// of the window.
pub open spec fn routed(
    sender: YellowstoneTpuSender,
    signature: Signature,
    wire: Seq<u8>,
    send_fanout_slots: u64,
    fast_wire: bool,
    begun: Result<TransferSend, SendError>,
) -> bool {
    if fast_wire {
        &&& begun !is Err ==> begun->Ok_0 is Direct
        &&& sender.direct_begun(
            wire,
            send_fanout_slots,
            match begun {
                Ok(send) => Ok(send->Direct_0),
                Err(e) => Err(e),
            },
        )
    } else {
        &&& begun !is Err ==> begun->Ok_0 is Queued
        &&& sender.fanout_begun(
            signature,
            wire,
            if send_fanout_slots == 0 {
                sender.destinations(blocked_by(Some(&NoBlocklist)))
            } else {
                match sender.upcoming(send_fanout_slots, |peer: Pubkey| false) {
                    Ok((leaders, _)) => Ok(leaders),
                    Err(kind) => Err(kind),
                }
            },
            send_fanout_slots == 0,
            match begun {
                Ok(send) => Ok(send->Queued_0),
                Err(e) => Err(e),
            },
        )
    }
}

/// Whether the leaders of a transfer can be looked up.
pub fn can_send_lamports(
    sender: &YellowstoneTpuSender,
    send_fanout_slots: u64,
    fast_wire: bool,
) -> (can: bool)
    ensures
        can == can_route(*sender, send_fanout_slots, fast_wire),
{
    if fast_wire {
        true
    } else if send_fanout_slots == 0 {
        sender.can_choose_leaders()
    } else {
        sender.fits_window(send_fanout_slots)
    }
}

/// Begins the send of a serialized transfer.
pub fn route_transfer(
    sender: &YellowstoneTpuSender,
    signature: Signature,
    wire: Vec<u8>,
    send_fanout_slots: u64,
    fast_wire: bool,
) -> (begun: Result<TransferSend, SendError>)
    requires
        can_route(*sender, send_fanout_slots, fast_wire),
    ensures
        routed(*sender, signature, wire@, send_fanout_slots, fast_wire, begun),
{
    if fast_wire {
        match sender.send_wire_transaction_fanout_slots_direct_fast(
            signature,
            bytes_from_owner(wire),
            send_fanout_slots,
        ) {
            Ok(send) => Ok(TransferSend::Direct(send)),
            Err(e) => Err(e),
        }
    } else {
        let begun = if send_fanout_slots == 0 {
            sender.send_txn(signature, wire)
        } else {
            sender.send_txn_fanout_slots(signature, wire, send_fanout_slots)
        };
        match begun {
            Ok(send) => Ok(TransferSend::Queued(send)),
            Err(e) => Err(e),
        }
    }
}

/// Signs a transfer and begins its send. Returns the transaction's signature,
/// which is the first in its bytes, with the send; `None` where the transfer
/// cannot be signed.
pub fn send_lamports(
    sender: &YellowstoneTpuSender,
    identity: &[u8; 64],
    recipient: &Pubkey,
    lamports: u64,
    latest_blockhash: &[u8; 32],
    send_fanout_slots: u64,
    fast_wire: bool,
) -> (sent: Option<Result<(Signature, TransferSend), SendError>>)
    requires
        can_route(*sender, send_fanout_slots, fast_wire),
    ensures
        match signed_transfer(identity@, recipient@, lamports, latest_blockhash@) {
            None => sent is None,
            Some(wire) => {
                &&& sent matches Some(result)
                &&& exists|signature: Signature| #[trigger]
                    signature@ == wire.subrange(1, 65) && routed(
                        *sender,
                        signature,
                        wire,
                        send_fanout_slots,
                        fast_wire,
                        match result {
                            Ok((_, send)) => Ok(send),
                            Err(e) => Err(e),
                        },
                    ) && (result matches Ok((s, _)) ==> s == signature)
            },
        },
{
    let wire = match sign_transfer(identity, recipient, lamports, latest_blockhash) {
        Some(wire) => wire,
        None => {
            return None;
        },
    };
    match first_signature_from_wire_transaction(wire.as_slice()) {
        None => None,
        Some(signature) => {
            let ghost bytes = wire@;
            assert(signature@ == bytes.subrange(1, 65));
            match route_transfer(sender, signature, wire, send_fanout_slots, fast_wire) {
                Ok(send) => Some(Ok((signature, send))),
                Err(e) => Some(Err(e)),
            }
        },
    }
}

/// A transfer that is not fast, with a window, is queued for whoever leads one
/// of the slots of the window that was asked for: each once, in the order of
/// their first slots, and all of them.
pub proof fn law_windowed_transfer_goes_to_the_window(
    sender: YellowstoneTpuSender,
    signature: Signature,
    wire: Seq<u8>,
    slot: u64,
    send_fanout_slots: u64,
    begun: Result<TransferSend, SendError>,
)
    requires
        routed(sender, signature, wire, send_fanout_slots, false, begun),
        send_fanout_slots > 0,
        sender.slot() == Ok::<u64, PoisonError>(slot),
        !sender.schedule().is_poisoned(),
        slot + send_fanout_slots <= u64::MAX,
    ensures
        begun matches Ok(TransferSend::Queued(send)) && {
            &&& send.sig() == signature
            &&& send.wire() == wire
            &&& send.seen().len() == 0
            &&& send.left().no_duplicates()
            &&& forall|key: Pubkey| #[trigger]
                send.left().contains(key) <==> leads(
                    sender.schedule()@,
                    slot as int,
                    slot + send_fanout_slots,
                    key,
                )
            &&& forall|i: int, j: int|
                0 <= i < j < send.left().len() ==> leads_before(
                    sender.schedule()@,
                    slot as int,
                    slot + send_fanout_slots,
                    #[trigger] send.left()[i],
                    #[trigger] send.left()[j],
                )
            &&& !send.fanout()
        },
{
    law_upcoming_leaders(sender, slot, send_fanout_slots, send_fanout_slots, |peer: Pubkey| false);
}

/// A transfer that is not fast, with a window, fails to set out exactly when the
/// slot stream or the schedule service has stopped, and says which; the error
/// carries the transfer.
pub proof fn law_windowed_transfer_fails_with_its_services(
    sender: YellowstoneTpuSender,
    signature: Signature,
    wire: Seq<u8>,
    send_fanout_slots: u64,
    begun: Result<TransferSend, SendError>,
)
    requires
        routed(sender, signature, wire, send_fanout_slots, false, begun),
        send_fanout_slots > 0,
    ensures
        begun is Err <==> sender.slot() is Err || sender.schedule().is_poisoned(),
        begun matches Err(e) ==> {
            &&& wire_bytes(e.txn) == wire
            &&& e.kind == if sender.slot() is Err {
                SendErrorKind::SlotTrackerDisconnected
            } else {
                SendErrorKind::ManagedLeaderScheduleDisconnected
            }
        },
        begun matches Ok(send) ==> {
            &&& send matches TransferSend::Queued(queued)
            &&& queued.coalesces() == sender.coalesces()
            &&& queued.port() == sender.port()
            &&& !queued.delivered()
        },
{
}

/// A transfer that is not fast, without a window, is queued for the leaders of
/// the sender's own choice, whoever is not blocked by anybody; it is enough to
/// reach one.
pub proof fn law_plain_transfer_goes_to_the_chosen(
    sender: YellowstoneTpuSender,
    signature: Signature,
    wire: Seq<u8>,
    nobody: spec_fn(Pubkey) -> bool,
    begun: Result<TransferSend, SendError>,
)
    requires
        routed(sender, signature, wire, 0, false, begun),
        forall|peer: Pubkey| !#[trigger] nobody(peer),
    ensures
        match begun {
            Ok(send) => {
                &&& send matches TransferSend::Queued(queued)
                &&& sender.destinations(nobody) == Ok::<Seq<Pubkey>, SendErrorKind>(queued.left())
                &&& queued.sig() == signature
                &&& queued.wire() == wire
                &&& queued.fanout()
                &&& queued.seen().len() == 0
                &&& queued.coalesces() == sender.coalesces()
                &&& queued.port() == sender.port()
                &&& !queued.delivered()
            },
            Err(e) => {
                &&& sender.destinations(nobody) == Err::<Seq<Pubkey>, SendErrorKind>(e.kind)
                &&& wire_bytes(e.txn) == wire
            },
        },
{
    assert(nobody =~= blocked_by(Some(&NoBlocklist)));
}

/// A fast transfer sets out directly, to the fast leaders of the window that was
/// asked for.
pub proof fn law_fast_transfer_goes_direct(
    sender: YellowstoneTpuSender,
    signature: Signature,
    wire: Seq<u8>,
    send_fanout_slots: u64,
    begun: Result<TransferSend, SendError>,
)
    requires
        routed(sender, signature, wire, send_fanout_slots, true, begun),
    ensures
        match begun {
            Ok(send) => {
                &&& send matches TransferSend::Direct(direct)
                &&& sender.fast_leaders(send_fanout_slots) == Ok::<Seq<Pubkey>, SendErrorKind>(
                    direct.left(),
                )
                &&& direct.left().len() > 0
                &&& direct.wire() == wire
                &&& direct.seen().len() == 0
                &&& direct.outcomes().len() == 0
            },
            Err(e) => {
                &&& wire_bytes(e.txn) == wire
                &&& match sender.fast_leaders(send_fanout_slots) {
                    Ok(leaders) => leaders.len() == 0 && e.kind == SendErrorKind::NoKnownLeader,
                    Err(kind) => e.kind == kind,
                }
            },
        },
{
}

/// A transfer moves the lamports from the key pair that signs it, and pays, to
/// the recipient: it invokes the system program, whose key is all zeros, with
/// data from which the amount can be read back.
pub proof fn law_transfer_moves_the_lamports(
    identity: Seq<u8>,
    payer: Seq<u8>,
    recipient: Seq<u8>,
    lamports: u64,
    blockhash: Seq<u8>,
    zeros: Seq<u8>,
) -> (data: Seq<u8>)
    requires
        pubkey_of(identity) == Some(payer),
        zeros.len() == 32,
        forall|i: int| 0 <= i < 32 ==> zeros[i] == 0,
    ensures
        signed_transfer(identity, recipient, lamports, blockhash) == signed_v0(
            identity,
            payer,
            zeros,
            seq![(payer, true, true), (recipient, false, true)],
            data,
            blockhash,
        ),
        data.len() == 12,
        data.take(4) == seq![2u8, 0, 0, 0],
        spec_u64_from_le_bytes(data.skip(4)) == lamports,
{
    lemma_auto_spec_u64_to_from_le_bytes();
    let data = transfer_data(lamports);
    assert(data.take(4) =~= seq![2u8, 0, 0, 0]);
    assert(data.skip(4) =~= spec_u64_to_le_bytes(lamports));
    assert(system_program() =~= zeros);
    data
}

/// What is no key pair signs no transfer.
pub proof fn law_no_transfer_without_a_key_pair(
    identity: Seq<u8>,
    recipient: Seq<u8>,
    lamports: u64,
    blockhash: Seq<u8>,
)
    requires
        pubkey_of(identity) is None,
    ensures
        signed_transfer(identity, recipient, lamports, blockhash) is None,
{
}

/// A transfer can set out whenever it is fast; otherwise whenever the window
/// that was asked for can be looked up, or, without one, the sender's choice.
pub proof fn law_what_can_be_routed(
    sender: YellowstoneTpuSender,
    send_fanout_slots: u64,
    fast_wire: bool,
)
    ensures
        fast_wire ==> can_route(sender, send_fanout_slots, fast_wire),
        !fast_wire && send_fanout_slots == 0 ==> can_route(sender, send_fanout_slots, fast_wire)
            == sender.can_choose(),
        !fast_wire && send_fanout_slots > 0 ==> can_route(sender, send_fanout_slots, fast_wire)
            == sender.window_fits(send_fanout_slots),
{
}

} // verus!
