//! Serialized transactions: the byte container they travel in, the compact
//! length that starts them, and the signature that follows it.
use bytes::Bytes;
use vstd::prelude::*;
use vstd::slice::slice_subrange;

use crate::types::Signature;

verus! {

/// `bytes::Bytes`, the reference-counted buffer that holds a wire transaction.
#[verifier::external_type_specification]
#[verifier::external_body]
pub struct ExBytes(Bytes);

/// The bytes that a `bytes::Bytes` holds.
pub uninterp spec fn wire_bytes(buffer: Bytes) -> Seq<u8>;

/// Calls `Bytes::from_owner` on a vector. Trusted: the buffer holds exactly the
/// vector's bytes, in order.
#[verifier::external_body]
pub(crate) fn bytes_from_owner(owner: Vec<u8>) -> (buffer: Bytes)
    ensures
        wire_bytes(buffer) == owner@,
{
    Bytes::from_owner(owner)
}

/// Calls `Bytes::as_ref`. Trusted: the slice shows the whole content of the
/// buffer, in order.
#[verifier::external_body]
pub(crate) fn bytes_as_slice(buffer: &Bytes) -> (content: &[u8])
    ensures
        content@ == wire_bytes(*buffer),
{
    buffer.as_ref()
}

/// Calls `Bytes::clone`. Trusted: the clone holds the same bytes.
#[verifier::external_body]
pub(crate) fn bytes_clone(buffer: &Bytes) -> (copy: Bytes)
    ensures
        wire_bytes(copy) == wire_bytes(*buffer),
{
    buffer.clone()
}

/// Reads the constant `solana_signature::SIGNATURE_BYTES`. Trusted: it is 64.
#[verifier::external_body]
fn signature_width() -> (width: usize)
    ensures
        width == 64,
{
    solana_signature::SIGNATURE_BYTES
}

/// Calls `solana_signature::Signature::try_from` on a slice. Trusted: it
/// succeeds exactly on slices of 64 bytes, and the signature is those bytes.
#[verifier::external_body]
fn signature_from_slice(bytes: &[u8]) -> (signature: Option<Signature>)
    ensures
        signature is Some <==> bytes@.len() == 64,
        signature matches Some(s) ==> s@ == bytes@,
{
    solana_signature::Signature::try_from(bytes).ok().map(|s| s.into())
}

/// Value and width of the compact length at the front of `bytes`: seven bits
/// per byte, the least significant first, in at most three bytes; the top bit
/// says that another byte follows.
pub open spec fn shortvec_len(bytes: Seq<u8>) -> Option<(nat, nat)> {
    if bytes.len() >= 1 && bytes[0] < 128 {
        Some((bytes[0] as nat, 1))
    } else if bytes.len() >= 2 && bytes[1] < 128 {
        Some(((bytes[0] - 128 + 128 * bytes[1]) as nat, 2))
    } else if bytes.len() >= 3 && bytes[1] >= 128 && bytes[2] < 128 {
        Some(((bytes[0] - 128 + 128 * (bytes[1] - 128) + 16384 * bytes[2]) as nat, 3))
    } else {
        None
    }
}

/// The shortest compact encoding of a length below 2^21.
pub open spec fn shortvec(n: nat) -> Seq<u8> {
    if n < 128 {
        seq![n as u8]
    } else if n < 16384 {
        seq![(n % 128 + 128) as u8, (n / 128) as u8]
    } else {
        seq![(n % 128 + 128) as u8, (n / 128 % 128 + 128) as u8, (n / 16384) as u8]
    }
}

/// The first signature of a serialized transaction: the bytes right after the
/// signature count, if the count is not zero and they are all there.
pub open spec fn first_signature(wire: Seq<u8>) -> Option<Seq<u8>> {
    match shortvec_len(wire) {
        Some((count, at)) => if count > 0 && wire.len() >= at + 64 {
            Some(wire.subrange(at as int, at as int + 64))
        } else {
            None
        },
        None => None,
    }
}

/// Whether a serialized transaction is whole as far as its layout tells: it has
/// at least one signature, it holds as many as it announces, and a message
/// follows them.
pub open spec fn complete(wire: Seq<u8>) -> bool {
    shortvec_len(wire) matches Some((count, at)) && count > 0 && wire.len() > at + 64 * count
}

proof fn lemma_or_is_sum(len: u32, byte: u8)
    ensures
        len == 0 ==> (len | ((byte & 0x7f) as u32) << 0u32) == len + (byte % 128),
        len < 128 ==> (len | ((byte & 0x7f) as u32) << 7u32) == len + 128 * (byte % 128),
        len < 16384 ==> (len | ((byte & 0x7f) as u32) << 14u32) == len + 16384 * (byte % 128),
        (byte & 0x80 == 0) == (byte < 128),
{
    assert(len == 0 ==> (len | ((byte & 0x7f) as u32) << 0u32) == len + (byte % 128))
        by (bit_vector);
    assert(len < 128 ==> (len | ((byte & 0x7f) as u32) << 7u32) == len + 128 * (byte % 128))
        by (bit_vector);
    assert(len < 16384 ==> (len | ((byte & 0x7f) as u32) << 14u32) == len + 16384 * (byte % 128))
        by (bit_vector);
    assert((byte & 0x80 == 0) == (byte < 128)) by (bit_vector);
}

/// Decodes the compact length at the front of `bytes`: its value and the number
/// of bytes that it takes.
pub fn decode_shortvec_len(bytes: &[u8]) -> (decoded: Option<(usize, usize)>)
    ensures
        decoded matches Some((len, width)) ==> shortvec_len(bytes@) == Some(
            (len as nat, width as nat),
        ),
        decoded is None ==> shortvec_len(bytes@) is None,
{
    let mut len: u32 = 0;
    let mut shift: u32 = 0;
    let mut idx: usize = 0;
    while idx < 3 && idx < bytes.len()
        invariant
            idx <= 3,
            idx <= bytes.len(),
            shift == 7 * idx,
            forall|j: int| 0 <= j < idx ==> bytes@[j] >= 128,
            idx == 0 ==> len == 0,
            idx == 1 ==> len == bytes@[0] - 128,
            idx == 2 ==> len == bytes@[0] - 128 + 128 * (bytes@[1] - 128),
        decreases 3 - idx,
    {
        let byte: u8 = bytes[idx];
        proof {
            lemma_or_is_sum(len, byte);
        }
        len = len | ((byte & 0x7f) as u32) << shift;
        if byte & 0x80 == 0 {
            return Some((len as usize, idx + 1));
        }
        shift += 7;
        idx += 1;
    }
    None
}

/// The first signature of a serialized transaction, read from its bytes.
pub fn first_signature_from_wire_transaction(wire_txn: &[u8]) -> (signature: Option<Signature>)
    ensures
        signature matches Some(s) ==> first_signature(wire_txn@) == Some(s@),
        signature is None ==> first_signature(wire_txn@) is None,
{
    match decode_shortvec_len(wire_txn) {
        None => None,
        Some((signature_count, signature_count_len)) => {
            if signature_count == 0 {
                return None;
            }
            let signature_end: usize = signature_count_len + signature_width();
            if wire_txn.len() < signature_end {
                return None;
            }
            signature_from_slice(slice_subrange(wire_txn, signature_count_len, signature_end))
        },
    }
}

/// The first signature of a serialized transaction, if the transaction is
/// complete.
pub fn signature_of_complete_transaction(wire_txn: &[u8]) -> (signature: Option<Signature>)
    ensures
        complete(wire_txn@) ==> signature is Some,
        signature matches Some(s) ==> complete(wire_txn@) && first_signature(wire_txn@) == Some(s@),
{
    match decode_shortvec_len(wire_txn) {
        None => None,
        Some((signature_count, signature_count_len)) => {
            let signatures_end: usize = signature_count_len + signature_width() * signature_count;
            if signature_count == 0 || wire_txn.len() <= signatures_end {
                return None;
            }
            first_signature_from_wire_transaction(wire_txn)
        },
    }
}

/// Decoding gives back every length below 2^21 that was encoded, whatever
/// follows it, and the width of the encoding.
pub proof fn law_shortvec_round_trip(n: nat, rest: Seq<u8>)
    requires
        n < 0x20_0000,
    ensures
        shortvec_len(shortvec(n) + rest) == Some((n, shortvec(n).len())),
{
    let bytes = shortvec(n) + rest;
    if n < 128 {
        assert(bytes[0] == n as u8);
    } else if n < 16384 {
        assert(bytes[0] == (n % 128 + 128) as u8);
        assert(bytes[1] == (n / 128) as u8);
    } else {
        assert(bytes[0] == (n % 128 + 128) as u8);
        assert(bytes[1] == (n / 128 % 128 + 128) as u8);
        assert(bytes[2] == (n / 16384) as u8);
        assert(n / 128 / 128 == n / 16384);
    }
}

/// A transaction laid out as a signature count, its signatures and a message
/// yields its first signature.
pub proof fn law_first_signature_of_layout(count: nat, signature: Seq<u8>, rest: Seq<u8>)
    requires
        0 < count < 0x20_0000,
        signature.len() == 64,
    ensures
        first_signature(shortvec(count) + signature + rest) == Some(signature),
{
    law_shortvec_round_trip(count, signature + rest);
    let wire = shortvec(count) + signature + rest;
    assert(wire =~= shortvec(count) + (signature + rest));
    let at = shortvec(count).len();
    assert(wire.subrange(at as int, at as int + 64) =~= signature);
}

/// A transaction laid out as a signature count, that many signatures and a
/// message is complete, and what is left of it without the message is not.
pub proof fn law_layout_is_complete(count: nat, signatures: Seq<u8>, message: Seq<u8>)
    requires
        0 < count < 0x20_0000,
        signatures.len() == 64 * count,
        message.len() > 0,
    ensures
        complete(shortvec(count) + signatures + message),
        !complete(shortvec(count) + signatures),
        first_signature(shortvec(count) + signatures + message) == Some(signatures.take(64)),
{
    law_shortvec_round_trip(count, signatures + message);
    law_shortvec_round_trip(count, signatures);
    assert(shortvec(count) + signatures + message =~= shortvec(count) + (signatures + message));
    let rest = signatures.skip(64) + message;
    assert(signatures + message =~= signatures.take(64) + rest);
    assert(shortvec(count) + signatures + message =~= shortvec(count) + signatures.take(64) + rest);
    law_first_signature_of_layout(count, signatures.take(64), rest);
}

/// A compact length is read from the first byte without the top bit, if it is
/// one of the first three, and from those before it: each byte adds its lower
/// seven bits, worth 128 times as much as those of the byte before.
pub proof fn law_shortvec_reads_seven_bits_a_byte(bytes: Seq<u8>, width: nat)
    requires
        1 <= width <= bytes.len(),
        bytes[width - 1] < 128,
        forall|i: int| 0 <= i < width - 1 ==> bytes[i] >= 128,
    ensures
        width > 3 ==> shortvec_len(bytes) is None,
        width == 1 ==> shortvec_len(bytes) == Some((bytes[0] as nat, width)),
        width == 2 ==> shortvec_len(bytes) == Some(
            ((bytes[0] as int % 128 + 128 * (bytes[1] as int % 128)) as nat, width),
        ),
        width == 3 ==> shortvec_len(bytes) == Some(
            (
                (bytes[0] as int % 128 + 128 * (bytes[1] as int % 128) + 128 * 128 * (bytes[2] as int
                    % 128)) as nat,
                width,
            ),
        ),
{
    assert(width > 1 ==> bytes[0] >= 128);
    assert(width > 2 ==> bytes[1] >= 128);
    assert(width > 3 ==> bytes[2] >= 128);
}

/// Bytes that all have the top bit set hold no compact length.
pub proof fn law_shortvec_needs_an_end(bytes: Seq<u8>)
    requires
        forall|i: int| 0 <= i < bytes.len() ==> bytes[i] >= 128,
    ensures
        shortvec_len(bytes) is None,
{
}

/// After a signature count, a transaction is complete exactly if the count is
/// not zero and more than that many signatures follow; its first signature can
/// be read exactly if the count is not zero and one signature follows, and is
/// the next 64 bytes.
pub proof fn law_what_must_follow_the_count(count: nat, rest: Seq<u8>)
    requires
        count < 0x20_0000,
    ensures
        complete(shortvec(count) + rest) <==> count > 0 && rest.len() > 64 * count,
        first_signature(shortvec(count) + rest) is Some <==> count > 0 && rest.len() >= 64,
        first_signature(shortvec(count) + rest) matches Some(signature) ==> signature
            == rest.take(64),
{
    law_shortvec_round_trip(count, rest);
    let wire = shortvec(count) + rest;
    let at = shortvec(count).len();
    if rest.len() >= 64 {
        assert(wire.subrange(at as int, at as int + 64) =~= rest.take(64));
    }
}

/// Whatever holds no compact length is no transaction.
pub proof fn law_no_transaction_without_a_count(wire: Seq<u8>)
    requires
        shortvec_len(wire) is None,
    ensures
        !complete(wire),
        first_signature(wire) is None,
{
}

} // verus!
