//! Plain values shared by every module: account keys, signatures, socket
//! addresses and port kinds.
use vstd::prelude::*;

verus! {

/// The 32 bytes of an account address.
pub type Pubkey = [u8; 32];

/// The 64 bytes of a transaction signature.
pub type Signature = [u8; 64];

/// A socket address, with the IP address as one number in network order.
#[derive(Debug, Clone, Copy, PartialEq, Eq, Structural)]
pub enum SocketAddr {
    V4 { ipv4: u32, port: u16 },
    V6 { ipv6: u128, port: u16, flowinfo: u32, scope_id: u32 },
}

/// Which of a validator's TPU QUIC ports to contact.
#[derive(Debug, Clone, Copy, PartialEq, Eq, Structural)]
pub enum TpuPortKind {
    Normal,
    Forwards,
}

/// The port kind as it is named on a command line.
#[derive(Debug, Clone, Copy, PartialEq, Eq, Structural)]
pub enum TpuPortArg {
    Normal,
    Forwards,
}

impl From<TpuPortArg> for TpuPortKind {
    fn from(value: TpuPortArg) -> (kind: Self) {
        match value {
            TpuPortArg::Normal => TpuPortKind::Normal,
            TpuPortArg::Forwards => TpuPortKind::Forwards,
        }
    }
}

impl vstd::std_specs::convert::FromSpecImpl<TpuPortArg> for TpuPortKind {
    open spec fn obeys_from_spec() -> bool {
        true
    }

    open spec fn from_spec(value: TpuPortArg) -> Self {
        match value {
            TpuPortArg::Normal => TpuPortKind::Normal,
            TpuPortArg::Forwards => TpuPortKind::Forwards,
        }
    }
}

/// Whether two keys are the same key.
pub fn same_key(a: &Pubkey, b: &Pubkey) -> (same: bool)
    ensures
        same == (*a == *b),
{
    let mut i: usize = 0;
    while i < 32
        invariant
            i <= 32,
            forall|j: int| 0 <= j < i ==> a@[j] == b@[j],
        decreases 32 - i,
    {
        if a[i] != b[i] {
            assert(a@[i as int] != b@[i as int]);
            return false;
        }
        i += 1;
    }
    assert(*a =~= *b);
    true
}

/// Whether two lists hold the same keys, in the same order.
pub fn same_keys(a: &[Pubkey], b: &[Pubkey]) -> (same: bool)
    ensures
        same == (a@ == b@),
{
    if a.len() != b.len() {
        return false;
    }
    let mut i: usize = 0;
    while i < a.len()
        invariant
            i <= a.len(),
            a.len() == b.len(),
            forall|j: int| 0 <= j < i ==> a@[j] == b@[j],
        decreases a.len() - i,
    {
        if !same_key(&a[i], &b[i]) {
            assert(a@[i as int] != b@[i as int]);
            return false;
        }
        i += 1;
    }
    assert(a@ =~= b@);
    true
}

/// Whether a list of keys holds `key`.
pub fn contains_key(keys: &[Pubkey], key: &Pubkey) -> (found: bool)
    ensures
        found == keys@.contains(*key),
{
    let mut i: usize = 0;
    while i < keys.len()
        invariant
            i <= keys.len(),
            forall|j: int| 0 <= j < i ==> keys@[j] != *key,
        decreases keys.len() - i,
    {
        if same_key(&keys[i], key) {
            assert(keys@[i as int] == *key);
            return true;
        }
        i += 1;
    }
    false
}

/// Whether a list of socket addresses holds `addr`.
pub fn contains_addr(addrs: &[SocketAddr], addr: SocketAddr) -> (found: bool)
    ensures
        found == addrs@.contains(addr),
{
    let mut i: usize = 0;
    while i < addrs.len()
        invariant
            i <= addrs.len(),
            forall|j: int| 0 <= j < i ==> addrs@[j] != addr,
        decreases addrs.len() - i,
    {
        if addrs[i] == addr {
            assert(addrs@[i as int] == addr);
            return true;
        }
        i += 1;
    }
    false
}

} // verus!
