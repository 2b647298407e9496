//! Where validators listen for transactions.
use vstd::prelude::*;
use vstd::slice::slice_to_vec;

use crate::types::{same_key, Pubkey, SocketAddr, TpuPortKind};

verus! {

/// The TPU QUIC sockets that one validator has announced.
#[derive(Debug, Clone, Copy)]
pub struct TpuContact {
    pub peer: Pubkey,
    pub normal: Option<SocketAddr>,
    pub forwards: Option<SocketAddr>,
}

impl TpuContact {
    /// The announced socket of one kind.
    pub open spec fn addr(self, kind: TpuPortKind) -> Option<SocketAddr> {
        match kind {
            TpuPortKind::Normal => self.normal,
            TpuPortKind::Forwards => self.forwards,
        }
    }
}

/// The contacts of the cluster's validators.
pub struct LeaderTpuInfo {
    contacts: Vec<TpuContact>,
}

/// The first contact of `peer` in a list.
spec fn first_contact(contacts: Seq<TpuContact>, peer: Pubkey) -> Option<TpuContact>
    decreases contacts.len(),
{
    if contacts.len() == 0 {
        None
    } else if contacts[0].peer == peer {
        Some(contacts[0])
    } else {
        first_contact(contacts.drop_first(), peer)
    }
}

proof fn lemma_first_contact_at(contacts: Seq<TpuContact>, peer: Pubkey, i: int)
    requires
        0 <= i <= contacts.len(),
        forall|j: int| 0 <= j < i ==> contacts[j].peer != peer,
    ensures
        i < contacts.len() && contacts[i].peer == peer ==> first_contact(contacts, peer) == Some(
            contacts[i],
        ),
        i == contacts.len() ==> first_contact(contacts, peer) is None,
    decreases i,
{
    if i > 0 {
        let rest = contacts.drop_first();
        assert forall|j: int| 0 <= j < i - 1 implies rest[j].peer != peer by {
            assert(rest[j] == contacts[j + 1]);
        }
        lemma_first_contact_at(rest, peer, i - 1);
    }
}

proof fn lemma_first_contact_update(contacts: Seq<TpuContact>, i: int, contact: TpuContact)
    requires
        0 <= i < contacts.len(),
        contacts[i].peer == contact.peer,
        forall|j: int| 0 <= j < i ==> contacts[j].peer != contact.peer,
    ensures
        forall|peer: Pubkey| #[trigger]
            first_contact(contacts.update(i, contact), peer) == if peer == contact.peer {
                Some(contact)
            } else {
                first_contact(contacts, peer)
            },
    decreases i,
{
    let updated = contacts.update(i, contact);
    assert forall|peer: Pubkey| #[trigger]
        first_contact(updated, peer) == if peer == contact.peer {
            Some(contact)
        } else {
            first_contact(contacts, peer)
        } by {
        if i == 0 {
            assert(updated.drop_first() =~= contacts.drop_first());
        } else {
            let rest = contacts.drop_first();
            assert forall|j: int| 0 <= j < i - 1 implies rest[j].peer != contact.peer by {
                assert(rest[j] == contacts[j + 1]);
            }
            lemma_first_contact_update(rest, i - 1, contact);
            assert(updated.drop_first() =~= rest.update(i - 1, contact));
            assert(first_contact(rest.update(i - 1, contact), peer) == if peer == contact.peer {
                Some(contact)
            } else {
                first_contact(rest, peer)
            });
        }
    }
}

proof fn lemma_first_contact_push(contacts: Seq<TpuContact>, contact: TpuContact)
    requires
        forall|j: int| 0 <= j < contacts.len() ==> contacts[j].peer != contact.peer,
    ensures
        forall|peer: Pubkey| #[trigger]
            first_contact(contacts.push(contact), peer) == if peer == contact.peer {
                Some(contact)
            } else {
                first_contact(contacts, peer)
            },
    decreases contacts.len(),
{
    let pushed = contacts.push(contact);
    assert forall|peer: Pubkey| #[trigger]
        first_contact(pushed, peer) == if peer == contact.peer {
            Some(contact)
        } else {
            first_contact(contacts, peer)
        } by {
        if contacts.len() == 0 {
            assert(pushed.drop_first() =~= contacts);
        } else {
            let rest = contacts.drop_first();
            assert forall|j: int| 0 <= j < rest.len() implies rest[j].peer != contact.peer by {
                assert(rest[j] == contacts[j + 1]);
            }
            lemma_first_contact_push(rest, contact);
            assert(pushed.drop_first() =~= rest.push(contact));
            assert(first_contact(rest.push(contact), peer) == if peer == contact.peer {
                Some(contact)
            } else {
                first_contact(rest, peer)
            });
        }
    }
}

impl LeaderTpuInfo {
    /// What is known of `peer`.
    pub closed spec fn contact(&self, peer: Pubkey) -> Option<TpuContact> {
        first_contact(self.contacts@, peer)
    }

    /// The known socket of `peer` of one kind.
    pub open spec fn addr(&self, peer: Pubkey, kind: TpuPortKind) -> Option<SocketAddr> {
        match self.contact(peer) {
            Some(contact) => contact.addr(kind),
            None => None,
        }
    }

    /// Nothing is known of any validator.
    pub fn new() -> (info: Self)
        ensures
            forall|peer: Pubkey| info.contact(peer) is None,
    {
        LeaderTpuInfo { contacts: Vec::new() }
    }

    /// Replaces what is known of one validator.
    pub fn announce(&mut self, contact: TpuContact)
        ensures
            forall|peer: Pubkey| #[trigger]
                final(self).contact(peer) == if peer == contact.peer {
                    Some(contact)
                } else {
                    old(self).contact(peer)
                },
    {
        let ghost before = self.contacts@;
        let mut i: usize = 0;
        while i < self.contacts.len()
            invariant
                before == old(self).contacts@,
                self.contacts@ == before,
                i <= before.len(),
                forall|j: int| 0 <= j < i ==> before[j].peer != contact.peer,
            decreases before.len() - i,
        {
            if same_key(&self.contacts[i].peer, &contact.peer) {
                proof {
                    lemma_first_contact_update(before, i as int, contact);
                }
                self.contacts.set(i, contact);
                assert(self.contacts@ =~= before.update(i as int, contact));
                return;
            }
            i += 1;
        }
        proof {
            lemma_first_contact_push(before, contact);
        }
        self.contacts.push(contact);
    }

    /// The socket to send to when the destination is `peer`, if it is known.
    pub fn get_quic_dest_addr(&self, peer: &Pubkey, kind: TpuPortKind) -> (addr: Option<SocketAddr>)
        ensures
            addr == self.addr(*peer, kind),
    {
        let mut i: usize = 0;
        while i < self.contacts.len()
            invariant
                i <= self.contacts.len(),
                forall|j: int| 0 <= j < i ==> self.contacts@[j].peer != *peer,
            decreases self.contacts.len() - i,
        {
            if same_key(&self.contacts[i].peer, peer) {
                proof {
                    lemma_first_contact_at(self.contacts@, *peer, i as int);
                }
                return match kind {
                    TpuPortKind::Normal => self.contacts[i].normal,
                    TpuPortKind::Forwards => self.contacts[i].forwards,
                };
            }
            i += 1;
        }
        proof {
            lemma_first_contact_at(self.contacts@, *peer, i as int);
        }
        None
    }
}

impl Clone for LeaderTpuInfo {
    /// The same contacts.
    fn clone(&self) -> (copy: Self)
        ensures
            forall|peer: Pubkey| #[trigger] copy.contact(peer) == self.contact(peer),
    {
        LeaderTpuInfo { contacts: slice_to_vec(self.contacts.as_slice()) }
    }
}

/// The socket of a validator is the one of that kind in what it has announced,
/// and unknown where it has announced nothing.
pub proof fn law_socket_is_the_announced_one(info: LeaderTpuInfo, peer: Pubkey)
    ensures
        info.contact(peer) matches Some(contact) ==> {
            &&& info.addr(peer, TpuPortKind::Normal) == contact.normal
            &&& info.addr(peer, TpuPortKind::Forwards) == contact.forwards
        },
        info.contact(peer) is None ==> {
            &&& info.addr(peer, TpuPortKind::Normal) is None
            &&& info.addr(peer, TpuPortKind::Forwards) is None
        },
{
}

} // verus!
