//! Which validators a transaction must not be sent to.
use std::collections::{BTreeSet, HashMap, HashSet};
use vstd::prelude::*;

use crate::types::{contains_key, same_key, same_keys, Pubkey};

verus! {

/// Decides which peers are blocked.
pub trait Blocklist {
    /// Whether `peer` is blocked.
    spec fn blocks(&self, peer: Pubkey) -> bool;

    /// Whether `peer_address` is blocked.
    fn is_blocked(&self, peer_address: &Pubkey) -> (blocked: bool)
        ensures
            blocked == self.blocks(*peer_address),
    ;
}

/// Calls `HashSet::contains` on a set of byte arrays, for which vstd knows no
/// key model. Trusted: it tells whether the set holds the key.
#[verifier::external_body]
fn hash_set_contains(set: &HashSet<Pubkey>, key: &Pubkey) -> (held: bool)
    ensures
        held == set@.contains(*key),
{
    set.contains(key)
}

/// Calls `BTreeSet::contains` on a set of byte arrays, for which vstd knows no
/// order. Trusted: it tells whether the set holds the key.
#[verifier::external_body]
fn btree_set_contains(set: &BTreeSet<Pubkey>, key: &Pubkey) -> (held: bool)
    ensures
        held == set@.contains(*key),
{
    set.contains(key)
}

/// Calls `HashMap::contains_key` on a map from byte arrays, for which vstd knows
/// no key model. Trusted: it tells whether the map has an entry for the key.
#[verifier::external_body]
fn hash_map_contains_key<V>(entries: &HashMap<Pubkey, V>, key: &Pubkey) -> (held: bool)
    ensures
        held == entries@.contains_key(*key),
{
    entries.contains_key(key)
}

impl Blocklist for HashSet<Pubkey> {
    open spec fn blocks(&self, peer: Pubkey) -> bool {
        self@.contains(peer)
    }

    fn is_blocked(&self, pubkey: &Pubkey) -> bool {
        hash_set_contains(self, pubkey)
    }
}

impl Blocklist for BTreeSet<Pubkey> {
    open spec fn blocks(&self, peer: Pubkey) -> bool {
        self@.contains(peer)
    }

    fn is_blocked(&self, peer_address: &Pubkey) -> bool {
        btree_set_contains(self, peer_address)
    }
}

impl<V> Blocklist for HashMap<Pubkey, V> {
    open spec fn blocks(&self, peer: Pubkey) -> bool {
        self@.contains_key(peer)
    }

    fn is_blocked(&self, peer_address: &Pubkey) -> bool {
        hash_map_contains_key(self, peer_address)
    }
}

impl Blocklist for Vec<Pubkey> {
    open spec fn blocks(&self, peer: Pubkey) -> bool {
        self@.contains(peer)
    }

    fn is_blocked(&self, peer_address: &Pubkey) -> bool {
        contains_key(self.as_slice(), peer_address)
    }
}

impl Blocklist for &[Pubkey] {
    open spec fn blocks(&self, peer: Pubkey) -> bool {
        self@.contains(peer)
    }

    fn is_blocked(&self, peer_address: &Pubkey) -> bool {
        contains_key(self, peer_address)
    }
}

/// A blocklist that blocks nobody.
#[derive(Debug, Clone, Copy, PartialEq, Eq, Structural)]
pub struct NoBlocklist;

impl Blocklist for NoBlocklist {
    open spec fn blocks(&self, peer: Pubkey) -> bool {
        false
    }

    fn is_blocked(&self, _pubkey: &Pubkey) -> bool {
        false
    }
}

/// What a policy store answered to one lookup.
#[derive(Debug, Clone)]
pub struct PolicyAnswer {
    /// The policies that were consulted.
    pub policies: Vec<Pubkey>,
    /// The peer that was looked up.
    pub peer: Pubkey,
    /// Whether the policies allow it.
    pub allowed: bool,
}

/// What an answer says: the policies, the peer, and whether they allow it.
pub type PolicyAnswerView = (Seq<Pubkey>, Pubkey, bool);

impl View for PolicyAnswer {
    type V = PolicyAnswerView;

    open spec fn view(&self) -> PolicyAnswerView {
        (self.policies@, self.peer, self.allowed)
    }
}

/// A snapshot of a policy store: its answers. A lookup without an answer is one
/// that fails.
///
/// The answers are those that the policy store of the crate
/// `yellowstone-shield-store` gives to `is_allowed`. The caller looks them up and
/// hands them in. The store itself is not called from here: it follows the
/// policies over the network with an RPC client of its own, and this library
/// links neither.
pub struct PolicySnapshot {
    answers: Vec<PolicyAnswer>,
}

/// The first answer about `peer` under `policies`.
pub open spec fn first_answer(
    answers: Seq<PolicyAnswerView>,
    policies: Seq<Pubkey>,
    peer: Pubkey,
) -> Option<bool>
    decreases answers.len(),
{
    if answers.len() == 0 {
        None
    } else if answers[0].0 == policies && answers[0].1 == peer {
        Some(answers[0].2)
    } else {
        first_answer(answers.drop_first(), policies, peer)
    }
}

proof fn lemma_first_answer_at(
    answers: Seq<PolicyAnswerView>,
    policies: Seq<Pubkey>,
    peer: Pubkey,
    i: int,
)
    requires
        0 <= i <= answers.len(),
        forall|j: int| 0 <= j < i ==> (#[trigger] answers[j]).0 != policies || answers[j].1 != peer,
    ensures
        i < answers.len() && answers[i].0 == policies && answers[i].1 == peer ==> first_answer(
            answers,
            policies,
            peer,
        ) == Some(answers[i].2),
        i == answers.len() ==> first_answer(answers, policies, peer) is None,
    decreases i,
{
    if i > 0 {
        let rest = answers.drop_first();
        assert forall|j: int| 0 <= j < i - 1 implies (#[trigger] rest[j]).0 != policies
            || rest[j].1 != peer by {
            assert(rest[j] == answers[j + 1]);
        }
        assert(answers[0].0 != policies || answers[0].1 != peer);
        lemma_first_answer_at(rest, policies, peer, i - 1);
    }
}

impl View for PolicySnapshot {
    type V = Seq<PolicyAnswerView>;

    closed spec fn view(&self) -> Seq<PolicyAnswerView> {
        self.answers@.map_values(|answer: PolicyAnswer| answer@)
    }
}

impl PolicySnapshot {
    /// A snapshot that gives these answers.
    pub fn new(answers: Vec<PolicyAnswer>) -> (snapshot: Self)
        ensures
            snapshot@ == answers@.map_values(|answer: PolicyAnswer| answer@),
    {
        PolicySnapshot { answers }
    }

    /// Whether `policies` allow `peer`; `None` when the lookup fails.
    pub fn is_allowed(&self, policies: &[Pubkey], peer: &Pubkey) -> (allowed: Option<bool>)
        ensures
            allowed == first_answer(self@, policies@, *peer),
    {
        let mut i: usize = 0;
        while i < self.answers.len()
            invariant
                i <= self.answers.len(),
                self@ == self.answers@.map_values(|answer: PolicyAnswer| answer@),
                forall|j: int|
                    0 <= j < i ==> (#[trigger] self@[j]).0 != policies@ || self@[j].1 != *peer,
            decreases self.answers.len() - i,
        {
            let answer = &self.answers[i];
            assert(self@[i as int] == answer@);
            if same_key(&answer.peer, peer) && same_keys(answer.policies.as_slice(), policies) {
                proof {
                    lemma_first_answer_at(self@, policies@, *peer, i as int);
                }
                return Some(answer.allowed);
            }
            i += 1;
        }
        proof {
            lemma_first_answer_at(self@, policies@, *peer, i as int);
        }
        None
    }
}

/// Blocks the peers that shield policies do not allow.
pub struct ShieldBlockList<'a> {
    /// The policy store, as it stands.
    pub policy_store: &'a PolicySnapshot,
    /// The policies to consult.
    pub shield_policy_addresses: &'a [Pubkey],
    /// Whether a peer whose lookup fails is allowed; `true` sends when in
    /// doubt.
    pub default_return_value: bool,
}

impl Blocklist for ShieldBlockList<'_> {
    open spec fn blocks(&self, peer: Pubkey) -> bool {
        match first_answer(self.policy_store@, self.shield_policy_addresses@, peer) {
            Some(allowed) => !allowed,
            None => !self.default_return_value,
        }
    }

    fn is_blocked(&self, peer_address: &Pubkey) -> bool {
        match self.policy_store.is_allowed(self.shield_policy_addresses, peer_address) {
            Some(allowed) => !allowed,
            None => !self.default_return_value,
        }
    }
}

/// A list, a set and the keys of a map block exactly the peers that they hold.
pub proof fn law_lists_block_their_members<V>(
    list: Vec<Pubkey>,
    hashed: HashSet<Pubkey>,
    ordered: BTreeSet<Pubkey>,
    entries: HashMap<Pubkey, V>,
    peer: Pubkey,
)
    ensures
        list.blocks(peer) <==> exists|i: int| 0 <= i < list@.len() && #[trigger] list@[i] == peer,
        hashed.blocks(peer) <==> hashed@.contains(peer),
        ordered.blocks(peer) <==> ordered@.contains(peer),
        entries.blocks(peer) <==> entries@.dom().contains(peer),
        !NoBlocklist.blocks(peer),
{
}

/// A slice blocks exactly the peers that it holds.
pub proof fn law_slices_block_their_members(list: &[Pubkey], peer: Pubkey)
    ensures
        list.blocks(peer) <==> exists|i: int| 0 <= i < list@.len() && #[trigger] list@[i] == peer,
{
}

/// A shield blocks a peer that the first answer about it, under these very
/// policies, does not allow.
pub proof fn law_shield_follows_the_first_answer(shield: ShieldBlockList<'_>, peer: Pubkey, i: int)
    requires
        0 <= i < shield.policy_store@.len(),
        shield.policy_store@[i].0 == shield.shield_policy_addresses@,
        shield.policy_store@[i].1 == peer,
        forall|j: int|
            0 <= j < i ==> (#[trigger] shield.policy_store@[j]).0
                != shield.shield_policy_addresses@ || shield.policy_store@[j].1 != peer,
    ensures
        shield.blocks(peer) == !shield.policy_store@[i].2,
{
    lemma_first_answer_at(shield.policy_store@, shield.shield_policy_addresses@, peer, i);
}

/// Without an answer the default decides.
pub proof fn law_shield_falls_back_to_the_default(shield: ShieldBlockList<'_>, peer: Pubkey)
    requires
        forall|j: int|
            0 <= j < shield.policy_store@.len() ==> (#[trigger] shield.policy_store@[j]).0
                != shield.shield_policy_addresses@ || shield.policy_store@[j].1 != peer,
    ensures
        shield.blocks(peer) == !shield.default_return_value,
{
    lemma_first_answer_at(
        shield.policy_store@,
        shield.shield_policy_addresses@,
        peer,
        shield.policy_store@.len() as int,
    );
}

/// The view of an answer shows all of it.
pub proof fn law_view_shows_the_answer(answer: PolicyAnswer)
    ensures
        answer@.0 == answer.policies@,
        answer@.1 == answer.peer,
        answer@.2 == answer.allowed,
{
}

} // verus!
