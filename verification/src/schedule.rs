//! The leader schedule, and the leaders of a window of slots.
use std::collections::HashMap;
use vstd::prelude::*;

use crate::slot::PoisonError;
use crate::types::Pubkey;

verus! {

broadcast use vstd::std_specs::hash::group_hash_axioms;

/// Reads the constant `solana_clock::NUM_CONSECUTIVE_LEADER_SLOTS`. Trusted: it
/// is 4.
#[verifier::external_body]
#[allow(deprecated)]
pub(crate) fn consecutive_leader_slots() -> (slots: u64)
    ensures
        slots == 4,
{
    solana_clock::NUM_CONSECUTIVE_LEADER_SLOTS
}

/// Which validator leads which slot, as far as the schedule service knows.
pub struct ManagedLeaderSchedule {
    leaders: HashMap<u64, Pubkey>,
    poisoned: bool,
}

impl View for ManagedLeaderSchedule {
    type V = Map<u64, Pubkey>;

    closed spec fn view(&self) -> Map<u64, Pubkey> {
        self.leaders@
    }
}

impl ManagedLeaderSchedule {
    /// Whether the schedule service has stopped.
    pub closed spec fn is_poisoned(&self) -> bool {
        self.poisoned
    }

    /// What a lookup of `slot` answers.
    pub open spec fn leader_of(&self, slot: u64) -> Result<Option<Pubkey>, PoisonError> {
        if self.is_poisoned() {
            Err(PoisonError)
        } else if self@.contains_key(slot) {
            Ok(Some(self@[slot]))
        } else {
            Ok(None)
        }
    }

    /// A schedule that knows no leader yet.
    pub fn new() -> (schedule: Self)
        ensures
            schedule@ == Map::<u64, Pubkey>::empty(),
            !schedule.is_poisoned(),
    {
        ManagedLeaderSchedule { leaders: HashMap::new(), poisoned: false }
    }

    /// Records that `leader` leads `slot`.
    pub fn assign(&mut self, slot: u64, leader: Pubkey)
        ensures
            final(self)@ == old(self)@.insert(slot, leader),
            final(self).is_poisoned() == old(self).is_poisoned(),
    {
        self.leaders.insert(slot, leader);
    }

    /// Marks the schedule service as stopped.
    pub fn poison(&mut self)
        ensures
            final(self)@ == old(self)@,
            final(self).is_poisoned(),
    {
        self.poisoned = true;
    }

    /// The leader of `slot`, if it is known.
    pub fn get_leader(&self, slot: u64) -> (leader: Result<Option<Pubkey>, PoisonError>)
        ensures
            leader == self.leader_of(slot),
    {
        if self.poisoned {
            return Err(PoisonError);
        }
        match self.leaders.get(&slot) {
            Some(leader) => Ok(Some(*leader)),
            None => Ok(None),
        }
    }
}

impl Clone for ManagedLeaderSchedule {
    /// A schedule that knows the same leaders.
    fn clone(&self) -> (copy: Self)
        ensures
            copy@ == self@,
            copy.is_poisoned() == self.is_poisoned(),
    {
        ManagedLeaderSchedule { leaders: self.leaders.clone(), poisoned: self.poisoned }
    }
}

/// The known leaders of the `n` slots from `start` on, in slot order.
pub open spec fn every_slot(leaders: Map<u64, Pubkey>, start: int, n: nat) -> Seq<Pubkey>
    decreases n,
{
    if n == 0 {
        Seq::empty()
    } else {
        let earlier = every_slot(leaders, start, (n - 1) as nat);
        let slot = (start + (n - 1)) as u64;
        if leaders.contains_key(slot) {
            earlier.push(leaders[slot])
        } else {
            earlier
        }
    }
}

/// How many of the slots `start`, `start + 4`, `start + 8`, ... among the `n`
/// from `start` on have a known leader that is blocked.
pub open spec fn blocked_steps(
    leaders: Map<u64, Pubkey>,
    start: int,
    n: nat,
    blocked: spec_fn(Pubkey) -> bool,
) -> nat
    decreases n,
{
    if n == 0 {
        0
    } else {
        let earlier = blocked_steps(leaders, start, (n - 1) as nat, blocked);
        let slot = (start + (n - 1)) as u64;
        if (n - 1) % 4 == 0 && leaders.contains_key(slot) && blocked(leaders[slot]) {
            earlier + 1
        } else {
            earlier
        }
    }
}

/// The slots among the `n` from `start` on whose leader is not known, in order.
pub open spec fn unknown_slots(leaders: Map<u64, Pubkey>, start: int, n: nat) -> Seq<u64>
    decreases n,
{
    if n == 0 {
        Seq::empty()
    } else {
        let earlier = unknown_slots(leaders, start, (n - 1) as nat);
        let slot = (start + (n - 1)) as u64;
        if leaders.contains_key(slot) {
            earlier
        } else {
            earlier.push(slot)
        }
    }
}

/// The keys of a sequence, each at its first place only.
pub open spec fn distinct(keys: Seq<Pubkey>) -> Seq<Pubkey>
    decreases keys.len(),
{
    if keys.len() == 0 {
        Seq::empty()
    } else {
        let earlier = distinct(keys.drop_last());
        if earlier.contains(keys.last()) {
            earlier
        } else {
            earlier.push(keys.last())
        }
    }
}

pub(crate) proof fn lemma_distinct_push(keys: Seq<Pubkey>, key: Pubkey)
    ensures
        distinct(keys.push(key)) == if distinct(keys).contains(key) {
            distinct(keys)
        } else {
            distinct(keys).push(key)
        },
{
    assert(keys.push(key).drop_last() =~= keys);
}

pub(crate) proof fn lemma_filter_push(
    keys: Seq<Pubkey>,
    keep: spec_fn(Pubkey) -> bool,
    key: Pubkey,
)
    ensures
        keys.push(key).filter(keep) == if keep(key) {
            keys.filter(keep).push(key)
        } else {
            keys.filter(keep)
        },
{
    reveal(Seq::filter);
    assert(keys.push(key).drop_last() =~= keys);
}

proof fn lemma_push_contains(keys: Seq<Pubkey>, last: Pubkey, key: Pubkey)
    ensures
        keys.push(last).contains(key) <==> keys.contains(key) || key == last,
{
    let longer = keys.push(last);
    if keys.contains(key) {
        let i = choose|i: int| 0 <= i < keys.len() && keys[i] == key;
        assert(longer[i] == key);
    }
    if key == last {
        assert(longer[keys.len() as int] == key);
    }
    if longer.contains(key) && key != last {
        let i = choose|i: int| 0 <= i < longer.len() && longer[i] == key;
        assert(keys[i] == key);
    }
}

/// Filtering keeps exactly the keys that are to be kept.
pub(crate) proof fn lemma_filter_contains(keys: Seq<Pubkey>, keep: spec_fn(Pubkey) -> bool)
    ensures
        forall|key: Pubkey| #[trigger]
            keys.filter(keep).contains(key) <==> keys.contains(key) && keep(key),
    decreases keys.len(),
{
    reveal(Seq::filter);
    if keys.len() > 0 {
        let front = keys.drop_last();
        lemma_filter_contains(front, keep);
        assert forall|key: Pubkey| #[trigger]
            keys.filter(keep).contains(key) <==> keys.contains(key) && keep(key) by {
            assert(front.filter(keep).contains(key) <==> front.contains(key) && keep(key));
            assert(keys =~= front.push(keys.last()));
            lemma_filter_push(front, keep, keys.last());
            lemma_push_contains(front, keys.last(), key);
            lemma_push_contains(front.filter(keep), keys.last(), key);
        }
    }
}

/// A sequence of keys and its distinct keys hold the same keys, and no distinct
/// key comes twice.
pub proof fn law_distinct_keeps_every_key_once(keys: Seq<Pubkey>)
    ensures
        distinct(keys).no_duplicates(),
        forall|key: Pubkey| #[trigger] distinct(keys).contains(key) <==> keys.contains(key),
    decreases keys.len(),
{
    if keys.len() > 0 {
        let front = keys.drop_last();
        law_distinct_keeps_every_key_once(front);
        assert forall|key: Pubkey| #[trigger] distinct(keys).contains(key) <==> keys.contains(
            key,
        ) by {
            assert(distinct(front).contains(key) <==> front.contains(key));
            assert(keys =~= front.push(keys.last()));
            lemma_push_contains(front, keys.last(), key);
            lemma_push_contains(distinct(front), keys.last(), key);
        }
    }
}

/// The distinct keys of a longer sequence start with those of a shorter one.
pub(crate) proof fn lemma_distinct_grows(keys: Seq<Pubkey>, more: Seq<Pubkey>)
    ensures
        distinct(keys).len() <= distinct(keys + more).len(),
        distinct(keys + more).take(distinct(keys).len() as int) == distinct(keys),
    decreases more.len(),
{
    if more.len() == 0 {
        assert(keys + more =~= keys);
        assert(distinct(keys).take(distinct(keys).len() as int) =~= distinct(keys));
    } else {
        let front = more.drop_last();
        lemma_distinct_grows(keys, front);
        assert(keys + more =~= (keys + front).push(more.last()));
        lemma_distinct_push(keys + front, more.last());
        assert(distinct(keys + more).take(distinct(keys).len() as int) =~= distinct(
            keys + front,
        ).take(distinct(keys).len() as int));
    }
}

/// A longer window starts with the leaders of a shorter one.
pub(crate) proof fn lemma_every_slot_grows(leaders: Map<u64, Pubkey>, start: int, m: nat, n: nat)
    requires
        m <= n,
    ensures
        exists|more: Seq<Pubkey>|
            #[trigger] (every_slot(leaders, start, m) + more) == every_slot(leaders, start, n),
    decreases n,
{
    let first = every_slot(leaders, start, m);
    if m == n {
        assert(first + Seq::<Pubkey>::empty() =~= first);
    } else {
        lemma_every_slot_grows(leaders, start, m, (n - 1) as nat);
        let earlier = every_slot(leaders, start, (n - 1) as nat);
        let more = choose|more: Seq<Pubkey>| #[trigger] (first + more) == earlier;
        let slot = (start + (n - 1)) as u64;
        if leaders.contains_key(slot) {
            assert(first + more.push(leaders[slot]) =~= earlier.push(leaders[slot]));
        } else {
            assert(first + more == every_slot(leaders, start, n));
        }
    }
}

/// Every listed key leads one of the slots, and the leader of each of them is
/// listed.
pub proof fn law_every_slot_covers_window(leaders: Map<u64, Pubkey>, start: int, n: nat)
    ensures
        forall|key: Pubkey| #[trigger]
            every_slot(leaders, start, n).contains(key) <==> exists|i: int|
                0 <= i < n && leaders.contains_key(#[trigger] ((start + i) as u64))
                    && leaders[(start + i) as u64] == key,
    decreases n,
{
    if n > 0 {
        let earlier = every_slot(leaders, start, (n - 1) as nat);
        let all = every_slot(leaders, start, n);
        law_every_slot_covers_window(leaders, start, (n - 1) as nat);
        assert forall|key: Pubkey| #[trigger] all.contains(key) <==> exists|i: int|
            0 <= i < n && leaders.contains_key(#[trigger] ((start + i) as u64))
                && leaders[(start + i) as u64] == key by {
            let slot = (start + (n - 1)) as u64;
            if all.contains(key) {
                let k = choose|k: int| 0 <= k < all.len() && all[k] == key;
                if k < earlier.len() {
                    assert(earlier[k] == key);
                    assert(earlier.contains(key));
                    let i = choose|i: int|
                        0 <= i < n - 1 && leaders.contains_key(#[trigger] ((start + i) as u64))
                            && leaders[(start + i) as u64] == key;
                    assert(leaders.contains_key((start + i) as u64));
                } else {
                    assert(leaders.contains_key((start + (n - 1)) as u64));
                }
            }
            if exists|i: int|
                0 <= i < n && leaders.contains_key(#[trigger] ((start + i) as u64))
                    && leaders[(start + i) as u64] == key {
                let i = choose|i: int|
                    0 <= i < n && leaders.contains_key(#[trigger] ((start + i) as u64))
                        && leaders[(start + i) as u64] == key;
                if i == n - 1 {
                    assert(all[earlier.len() as int] == key);
                } else {
                    assert(leaders.contains_key((start + i) as u64));
                    assert(earlier.contains(key));
                    let k = choose|k: int| 0 <= k < earlier.len() && earlier[k] == key;
                    assert(all[k] == key);
                }
            }
        }
    }
}

/// A stopped schedule answers no lookup. Any other answers all of them: with the
/// leader where it is known, and with none where it is not.
pub proof fn law_lookup_answers_while_the_service_runs(
    schedule: ManagedLeaderSchedule,
    slot: u64,
    leader: Pubkey,
)
    ensures
        schedule.leader_of(slot) is Err <==> schedule.is_poisoned(),
        schedule.leader_of(slot) == Ok::<Option<Pubkey>, PoisonError>(Some(leader)) <==> {
            &&& !schedule.is_poisoned()
            &&& schedule@.contains_pair(slot, leader)
        },
        schedule.leader_of(slot) == Ok::<Option<Pubkey>, PoisonError>(None) <==> {
            &&& !schedule.is_poisoned()
            &&& !schedule@.contains_key(slot)
        },
{
}

} // verus!
