//! What the sender's choices promise as a whole.
use vstd::prelude::*;

use crate::blocklist::{Blocklist, NoBlocklist};
use crate::channel::QueueReply;
use crate::direct::DirectSend;
use crate::error::{SendError, SendErrorKind};
use crate::fanout::{
    addr_book, law_no_target_means_no_known_socket, law_targets_miss_no_socket,
    law_targets_use_each_socket_once, pending, targets,
};
use crate::many_dest::ManyDestSend;
use crate::schedule::{
    blocked_steps, distinct, every_slot, law_distinct_keeps_every_key_once,
    law_every_slot_covers_window, lemma_distinct_grows, lemma_distinct_push, lemma_every_slot_grows,
    lemma_filter_contains, lemma_filter_push, unknown_slots,
};
use crate::sender::{
    allowed, blocked_by, boundary_leaders, fast_end, fast_sent, fast_txn, first_two, into_boundary,
    law_nothing_blocked_allows_all, span, YellowstoneTpuSender,
};
use crate::slot::PoisonError;
use crate::types::{Pubkey, Signature, SocketAddr, TpuPortKind};
use crate::wire::wire_bytes;

verus! {

/// The fast paths go to the first two of the leaders that a window's upcoming
/// leaders list. (At the very end of the slot numbers the fast paths cut the
/// window, where the list is not defined.)
pub proof fn law_fast_leaders_lead_the_upcoming_ones(
    sender: YellowstoneTpuSender,
    fanout_slots: u64,
    blocked: spec_fn(Pubkey) -> bool,
)
    requires
        sender.window_fits(fanout_slots),
        forall|peer: Pubkey| !#[trigger] blocked(peer),
    ensures
        match sender.upcoming(fanout_slots, blocked) {
            Ok((leaders, blocked_count)) => {
                &&& blocked_count == 0
                &&& sender.fast_leaders(fanout_slots) == Ok::<Seq<Pubkey>, SendErrorKind>(
                    first_two(leaders),
                )
            },
            Err(kind) => sender.fast_leaders(fanout_slots) == Err::<Seq<Pubkey>, SendErrorKind>(
                kind,
            ),
        },
{
    if let Ok(slot) = sender.slot() {
        law_nothing_blocked_allows_all(sender.window_leaders(slot, fanout_slots), blocked);
        lemma_nothing_blocked_counts_none(
            sender.schedule()@,
            slot as int,
            span(fanout_slots) as nat,
            blocked,
        );
    }
}

proof fn lemma_nothing_blocked_counts_none(
    leaders: Map<u64, Pubkey>,
    start: int,
    n: nat,
    blocked: spec_fn(Pubkey) -> bool,
)
    requires
        forall|peer: Pubkey| !#[trigger] blocked(peer),
    ensures
        blocked_steps(leaders, start, n, blocked) == 0,
    decreases n,
{
    if n > 0 {
        lemma_nothing_blocked_counts_none(leaders, start, (n - 1) as nat, blocked);
    }
}

/// The fast paths go to the current leader and to the next one, where the
/// window reaches it: the leader of the first slot that another one leads.
pub proof fn law_fast_leaders_are_current_and_next(
    sender: YellowstoneTpuSender,
    slot: u64,
    next: u64,
    fanout_slots: u64,
)
    requires
        sender.slot() == Ok::<u64, PoisonError>(slot),
        !sender.schedule().is_poisoned(),
        slot < next < fast_end(slot, fanout_slots),
        sender.schedule()@.contains_key(slot),
        sender.schedule()@.contains_key(next),
        sender.schedule()@[slot] != sender.schedule()@[next],
        forall|between: u64|
            slot <= between < next && #[trigger] sender.schedule()@.contains_key(between)
                ==> sender.schedule()@[between] == sender.schedule()@[slot],
    ensures
        sender.fast_leaders(fanout_slots) == Ok::<Seq<Pubkey>, SendErrorKind>(
            seq![sender.schedule()@[slot], sender.schedule()@[next]],
        ),
{
    let leaders = sender.schedule()@;
    let start = slot as int;
    let n = (fast_end(slot, fanout_slots) - slot) as nat;
    let m = (next - slot) as nat;
    let both = seq![leaders[slot], leaders[next]];
    lemma_one_leader(leaders, slot, m);
    let earlier = every_slot(leaders, start, m);
    assert((start + (m + 1 - 1)) as u64 == next);
    assert(every_slot(leaders, start, m + 1) == earlier.push(leaders[next]));
    lemma_distinct_push(earlier, leaders[next]);
    assert(distinct(every_slot(leaders, start, m + 1)) =~= both);
    lemma_every_slot_grows(leaders, start, m + 1, n);
    let more = choose|more: Seq<Pubkey>| #[trigger]
        (every_slot(leaders, start, m + 1) + more) == every_slot(leaders, start, n);
    lemma_distinct_grows(every_slot(leaders, start, m + 1), more);
    assert(first_two(distinct(every_slot(leaders, start, n))) =~= both);
}

/// Slots that one leader leads, as far as it is known, list that leader.
proof fn lemma_one_leader(leaders: Map<u64, Pubkey>, slot: u64, n: nat)
    requires
        n > 0,
        slot + n <= u64::MAX,
        leaders.contains_key(slot),
        forall|s: u64|
            slot <= s < slot + n && #[trigger] leaders.contains_key(s) ==> leaders[s]
                == leaders[slot],
    ensures
        distinct(every_slot(leaders, slot as int, n)) == seq![leaders[slot]],
    decreases n,
{
    let start = slot as int;
    let earlier = every_slot(leaders, start, (n - 1) as nat);
    let last = (start + (n - 1)) as u64;
    if n == 1 {
        assert(last == slot);
        assert(earlier =~= Seq::<Pubkey>::empty());
        lemma_distinct_push(earlier, leaders[slot]);
        assert(distinct(every_slot(leaders, start, n)) =~= seq![leaders[slot]]);
    } else {
        lemma_one_leader(leaders, slot, (n - 1) as nat);
        if leaders.contains_key(last) {
            lemma_distinct_push(earlier, leaders[last]);
            assert(distinct(earlier)[0] == leaders[slot]);
        }
    }
}

/// The fast paths never choose more than two leaders, nor one twice, and each
/// leads a slot of the window.
pub proof fn law_fast_leaders_are_few_and_different(
    sender: YellowstoneTpuSender,
    slot: u64,
    fanout_slots: u64,
)
    requires
        sender.slot() == Ok::<u64, PoisonError>(slot),
    ensures
        sender.fast_leaders(fanout_slots) matches Ok(leaders) ==> {
            &&& leaders.len() <= 2
            &&& leaders.no_duplicates()
            &&& forall|key: Pubkey| #[trigger]
                leaders.contains(key) ==> exists|led: u64|
                    slot <= led < fast_end(slot, fanout_slots) && #[trigger]
                    sender.schedule()@.contains_key(led) && sender.schedule()@[led] == key
        },
{
    if let Ok(leaders) = sender.fast_leaders(fanout_slots) {
        let n = (fast_end(slot, fanout_slots) - slot) as nat;
        let known = every_slot(sender.schedule()@, slot as int, n);
        law_distinct_keeps_every_key_once(known);
        law_every_slot_covers_window(sender.schedule()@, slot as int, n);
        assert forall|key: Pubkey| #[trigger] leaders.contains(key) implies exists|led: u64|
            slot <= led < fast_end(slot, fanout_slots) && #[trigger]
            sender.schedule()@.contains_key(led) && sender.schedule()@[led] == key by {
            let k = choose|k: int| 0 <= k < leaders.len() && leaders[k] == key;
            assert(distinct(known)[k] == key);
            assert(distinct(known).contains(key));
            assert(known.contains(key));
            let i = choose|i: int|
                0 <= i < n && sender.schedule()@.contains_key(
                    #[trigger] ((slot as int + i) as u64),
                ) && sender.schedule()@[(slot as int + i) as u64] == key;
            assert(sender.schedule()@.contains_key((slot as int + i) as u64));
        }
    }
}

/// A fast send reaches at most two sockets, all of them different.
pub proof fn law_fast_plan_uses_each_socket_once(sender: YellowstoneTpuSender, fanout_slots: u64)
    ensures
        sender.fast_plan(fanout_slots) matches Ok(plan) ==> {
            &&& 0 < plan.len() <= 2
            &&& forall|i: int, j: int|
                0 <= i < j < plan.len() ==> (#[trigger] plan[i]).1 != (#[trigger] plan[j]).1
        },
{
    if let Ok(plan) = sender.fast_plan(fanout_slots) {
        let leaders = sender.fast_leaders(fanout_slots)->Ok_0;
        let book = addr_book(sender.info(), TpuPortKind::Normal);
        law_targets_use_each_socket_once(leaders, Seq::empty(), book);
        law_fast_leaders_are_few_and_different(sender, sender.slot()->Ok_0, fanout_slots);
        lemma_targets_len(leaders, Seq::empty(), book);
    }
}

proof fn lemma_targets_len(
    leaders: Seq<Pubkey>,
    seen: Seq<SocketAddr>,
    addr_of: spec_fn(Pubkey) -> Option<SocketAddr>,
)
    ensures
        targets(leaders, seen, addr_of).len() <= leaders.len(),
    decreases leaders.len(),
{
    if leaders.len() > 0 {
        let rest = leaders.drop_first();
        match addr_of(leaders[0]) {
            Some(addr) => {
                lemma_targets_len(rest, seen, addr_of);
                lemma_targets_len(rest, seen.push(addr), addr_of);
            },
            None => lemma_targets_len(rest, seen, addr_of),
        }
    }
}

/// Senders that know the same, such as a sender and its clone, go to the same
/// leaders at the same sockets.
pub proof fn law_agreeing_senders_choose_alike(
    sender: YellowstoneTpuSender,
    other: YellowstoneTpuSender,
    fanout_slots: u64,
    blocked: spec_fn(Pubkey) -> bool,
)
    requires
        sender.agrees_with(&other),
    ensures
        sender.fast_plan(fanout_slots) == other.fast_plan(fanout_slots),
        sender.upcoming(fanout_slots, blocked) == other.upcoming(fanout_slots, blocked),
        sender.destinations(blocked) == other.destinations(blocked),
        addr_book(sender.info(), sender.port()) == addr_book(other.info(), other.port()),
{
    assert(addr_book(sender.info(), TpuPortKind::Normal) =~= addr_book(
        other.info(),
        TpuPortKind::Normal,
    ));
    assert(addr_book(sender.info(), sender.port()) =~= addr_book(other.info(), other.port()));
}

/// Senders that know the same begin the same sends, and can look up the same
/// leaders.
pub proof fn law_agreeing_senders_begin_alike(
    sender: YellowstoneTpuSender,
    other: YellowstoneTpuSender,
    sig: Signature,
    wire: Seq<u8>,
    dests: Seq<Pubkey>,
    fanout: bool,
    send: ManyDestSend,
    fanout_slots: u64,
)
    requires
        sender.agrees_with(&other),
    ensures
        sender.many_dest_begun(sig, wire, dests, fanout, send) == other.many_dest_begun(
            sig,
            wire,
            dests,
            fanout,
            send,
        ),
        sender.can_choose() == other.can_choose(),
        sender.window_fits(fanout_slots) == other.window_fits(fanout_slots),
        sender.fanout() == other.fanout(),
        sender.coalesces() == other.coalesces(),
        sender.port() == other.port(),
{
}

/// A fast send only uses the queue: whatever is sent after it goes where it
/// would have gone before.
pub proof fn law_fast_send_only_uses_the_queue(
    before: YellowstoneTpuSender,
    after: YellowstoneTpuSender,
    sig: Signature,
    wire: Seq<u8>,
    fanout_slots: u64,
    sent: Result<usize, SendError>,
    later_slots: u64,
    blocked: spec_fn(Pubkey) -> bool,
)
    requires
        fast_sent(before, after, sig, wire, fanout_slots, sent),
    ensures
        after.agrees_with(&before),
        after.fast_plan(later_slots) == before.fast_plan(later_slots),
        after.upcoming(later_slots, blocked) == before.upcoming(later_slots, blocked),
        after.destinations(blocked) == before.destinations(blocked),
        after.fanout() == before.fanout(),
        after.coalesces() == before.coalesces(),
        after.port() == before.port(),
{
}

/// A fast send that offers nothing says why: what keeps the fast paths' leaders
/// from being looked up, that there is none, or that none has a known normal
/// socket.
pub proof fn law_fast_send_without_an_offer_says_why(
    before: YellowstoneTpuSender,
    after: YellowstoneTpuSender,
    sig: Signature,
    wire: Seq<u8>,
    fanout_slots: u64,
    sent: Result<usize, SendError>,
)
    requires
        fast_sent(before, after, sig, wire, fanout_slots, sent),
    ensures
        before.fast_leaders(fanout_slots) is Err ==> after.offers() == before.offers(),
        before.fast_leaders(fanout_slots) matches Ok(leaders) ==> (after.offers()
            == before.offers() <==> forall|leader: Pubkey| #[trigger]
            leaders.contains(leader) ==> before.info().addr(leader, TpuPortKind::Normal) is None),
        after.offers() == before.offers() ==> {
            &&& sent matches Err(e)
            &&& e.kind == match before.fast_leaders(fanout_slots) {
                Err(kind) => kind,
                Ok(leaders) => if leaders.len() == 0 {
                    SendErrorKind::NoKnownLeader
                } else {
                    SendErrorKind::NoKnownTpuAddress
                },
            }
        },
{
    if let Ok(leaders) = before.fast_leaders(fanout_slots) {
        let book = addr_book(before.info(), TpuPortKind::Normal);
        law_no_target_means_no_known_socket(leaders, book);
        assert forall|leader: Pubkey| #[trigger] leaders.contains(leader) implies book(leader)
            == before.info().addr(leader, TpuPortKind::Normal) by {}
    }
}

/// A send never goes to a blocked peer.
pub proof fn law_blocked_peers_are_not_destinations(
    sender: YellowstoneTpuSender,
    blocked: spec_fn(Pubkey) -> bool,
)
    ensures
        sender.destinations(blocked) matches Ok(dests) ==> forall|peer: Pubkey| #[trigger]
            dests.contains(peer) ==> !blocked(peer),
{
    if let Ok(dests) = sender.destinations(blocked) {
        let leaders = sender.lookups();
        lemma_filter_contains(leaders, |key: Pubkey| !blocked(key));
        law_distinct_keeps_every_key_once(allowed(leaders, blocked));
        assert forall|peer: Pubkey| #[trigger] dests.contains(peer) implies !blocked(peer) by {
            assert(allowed(leaders, blocked).contains(peer));
        }
    }
}

/// A send goes to every leader that it looks up and that is not blocked.
pub proof fn law_every_allowed_leader_is_a_destination(
    sender: YellowstoneTpuSender,
    blocked: spec_fn(Pubkey) -> bool,
)
    ensures
        sender.destinations(blocked) matches Ok(dests) ==> forall|peer: Pubkey| #[trigger]
            dests.contains(peer) <==> sender.lookups().contains(peer) && !blocked(peer),
{
    if let Ok(dests) = sender.destinations(blocked) {
        let leaders = sender.lookups();
        lemma_filter_contains(leaders, |key: Pubkey| !blocked(key));
        law_distinct_keeps_every_key_once(allowed(leaders, blocked));
        assert forall|peer: Pubkey| #[trigger] dests.contains(peer) <==> leaders.contains(peer)
            && !blocked(peer) by {
            assert(allowed(leaders, blocked).contains(peer) <==> leaders.contains(peer)
                && !blocked(peer));
            assert(distinct(allowed(leaders, blocked)).contains(peer) <==> allowed(
                leaders,
                blocked,
            ).contains(peer));
        }
    }
}

/// With a fanout window no destination comes twice.
pub proof fn law_fanout_destinations_are_different(
    sender: YellowstoneTpuSender,
    blocked: spec_fn(Pubkey) -> bool,
)
    requires
        sender.fanout() > 0,
    ensures
        sender.destinations(blocked) matches Ok(dests) ==> dests.no_duplicates(),
{
    law_distinct_keeps_every_key_once(allowed(sender.lookups(), blocked));
}

/// A send is refused as blocked exactly when it looks up a known leader and
/// every one of them is blocked.
pub proof fn law_refused_only_when_all_are_blocked(
    sender: YellowstoneTpuSender,
    blocked: spec_fn(Pubkey) -> bool,
)
    requires
        sender.slot() is Ok,
        !sender.schedule().is_poisoned(),
    ensures
        sender.destinations(blocked) == Err::<Seq<Pubkey>, SendErrorKind>(
            SendErrorKind::RemotePeerBlocked,
        ) <==> {
            &&& sender.lookups().len() > 0
            &&& forall|peer: Pubkey| #[trigger] sender.lookups().contains(peer) ==> blocked(peer)
        },
{
    let leaders = sender.lookups();
    let keep = |key: Pubkey| !blocked(key);
    lemma_filter_contains(leaders, keep);
    law_distinct_keeps_every_key_once(allowed(leaders, blocked));
    let dests = if sender.fanout() > 0 {
        distinct(allowed(leaders, blocked))
    } else {
        allowed(leaders, blocked)
    };
    if dests.len() > 0 {
        assert(dests.contains(dests[0]));
        assert(allowed(leaders, blocked).contains(dests[0]));
        assert(leaders.contains(dests[0]) && !blocked(dests[0]));
    } else {
        assert forall|peer: Pubkey| #[trigger] leaders.contains(peer) implies blocked(peer) by {
            if !blocked(peer) {
                assert(allowed(leaders, blocked).contains(peer));
                assert(dests.contains(peer));
            }
        }
    }
}

/// Sending without a blocklist, with [`NoBlocklist`], or with an empty list
/// goes to the same leaders.
pub proof fn law_no_blocklist_blocks_nobody<B: Blocklist>(
    sender: YellowstoneTpuSender,
    list: B,
)
    requires
        forall|peer: Pubkey| !#[trigger] list.blocks(peer),
    ensures
        sender.destinations(blocked_by::<B>(None)) == sender.destinations(
            blocked_by(Some(&NoBlocklist)),
        ),
        sender.destinations(blocked_by(Some(&list))) == sender.destinations(
            blocked_by(Some(&NoBlocklist)),
        ),
{
    assert(blocked_by::<B>(None) =~= blocked_by(Some(&NoBlocklist)));
    assert(blocked_by(Some(&list)) =~= blocked_by(Some(&NoBlocklist)));
}

/// A send that can begin has somewhere to go: with no leader to send to it is
/// refused.
pub proof fn law_begun_send_has_a_destination(
    sender: YellowstoneTpuSender,
    blocked: spec_fn(Pubkey) -> bool,
)
    requires
        sender.slot() is Ok,
        !sender.schedule().is_poisoned(),
    ensures
        sender.destinations(blocked) matches Ok(dests) ==> {
            &&& dests.len() > 0
            &&& pending(
                dests,
                Seq::empty(),
                sender.coalesces(),
                addr_book(sender.info(), sender.port()),
            ).len() > 0
        },
        sender.destinations(blocked) == Err::<Seq<Pubkey>, SendErrorKind>(
            SendErrorKind::NoKnownLeader,
        ) <==> sender.lookups().len() == 0,
{
    let leaders = sender.lookups();
    let keep = |key: Pubkey| !blocked(key);
    if leaders.len() == 0 {
        reveal(Seq::filter);
        assert(leaders.filter(keep).len() == 0);
    }
}

/// Without a window and with nobody blocked, a send goes to the leader of the
/// current four slots, and to the next leader too when half of the four have
/// passed.
pub proof fn law_boundary_leaders(
    sender: YellowstoneTpuSender,
    slot: u64,
    blocked: spec_fn(Pubkey) -> bool,
)
    requires
        sender.fanout() == 0,
        sender.slot() == Ok::<u64, PoisonError>(slot),
        !sender.schedule().is_poisoned(),
        forall|peer: Pubkey| !#[trigger] blocked(peer),
    ensures
        ({
            let floor = slot - slot as int % 4;
            let leader = sender.schedule()@[floor as u64];
            sender.destinations(blocked) == Ok::<Seq<Pubkey>, SendErrorKind>(
                if slot as int % 4 >= 2 {
                    seq![leader, sender.schedule()@[(floor + 4) as u64]]
                } else {
                    seq![leader]
                },
            )
        }),
{
    law_nothing_blocked_allows_all(boundary_leaders(sender.schedule()@, slot), blocked);
}

/// A window looks up the leaders of its slots, as far as they are known.
pub proof fn law_window_leaders(
    sender: YellowstoneTpuSender,
    slot: u64,
    fanout_slots: u64,
    key: Pubkey,
)
    requires
        slot + span(fanout_slots) <= u64::MAX,
    ensures
        sender.window_leaders(slot, fanout_slots).contains(key) <==> exists|led: u64|
            slot <= led < slot + span(fanout_slots) && #[trigger] sender.schedule()@.contains_key(
                led,
            ) && sender.schedule()@[led] == key,
{
    let leaders = sender.schedule()@;
    let n = span(fanout_slots) as nat;
    law_every_slot_covers_window(leaders, slot as int, n);
    if sender.window_leaders(slot, fanout_slots).contains(key) {
        let i = choose|i: int|
            0 <= i < n && leaders.contains_key(#[trigger] ((slot as int + i) as u64))
                && leaders[(slot as int + i) as u64] == key;
        assert(leaders.contains_key((slot as int + i) as u64));
    }
    if exists|led: u64|
        slot <= led < slot + span(fanout_slots) && #[trigger] leaders.contains_key(led)
            && leaders[led] == key {
        let led = choose|led: u64|
            slot <= led < slot + span(fanout_slots) && #[trigger] leaders.contains_key(led)
                && leaders[led] == key;
        let i = led - slot;
        assert((slot as int + i) as u64 == led);
        assert(every_slot(leaders, slot as int, n).contains(key));
    }
}

/// The upcoming leaders of a window miss no leader: whoever leads one of its
/// slots, as far as that is known, is among them once, unless blocked.
pub proof fn law_window_misses_no_leader(
    sender: YellowstoneTpuSender,
    slot: u64,
    fanout_slots: u64,
    in_window: u64,
    blocked: spec_fn(Pubkey) -> bool,
)
    requires
        sender.slot() == Ok::<u64, PoisonError>(slot),
        !sender.schedule().is_poisoned(),
        slot <= in_window < slot + span(fanout_slots) <= u64::MAX,
        sender.schedule()@.contains_key(in_window),
    ensures
        sender.upcoming(fanout_slots, blocked) matches Ok((leaders, _)) && {
            &&& leaders.no_duplicates()
            &&& leaders.contains(sender.schedule()@[in_window]) || blocked(
                sender.schedule()@[in_window],
            )
        },
{
    let known = sender.window_leaders(slot, fanout_slots);
    let leader = sender.schedule()@[in_window];
    law_window_leaders(sender, slot, fanout_slots, leader);
    lemma_filter_contains(known, |key: Pubkey| !blocked(key));
    law_distinct_keeps_every_key_once(allowed(known, blocked));
    if !blocked(leader) {
        assert(allowed(known, blocked).contains(leader));
        assert(distinct(allowed(known, blocked)).contains(leader));
    }
}

/// Every slot of a window either has a known leader or is listed as unknown.
pub proof fn law_unknown_slots_are_the_rest(
    leaders: Map<u64, Pubkey>,
    start: u64,
    n: nat,
    slot: u64,
)
    requires
        start + n <= u64::MAX,
    ensures
        unknown_slots(leaders, start as int, n).contains(slot) <==> start <= slot < start + n
            && !leaders.contains_key(slot),
    decreases n,
{
    if n > 0 {
        let earlier = unknown_slots(leaders, start as int, (n - 1) as nat);
        let last = (start as int + (n - 1)) as u64;
        law_unknown_slots_are_the_rest(leaders, start, (n - 1) as nat, slot);
        if !leaders.contains_key(last) {
            let all = earlier.push(last);
            assert(all[earlier.len() as int] == last);
            if earlier.contains(slot) {
                let k = choose|k: int| 0 <= k < earlier.len() && earlier[k] == slot;
                assert(all[k] == slot);
            }
            if all.contains(slot) && slot != last {
                let k = choose|k: int| 0 <= k < all.len() && all[k] == slot;
                assert(earlier[k] == slot);
            }
        }
    }
}

/// Whether a schedule gives every leader four slots in a row that start at a
/// multiple of four.
pub open spec fn by_fours(leaders: Map<u64, Pubkey>) -> bool {
    forall|slot: u64| #[trigger]
        leaders.contains_key(slot) ==> forall|other: u64|
            other / 4 == slot / 4 ==> #[trigger] leaders.contains_key(other) && leaders[other]
                == leaders[slot]
}

/// In a window that starts with a leader's four slots, the upcoming leaders and
/// the blocked steps together are no more than the steps of four.
pub proof fn law_leaders_and_blocked_fit_the_steps(
    leaders: Map<u64, Pubkey>,
    start: u64,
    n: nat,
    blocked: spec_fn(Pubkey) -> bool,
)
    requires
        by_fours(leaders),
        start % 4 == 0,
        start + n <= u64::MAX,
    ensures
        distinct(allowed(every_slot(leaders, start as int, n), blocked)).len() + blocked_steps(
            leaders,
            start as int,
            n,
            blocked,
        ) <= (n + 3) / 4,
    decreases n,
{
    let keep = |key: Pubkey| !blocked(key);
    if n == 0 {
        reveal(Seq::filter);
        assert(every_slot(leaders, start as int, n).filter(keep).len() == 0);
    } else {
        let m = (n - 1) as nat;
        law_leaders_and_blocked_fit_the_steps(leaders, start, m, blocked);
        let known = every_slot(leaders, start as int, m);
        let slot = (start as int + (n - 1)) as u64;
        if leaders.contains_key(slot) {
            lemma_filter_push(known, keep, leaders[slot]);
            lemma_distinct_push(known.filter(keep), leaders[slot]);
            if (n - 1) % 4 != 0 && !blocked(leaders[slot]) {
                let before = (slot - 1) as u64;
                assert(before / 4 == slot / 4);
                assert(leaders.contains_key(before) && leaders[before] == leaders[slot]);
                assert((start as int + (m - 1)) as u64 == before);
                assert(known.last() == leaders[slot]);
                assert(known.contains(leaders[slot]));
                lemma_filter_contains(known, keep);
                law_distinct_keeps_every_key_once(known.filter(keep));
                assert(known.filter(keep).contains(leaders[slot]));
                assert(distinct(known.filter(keep)).contains(leaders[slot]));
            }
        }
    }
}

/// Whether `key` leads a known slot in `from..to`.
pub open spec fn leads(schedule: Map<u64, Pubkey>, from: int, to: int, key: Pubkey) -> bool {
    exists|led: u64|
        from <= led < to && #[trigger] schedule.contains_key(led) && schedule[led] == key
}

/// Whether, in `from..to`, `earlier` leads a slot before any that `later` leads.
pub open spec fn leads_before(
    schedule: Map<u64, Pubkey>,
    from: int,
    to: int,
    earlier: Pubkey,
    later: Pubkey,
) -> bool {
    forall|t: u64|
        from <= t < to && #[trigger] schedule.contains_key(t) && schedule[t] == later ==> leads(
            schedule,
            from,
            t as int,
            earlier,
        )
}

/// The list of a window's leaders holds exactly those who lead a slot and are
/// not blocked, and whoever comes first in it leads an earlier slot.
proof fn lemma_listed_in_slot_order(
    leaders: Map<u64, Pubkey>,
    start: u64,
    n: nat,
    blocked: spec_fn(Pubkey) -> bool,
    listed: Seq<Pubkey>,
)
    requires
        start + n <= u64::MAX,
        listed == distinct(allowed(every_slot(leaders, start as int, n), blocked)),
    ensures
        forall|key: Pubkey| #[trigger]
            listed.contains(key) <==> !blocked(key) && leads(
                leaders,
                start as int,
                start + n,
                key,
            ),
        forall|i: int, j: int|
            0 <= i < j < listed.len() ==> leads_before(
                leaders,
                start as int,
                start + n,
                #[trigger] listed[i],
                #[trigger] listed[j],
            ),
    decreases n,
{
    let keep = |key: Pubkey| !blocked(key);
    let known = every_slot(leaders, start as int, n);
    lemma_filter_contains(known, keep);
    law_distinct_keeps_every_key_once(allowed(known, blocked));
    assert forall|key: Pubkey| #[trigger] listed.contains(key) <==> !blocked(key) && leads(
        leaders,
        start as int,
        start + n,
        key,
    ) by {
        assert(allowed(known, blocked).contains(key) <==> known.contains(key) && !blocked(key));
        lemma_known_in_window(leaders, start, n, key);
    }
    if n == 0 {
        reveal(Seq::filter);
        assert(known.filter(keep).len() == 0);
    } else {
        let m = (n - 1) as nat;
        let last = (start as int + (n - 1)) as u64;
        let before = every_slot(leaders, start as int, m);
        let shorter = distinct(allowed(before, blocked));
        lemma_listed_in_slot_order(leaders, start, m, blocked, shorter);
        if leaders.contains_key(last) {
            lemma_filter_push(before, keep, leaders[last]);
            lemma_distinct_push(before.filter(keep), leaders[last]);
        }
        assert forall|i: int, j: int| 0 <= i < j < listed.len() implies leads_before(
            leaders,
            start as int,
            start + n,
            #[trigger] listed[i],
            #[trigger] listed[j],
        ) by {
            assert(listed[i] == shorter[i]);
            assert(shorter.contains(shorter[i]));
            assert(listed.contains(listed[j]));
            assert forall|t: u64|
                start <= t < start + n && #[trigger] leaders.contains_key(t) && leaders[t]
                    == listed[j] implies leads(leaders, start as int, t as int, listed[i]) by {
                if t < last {
                    assert(leads(leaders, start as int, start + m, listed[j]));
                    assert(shorter.contains(listed[j]));
                    let k = choose|k: int| 0 <= k < shorter.len() && shorter[k] == listed[j];
                    assert(listed[k] == listed[j]);
                    assert(j == k);
                    assert(leads_before(leaders, start as int, start + m, shorter[i], shorter[j]));
                } else {
                    assert(start + m == t);
                }
            }
        }
    }
}

proof fn lemma_known_in_window(leaders: Map<u64, Pubkey>, start: u64, n: nat, key: Pubkey)
    requires
        start + n <= u64::MAX,
    ensures
        every_slot(leaders, start as int, n).contains(key) <==> leads(
            leaders,
            start as int,
            start + n,
            key,
        ),
{
    law_every_slot_covers_window(leaders, start as int, n);
    if every_slot(leaders, start as int, n).contains(key) {
        let i = choose|i: int|
            0 <= i < n && leaders.contains_key(#[trigger] ((start as int + i) as u64))
                && leaders[(start as int + i) as u64] == key;
        assert(leaders.contains_key((start as int + i) as u64));
    }
    if exists|led: u64|
        start <= led < start + n && #[trigger] leaders.contains_key(led) && leaders[led] == key {
        let led = choose|led: u64|
            start <= led < start + n && #[trigger] leaders.contains_key(led) && leaders[led] == key;
        let i = led - start;
        assert((start as int + i) as u64 == led);
        assert(every_slot(leaders, start as int, n).contains(key));
    }
}

proof fn lemma_blocked_steps_count(
    leaders: Map<u64, Pubkey>,
    start: int,
    n: nat,
    blocked: spec_fn(Pubkey) -> bool,
)
    ensures
        blocked_steps(leaders, start, n, blocked) == Seq::new((n + 3) / 4, |k: int| k).filter(
            |k: int|
                leaders.contains_key((start + 4 * k) as u64) && blocked(
                    leaders[(start + 4 * k) as u64],
                ),
        ).len(),
    decreases n,
{
    let counted = |k: int|
        leaders.contains_key((start + 4 * k) as u64) && blocked(leaders[(start + 4 * k) as u64]);
    let steps = Seq::new((n + 3) / 4, |k: int| k);
    reveal(Seq::filter);
    if n == 0 {
        assert(steps.filter(counted).len() == 0);
    } else {
        lemma_blocked_steps_count(leaders, start, (n - 1) as nat, blocked);
        let fewer = Seq::new((n - 1 + 3) as nat / 4, |k: int| k);
        if (n - 1) % 4 == 0 {
            assert(steps.drop_last() =~= fewer);
            assert(start + 4 * steps.last() == start + (n - 1));
        } else {
            assert(steps =~= fewer);
        }
    }
}

/// The upcoming leaders of a window are those who lead one of its slots, as far
/// as that is known, and are not blocked: each once, in the order of their first
/// slots. The count is that of the slots at steps of four from the current one
/// whose known leader is blocked.
pub proof fn law_upcoming_leaders(
    sender: YellowstoneTpuSender,
    slot: u64,
    fanout_slots: u64,
    width: u64,
    blocked: spec_fn(Pubkey) -> bool,
)
    requires
        sender.slot() == Ok::<u64, PoisonError>(slot),
        !sender.schedule().is_poisoned(),
        width == if fanout_slots == 0 {
            1
        } else {
            fanout_slots
        },
        slot + width <= u64::MAX,
    ensures
        sender.upcoming(fanout_slots, blocked) matches Ok((leaders, blocked_count)) && {
            &&& leaders.no_duplicates()
            &&& forall|key: Pubkey| #[trigger]
                leaders.contains(key) <==> !blocked(key) && leads(
                    sender.schedule()@,
                    slot as int,
                    slot + width,
                    key,
                )
            &&& forall|i: int, j: int|
                0 <= i < j < leaders.len() ==> leads_before(
                    sender.schedule()@,
                    slot as int,
                    slot + width,
                    #[trigger] leaders[i],
                    #[trigger] leaders[j],
                )
            &&& blocked_count == Seq::new((width as nat + 3) / 4, |k: int| k).filter(
                |k: int|
                    sender.schedule()@.contains_key((slot as int + 4 * k) as u64) && blocked(
                        sender.schedule()@[(slot as int + 4 * k) as u64],
                    ),
            ).len()
        },
{
    let known = sender.window_leaders(slot, fanout_slots);
    let leaders = distinct(allowed(known, blocked));
    lemma_listed_in_slot_order(sender.schedule()@, slot, width as nat, blocked, leaders);
    law_distinct_keeps_every_key_once(allowed(known, blocked));
    lemma_blocked_steps_count(sender.schedule()@, slot as int, width as nat, blocked);
}

/// The fast paths choose at most two leaders: the first two, by their first
/// slots, of those who lead a slot of the window. They choose fewer only where
/// there are no more. The window ends where the slot numbers do.
pub proof fn law_fast_leaders_are_the_first(
    sender: YellowstoneTpuSender,
    slot: u64,
    fanout_slots: u64,
    end: u64,
)
    requires
        sender.slot() == Ok::<u64, PoisonError>(slot),
        !sender.schedule().is_poisoned(),
        end == if fanout_slots == 0 && slot < u64::MAX {
            slot + 1
        } else if slot + fanout_slots < u64::MAX {
            slot + fanout_slots
        } else {
            u64::MAX as int
        },
    ensures
        sender.fast_leaders(fanout_slots) matches Ok(leaders) && {
            &&& leaders.len() <= 2
            &&& leaders.no_duplicates()
            &&& forall|i: int|
                0 <= i < leaders.len() ==> leads(
                    sender.schedule()@,
                    slot as int,
                    end as int,
                    #[trigger] leaders[i],
                )
            &&& forall|i: int, other: Pubkey|
                0 <= i < leaders.len() && !#[trigger] leaders.take(i + 1).contains(other)
                    ==> leads_before(
                    sender.schedule()@,
                    slot as int,
                    end as int,
                    leaders[i],
                    other,
                )
            &&& leaders.len() < 2 ==> forall|key: Pubkey|
                leads(sender.schedule()@, slot as int, end as int, key)
                    ==> #[trigger] leaders.contains(key)
        },
{
    let schedule = sender.schedule()@;
    let n = (end - slot) as nat;
    assert(end == fast_end(slot, fanout_slots));
    let nobody = |key: Pubkey| false;
    let known = every_slot(schedule, slot as int, n);
    let all = distinct(known);
    law_nothing_blocked_allows_all(known, nobody);
    lemma_listed_in_slot_order(schedule, slot, n, nobody, all);
    law_distinct_keeps_every_key_once(known);
    let leaders = first_two(all);
    assert(sender.fast_leaders(fanout_slots) == Ok::<Seq<Pubkey>, SendErrorKind>(leaders));
    assert forall|i: int| 0 <= i < leaders.len() implies leads(
        schedule,
        slot as int,
        end as int,
        #[trigger] leaders[i],
    ) by {
        assert(all.contains(all[i]));
    }
    assert forall|i: int, other: Pubkey|
        0 <= i < leaders.len() && !#[trigger] leaders.take(i + 1).contains(
            other,
        ) implies leads_before(schedule, slot as int, end as int, leaders[i], other) by {
        if leads(schedule, slot as int, end as int, other) {
            assert(all.contains(other));
            let j = choose|j: int| 0 <= j < all.len() && all[j] == other;
            if j <= i {
                assert(leaders.take(i + 1)[j] == other);
            }
            assert(leads_before(schedule, slot as int, end as int, all[i], all[j]));
        } else {
            assert forall|t: u64|
                slot <= t < end && #[trigger] schedule.contains_key(t) && schedule[t]
                    == other implies leads(schedule, slot as int, t as int, leaders[i]) by {
                assert(leads(schedule, slot as int, end as int, other));
            }
        }
    }
    if leaders.len() < 2 {
        assert forall|key: Pubkey| leads(
            schedule,
            slot as int,
            end as int,
            key,
        ) implies #[trigger] leaders.contains(key) by {
            assert(all.contains(key));
        }
    }
}

/// Once the slot stream has stopped every way of sending says so, and once the
/// schedule service has stopped every way that looks up a slot does.
pub proof fn law_stopped_services_are_reported(
    sender: YellowstoneTpuSender,
    fanout_slots: u64,
    blocked: spec_fn(Pubkey) -> bool,
)
    ensures
        sender.slot() is Err ==> {
            let stopped = SendErrorKind::SlotTrackerDisconnected;
            &&& sender.fast_leaders(fanout_slots) == Err::<Seq<Pubkey>, SendErrorKind>(stopped)
            &&& sender.upcoming(fanout_slots, blocked) == Err::<
                (Seq<Pubkey>, nat),
                SendErrorKind,
            >(stopped)
            &&& sender.destinations(blocked) == Err::<Seq<Pubkey>, SendErrorKind>(stopped)
        },
        sender.slot() is Ok && sender.schedule().is_poisoned() ==> {
            let stopped = SendErrorKind::ManagedLeaderScheduleDisconnected;
            &&& sender.upcoming(fanout_slots, blocked) == Err::<
                (Seq<Pubkey>, nat),
                SendErrorKind,
            >(stopped)
            &&& sender.destinations(blocked) == Err::<Seq<Pubkey>, SendErrorKind>(stopped)
            &&& sender.slot()->Ok_0 < u64::MAX ==> sender.fast_leaders(fanout_slots) == Err::<
                Seq<Pubkey>,
                SendErrorKind,
            >(stopped)
        },
{
}

/// A fast send goes to every normal socket that is known for its leaders: the
/// socket of one leader is enough for it to set out.
pub proof fn law_fast_plan_holds_every_known_socket(
    sender: YellowstoneTpuSender,
    fanout_slots: u64,
    leader: Pubkey,
)
    requires
        sender.fast_leaders(fanout_slots) matches Ok(leaders) && leaders.contains(leader),
        sender.info().addr(leader, TpuPortKind::Normal) is Some,
    ensures
        sender.fast_plan(fanout_slots) matches Ok(plan) && exists|i: int|
            0 <= i < plan.len() && Some((#[trigger] plan[i]).1) == sender.info().addr(
                leader,
                TpuPortKind::Normal,
            ),
{
    let leaders = sender.fast_leaders(fanout_slots)->Ok_0;
    let book = addr_book(sender.info(), TpuPortKind::Normal);
    let addr = sender.info().addr(leader, TpuPortKind::Normal)->0;
    let all = targets(leaders, Seq::empty(), book);
    law_targets_miss_no_socket(leaders, Seq::empty(), book, leader, addr);
    let i = choose|i: int| 0 <= i < all.len() && (#[trigger] all[i]).1 == addr;
    assert(leaders.len() > 0);
    assert(sender.fast_plan(fanout_slots)->Ok_0[i].1 == addr);
}

/// A fast send goes to no other socket than the known normal sockets of its
/// leaders, and to none twice. It is refused for want of a leader exactly where
/// it has none, and for want of a socket exactly where it has leaders and knows
/// no normal socket of any.
pub proof fn law_fast_plan_holds_nothing_else(sender: YellowstoneTpuSender, fanout_slots: u64)
    requires
        sender.fast_leaders(fanout_slots) is Ok,
    ensures
        ({
            let leaders = sender.fast_leaders(fanout_slots)->Ok_0;
            match sender.fast_plan(fanout_slots) {
                Ok(plan) => {
                    &&& plan.len() > 0
                    &&& forall|i: int|
                        0 <= i < plan.len() ==> {
                            &&& leaders.contains((#[trigger] plan[i]).0)
                            &&& sender.info().addr(plan[i].0, TpuPortKind::Normal) == Some(
                                plan[i].1,
                            )
                        }
                    &&& forall|i: int, j: int|
                        0 <= i < j < plan.len() ==> (#[trigger] plan[i]).1 != (
                        #[trigger] plan[j]).1
                },
                Err(kind) => if leaders.len() == 0 {
                    kind == SendErrorKind::NoKnownLeader
                } else {
                    &&& kind == SendErrorKind::NoKnownTpuAddress
                    &&& forall|leader: Pubkey| #[trigger]
                        leaders.contains(leader) ==> sender.info().addr(
                            leader,
                            TpuPortKind::Normal,
                        ) is None
                },
            }
        }),
{
    let leaders = sender.fast_leaders(fanout_slots)->Ok_0;
    let book = addr_book(sender.info(), TpuPortKind::Normal);
    let all = targets(leaders, Seq::empty(), book);
    law_targets_use_each_socket_once(leaders, Seq::empty(), book);
    law_no_target_means_no_known_socket(leaders, book);
    if all.len() == 0 {
        assert forall|leader: Pubkey| #[trigger]
            leaders.contains(leader) implies sender.info().addr(
            leader,
            TpuPortKind::Normal,
        ) is None by {
            assert(book(leader) is None);
        }
    } else {
        assert forall|i: int| 0 <= i < all.len() implies leaders.contains((#[trigger] all[i]).0)
            && sender.info().addr(all[i].0, TpuPortKind::Normal) == Some(all[i].1) by {
            assert(book(all[i].0) == Some(all[i].1));
        }
    }
}

/// A send with a configured window goes to whoever leads one of the window's
/// slots, as far as that is known, and is not blocked: each once, in the order
/// of their first slots. It is refused as blocked where the known leaders are
/// all blocked, and for want of a leader where none is known.
pub proof fn law_send_goes_to_the_window(
    sender: YellowstoneTpuSender,
    slot: u64,
    blocked: spec_fn(Pubkey) -> bool,
)
    requires
        sender.slot() == Ok::<u64, PoisonError>(slot),
        !sender.schedule().is_poisoned(),
        sender.fanout() > 0,
        slot + sender.fanout() <= u64::MAX,
    ensures
        ({
            let end = slot + sender.fanout();
            match sender.destinations(blocked) {
                Ok(dests) => {
                    &&& dests.len() > 0
                    &&& dests.no_duplicates()
                    &&& forall|key: Pubkey| #[trigger]
                        dests.contains(key) <==> !blocked(key) && leads(
                            sender.schedule()@,
                            slot as int,
                            end,
                            key,
                        )
                    &&& forall|i: int, j: int|
                        0 <= i < j < dests.len() ==> leads_before(
                            sender.schedule()@,
                            slot as int,
                            end,
                            #[trigger] dests[i],
                            #[trigger] dests[j],
                        )
                },
                Err(kind) => {
                    &&& forall|key: Pubkey| #[trigger]
                        leads(sender.schedule()@, slot as int, end, key) ==> blocked(key)
                    &&& if exists|key: Pubkey| #[trigger]
                        leads(sender.schedule()@, slot as int, end, key) {
                        kind == SendErrorKind::RemotePeerBlocked
                    } else {
                        kind == SendErrorKind::NoKnownLeader
                    }
                },
            }
        }),
{
    let schedule = sender.schedule()@;
    let n = sender.fanout() as nat;
    let known = every_slot(schedule, slot as int, n);
    let dests = distinct(allowed(known, blocked));
    assert(known == sender.lookups());
    lemma_listed_in_slot_order(schedule, slot, n, blocked, dests);
    law_distinct_keeps_every_key_once(allowed(known, blocked));
    if dests.len() == 0 {
        assert forall|key: Pubkey| #[trigger]
            leads(schedule, slot as int, slot + n, key) implies blocked(key) by {
            if !blocked(key) {
                assert(dests.contains(key));
            }
        }
        if exists|key: Pubkey| #[trigger] leads(schedule, slot as int, slot + n, key) {
            let key = choose|key: Pubkey| #[trigger] leads(schedule, slot as int, slot + n, key);
            lemma_known_in_window(schedule, slot, n, key);
            assert(known.contains(key));
        } else if known.len() > 0 {
            lemma_known_in_window(schedule, slot, n, known[0]);
            assert(known.contains(known[0]));
        }
    }
}

/// Without a window a send goes to the leader of the current four slots, and
/// from the third of them on to the next four slots' leader too, past those that
/// are blocked; it is refused where all of them are.
pub proof fn law_send_goes_to_the_boundary(
    sender: YellowstoneTpuSender,
    slot: u64,
    floor: u64,
    blocked: spec_fn(Pubkey) -> bool,
)
    requires
        sender.slot() == Ok::<u64, PoisonError>(slot),
        !sender.schedule().is_poisoned(),
        sender.fanout() == 0,
        floor <= slot < floor + 4,
        floor as int % 4 == 0,
        floor + 4 <= u64::MAX,
    ensures
        ({
            let current = sender.schedule()@[floor];
            let next = sender.schedule()@[(floor + 4) as u64];
            let near = slot >= floor + 2;
            match sender.destinations(blocked) {
                Ok(dests) => if !near || blocked(next) {
                    dests == seq![current] && !blocked(current)
                } else if blocked(current) {
                    dests == seq![next]
                } else {
                    dests == seq![current, next]
                },
                Err(kind) => {
                    &&& kind == SendErrorKind::RemotePeerBlocked
                    &&& blocked(current)
                    &&& near ==> blocked(next)
                },
            }
        }),
{
    let current = sender.schedule()@[floor];
    let next = sender.schedule()@[(floor + 4) as u64];
    let keep = |key: Pubkey| !blocked(key);
    let none = Seq::<Pubkey>::empty();
    reveal(Seq::filter);
    assert(none.filter(keep) =~= none);
    lemma_filter_push(none, keep, current);
    lemma_filter_push(none.push(current), keep, next);
    assert(none.push(current) =~= seq![current]);
    assert(seq![current].push(next) =~= seq![current, next]);
    assert(slot - into_boundary(slot) == floor);
    if let Ok(dests) = sender.destinations(blocked) {
        if slot < floor + 2 || blocked(next) {
            assert(dests =~= seq![current]);
        } else if blocked(current) {
            assert(dests =~= seq![next]);
        } else {
            assert(dests =~= seq![current, next]);
        }
    }
}

/// A window can be looked up whenever its slots can be numbered, and their steps
/// of four counted; a send without one whenever the leaders that it needs are
/// known.
pub proof fn law_what_can_be_looked_up(sender: YellowstoneTpuSender, fanout_slots: u64)
    ensures
        sender.slot() is Err ==> sender.window_fits(fanout_slots) && sender.can_choose(),
        sender.slot() matches Ok(slot) ==> {
            let width = if fanout_slots == 0 {
                1
            } else {
                fanout_slots as int
            };
            sender.window_fits(fanout_slots) <==> slot + width <= u64::MAX && (width + 3) / 4
                <= usize::MAX
        },
        sender.fanout() > 0 ==> sender.can_choose() == sender.window_fits(sender.fanout()),
        sender.fanout() == 0 && sender.schedule().is_poisoned() ==> sender.can_choose(),
        sender.fanout() == 0 && !sender.schedule().is_poisoned() ==> (sender.slot() matches Ok(slot)
            ==> {
            let floor = slot - slot as int % 4;
            sender.can_choose() <==> sender.schedule()@.contains_key(floor as u64) && (slot as int
                % 4 >= 2 ==> floor + 4 <= u64::MAX && sender.schedule()@.contains_key(
                (floor + 4) as u64,
            ))
        }),
{
}

/// What a fast send does to the queue and tells of it. Every offer is the
/// transaction with its signature, for one of the fast leaders at its known
/// normal socket. The send succeeds exactly when it made an offer and the queue
/// took all of them, and then the offers cover every known normal socket of its
/// leaders, each once; a refusal is the error, which carries the transaction.
pub proof fn law_fast_send_offers_to_every_socket(
    before: YellowstoneTpuSender,
    after: YellowstoneTpuSender,
    sig: Signature,
    wire: Seq<u8>,
    fanout_slots: u64,
    sent: Result<usize, SendError>,
)
    requires
        fast_sent(before, after, sig, wire, fanout_slots, sent),
    ensures
        before.offers().len() <= after.offers().len(),
        after.offers().take(before.offers().len() as int) == before.offers(),
        before.fast_leaders(fanout_slots) matches Err(kind) ==> {
            &&& after.offers() == before.offers()
            &&& sent matches Err(e) && e.kind == kind
        },
        sent matches Err(e) ==> wire_bytes(e.txn) == wire,
        sent matches Ok(n) ==> n > 0 && after.offers().len() == before.offers().len() + n,
        sent is Ok <==> after.offers().len() > before.offers().len() && forall|k: int|
            before.offers().len() <= k < after.offers().len() ==> (
            #[trigger] after.offers()[k]).reply == QueueReply::Taken,
        sent matches Err(e) ==> (e.kind == SendErrorKind::QueueFull <==> after.offers().len()
            > before.offers().len() && after.offers().last().reply == QueueReply::Full),
        sent matches Err(e) ==> (e.kind == SendErrorKind::Closed <==> after.offers().len()
            > before.offers().len() && after.offers().last().reply == QueueReply::Closed),
        forall|k: int|
            before.offers().len() <= k < after.offers().len() ==> {
                let txn = (#[trigger] after.offers()[k]).txn;
                &&& txn.tx_sig == sig
                &&& txn.wire == wire
                &&& txn.fast
                &&& before.fast_leaders(fanout_slots) matches Ok(leaders) && leaders.contains(
                    txn.remote_peer,
                )
                &&& txn.remote_peer_addr is Some
                &&& txn.remote_peer_addr == before.info().addr(
                    txn.remote_peer,
                    TpuPortKind::Normal,
                )
            },
        forall|j: int, k: int|
            before.offers().len() <= j < k < after.offers().len() ==> (
            #[trigger] after.offers()[j]).txn.remote_peer_addr != (
            #[trigger] after.offers()[k]).txn.remote_peer_addr,
        forall|leader: Pubkey|
            sent is Ok && before.fast_leaders(fanout_slots)->Ok_0.contains(leader) && (
            #[trigger] before.info().addr(leader, TpuPortKind::Normal)) is Some ==> exists|k: int|
                before.offers().len() <= k < after.offers().len() && (
                #[trigger] after.offers()[k]).txn.remote_peer_addr == before.info().addr(
                    leader,
                    TpuPortKind::Normal,
                ),
        sent is Err && after.offers().len() == before.offers().len() ==> (before.fast_leaders(
            fanout_slots,
        ) matches Ok(leaders) ==> forall|leader: Pubkey| #[trigger]
            leaders.contains(leader) ==> before.info().addr(leader, TpuPortKind::Normal) is None),
{
    if before.fast_leaders(fanout_slots) is Ok {
        let leaders = before.fast_leaders(fanout_slots)->Ok_0;
        let b = before.offers().len() as int;
        law_fast_plan_holds_nothing_else(before, fanout_slots);
        match before.fast_plan(fanout_slots) {
            Ok(plan) => {
                let count = after.offers().len() - b;
                assert forall|k: int| b <= k < after.offers().len() implies (
                #[trigger] after.offers()[k]).txn == fast_txn(sig, wire, plan[k - b]) by {
                    assert(after.offers()[b + (k - b)] == after.offers()[k]);
                }
                assert(after.offers().last() == after.offers()[b + (count - 1)]);
                assert forall|k: int| b <= k < after.offers().len() - 1 implies (
                #[trigger] after.offers()[k]).reply == QueueReply::Taken by {
                    assert(after.offers()[b + (k - b)] == after.offers()[k]);
                }
                if sent is Ok {
                    assert forall|leader: Pubkey|
                        leaders.contains(leader) && (#[trigger] before.info().addr(
                            leader,
                            TpuPortKind::Normal,
                        )) is Some implies exists|k: int|
                        b <= k < after.offers().len() && (
                        #[trigger] after.offers()[k]).txn.remote_peer_addr == before.info().addr(
                            leader,
                            TpuPortKind::Normal,
                        ) by {
                        law_fast_plan_holds_every_known_socket(before, fanout_slots, leader);
                        let i = choose|i: int|
                            0 <= i < plan.len() && Some((#[trigger] plan[i]).1)
                                == before.info().addr(leader, TpuPortKind::Normal);
                        assert(after.offers()[b + i].txn == fast_txn(sig, wire, plan[i]));
                    }
                }
            },
            Err(_) => {
                if leaders.len() == 0 {
                    assert forall|leader: Pubkey| #[trigger]
                        leaders.contains(leader) implies before.info().addr(
                        leader,
                        TpuPortKind::Normal,
                    ) is None by {}
                }
            },
        }
    }
    assert(before.offers().take(before.offers().len() as int) =~= before.offers());
}

/// A direct send begins exactly where the fast paths have a leader. It has all
/// of them before it, in order, and the whole transaction; otherwise the error
/// carries the transaction and says why.
pub proof fn law_direct_send_begins_with_the_fast_leaders(
    sender: YellowstoneTpuSender,
    wire: Seq<u8>,
    fanout_slots: u64,
    begun: Result<DirectSend, SendError>,
)
    requires
        sender.direct_begun(wire, fanout_slots, begun),
    ensures
        begun is Ok <==> sender.fast_leaders(fanout_slots) is Ok && sender.fast_leaders(
            fanout_slots,
        )->Ok_0.len() > 0,
        begun matches Ok(send) ==> {
            &&& send.wf()
            &&& send.wire() == wire
            &&& sender.fast_leaders(fanout_slots) == Ok::<Seq<Pubkey>, SendErrorKind>(send.left())
            &&& send.seen().len() == 0
            &&& send.outcomes().len() == 0
        },
        begun matches Err(e) ==> {
            &&& wire_bytes(e.txn) == wire
            &&& e.kind == match sender.fast_leaders(fanout_slots) {
                Ok(_) => SendErrorKind::NoKnownLeader,
                Err(kind) => kind,
            }
        },
{
}

/// A send to chosen leaders begins exactly where they could be chosen. It has
/// all of them before it, in order, with the whole transaction, its signature
/// and the sender's rules; otherwise the error carries the transaction and says
/// why.
pub proof fn law_send_begins_with_its_destinations(
    sender: YellowstoneTpuSender,
    sig: Signature,
    wire: Seq<u8>,
    dests: Result<Seq<Pubkey>, SendErrorKind>,
    fanout: bool,
    begun: Result<ManyDestSend, SendError>,
)
    requires
        sender.fanout_begun(sig, wire, dests, fanout, begun),
    ensures
        begun is Ok <==> dests is Ok,
        begun matches Ok(send) ==> {
            &&& send.wf()
            &&& dests == Ok::<Seq<Pubkey>, SendErrorKind>(send.left())
            &&& send.sig() == sig
            &&& send.wire() == wire
            &&& send.seen().len() == 0
            &&& send.coalesces() == sender.coalesces()
            &&& send.port() == sender.port()
            &&& send.fanout() == fanout
            &&& !send.delivered()
        },
        begun matches Err(e) ==> {
            &&& wire_bytes(e.txn) == wire
            &&& dests == Err::<Seq<Pubkey>, SendErrorKind>(e.kind)
        },
{
}

/// The unknown slots come in order, each once.
pub proof fn law_unknown_slots_are_in_order(leaders: Map<u64, Pubkey>, start: u64, n: nat)
    requires
        start + n <= u64::MAX,
    ensures
        forall|i: int, j: int|
            0 <= i < j < unknown_slots(leaders, start as int, n).len() ==> (
            #[trigger] unknown_slots(leaders, start as int, n)[i]) < (#[trigger] unknown_slots(
                leaders,
                start as int,
                n,
            )[j]),
    decreases n,
{
    if n > 0 {
        let earlier = unknown_slots(leaders, start as int, (n - 1) as nat);
        let all = unknown_slots(leaders, start as int, n);
        law_unknown_slots_are_in_order(leaders, start, (n - 1) as nat);
        assert forall|i: int, j: int| 0 <= i < j < all.len() implies (#[trigger] all[i]) < (
        #[trigger] all[j]) by {
            assert(all[i] == earlier[i]);
            if j < earlier.len() {
                assert(all[j] == earlier[j]);
            } else {
                law_unknown_slots_are_the_rest(leaders, start, (n - 1) as nat, earlier[i]);
                assert(earlier.contains(earlier[i]));
            }
        }
    }
}

/// The unknown slots of a window are exactly those from the current slot to the
/// window's end whose leader is not known, in order and each once, as long as the
/// slot and the schedule can be read.
pub proof fn law_unknown_slots_of_a_window(
    sender: YellowstoneTpuSender,
    fanout_slots: u64,
    reach: u64,
    any: u64,
)
    requires
        sender.window_fits(fanout_slots),
        fanout_slots == 0 ==> reach == 1,
        fanout_slots > 0 ==> reach == fanout_slots,
    ensures
        sender.unknown_in_window(fanout_slots).contains(any) <==> {
            &&& sender.slot() matches Ok(slot)
            &&& !sender.schedule().is_poisoned()
            &&& slot <= any < slot + reach
            &&& !sender.schedule()@.contains_key(any)
        },
        forall|i: int, j: int|
            0 <= i < j < sender.unknown_in_window(fanout_slots).len() ==> (
            #[trigger] sender.unknown_in_window(fanout_slots)[i]) < (
            #[trigger] sender.unknown_in_window(fanout_slots)[j]),
{
    if let Ok(slot) = sender.slot() {
        law_unknown_slots_are_the_rest(sender.schedule()@, slot, reach as nat, any);
        law_unknown_slots_are_in_order(sender.schedule()@, slot, reach as nat);
    }
}

} // verus!
