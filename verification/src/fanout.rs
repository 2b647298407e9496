//! From chosen validators to the sockets that a transaction goes to.
//!
//! Validators behind one TPU proxy announce one socket, and the paths below
//! send to such a socket once.
use vstd::prelude::*;

use crate::tpu_info::LeaderTpuInfo;
use crate::types::{contains_addr, Pubkey, SocketAddr, TpuPortKind};

verus! {

/// The socket that `info` knows for each validator.
pub open spec fn addr_book(info: LeaderTpuInfo, kind: TpuPortKind) -> spec_fn(Pubkey) -> Option<
    SocketAddr,
> {
    |peer: Pubkey| info.addr(peer, kind)
}

/// The validators with a known socket that is not in `seen` and that no earlier
/// one of them has, each with that socket, in order.
pub open spec fn targets(
    leaders: Seq<Pubkey>,
    seen: Seq<SocketAddr>,
    addr_of: spec_fn(Pubkey) -> Option<SocketAddr>,
) -> Seq<(Pubkey, SocketAddr)>
    decreases leaders.len(),
{
    if leaders.len() == 0 {
        Seq::empty()
    } else {
        let rest = leaders.drop_first();
        match addr_of(leaders[0]) {
            Some(addr) => if seen.contains(addr) {
                targets(rest, seen, addr_of)
            } else {
                seq![(leaders[0], addr)] + targets(rest, seen.push(addr), addr_of)
            },
            None => targets(rest, seen, addr_of),
        }
    }
}

/// The destinations that a send to many still has to reach: all of them, or,
/// when coalescing, those whose socket is unknown or not yet used.
pub open spec fn pending(
    dests: Seq<Pubkey>,
    seen: Seq<SocketAddr>,
    coalesce: bool,
    addr_of: spec_fn(Pubkey) -> Option<SocketAddr>,
) -> Seq<Pubkey>
    decreases dests.len(),
{
    if dests.len() == 0 {
        Seq::empty()
    } else {
        let rest = dests.drop_first();
        match addr_of(dests[0]) {
            Some(addr) => if coalesce && seen.contains(addr) {
                pending(rest, seen, coalesce, addr_of)
            } else {
                seq![dests[0]] + pending(rest, seen.push(addr), coalesce, addr_of)
            },
            None => seq![dests[0]] + pending(rest, seen, coalesce, addr_of),
        }
    }
}

/// The next validator to try, from position `from` on: the first with a known
/// socket that is not in `seen`.
pub(crate) fn next_target(
    leaders: &[Pubkey],
    from: usize,
    seen: &[SocketAddr],
    info: &LeaderTpuInfo,
    kind: TpuPortKind,
) -> (found: Option<(usize, SocketAddr)>)
    requires
        from <= leaders.len(),
    ensures
        ({
            let todo = targets(leaders@.skip(from as int), seen@, addr_book(*info, kind));
            match found {
                Some((at, addr)) => {
                    &&& from <= at < leaders.len()
                    &&& todo == seq![(leaders@[at as int], addr)] + targets(
                        leaders@.skip(at + 1),
                        seen@.push(addr),
                        addr_book(*info, kind),
                    )
                    &&& info.addr(leaders@[at as int], kind) == Some(addr)
                    &&& !seen@.contains(addr)
                },
                None => todo.len() == 0,
            }
        }),
        forall|i: int|
            from <= i < (match found {
                Some((at, _)) => at as int,
                None => leaders@.len() as int,
            }) ==> (info.addr(#[trigger] leaders@[i], kind) matches Some(a) ==> seen@.contains(a)),
{
    let ghost book = addr_book(*info, kind);
    let mut at: usize = from;
    while at < leaders.len()
        invariant
            from <= at <= leaders.len(),
            forall|i: int|
                from <= i < at ==> (info.addr(#[trigger] leaders@[i], kind) matches Some(a)
                    ==> seen@.contains(a)),
            book == addr_book(*info, kind),
            targets(leaders@.skip(from as int), seen@, book) == targets(
                leaders@.skip(at as int),
                seen@,
                book,
            ),
        decreases leaders.len() - at,
    {
        let ghost left = leaders@.skip(at as int);
        assert(left[0] == leaders@[at as int]);
        assert(left.drop_first() =~= leaders@.skip(at + 1));
        match info.get_quic_dest_addr(&leaders[at], kind) {
            Some(addr) => {
                if !contains_addr(seen, addr) {
                    return Some((at, addr));
                }
            },
            None => {},
        }
        at += 1;
    }
    None
}

/// The next destination to send to, from position `from` on, with its socket
/// where it is known.
pub(crate) fn next_pending(
    dests: &[Pubkey],
    from: usize,
    seen: &[SocketAddr],
    coalesce: bool,
    info: &LeaderTpuInfo,
    kind: TpuPortKind,
) -> (found: Option<(usize, Option<SocketAddr>)>)
    requires
        from <= dests.len(),
    ensures
        ({
            let book = addr_book(*info, kind);
            let todo = pending(dests@.skip(from as int), seen@, coalesce, book);
            match found {
                Some((at, addr)) => {
                    &&& from <= at < dests.len()
                    &&& addr == info.addr(dests@[at as int], kind)
                    &&& todo == seq![dests@[at as int]] + pending(
                        dests@.skip(at + 1),
                        match addr {
                            Some(a) => seen@.push(a),
                            None => seen@,
                        },
                        coalesce,
                        book,
                    )
                },
                None => todo.len() == 0,
            }
        }),
        forall|i: int|
            from <= i < (match found {
                Some((at, _)) => at as int,
                None => dests@.len() as int,
            }) ==> {
                &&& coalesce
                &&& info.addr(#[trigger] dests@[i], kind) matches Some(a)
                &&& seen@.contains(a)
            },
{
    let ghost book = addr_book(*info, kind);
    let mut at: usize = from;
    while at < dests.len()
        invariant
            forall|i: int|
                from <= i < at ==> {
                    &&& coalesce
                    &&& info.addr(#[trigger] dests@[i], kind) matches Some(a)
                    &&& seen@.contains(a)
                },
            from <= at <= dests.len(),
            book == addr_book(*info, kind),
            pending(dests@.skip(from as int), seen@, coalesce, book) == pending(
                dests@.skip(at as int),
                seen@,
                coalesce,
                book,
            ),
        decreases dests.len() - at,
    {
        let ghost left = dests@.skip(at as int);
        assert(left[0] == dests@[at as int]);
        assert(left.drop_first() =~= dests@.skip(at + 1));
        let addr = info.get_quic_dest_addr(&dests[at], kind);
        match addr {
            Some(a) => {
                if !(coalesce && contains_addr(seen, a)) {
                    return Some((at, addr));
                }
            },
            None => {
                return Some((at, addr));
            },
        }
        at += 1;
    }
    None
}

/// The sockets that the fast paths send to for the given leaders.
pub fn fanout_targets(leaders: &[Pubkey], info: &LeaderTpuInfo, kind: TpuPortKind) -> (plan: Vec<
    (Pubkey, SocketAddr),
>)
    ensures
        plan@ == targets(leaders@, Seq::empty(), addr_book(*info, kind)),
{
    let ghost book = addr_book(*info, kind);
    let mut plan: Vec<(Pubkey, SocketAddr)> = Vec::new();
    let mut seen: Vec<SocketAddr> = Vec::new();
    let mut from: usize = 0;
    assert(leaders@.skip(0) =~= leaders@);
    loop
        invariant
            from <= leaders.len(),
            book == addr_book(*info, kind),
            targets(leaders@, Seq::empty(), book) == plan@ + targets(
                leaders@.skip(from as int),
                seen@,
                book,
            ),
        decreases leaders.len() - from,
    {
        match next_target(leaders, from, seen.as_slice(), info, kind) {
            Some((at, addr)) => {
                let ghost todo = targets(leaders@.skip(from as int), seen@, book);
                let ghost after = targets(leaders@.skip(at + 1), seen@.push(addr), book);
                assert(plan@ + todo =~= plan@.push((leaders@[at as int], addr)) + after);
                plan.push((leaders[at], addr));
                seen.push(addr);
                from = at + 1;
            },
            None => {
                assert(plan@ + targets(leaders@.skip(from as int), seen@, book) =~= plan@);
                return plan;
            },
        }
    }
}

/// The fast paths send to known sockets of the given leaders, to no socket that
/// was used before, and to none twice.
pub proof fn law_targets_use_each_socket_once(
    leaders: Seq<Pubkey>,
    seen: Seq<SocketAddr>,
    addr_of: spec_fn(Pubkey) -> Option<SocketAddr>,
)
    ensures
        forall|i: int|
            0 <= i < targets(leaders, seen, addr_of).len() ==> {
                let (leader, addr) = #[trigger] targets(leaders, seen, addr_of)[i];
                &&& leaders.contains(leader)
                &&& addr_of(leader) == Some(addr)
                &&& !seen.contains(addr)
            },
        forall|i: int, j: int|
            0 <= i < j < targets(leaders, seen, addr_of).len() ==> (#[trigger] targets(
                leaders,
                seen,
                addr_of,
            )[i]).1 != (#[trigger] targets(leaders, seen, addr_of)[j]).1,
    decreases leaders.len(),
{
    if leaders.len() > 0 {
        let rest = leaders.drop_first();
        let all = targets(leaders, seen, addr_of);
        assert forall|key: Pubkey| rest.contains(key) implies leaders.contains(key) by {
            let i = choose|i: int| 0 <= i < rest.len() && rest[i] == key;
            assert(leaders[i + 1] == key);
        }
        match addr_of(leaders[0]) {
            Some(addr) if !seen.contains(addr) => {
                let more = seen.push(addr);
                law_targets_use_each_socket_once(rest, more, addr_of);
                assert(more[seen.len() as int] == addr);
                assert forall|a: SocketAddr| seen.contains(a) implies more.contains(a) by {
                    let i = choose|i: int| 0 <= i < seen.len() && seen[i] == a;
                    assert(more[i] == a);
                }
                let tail = targets(rest, more, addr_of);
                assert forall|i: int| 0 <= i < all.len() implies {
                    let (leader, a) = #[trigger] all[i];
                    &&& leaders.contains(leader)
                    &&& addr_of(leader) == Some(a)
                    &&& !seen.contains(a)
                } by {
                    if i > 0 {
                        assert(all[i] == tail[i - 1]);
                    }
                }
                assert forall|i: int, j: int| 0 <= i < j < all.len() implies (
                #[trigger] all[i]).1 != (#[trigger] all[j]).1 by {
                    assert(all[j] == tail[j - 1]);
                    if i > 0 {
                        assert(all[i] == tail[i - 1]);
                    }
                }
            },
            _ => {
                law_targets_use_each_socket_once(rest, seen, addr_of);
            },
        }
    }
}

/// The fast paths miss no socket: each one that is known for a given leader was
/// used before or is a target.
pub proof fn law_targets_miss_no_socket(
    leaders: Seq<Pubkey>,
    seen: Seq<SocketAddr>,
    addr_of: spec_fn(Pubkey) -> Option<SocketAddr>,
    leader: Pubkey,
    addr: SocketAddr,
)
    requires
        leaders.contains(leader),
        addr_of(leader) == Some(addr),
    ensures
        seen.contains(addr) || exists|i: int|
            0 <= i < targets(leaders, seen, addr_of).len() && (#[trigger] targets(
                leaders,
                seen,
                addr_of,
            )[i]).1 == addr,
    decreases leaders.len(),
{
    let rest = leaders.drop_first();
    let all = targets(leaders, seen, addr_of);
    match addr_of(leaders[0]) {
        Some(a) if !seen.contains(a) => {
            let more = seen.push(a);
            let tail = targets(rest, more, addr_of);
            assert(all[0] == (leaders[0], a));
            if addr != a {
                let k = choose|k: int| 0 <= k < leaders.len() && leaders[k] == leader;
                assert(rest[k - 1] == leader);
                law_targets_miss_no_socket(rest, more, addr_of, leader, addr);
                if more.contains(addr) {
                    let m = choose|m: int| 0 <= m < more.len() && more[m] == addr;
                    assert(seen[m] == addr);
                } else {
                    let i = choose|i: int| 0 <= i < tail.len() && (#[trigger] tail[i]).1 == addr;
                    assert(all[i + 1] == tail[i]);
                }
            }
        },
        _ => {
            let k = choose|k: int| 0 <= k < leaders.len() && leaders[k] == leader;
            if k > 0 {
                assert(rest[k - 1] == leader);
                law_targets_miss_no_socket(rest, seen, addr_of, leader, addr);
            }
        },
    }
}

/// The fast paths have nowhere to send to exactly when no given leader's socket
/// is known.
pub proof fn law_no_target_means_no_known_socket(
    leaders: Seq<Pubkey>,
    addr_of: spec_fn(Pubkey) -> Option<SocketAddr>,
)
    ensures
        targets(leaders, Seq::empty(), addr_of).len() == 0 <==> forall|leader: Pubkey| #[trigger]
            leaders.contains(leader) ==> addr_of(leader) is None,
{
    let nothing = Seq::<SocketAddr>::empty();
    let all = targets(leaders, nothing, addr_of);
    law_targets_use_each_socket_once(leaders, nothing, addr_of);
    if all.len() == 0 {
        assert forall|leader: Pubkey| #[trigger] leaders.contains(leader) implies addr_of(
            leader,
        ) is None by {
            if let Some(addr) = addr_of(leader) {
                law_targets_miss_no_socket(leaders, nothing, addr_of, leader, addr);
            }
        }
    } else {
        assert(leaders.contains(all[0].0));
    }
}

/// Without coalescing every destination is sent to, in the given order.
pub proof fn law_pending_without_coalescing(
    dests: Seq<Pubkey>,
    seen: Seq<SocketAddr>,
    addr_of: spec_fn(Pubkey) -> Option<SocketAddr>,
)
    ensures
        pending(dests, seen, false, addr_of) == dests,
    decreases dests.len(),
{
    if dests.len() > 0 {
        let rest = dests.drop_first();
        match addr_of(dests[0]) {
            Some(addr) => law_pending_without_coalescing(rest, seen.push(addr), addr_of),
            None => law_pending_without_coalescing(rest, seen, addr_of),
        }
        assert(seq![dests[0]] + rest =~= dests);
    }
}

/// With coalescing no known socket is sent to twice, nor one that was used
/// before.
pub proof fn law_pending_uses_each_socket_once(
    dests: Seq<Pubkey>,
    seen: Seq<SocketAddr>,
    addr_of: spec_fn(Pubkey) -> Option<SocketAddr>,
)
    ensures
        forall|i: int|
            0 <= i < pending(dests, seen, true, addr_of).len() ==> {
                let dest = #[trigger] pending(dests, seen, true, addr_of)[i];
                &&& dests.contains(dest)
                &&& addr_of(dest) matches Some(addr) ==> !seen.contains(addr)
            },
        forall|i: int, j: int|
            0 <= i < j < pending(dests, seen, true, addr_of).len() && addr_of(
                #[trigger] pending(dests, seen, true, addr_of)[i],
            ) is Some ==> addr_of(pending(dests, seen, true, addr_of)[i]) != addr_of(
                #[trigger] pending(dests, seen, true, addr_of)[j],
            ),
    decreases dests.len(),
{
    if dests.len() > 0 {
        let rest = dests.drop_first();
        let all = pending(dests, seen, true, addr_of);
        assert forall|key: Pubkey| rest.contains(key) implies dests.contains(key) by {
            let i = choose|i: int| 0 <= i < rest.len() && rest[i] == key;
            assert(dests[i + 1] == key);
        }
        let skipped = addr_of(dests[0]) is Some && seen.contains(addr_of(dests[0])->0);
        if skipped {
            law_pending_uses_each_socket_once(rest, seen, addr_of);
        } else {
            let more = match addr_of(dests[0]) {
                Some(addr) => seen.push(addr),
                None => seen,
            };
            law_pending_uses_each_socket_once(rest, more, addr_of);
            assert forall|a: SocketAddr| seen.contains(a) || addr_of(dests[0]) == Some(
                a,
            ) implies more.contains(a) by {
                if seen.contains(a) {
                    let i = choose|i: int| 0 <= i < seen.len() && seen[i] == a;
                    assert(more[i] == a);
                } else {
                    assert(more[seen.len() as int] == a);
                }
            }
            let tail = pending(rest, more, true, addr_of);
            assert forall|i: int| 0 <= i < all.len() implies {
                let dest = #[trigger] all[i];
                &&& dests.contains(dest)
                &&& addr_of(dest) matches Some(addr) ==> !seen.contains(addr)
            } by {
                if i > 0 {
                    assert(all[i] == tail[i - 1]);
                }
            }
            assert forall|i: int, j: int|
                0 <= i < j < all.len() && addr_of(#[trigger] all[i]) is Some implies addr_of(all[i])
                != addr_of(#[trigger] all[j]) by {
                assert(all[j] == tail[j - 1]);
                if i > 0 {
                    assert(all[i] == tail[i - 1]);
                }
            }
        }
    }
}

/// With coalescing no destination is lost: one whose socket is unknown is sent
/// to, and the socket of any other was used before or is sent to.
pub proof fn law_pending_loses_no_destination(
    dests: Seq<Pubkey>,
    seen: Seq<SocketAddr>,
    addr_of: spec_fn(Pubkey) -> Option<SocketAddr>,
    dest: Pubkey,
)
    requires
        dests.contains(dest),
    ensures
        (addr_of(dest) is Some && seen.contains(addr_of(dest)->0)) || exists|i: int|
            0 <= i < pending(dests, seen, true, addr_of).len() && {
                let sent = #[trigger] pending(dests, seen, true, addr_of)[i];
                sent == dest || (addr_of(dest) is Some && addr_of(sent) == addr_of(dest))
            },
    decreases dests.len(),
{
    let rest = dests.drop_first();
    let all = pending(dests, seen, true, addr_of);
    let k = choose|k: int| 0 <= k < dests.len() && dests[k] == dest;
    if addr_of(dests[0]) is Some && seen.contains(addr_of(dests[0])->0) {
        if k > 0 {
            assert(rest[k - 1] == dest);
            law_pending_loses_no_destination(rest, seen, addr_of, dest);
        }
    } else {
        let more = match addr_of(dests[0]) {
            Some(addr) => seen.push(addr),
            None => seen,
        };
        let tail = pending(rest, more, true, addr_of);
        assert(all[0] == dests[0]);
        if k > 0 && !(addr_of(dest) is Some && addr_of(dest) == addr_of(dests[0])) {
            assert(rest[k - 1] == dest);
            law_pending_loses_no_destination(rest, more, addr_of, dest);
            if addr_of(dest) is Some && more.contains(addr_of(dest)->0) {
                let m = choose|m: int| 0 <= m < more.len() && more[m] == addr_of(dest)->0;
                assert(seen[m] == addr_of(dest)->0);
            } else {
                let i = choose|i: int|
                    0 <= i < tail.len() && {
                        let sent = #[trigger] tail[i];
                        sent == dest || (addr_of(dest) is Some && addr_of(sent) == addr_of(dest))
                    };
                assert(all[i + 1] == tail[i]);
            }
        }
    }
}

/// Positions in a list whose first entry was taken off, as positions in the
/// list itself.
spec fn shifted(places: Seq<int>) -> Seq<int> {
    places.map_values(|p: int| p + 1)
}

/// The targets are the leaders at certain places, in order: those whose socket
/// is known, is not in `seen`, and is that of no leader before them.
pub proof fn law_targets_keep_order(
    leaders: Seq<Pubkey>,
    seen: Seq<SocketAddr>,
    addr_of: spec_fn(Pubkey) -> Option<SocketAddr>,
) -> (places: Seq<int>)
    ensures
        places.len() == targets(leaders, seen, addr_of).len(),
        forall|i: int|
            0 <= i < places.len() ==> {
                let (leader, addr) = targets(leaders, seen, addr_of)[i];
                &&& 0 <= #[trigger] places[i] < leaders.len()
                &&& leader == leaders[places[i]]
                &&& addr_of(leader) == Some(addr)
            },
        forall|i: int, j: int|
            0 <= i < j < places.len() ==> #[trigger] places[i] < #[trigger] places[j],
        forall|p: int|
            0 <= p < leaders.len() ==> (#[trigger] places.contains(p) <==> {
                &&& addr_of(leaders[p]) matches Some(addr)
                &&& !seen.contains(addr)
                &&& forall|q: int| 0 <= q < p ==> addr_of(#[trigger] leaders[q]) != Some(addr)
            }),
    decreases leaders.len(),
{
    if leaders.len() == 0 {
        Seq::empty()
    } else {
        let rest = leaders.drop_first();
        let all = targets(leaders, seen, addr_of);
        let takes = addr_of(leaders[0]) is Some && !seen.contains(addr_of(leaders[0])->0);
        let more = if takes {
            seen.push(addr_of(leaders[0])->0)
        } else {
            seen
        };
        let later = law_targets_keep_order(rest, more, addr_of);
        let places = if takes {
            seq![0int] + shifted(later)
        } else {
            shifted(later)
        };
        let off = if takes {
            1int
        } else {
            0int
        };
        let tail = targets(rest, more, addr_of);
        assert(all.len() == tail.len() + off);
        assert forall|i: int| off <= i < places.len() implies #[trigger] places[i] == later[i - off]
            + 1 && all[i] == tail[i - off] by {}
        assert forall|i: int| 0 <= i < places.len() implies {
            let (leader, addr) = all[i];
            &&& 0 <= #[trigger] places[i] < leaders.len()
            &&& leader == leaders[places[i]]
            &&& addr_of(leader) == Some(addr)
        } by {
            if i >= off {
                assert(later[i - off] >= 0);
                assert(rest[later[i - off]] == leaders[places[i]]);
            }
        }
        assert forall|i: int, j: int| 0 <= i < j < places.len() implies #[trigger] places[i]
            < #[trigger] places[j] by {
            assert(later[j - off] >= 0);
            if i >= off {
                assert(later[i - off] < later[j - off]);
            }
        }
        assert forall|p: int| 0 <= p < leaders.len() implies (#[trigger] places.contains(p) <==> {
            &&& addr_of(leaders[p]) matches Some(addr)
            &&& !seen.contains(addr)
            &&& forall|q: int| 0 <= q < p ==> addr_of(#[trigger] leaders[q]) != Some(addr)
        }) by {
            if p == 0 {
                if takes {
                    assert(places[0] == 0);
                } else if places.contains(0) {
                    let k = choose|k: int| 0 <= k < places.len() && places[k] == 0;
                    assert(later[k] >= 0);
                }
            } else {
                assert(rest[p - 1] == leaders[p]);
                if later.contains(p - 1) {
                    let k = choose|k: int| 0 <= k < later.len() && later[k] == p - 1;
                    assert(places[k + off] == p);
                }
                if places.contains(p) {
                    let k = choose|k: int| 0 <= k < places.len() && places[k] == p;
                    assert(later[k - off] == p - 1);
                }
                if let Some(addr) = addr_of(leaders[p]) {
                    lemma_seen_more(seen, more, leaders[0], takes, addr, addr_of);
                    if later.contains(p - 1) {
                        assert forall|q: int| 0 <= q < p implies addr_of(#[trigger] leaders[q])
                            != Some(addr) by {
                            if q > 0 {
                                assert(rest[q - 1] == leaders[q]);
                            }
                        }
                    }
                    if !seen.contains(addr) && forall|q: int|
                        0 <= q < p ==> addr_of(#[trigger] leaders[q]) != Some(addr) {
                        assert(addr_of(leaders[0]) != Some(addr));
                        assert forall|q: int| 0 <= q < p - 1 implies addr_of(#[trigger] rest[q])
                            != Some(addr) by {
                            assert(rest[q] == leaders[q + 1]);
                        }
                    }
                }
            }
        }
        places
    }
}

/// A socket has been used after the first entry exactly if it was before, or is
/// that of the entry.
proof fn lemma_seen_more(
    seen: Seq<SocketAddr>,
    more: Seq<SocketAddr>,
    first: Pubkey,
    takes: bool,
    addr: SocketAddr,
    addr_of: spec_fn(Pubkey) -> Option<SocketAddr>,
)
    requires
        takes == (addr_of(first) is Some && !seen.contains(addr_of(first)->0)),
        more == if takes {
            seen.push(addr_of(first)->0)
        } else {
            seen
        },
    ensures
        more.contains(addr) <==> seen.contains(addr) || addr_of(first) == Some(addr),
{
    if takes {
        assert(more[seen.len() as int] == addr_of(first)->0);
        if seen.contains(addr) {
            let i = choose|i: int| 0 <= i < seen.len() && seen[i] == addr;
            assert(more[i] == addr);
        }
        if more.contains(addr) && addr_of(first) != Some(addr) {
            let i = choose|i: int| 0 <= i < more.len() && more[i] == addr;
            assert(seen[i] == addr);
        }
    }
}

/// With coalescing, a send to many reaches the destinations at certain places,
/// in order: those whose socket is unknown, and those whose socket is not in
/// `seen` and is that of no destination before them.
pub proof fn law_pending_keeps_order(
    dests: Seq<Pubkey>,
    seen: Seq<SocketAddr>,
    addr_of: spec_fn(Pubkey) -> Option<SocketAddr>,
) -> (places: Seq<int>)
    ensures
        places.len() == pending(dests, seen, true, addr_of).len(),
        forall|i: int|
            0 <= i < places.len() ==> {
                &&& 0 <= #[trigger] places[i] < dests.len()
                &&& pending(dests, seen, true, addr_of)[i] == dests[places[i]]
            },
        forall|i: int, j: int|
            0 <= i < j < places.len() ==> #[trigger] places[i] < #[trigger] places[j],
        forall|p: int|
            0 <= p < dests.len() ==> (#[trigger] places.contains(p) <==> (addr_of(
                dests[p],
            ) matches Some(addr) ==> {
                &&& !seen.contains(addr)
                &&& forall|q: int| 0 <= q < p ==> addr_of(#[trigger] dests[q]) != Some(addr)
            })),
    decreases dests.len(),
{
    if dests.len() == 0 {
        Seq::empty()
    } else {
        let rest = dests.drop_first();
        let all = pending(dests, seen, true, addr_of);
        let fresh = addr_of(dests[0]) is Some && !seen.contains(addr_of(dests[0])->0);
        let takes = addr_of(dests[0]) is None || fresh;
        let more = if fresh {
            seen.push(addr_of(dests[0])->0)
        } else {
            seen
        };
        let later = law_pending_keeps_order(rest, more, addr_of);
        let places = if takes {
            seq![0int] + shifted(later)
        } else {
            shifted(later)
        };
        let off = if takes {
            1int
        } else {
            0int
        };
        let tail = pending(rest, more, true, addr_of);
        assert(all.len() == tail.len() + off);
        assert forall|i: int| off <= i < places.len() implies #[trigger] places[i] == later[i - off]
            + 1 && all[i] == tail[i - off] by {}
        assert forall|i: int| 0 <= i < places.len() implies 0 <= #[trigger] places[i] < dests.len()
            && all[i] == dests[places[i]] by {
            if i >= off {
                assert(later[i - off] >= 0);
                assert(rest[later[i - off]] == dests[places[i]]);
            }
        }
        assert forall|i: int, j: int| 0 <= i < j < places.len() implies #[trigger] places[i]
            < #[trigger] places[j] by {
            assert(later[j - off] >= 0);
            if i >= off {
                assert(later[i - off] < later[j - off]);
            }
        }
        assert forall|p: int| 0 <= p < dests.len() implies (#[trigger] places.contains(p) <==> (
        addr_of(dests[p]) matches Some(addr) ==> {
            &&& !seen.contains(addr)
            &&& forall|q: int| 0 <= q < p ==> addr_of(#[trigger] dests[q]) != Some(addr)
        })) by {
            if p == 0 {
                if takes {
                    assert(places[0] == 0);
                } else if places.contains(0) {
                    let k = choose|k: int| 0 <= k < places.len() && places[k] == 0;
                    assert(later[k] >= 0);
                }
            } else {
                assert(rest[p - 1] == dests[p]);
                if later.contains(p - 1) {
                    let k = choose|k: int| 0 <= k < later.len() && later[k] == p - 1;
                    assert(places[k + off] == p);
                }
                if places.contains(p) {
                    let k = choose|k: int| 0 <= k < places.len() && places[k] == p;
                    assert(later[k - off] == p - 1);
                }
                if let Some(addr) = addr_of(dests[p]) {
                    lemma_seen_more(seen, more, dests[0], fresh, addr, addr_of);
                    if later.contains(p - 1) {
                        assert forall|q: int| 0 <= q < p implies addr_of(#[trigger] dests[q])
                            != Some(addr) by {
                            if q > 0 {
                                assert(rest[q - 1] == dests[q]);
                            }
                        }
                    }
                    if !seen.contains(addr) && forall|q: int|
                        0 <= q < p ==> addr_of(#[trigger] dests[q]) != Some(addr) {
                        assert(addr_of(dests[0]) != Some(addr));
                        assert forall|q: int| 0 <= q < p - 1 implies addr_of(#[trigger] rest[q])
                            != Some(addr) by {
                            assert(rest[q] == dests[q + 1]);
                        }
                    }
                }
            }
        }
        places
    }
}

} // verus!
