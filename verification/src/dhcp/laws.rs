//! What holds of the address pool and the lease table, whatever is asked of them.

use crate::dhcp::{
    ascending, binding, free, held_by, in_use, part_size, unexpired, Ipv4Range, Lease, ServiceState,
};
use crate::net::Ipv4Addr;
use crate::protocol::MacAddr;
use crate::search::{first_where, lemma_first_where, lemma_first_where_is, lemma_first_where_none};
use crate::time::Timestamp;
use vstd::prelude::*;

verus! {

/// The parts of a divided range lie one behind the other: the first starts where the range
/// starts, each other one where the part before it ends, and the last ends where the range ends.
pub proof fn law_parts_are_adjacent(range: Ipv4Range, parts: int, i: int)
    requires
        range.wf(),
        0 <= i < parts,
    ensures
        range.part(parts, 0).start == range.start,
        range.part(parts, parts - 1).end == range.end,
        i + 1 < parts ==> range.part(parts, i).end == range.part(parts, i + 1).start,
        range.start <= range.part(parts, i).start <= range.part(parts, i).end <= range.end,
{
    range.lemma_part_bounds(parts, i);
}

/// No address lies in two parts of a divided range.
pub proof fn law_parts_are_disjoint(range: Ipv4Range, parts: int, i: int, j: int, addr: Ipv4Addr)
    requires
        range.wf(),
        0 <= i < j < parts,
    ensures
        !(range.part(parts, i).contains(addr) && range.part(parts, j).contains(addr)),
{
    let size = part_size(range.size(), parts);
    range.lemma_part_bounds(parts, i);
    range.lemma_part_bounds(parts, j);
    assert((i + 1) * size <= j * size) by (nonlinear_arith)
        requires
            i < j,
            size >= 0,
    ;
}

/// The parts of a divided range hold the addresses of the range, and no others.
pub proof fn law_parts_cover(range: Ipv4Range, parts: int, addr: Ipv4Addr)
    requires
        range.wf(),
        parts > 0,
    ensures
        range.contains(addr) <==> exists|i: int|
            0 <= i < parts && (#[trigger] range.part(parts, i)).contains(addr),
{
    if range.contains(addr) {
        lemma_part_of(range, parts, addr, 0);
    }
    if exists|i: int| 0 <= i < parts && (#[trigger] range.part(parts, i)).contains(addr) {
        let i = choose|i: int| 0 <= i < parts && (#[trigger] range.part(parts, i)).contains(addr);
        law_parts_are_adjacent(range, parts, i);
    }
}

/// An address of the range that lies in none of the first `k` parts lies in a later one.
proof fn lemma_part_of(range: Ipv4Range, parts: int, addr: Ipv4Addr, k: int)
    requires
        range.wf(),
        0 <= k < parts,
        range.part(parts, k).start <= addr.bits < range.end,
    ensures
        exists|i: int| 0 <= i < parts && (#[trigger] range.part(parts, i)).contains(addr),
    decreases parts - k,
{
    law_parts_are_adjacent(range, parts, k);
    if addr.bits < range.part(parts, k).end {
        assert(range.part(parts, k).contains(addr));
    } else {
        lemma_part_of(range, parts, addr, k + 1);
    }
}

/// All parts of a divided range are of the same size, but for the last, which is larger by less
/// than the number of parts.
pub proof fn law_parts_are_even(range: Ipv4Range, parts: int, i: int)
    requires
        range.wf(),
        0 <= i < parts,
    ensures
        i < parts - 1 ==> range.part(parts, i).size() == range.size() / parts,
        range.part(parts, parts - 1).size() == range.size() / parts + range.size() % parts,
{
    range.lemma_part_bounds(parts, i);
    range.lemma_part_bounds(parts, parts - 1);
    range.lemma_rest(parts);
}

/// A search that starts inside the pool, or at its end, visits each address of the pool and no
/// other.
pub proof fn law_search_visits_the_pool(range: Ipv4Range, at: Ipv4Addr, addr: Ipv4Addr)
    requires
        range.wf(),
        range.start <= at.bits <= range.end,
    ensures
        range.order_from(at).len() == range.size(),
        range.order_from(at).contains(addr) <==> range.contains(addr),
{
    let order = range.order_from(at);
    let upper = ascending(at.bits, range.end);
    if range.contains(addr) {
        if at.bits <= addr.bits {
            assert(order[addr.bits - at.bits] == addr);
        } else {
            assert(order[upper.len() + (addr.bits - range.start)] == addr);
        }
    }
    if order.contains(addr) {
        let i = choose|i: int| 0 <= i < order.len() && order[i] == addr;
        assert(order[i] == addr);
    }
}

/// Every operation on the service keeps its state well formed.
pub proof fn law_operations_keep_the_service_well_formed(
    state: ServiceState,
    mac: MacAddr,
    ip: Ipv4Addr,
    lease: Lease,
    pool: Ipv4Range,
    now: Timestamp,
)
    requires
        state.wf(),
        pool.wf(),
        now.wf(),
    ensures
        state.with_pool(pool).wf(),
        state.with_lease(lease).wf(),
        state.discover(mac, now).0.wf(),
        state.commit(mac, ip, now).0.wf(),
{
    let pruned = state.pruned(now);
    lemma_candidate(pruned);
}

/// What the search for a free address finds: one of the pool that is not in use, if there is one.
proof fn lemma_candidate(state: ServiceState)
    requires
        state.wf(),
    ensures
        match state.candidate() {
            Some(addr) => {
                &&& state.pool.contains(addr)
                &&& !in_use(state.leases, addr)
                &&& !in_use(state.pending, addr)
            },
            None => forall|addr: Ipv4Addr| #[trigger]
                state.pool.contains(addr) ==> in_use(state.leases, addr) || in_use(
                    state.pending,
                    addr,
                ),
        },
{
    let order = state.pool.order_from(state.next);
    let is_free = free(state.leases, state.pending);
    lemma_first_where(order, is_free);
    match first_where(order, is_free) {
        Some(k) => {
            law_search_visits_the_pool(state.pool, state.next, order[k]);
            assert(order.contains(order[k]));
        },
        None => {
            assert forall|addr: Ipv4Addr| #[trigger] state.pool.contains(addr) implies in_use(
                state.leases,
                addr,
            ) || in_use(state.pending, addr) by {
                law_search_visits_the_pool(state.pool, state.next, addr);
                let k = choose|k: int| 0 <= k < order.len() && order[k] == addr;
                assert(!is_free(order[k]));
            }
        },
    }
}

/// Whether some lease of `leases` that has not run out at `now` is for `addr`.
pub open spec fn in_use_at(leases: Seq<Lease>, addr: Ipv4Addr, now: Timestamp) -> bool {
    exists|i: int|
        0 <= i < leases.len() && (#[trigger] leases[i]).address == addr
            && leases[i].expiry_timestamp.nanos > now.nanos
}

/// After pruning, an address is in use iff a lease of it has not run out.
proof fn lemma_pruned_in_use(leases: Seq<Lease>, addr: Ipv4Addr, now: Timestamp)
    ensures
        in_use(leases.filter(unexpired(now)), addr) == in_use_at(leases, addr, now),
{
    broadcast use Seq::lemma_filter_pred;
    broadcast use Seq::lemma_filter_contains;

    let alive = leases.filter(unexpired(now));
    if in_use_at(leases, addr, now) {
        let i = choose|i: int|
            0 <= i < leases.len() && (#[trigger] leases[i]).address == addr
                && leases[i].expiry_timestamp.nanos > now.nanos;
        assert(unexpired(now)(leases[i]));
        assert(alive.contains(leases[i]));
        let k = choose|k: int| 0 <= k < alive.len() && alive[k] == leases[i];
        assert(alive[k].address == addr);
    }
    if in_use(alive, addr) {
        let k = choose|k: int| 0 <= k < alive.len() && (#[trigger] alive[k]).address == addr;
        assert(unexpired(now)(alive[k]));
        assert(alive.contains(alive[k]));
        leases.lemma_filter_contains_rev(unexpired(now), alive[k]);
        let i = choose|i: int| 0 <= i < leases.len() && leases[i] == alive[k];
        assert(leases[i].address == addr);
    }
}

/// A client without a lease is offered an address of the pool that nobody else has or was
/// offered, for as long as a lease lasts. It is offered none only if no such address is left.
pub proof fn law_offers_are_free_addresses_of_the_pool(
    state: ServiceState,
    mac: MacAddr,
    now: Timestamp,
)
    requires
        state.wf(),
        now.wf(),
        forall|i: int|
            0 <= i < state.leases.len() ==> (#[trigger] state.leases[i]).hardware_address != mac,
    ensures
        match state.discover(mac, now).1 {
            Some(lease) => {
                &&& lease.hardware_address == mac
                &&& state.pool.contains(lease.address)
                &&& !in_use_at(state.leases, lease.address, now)
                &&& !in_use_at(state.pending, lease.address, now)
                &&& lease.expiry_timestamp.nanos == now.nanos + state.lease_time.nanos
            },
            None => forall|addr: Ipv4Addr| #[trigger]
                state.pool.contains(addr) ==> in_use_at(state.leases, addr, now) || in_use_at(
                    state.pending,
                    addr,
                    now,
                ),
        },
{
    lemma_first_where_none(state.leases, held_by(mac));
    let pruned = state.pruned(now);
    lemma_candidate(pruned);
    match pruned.candidate() {
        Some(addr) => {
            lemma_pruned_in_use(state.leases, addr, now);
            lemma_pruned_in_use(state.pending, addr, now);
        },
        None => {
            assert forall|addr: Ipv4Addr| #[trigger] state.pool.contains(addr) implies in_use_at(
                state.leases,
                addr,
                now,
            ) || in_use_at(state.pending, addr, now) by {
                lemma_pruned_in_use(state.leases, addr, now);
                lemma_pruned_in_use(state.pending, addr, now);
                assert(pruned.pool.contains(addr));
            }
        },
    }
}

/// A client that has a lease is offered that lease again, and nothing else changes.
pub proof fn law_a_client_keeps_its_address(
    state: ServiceState,
    mac: MacAddr,
    now: Timestamp,
    i: int,
)
    requires
        0 <= i < state.leases.len(),
        state.leases[i].hardware_address == mac,
    ensures
        state.discover(mac, now).0 == state,
        state.discover(mac, now).1 matches Some(lease) && lease.hardware_address == mac
            && state.leases.contains(lease),
{
    lemma_first_where(state.leases, held_by(mac));
    assert(held_by(mac)(state.leases[i]));
}

/// A confirmation succeeds iff the lease was offered or granted before. If it fails, nothing
/// changes.
pub proof fn law_only_known_leases_are_confirmed(
    state: ServiceState,
    mac: MacAddr,
    ip: Ipv4Addr,
    now: Timestamp,
)
    ensures
        state.commit(mac, ip, now).1 is Ok <==> has_binding(state.pending, mac, ip) || has_binding(
            state.leases,
            mac,
            ip,
        ),
        state.commit(mac, ip, now).1 is Err ==> state.commit(mac, ip, now).0 == state,
{
    lemma_has_binding(state.pending, mac, ip);
    lemma_has_binding(state.leases, mac, ip);
}

/// Whether one of `leases` binds `ip` to `mac`.
pub open spec fn has_binding(leases: Seq<Lease>, mac: MacAddr, ip: Ipv4Addr) -> bool {
    exists|i: int|
        0 <= i < leases.len() && (#[trigger] leases[i]).hardware_address == mac
            && leases[i].address == ip
}

proof fn lemma_has_binding(leases: Seq<Lease>, mac: MacAddr, ip: Ipv4Addr)
    ensures
        has_binding(leases, mac, ip) == (first_where(leases, binding(mac, ip)) is Some),
{
    lemma_first_where(leases, binding(mac, ip));
    if has_binding(leases, mac, ip) {
        let i = choose|i: int|
            0 <= i < leases.len() && (#[trigger] leases[i]).hardware_address == mac
                && leases[i].address == ip;
        assert(binding(mac, ip)(leases[i]));
    }
}

/// A lease that is confirmed stands in the lease table, and lasts from then on for as long as a
/// lease lasts.
pub proof fn law_confirmed_leases_are_in_the_table(
    state: ServiceState,
    mac: MacAddr,
    ip: Ipv4Addr,
    now: Timestamp,
)
    requires
        state.wf(),
        now.wf(),
    ensures
        state.commit(mac, ip, now).1 matches Ok(lease) ==> {
            &&& state.commit(mac, ip, now).0.leases.contains(lease)
            &&& lease.hardware_address == mac
            &&& lease.address == ip
            &&& lease.expiry_timestamp.nanos == now.nanos + state.lease_time.nanos
        },
{
    lemma_first_where(state.pending, binding(mac, ip));
    lemma_first_where(state.leases, binding(mac, ip));
    let after = state.commit(mac, ip, now).0;
    match first_where(state.pending, binding(mac, ip)) {
        Some(i) => {
            assert(after.leases.last() == state.commit(mac, ip, now).1->Ok_0);
        },
        None => match first_where(state.leases, binding(mac, ip)) {
            Some(i) => {
                assert(after.leases[i] == state.commit(mac, ip, now).1->Ok_0);
            },
            None => {},
        },
    }
}

/// A client that asks for a lease and then requests what it was offered gets it, no matter how
/// much later.
pub proof fn law_an_offer_can_be_confirmed(
    state: ServiceState,
    mac: MacAddr,
    asked: Timestamp,
    requested: Timestamp,
)
    requires
        state.wf(),
        asked.wf(),
        requested.wf(),
        state.discover(mac, asked).1 is Some,
    ensures
        ({
            let (offered, lease) = state.discover(mac, asked);
            let confirmed = offered.commit(mac, lease->Some_0.address, requested);
            &&& confirmed.1 matches Ok(granted) && granted.hardware_address == mac
                && granted.address == lease->Some_0.address
            &&& has_binding(confirmed.0.leases, mac, lease->Some_0.address)
        }),
{
    let (offered, lease) = state.discover(mac, asked);
    let lease = lease->Some_0;
    lemma_first_where(state.leases, held_by(mac));
    match first_where(state.leases, held_by(mac)) {
        Some(i) => {
            assert(offered.leases[i].hardware_address == mac && offered.leases[i].address
                == lease.address);
            assert(has_binding(offered.leases, mac, lease.address));
        },
        None => {
            let last = offered.pending.len() - 1;
            assert(offered.pending[last] == lease);
            assert(has_binding(offered.pending, mac, lease.address));
        },
    }
    law_only_known_leases_are_confirmed(offered, mac, lease.address, requested);
    law_operations_keep_the_service_well_formed(
        state,
        mac,
        lease.address,
        lease,
        state.pool,
        asked,
    );
    law_confirmed_leases_are_in_the_table(offered, mac, lease.address, requested);
    let (after, granted) = offered.commit(mac, lease.address, requested);
    let k = choose|k: int| 0 <= k < after.leases.len() && after.leases[k] == granted->Ok_0;
    assert(after.leases[k].hardware_address == mac);
}

/// Two clients without a lease that ask one after the other, the second while the offer to the
/// first still stands, are offered different addresses.
pub proof fn law_two_offers_differ(
    state: ServiceState,
    first: MacAddr,
    second: MacAddr,
    now: Timestamp,
    later: Timestamp,
)
    requires
        state.wf(),
        now.wf(),
        later.wf(),
        later.nanos < now.nanos + state.lease_time.nanos,
        forall|i: int|
            0 <= i < state.leases.len() ==> (#[trigger] state.leases[i]).hardware_address != first
                && state.leases[i].hardware_address != second,
    ensures
        ({
            let (between, lease) = state.discover(first, now);
            let (after, other) = between.discover(second, later);
            lease is Some && other is Some ==> lease->Some_0.address != other->Some_0.address
        }),
{
    broadcast use Seq::lemma_filter_pred;
    broadcast use Seq::lemma_filter_contains;

    let (between, lease) = state.discover(first, now);
    lemma_first_where_none(state.leases, held_by(first));
    law_operations_keep_the_service_well_formed(
        state,
        first,
        Ipv4Addr { bits: 0 },
        arbitrary(),
        state.pool,
        now,
    );
    assert forall|i: int| 0 <= i < between.leases.len() implies (#[trigger]
    between.leases[i]).hardware_address != second by {
        let alive = state.leases.filter(unexpired(now));
        assert(alive.contains(alive[i]));
        state.leases.lemma_filter_contains_rev(unexpired(now), alive[i]);
        let k = choose|k: int| 0 <= k < state.leases.len() && state.leases[k] == alive[i];
        assert(state.leases[k].hardware_address != second);
    }
    if lease is Some {
        let lease = lease->Some_0;
        law_offers_are_free_addresses_of_the_pool(state, first, now);
        law_offers_are_free_addresses_of_the_pool(between, second, later);
        let last = between.pending.len() - 1;
        assert(between.pending[last] == lease);
        assert(in_use_at(between.pending, lease.address, later));
    }
}

/// Servers that serve different parts of one range never offer the same address to clients that
/// have no lease.
pub proof fn law_servers_offer_from_their_own_part(
    range: Ipv4Range,
    parts: int,
    i: int,
    j: int,
    one: ServiceState,
    other: ServiceState,
    mac: MacAddr,
    other_mac: MacAddr,
    now: Timestamp,
    other_now: Timestamp,
)
    requires
        range.wf(),
        0 <= i < j < parts,
        one.wf(),
        other.wf(),
        one.pool == range.part(parts, i),
        other.pool == range.part(parts, j),
        now.wf(),
        other_now.wf(),
        forall|k: int|
            0 <= k < one.leases.len() ==> (#[trigger] one.leases[k]).hardware_address != mac,
        forall|k: int|
            0 <= k < other.leases.len() ==> (#[trigger] other.leases[k]).hardware_address
                != other_mac,
    ensures
        ({
            let lease = one.discover(mac, now).1;
            let other_lease = other.discover(other_mac, other_now).1;
            lease is Some && other_lease is Some ==> lease->Some_0.address
                != other_lease->Some_0.address
        }),
{
    law_offers_are_free_addresses_of_the_pool(one, mac, now);
    law_offers_are_free_addresses_of_the_pool(other, other_mac, other_now);
    if one.discover(mac, now).1 is Some {
        law_parts_are_disjoint(range, parts, i, j, one.discover(mac, now).1->Some_0.address);
    }
}

/// A lease that another server reports stands in the table afterwards, with the time at which it
/// runs out. Reporting it again changes nothing.
pub proof fn law_reported_leases_are_in_the_table(state: ServiceState, lease: Lease)
    ensures
        state.with_lease(lease).leases.contains(lease),
        state.with_lease(lease).with_lease(lease) == state.with_lease(lease),
{
    let pred = binding(lease.hardware_address, lease.address);
    let once = state.with_lease(lease);
    lemma_first_where(state.leases, pred);
    match first_where(state.leases, pred) {
        Some(i) => {
            assert(once.leases[i] == lease);
            assert forall|j: int| 0 <= j < i implies !pred(#[trigger] once.leases[j]) by {
                assert(once.leases[j] == state.leases[j]);
            }
            lemma_first_where_is(once.leases, pred, i);
            assert(once.with_lease(lease).leases =~= once.leases);
        },
        None => {
            let i = state.leases.len() as int;
            assert(once.leases[i] == lease);
            assert forall|j: int| 0 <= j < i implies !pred(#[trigger] once.leases[j]) by {
                assert(once.leases[j] == state.leases[j]);
            }
            lemma_first_where_is(once.leases, pred, i);
            assert(once.with_lease(lease).leases =~= once.leases);
        },
    }
}

/// No lease is lost when another server reports one: each lease of the table stays, or is the one
/// that is renewed.
pub proof fn law_reports_keep_other_leases(state: ServiceState, lease: Lease, i: int)
    requires
        0 <= i < state.leases.len(),
    ensures
        ({
            let after = state.with_lease(lease);
            &&& after.leases.len() >= state.leases.len()
            &&& after.leases[i].hardware_address == state.leases[i].hardware_address
            &&& after.leases[i].address == state.leases[i].address
            &&& after.leases[i] == state.leases[i] || (state.leases[i].hardware_address
                == lease.hardware_address && state.leases[i].address == lease.address)
        }),
{
    lemma_first_where(state.leases, binding(lease.hardware_address, lease.address));
}

} // verus!
