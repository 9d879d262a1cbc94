//! What each operation on the lease table changes, and what it leaves as it is.

use crate::dhcp::laws::{
    has_binding, in_use_at, law_confirmed_leases_are_in_the_table,
    law_only_known_leases_are_confirmed,
};
use crate::dhcp::{
    binding, free, held_by, in_use, seconds_left, unexpired, CommitError, Ipv4Range, Lease,
    ServiceState,
};
use crate::net::Ipv4Addr;
use crate::protocol::MacAddr;
use crate::search::{first_where, lemma_first_where, lemma_first_where_is};
use crate::text::decimal;
use crate::time::{Duration, Timestamp};
use vstd::arithmetic::power2::pow2;
use vstd::prelude::*;

verus! {

/// Whether a lease binds `ip` to `mac`.
pub open spec fn binds(lease: Lease, mac: MacAddr, ip: Ipv4Addr) -> bool {
    lease.hardware_address == mac && lease.address == ip
}

/// Whether `mac` has one of these leases.
pub open spec fn has_lease(leases: Seq<Lease>, mac: MacAddr) -> bool {
    exists|i: int| 0 <= i < leases.len() && (#[trigger] leases[i]).hardware_address == mac
}

/// Those of the leases that run out later than `now`.
pub open spec fn alive(leases: Seq<Lease>, now: Timestamp) -> Seq<Lease> {
    leases.filter(|l: Lease| l.expiry_timestamp.nanos > now.nanos)
}

/// How many addresses of the pool a search that starts at `from` visits before `addr`.
pub open spec fn steps(pool: Ipv4Range, from: Ipv4Addr, addr: Ipv4Addr) -> int {
    if from.bits <= addr.bits {
        addr.bits - from.bits
    } else {
        (pool.end - from.bits) + (addr.bits - pool.start)
    }
}

/// A service that has just started knows of no offer, serves its pool from the start, and has the
/// leases that it was given.
pub proof fn law_a_service_starts_afresh(
    pool: Ipv4Range,
    lease_time: Duration,
    leases: Seq<Lease>,
)
    ensures
        ({
            let state = ServiceState::init(pool, lease_time, leases);
            &&& state.pool == pool
            &&& state.lease_time == lease_time
            &&& state.leases == leases
            &&& state.pending.len() == 0
            &&& state.next.bits == pool.start
        }),
{
}

/// Serving another pool keeps every granted lease and every standing offer. The search goes on
/// where it was, if that lies in the new pool.
pub proof fn law_another_pool_keeps_leases_and_offers(state: ServiceState, pool: Ipv4Range)
    requires
        pool.wf(),
    ensures
        ({
            let after = state.with_pool(pool);
            &&& after.pool == pool
            &&& after.leases == state.leases
            &&& after.pending == state.pending
            &&& after.lease_time == state.lease_time
            &&& pool.start <= after.next.bits <= pool.end
            &&& pool.start <= state.next.bits <= pool.end ==> after.next == state.next
            &&& !(pool.start <= state.next.bits <= pool.end) ==> after.next.bits == pool.start
        }),
{
}

/// A lease that was granted before another pool is served can be renewed afterwards, and an offer
/// can be confirmed.
pub proof fn law_leases_survive_another_pool(
    state: ServiceState,
    pool: Ipv4Range,
    mac: MacAddr,
    ip: Ipv4Addr,
    now: Timestamp,
)
    ensures
        state.with_pool(pool).commit(mac, ip, now).1 is Ok <==> has_binding(state.pending, mac, ip)
            || has_binding(state.leases, mac, ip),
{
    law_only_known_leases_are_confirmed(state.with_pool(pool), mac, ip, now);
}

/// A report of a lease changes nothing but the table. It renews the first lease that binds the
/// same address to the same client, and is added where there is none.
pub proof fn law_reports_change_one_lease(state: ServiceState, lease: Lease)
    ensures
        ({
            let after = state.with_lease(lease);
            &&& after.pool == state.pool
            &&& after.lease_time == state.lease_time
            &&& after.pending == state.pending
            &&& after.next == state.next
            &&& if has_binding(state.leases, lease.hardware_address, lease.address) {
                exists|i: int|
                    0 <= i < state.leases.len() && #[trigger] after.leases
                        == state.leases.update(i, lease) && binds(
                        state.leases[i],
                        lease.hardware_address,
                        lease.address,
                    ) && forall|j: int|
                        0 <= j < i ==> !binds(
                            #[trigger] state.leases[j],
                            lease.hardware_address,
                            lease.address,
                        )
            } else {
                after.leases == state.leases.push(lease)
            }
        }),
{
    let pred = binding(lease.hardware_address, lease.address);
    lemma_first_where(state.leases, pred);
    let after = state.with_lease(lease);
    match first_where(state.leases, pred) {
        Some(i) => {
            assert(pred(state.leases[i]));
            assert forall|j: int| 0 <= j < i implies !binds(
                #[trigger] state.leases[j],
                lease.hardware_address,
                lease.address,
            ) by {
                assert(!pred(state.leases[j]));
            }
            assert(after.leases =~= state.leases.update(i, lease));
            assert(has_binding(state.leases, lease.hardware_address, lease.address));
        },
        None => {
            if has_binding(state.leases, lease.hardware_address, lease.address) {
                let j = choose|j: int|
                    0 <= j < state.leases.len() && (#[trigger] state.leases[j]).hardware_address
                        == lease.hardware_address && state.leases[j].address == lease.address;
                assert(!pred(state.leases[j]));
            }
        },
    }
}

/// The first of the leases of a client is the one that it is offered, whether or not it has run
/// out, and wherever its address lies. Nothing changes.
pub proof fn law_the_first_lease_of_a_client_is_offered(
    state: ServiceState,
    mac: MacAddr,
    now: Timestamp,
    i: int,
)
    requires
        0 <= i < state.leases.len(),
        state.leases[i].hardware_address == mac,
        forall|j: int| 0 <= j < i ==> (#[trigger] state.leases[j]).hardware_address != mac,
    ensures
        state.discover(mac, now) == (state, Some(state.leases[i])),
{
    assert(held_by(mac)(state.leases[i]));
    assert forall|j: int| 0 <= j < i implies !held_by(mac)(#[trigger] state.leases[j]) by {}
    lemma_first_where_is(state.leases, held_by(mac), i);
}

/// Asking for a lease without having one drops what has run out, and nothing else: all leases and
/// offers that have not run out stay, in their order, and an offer is added behind the others. The
/// pool and the lease time stay.
pub proof fn law_asking_keeps_what_has_not_run_out(
    state: ServiceState,
    mac: MacAddr,
    now: Timestamp,
)
    requires
        !has_lease(state.leases, mac),
    ensures
        ({
            let (after, offer) = state.discover(mac, now);
            &&& after.pool == state.pool
            &&& after.lease_time == state.lease_time
            &&& after.leases == alive(state.leases, now)
            &&& match offer {
                Some(lease) => after.pending == alive(state.pending, now).push(lease),
                None => after.pending == alive(state.pending, now) && after.next == state.next,
            }
        }),
{
    lemma_no_lease(state.leases, mac);
    lemma_alive(state.leases, now);
    lemma_alive(state.pending, now);
}

proof fn lemma_no_lease(leases: Seq<Lease>, mac: MacAddr)
    ensures
        first_where(leases, held_by(mac)) is None <==> !has_lease(leases, mac),
{
    lemma_first_where(leases, held_by(mac));
    match first_where(leases, held_by(mac)) {
        Some(i) => {
            assert(leases[i].hardware_address == mac);
        },
        None => {
            assert forall|i: int| 0 <= i < leases.len() implies (
            #[trigger] leases[i]).hardware_address != mac by {
                assert(!held_by(mac)(leases[i]));
            }
        },
    }
}

proof fn lemma_alive(leases: Seq<Lease>, now: Timestamp)
    ensures
        leases.filter(unexpired(now)) == alive(leases, now),
{
    assert(unexpired(now) =~= (|l: Lease| l.expiry_timestamp.nanos > now.nanos));
}

/// What is left of some leases: those that run out later than `now`.
pub proof fn law_what_has_not_run_out_is_kept(leases: Seq<Lease>, now: Timestamp, lease: Lease)
    ensures
        alive(leases, now).contains(lease) <==> leases.contains(lease)
            && lease.expiry_timestamp.nanos > now.nanos,
{
    let pred = |l: Lease| l.expiry_timestamp.nanos > now.nanos;
    let kept = leases.filter(pred);
    if leases.contains(lease) && lease.expiry_timestamp.nanos > now.nanos {
        let i = choose|i: int| 0 <= i < leases.len() && leases[i] == lease;
        leases.lemma_filter_contains(pred, i);
    }
    if kept.contains(lease) {
        leases.lemma_filter_contains_rev(pred, lease);
        let k = choose|k: int| 0 <= k < kept.len() && kept[k] == lease;
        leases.lemma_filter_pred(pred, k);
    }
}

/// The address that a client without a lease is offered is the free one that comes first, counted
/// from the one after the last that was offered, and around the end of the pool. The next search
/// starts behind it.
pub proof fn law_the_search_goes_on_where_it_was(
    state: ServiceState,
    mac: MacAddr,
    now: Timestamp,
    addr: Ipv4Addr,
)
    requires
        state.wf(),
        now.wf(),
        !has_lease(state.leases, mac),
        state.discover(mac, now).1 is Some,
        state.pool.start <= addr.bits < state.pool.end,
        !in_use_at(state.leases, addr, now),
        !in_use_at(state.pending, addr, now),
    ensures
        ({
            let (after, offer) = state.discover(mac, now);
            let found = offer->Some_0.address;
            &&& state.pool.start <= found.bits < state.pool.end
            &&& steps(state.pool, state.next, found) <= steps(state.pool, state.next, addr)
            &&& after.next.bits == found.bits + 1
        }),
{
    lemma_no_lease(state.leases, mac);
    lemma_in_use(state.leases, addr, now);
    lemma_in_use(state.pending, addr, now);
    let pruned = state.pruned(now);
    let order = state.pool.order_from(state.next);
    let is_free = free(pruned.leases, pruned.pending);
    lemma_first_where(order, is_free);
    let k = first_where(order, is_free)->Some_0;
    let n = steps(state.pool, state.next, addr);
    assert(order[n] == addr);
    assert(is_free(addr));
    assert(k <= n);
    assert(steps(state.pool, state.next, order[k]) == k);
}

proof fn lemma_in_use(leases: Seq<Lease>, addr: Ipv4Addr, now: Timestamp)
    requires
        !in_use_at(leases, addr, now),
    ensures
        !in_use(leases.filter(unexpired(now)), addr),
{
    let kept = leases.filter(unexpired(now));
    lemma_alive(leases, now);
    if in_use(kept, addr) {
        let k = choose|k: int| 0 <= k < kept.len() && (#[trigger] kept[k]).address == addr;
        assert(kept.contains(kept[k]));
        law_what_has_not_run_out_is_kept(leases, now, kept[k]);
        let i = choose|i: int| 0 <= i < leases.len() && leases[i] == kept[k];
        assert(leases[i].address == addr);
    }
}

/// Confirming a lease takes it out of the offers, if it was one, and puts it at the end of the
/// table; or else renews it in its place. Every other offer and every other lease stays as it is,
/// and so do the pool, the lease time and the search.
pub proof fn law_confirming_changes_one_lease(
    state: ServiceState,
    mac: MacAddr,
    ip: Ipv4Addr,
    now: Timestamp,
)
    requires
        state.wf(),
        now.wf(),
    ensures
        ({
            let (after, outcome) = state.commit(mac, ip, now);
            let lease = Lease {
                hardware_address: mac,
                address: ip,
                expiry_timestamp: Timestamp { nanos: (now.nanos + state.lease_time.nanos) as i128 },
            };
            &&& after.pool == state.pool
            &&& after.lease_time == state.lease_time
            &&& after.next == state.next
            &&& if has_binding(state.pending, mac, ip) {
                &&& outcome == Ok::<Lease, CommitError>(lease)
                &&& after.leases == state.leases.push(lease)
                &&& exists|i: int|
                    0 <= i < state.pending.len() && #[trigger] after.pending
                        == state.pending.remove(i) && binds(state.pending[i], mac, ip)
            } else if has_binding(state.leases, mac, ip) {
                &&& outcome == Ok::<Lease, CommitError>(lease)
                &&& after.pending == state.pending
                &&& exists|i: int|
                    0 <= i < state.leases.len() && #[trigger] after.leases == state.leases.update(
                        i,
                        lease,
                    ) && binds(state.leases[i], mac, ip)
            } else {
                &&& after == state
                &&& outcome == Err::<Lease, CommitError>(
                    CommitError::LeaseNotFound { mac_addr: mac, ip_addr: ip },
                )
            }
        }),
{
    let pred = binding(mac, ip);
    lemma_binding(state.pending, mac, ip);
    lemma_binding(state.leases, mac, ip);
    let after = state.commit(mac, ip, now).0;
    match first_where(state.pending, pred) {
        Some(i) => {
            assert(after.pending == state.pending.remove(i));
        },
        None => match first_where(state.leases, pred) {
            Some(i) => {
                let lease = state.commit(mac, ip, now).1->Ok_0;
                assert(after.leases == state.leases.update(i, lease));
            },
            None => {},
        },
    }
}

proof fn lemma_binding(leases: Seq<Lease>, mac: MacAddr, ip: Ipv4Addr)
    ensures
        match first_where(leases, binding(mac, ip)) {
            Some(i) => 0 <= i < leases.len() && binds(leases[i], mac, ip) && has_binding(
                leases,
                mac,
                ip,
            ),
            None => !has_binding(leases, mac, ip),
        },
{
    let pred = binding(mac, ip);
    lemma_first_where(leases, pred);
    match first_where(leases, pred) {
        Some(i) => {
            assert(pred(leases[i]));
            assert(leases[i].hardware_address == mac);
        },
        None => {
            assert forall|i: int| 0 <= i < leases.len() implies !binds(
                #[trigger] leases[i],
                mac,
                ip,
            ) by {
                assert(!pred(leases[i]));
            }
        },
    }
}

/// Confirming one lease keeps every other offer and every other lease.
pub proof fn law_confirming_keeps_other_offers_and_leases(
    state: ServiceState,
    mac: MacAddr,
    ip: Ipv4Addr,
    now: Timestamp,
    other: Lease,
)
    requires
        state.wf(),
        now.wf(),
        !binds(other, mac, ip),
    ensures
        state.commit(mac, ip, now).0.pending.contains(other) <==> state.pending.contains(other),
        state.commit(mac, ip, now).0.leases.contains(other) <==> state.leases.contains(other),
{
    law_confirming_changes_one_lease(state, mac, ip, now);
    let (after, outcome) = state.commit(mac, ip, now);
    if has_binding(state.pending, mac, ip) {
        let i = choose|i: int|
            0 <= i < state.pending.len() && #[trigger] after.pending == state.pending.remove(i)
                && binds(state.pending[i], mac, ip);
        lemma_remove_keeps(state.pending, i, other);
        lemma_push_keeps(state.leases, outcome->Ok_0, other);
    } else if has_binding(state.leases, mac, ip) {
        let i = choose|i: int|
            0 <= i < state.leases.len() && #[trigger] after.leases == state.leases.update(
                i,
                outcome->Ok_0,
            ) && binds(state.leases[i], mac, ip);
        lemma_update_keeps(state.leases, i, outcome->Ok_0, other);
    }
}

proof fn lemma_remove_keeps(leases: Seq<Lease>, i: int, other: Lease)
    requires
        0 <= i < leases.len(),
        leases[i] != other,
    ensures
        leases.remove(i).contains(other) <==> leases.contains(other),
{
    let after = leases.remove(i);
    if leases.contains(other) {
        let k = choose|k: int| 0 <= k < leases.len() && leases[k] == other;
        assert(after[if k < i {
            k
        } else {
            k - 1
        }] == other);
    }
    if after.contains(other) {
        let k = choose|k: int| 0 <= k < after.len() && after[k] == other;
        assert(leases[if k < i {
            k
        } else {
            k + 1
        }] == other);
    }
}

proof fn lemma_push_keeps(leases: Seq<Lease>, new: Lease, other: Lease)
    requires
        new != other,
    ensures
        leases.push(new).contains(other) <==> leases.contains(other),
{
    let after = leases.push(new);
    if leases.contains(other) {
        let k = choose|k: int| 0 <= k < leases.len() && leases[k] == other;
        assert(after[k] == other);
    }
}

proof fn lemma_update_keeps(leases: Seq<Lease>, i: int, new: Lease, other: Lease)
    requires
        0 <= i < leases.len(),
        leases[i] != other,
        new != other,
    ensures
        leases.update(i, new).contains(other) <==> leases.contains(other),
{
    let after = leases.update(i, new);
    if leases.contains(other) {
        let k = choose|k: int| 0 <= k < leases.len() && leases[k] == other;
        assert(after[k] == other);
    }
    if after.contains(other) {
        let k = choose|k: int| 0 <= k < after.len() && after[k] == other;
        assert(leases[k] == other);
    }
}

/// An offer can be confirmed also after another lease was confirmed.
pub proof fn law_offers_stand_while_others_are_confirmed(
    state: ServiceState,
    mac: MacAddr,
    ip: Ipv4Addr,
    now: Timestamp,
    other_mac: MacAddr,
    other_ip: Ipv4Addr,
    later: Timestamp,
)
    requires
        state.wf(),
        now.wf(),
        has_binding(state.pending, other_mac, other_ip) || has_binding(
            state.leases,
            other_mac,
            other_ip,
        ),
    ensures
        state.commit(mac, ip, now).0.commit(other_mac, other_ip, later).1 is Ok,
{
    let after = state.commit(mac, ip, now).0;
    law_only_known_leases_are_confirmed(after, other_mac, other_ip, later);
    law_confirming_changes_one_lease(state, mac, ip, now);
    if mac == other_mac && ip == other_ip {
        let granted = state.commit(mac, ip, now).1->Ok_0;
        law_confirmed_leases_are_in_the_table(state, mac, ip, now);
        let k = choose|k: int| 0 <= k < after.leases.len() && after.leases[k] == granted;
        assert(after.leases[k].hardware_address == mac);
    } else if has_binding(state.pending, other_mac, other_ip) {
        let k = choose|k: int|
            0 <= k < state.pending.len() && (#[trigger] state.pending[k]).hardware_address
                == other_mac && state.pending[k].address == other_ip;
        law_confirming_keeps_other_offers_and_leases(state, mac, ip, now, state.pending[k]);
        let j = choose|j: int|
            0 <= j < after.pending.len() && after.pending[j] == state.pending[k];
        assert(after.pending[j].hardware_address == other_mac);
    } else {
        let k = choose|k: int|
            0 <= k < state.leases.len() && (#[trigger] state.leases[k]).hardware_address
                == other_mac && state.leases[k].address == other_ip;
        law_confirming_keeps_other_offers_and_leases(state, mac, ip, now, state.leases[k]);
        let j = choose|j: int| 0 <= j < after.leases.len() && after.leases[j] == state.leases[k];
        assert(after.leases[j].hardware_address == other_mac);
    }
}

/// An offer can be confirmed also after another client has asked for a lease, as long as it has
/// not run out.
pub proof fn law_offers_stand_while_others_ask(
    state: ServiceState,
    mac: MacAddr,
    now: Timestamp,
    offer: Lease,
    later: Timestamp,
)
    requires
        state.pending.contains(offer) || state.leases.contains(offer),
        offer.expiry_timestamp.nanos > now.nanos,
    ensures
        state.discover(mac, now).0.commit(offer.hardware_address, offer.address, later).1 is Ok,
{
    let after = state.discover(mac, now).0;
    law_only_known_leases_are_confirmed(after, offer.hardware_address, offer.address, later);
    lemma_no_lease(state.leases, mac);
    if !has_lease(state.leases, mac) {
        law_asking_keeps_what_has_not_run_out(state, mac, now);
        law_what_has_not_run_out_is_kept(state.pending, now, offer);
        law_what_has_not_run_out_is_kept(state.leases, now, offer);
        let kept = alive(state.pending, now);
        if kept.contains(offer) {
            let k = choose|k: int| 0 <= k < kept.len() && kept[k] == offer;
            assert(after.pending[k] == offer);
        }
    }
    if after.pending.contains(offer) {
        let k = choose|k: int| 0 <= k < after.pending.len() && after.pending[k] == offer;
        assert(after.pending[k].hardware_address == offer.hardware_address);
    } else {
        let k = choose|k: int| 0 <= k < after.leases.len() && after.leases[k] == offer;
        assert(after.leases[k].hardware_address == offer.hardware_address);
    }
}

/// A client is told the whole seconds that are left of its lease: at least so many, and less than
/// one more. It is told none of a lease that has run out, and of one that lasts longer than it
/// could be told, as many as it can be told.
pub proof fn law_clients_are_told_the_seconds_left(expiry: Timestamp, now: Timestamp)
    ensures
        ({
            let left = expiry.nanos - now.nanos;
            let told = seconds_left(expiry, now);
            &&& left < 1_000_000_000 ==> told == 0
            &&& 0 <= left < 4_294_967_296_000_000_000 ==> told * 1_000_000_000 <= left < (told + 1)
                * 1_000_000_000
            &&& left >= 4_294_967_296_000_000_000 ==> told == u32::MAX
        }),
{
}

/// A network can be served iff its prefix is 1 to 32 bits long, and its addresses do not go beyond
/// the last but one that there is.
pub proof fn law_networks_that_can_be_served(net: Ipv4Addr, prefix_length: u32)
    ensures
        Ipv4Range::cidr_fits(net, prefix_length) <==> 0 < prefix_length && prefix_length < 33
            && net.bits + pow2((32 - prefix_length) as nat) < 0x1_0000_0000,
{
}

/// The order of a search, wherever it starts: up from there to the end of the range, and then from
/// the start of the range up to there.
pub proof fn law_the_order_of_a_search(range: Ipv4Range, at: Ipv4Addr, k: int)
    requires
        0 <= k < range.order_from(at).len(),
    ensures
        ({
            let upper = if at.bits < range.end {
                range.end - at.bits
            } else {
                0
            };
            let lower = if range.start < at.bits {
                at.bits - range.start
            } else {
                0
            };
            &&& range.order_from(at).len() == upper + lower
            &&& range.order_from(at)[k].bits == (if k < upper {
                at.bits + k
            } else {
                range.start + (k - upper)
            })
        }),
{
}

/// A lease is known iff it was offered or granted.
pub proof fn law_which_leases_are_known(state: ServiceState, mac: MacAddr, ip: Ipv4Addr)
    ensures
        state.knows(mac, ip) <==> has_binding(state.pending, mac, ip) || has_binding(
            state.leases,
            mac,
            ip,
        ),
{
    lemma_binding(state.pending, mac, ip);
    lemma_binding(state.leases, mac, ip);
}

/// A lease is shown with its client, its address, and the time that is left of it, if any is.
pub proof fn law_how_a_lease_is_shown(
    mac: MacAddr,
    ip: Ipv4Addr,
    now: Timestamp,
    left: Duration,
)
    requires
        now.wf(),
        left.wf(),
    ensures
        ({
            let lease = Lease {
                hardware_address: mac,
                address: ip,
                expiry_timestamp: now.spec_after(left),
            };
            let who = "MAC "@ + mac.text() + " has IP "@ + ip.text();
            &&& lease.text(now) == who + ", expiring in "@ + left.text(9, 0)
            &&& forall|later: Timestamp|
                later.nanos > now.nanos + left.nanos ==> #[trigger] lease.text(later) == who
        }),
{
}

/// A table is shown with its pool, and with its first three leases, one in a line. If there are
/// more, their number is shown too.
pub proof fn law_how_a_table_is_shown(state: ServiceState, now: Timestamp, i: nat)
    ensures
        ({
            let pool = (Ipv4Addr { bits: state.pool.start }).text() + " - "@ + (Ipv4Addr {
                bits: state.pool.end,
            }).text();
            let n = state.leases.len();
            &&& n == 0 ==> state.text(now) == pool + "\n"@
            &&& 0 < n <= 3 ==> state.text(now) == pool + "\n"@ + "\n"@ + state.lease_lines(n, now)
            &&& n > 3 ==> state.text(now) == pool + "\n"@ + "\n"@ + state.lease_lines(3, now) + (
            "And "@ + decimal((n - 3) as nat) + " more\n"@)
            &&& state.lease_lines(0, now).len() == 0
            &&& state.lease_lines(i + 1, now) == state.lease_lines(i, now)
                + state.leases[i as int].text(now) + "\n"@
        }),
{
    let none = Seq::<char>::empty();
    let n = state.leases.len();
    let head = state.pool.text() + "\n"@;
    if n == 0 {
        assert(head + none + none + none =~= head);
    } else if n <= 3 {
        let shown = head + "\n"@ + state.lease_lines(n, now);
        assert(shown + none =~= shown);
    }
}

} // verus!
