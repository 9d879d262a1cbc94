//! The address pool and the lease table of one server.

pub mod bookkeeping;
pub mod laws;

use crate::net::Ipv4Addr;
use crate::protocol::{DhcpOffer, MacAddr};
use crate::search::{first_where, lemma_first_where_is, lemma_first_where_none};
use crate::text::{decimal, push_decimal};
use crate::time::{now, Duration, Timestamp, MAX_NANOS, NANOS_PER_SEC};
use vstd::arithmetic::power2::{lemma2_to64, lemma_pow2_pos, lemma_pow2_strictly_increases, pow2};
use vstd::bits::lemma_u32_shl_is_mul;
use vstd::prelude::*;

verus! {

/// How many leases are shown.
pub const SHOWN_LEASES: usize = 3;

/// A DHCP lease.
#[derive(Debug, Clone, Copy, PartialEq, Eq)]
pub struct Lease {
    pub hardware_address: MacAddr,
    pub address: Ipv4Addr,
    pub expiry_timestamp: Timestamp,
}

/// IPv4 address pool to serve. `end` is not included.
#[derive(Debug, Clone, Copy, PartialEq, Eq, Structural)]
pub struct Ipv4Range {
    pub start: u32,
    pub end: u32,
}

impl Lease {
    /// Whether the time that is left of the lease is one that can be shown.
    pub open spec fn is_shown_at(self, now: Timestamp) -> bool {
        self.expiry_timestamp.nanos <= now.nanos + MAX_NANOS
    }

    /// Who has which address, and for how much longer, unless the lease has run out.
    pub open spec fn text(self, now: Timestamp) -> Seq<char> {
        let who = "MAC "@ + self.hardware_address.text() + " has IP "@ + self.address.text();
        match self.expiry_timestamp.spec_since(now) {
            Some(left) => who + ", expiring in "@ + left.text(9, 0),
            None => who,
        }
    }

    /// Appends the lease as a person reads it at `now`.
    pub fn push_text(&self, out: &mut String, now: Timestamp)
        requires
            self.is_shown_at(now),
        ensures
            final(out)@ == old(out)@ + self.text(now),
    {
        out.append("MAC ");
        self.hardware_address.push_text(out);
        out.append(" has IP ");
        self.address.push_text(out);
        match self.expiry_timestamp.duration_since(now) {
            Some(left) => {
                out.append(", expiring in ");
                left.push_text(out, 9, 0);
            },
            None => {},
        }
        assert(out@ =~= old(out)@ + self.text(now));
    }
}

/// The addresses from `from` up to, but not including, `to`, in ascending order.
pub open spec fn ascending(from: u32, to: u32) -> Seq<Ipv4Addr> {
    if from < to {
        Seq::new((to - from) as nat, |i: int| Ipv4Addr { bits: (from + i) as u32 })
    } else {
        Seq::empty()
    }
}

/// The addresses of a pool that are still to be visited, see [`Ipv4Range::iter_starting_at`].
#[derive(Debug, Clone, Copy)]
pub struct Addresses {
    pub from: u32,
    pub to: u32,
    pub wrapped_from: u32,
    pub wrapped_to: u32,
}

impl Addresses {
    /// What is still to come, in order.
    pub open spec fn remaining(self) -> Seq<Ipv4Addr> {
        ascending(self.from, self.to) + ascending(self.wrapped_from, self.wrapped_to)
    }

    /// The next address, which is then no longer among the remaining ones.
    pub fn next(&mut self) -> (addr: Option<Ipv4Addr>)
        ensures
            match addr {
                Some(addr) => {
                    &&& old(self).remaining().len() > 0
                    &&& addr == old(self).remaining()[0]
                    &&& final(self).remaining() == old(self).remaining().drop_first()
                },
                None => old(self).remaining().len() == 0 && *final(self) == *old(self),
            },
    {
        if self.from < self.to {
            let addr = Ipv4Addr { bits: self.from };
            self.from = self.from + 1;
            assert(self.remaining() =~= old(self).remaining().drop_first());
            Some(addr)
        } else if self.wrapped_from < self.wrapped_to {
            let addr = Ipv4Addr { bits: self.wrapped_from };
            self.wrapped_from = self.wrapped_from + 1;
            assert(self.remaining() =~= old(self).remaining().drop_first());
            Some(addr)
        } else {
            None
        }
    }
}

/// The size of one part when `len` addresses are divided into `parts`; the last part also gets
/// what is left over.
pub open spec fn part_size(len: int, parts: int) -> int {
    len / parts
}

impl Ipv4Range {
    pub open spec fn wf(self) -> bool {
        self.start <= self.end
    }

    /// The number of addresses in the range.
    pub open spec fn size(self) -> int {
        self.end - self.start
    }

    pub open spec fn contains(self, addr: Ipv4Addr) -> bool {
        self.start <= addr.bits < self.end
    }

    /// The order in which addresses are visited when starting at `at`: first those from `at` up,
    /// then those from the start of the range up to `at`.
    pub open spec fn order_from(self, at: Ipv4Addr) -> Seq<Ipv4Addr> {
        ascending(at.bits, self.end) + ascending(self.start, at.bits)
    }

    /// The `i`-th of `parts` equal parts of this range.
    pub open spec fn part(self, parts: int, i: int) -> Ipv4Range {
        let size = part_size(self.size(), parts);
        Ipv4Range {
            start: (self.start + i * size) as u32,
            end: if i == parts - 1 {
                self.end
            } else {
                (self.start + (i + 1) * size) as u32
            },
        }
    }

    /// The first address, and the one that follows the last.
    pub open spec fn text(self) -> Seq<char> {
        Ipv4Addr { bits: self.start }.text() + " - "@ + Ipv4Addr { bits: self.end }.text()
    }

    /// Appends the range as a person reads it.
    pub fn push_text(&self, out: &mut String)
        ensures
            final(out)@ == old(out)@ + self.text(),
    {
        Ipv4Addr::from_bits(self.start).push_text(out);
        out.append(" - ");
        Ipv4Addr::from_bits(self.end).push_text(out);
        assert(out@ =~= old(out)@ + self.text());
    }

    #[must_use]
    pub fn new(start: u32, end: u32) -> (range: Self)
        requires
            start <= end,
        ensures
            range.start == start,
            range.end == end,
            range.wf(),
    {
        Ipv4Range { start, end }
    }

    #[must_use]
    pub fn start(&self) -> (addr: Ipv4Addr)
        ensures
            addr.bits == self.start,
    {
        Ipv4Addr::from_bits(self.start)
    }

    #[must_use]
    pub fn end(&self) -> (addr: Ipv4Addr)
        ensures
            addr.bits == self.end,
    {
        Ipv4Addr::from_bits(self.end)
    }

    #[must_use]
    pub fn len(&self) -> (len: u32)
        requires
            self.wf(),
        ensures
            len == self.size(),
    {
        self.end - self.start
    }

    #[must_use]
    pub fn is_empty(&self) -> (empty: bool)
        ensures
            empty == (self.start == self.end),
    {
        self.start == self.end
    }

    /// The addresses of the range from `at` up, followed by those from the start up to `at`.
    pub fn iter_starting_at(&self, at: Ipv4Addr) -> (iter: Addresses)
        ensures
            iter.remaining() == self.order_from(at),
    {
        let at = at.to_bits();
        Addresses { from: at, to: self.end, wrapped_from: self.start, wrapped_to: at }
    }

    /// Whether `from_cidr` has a range for this network: a prefix of 1 to 32 bits, and no address
    /// beyond the last one.
    pub open spec fn cidr_fits(ip_address: Ipv4Addr, prefix_length: u32) -> bool {
        1 <= prefix_length <= 32 && ip_address.bits + pow2((32 - prefix_length) as nat) <= u32::MAX
    }

    /// The range that starts at `ip_address` and leaves out the last address of a network with
    /// this prefix length.
    #[must_use]
    pub fn from_cidr(ip_address: Ipv4Addr, prefix_length: u32) -> (range: Self)
        requires
            Self::cidr_fits(ip_address, prefix_length),
        ensures
            range.start == ip_address.bits,
            range.end == ip_address.bits + pow2((32 - prefix_length) as nat) - 1,
            range.wf(),
    {
        let start: u32 = ip_address.to_bits();
        let shift: u32 = 32 - prefix_length;
        proof {
            lemma_pow2_pos(shift as nat);
            lemma_pow2_strictly_increases(shift as nat, 32);
            lemma2_to64();
            lemma_u32_shl_is_mul(1, shift);
        }
        let size: u32 = 1u32 << shift;
        let end: u32 = start + size - 1;
        Self::new(start, end)
    }

    /// Whether a prefix length of `prefix_length` is one that [`Ipv4Range::from_cidr`] takes for
    /// `ip_address`.
    pub fn is_cidr(ip_address: Ipv4Addr, prefix_length: u32) -> (fits: bool)
        ensures
            fits == Self::cidr_fits(ip_address, prefix_length),
    {
        if prefix_length < 1 || prefix_length > 32 {
            return false;
        }
        let shift: u32 = 32 - prefix_length;
        proof {
            lemma_pow2_strictly_increases(shift as nat, 32);
            lemma2_to64();
            lemma_u32_shl_is_mul(1, shift);
        }
        let size: u32 = 1u32 << shift;
        size <= u32::MAX - ip_address.to_bits()
    }

    /// Divides the range into `parts` parts that follow each other. All are of the same size, but
    /// for the last, which also holds what is left over.
    #[must_use]
    pub fn divide(&self, parts: u32) -> (pools: Vec<Self>)
        requires
            self.wf(),
            parts > 0,
        ensures
            pools@.len() == parts,
            forall|i: int| 0 <= i < parts ==> #[trigger] pools@[i] == self.part(parts as int, i),
            forall|i: int| 0 <= i < parts ==> (#[trigger] pools@[i]).wf(),
    {
        let pool_size: u32 = self.len() / parts;
        let mut pools: Vec<Self> = Vec::new();
        let mut i: u32 = 0;
        while i < parts
            invariant
                i <= parts,
                parts > 0,
                self.wf(),
                pool_size == part_size(self.size(), parts as int),
                pools@.len() == i,
                forall|j: int|
                    0 <= j < i ==> #[trigger] pools@[j] == self.part_before_rest(parts as int, j),
            decreases parts - i,
        {
            proof {
                self.lemma_part_bounds(parts as int, i as int);
            }
            let from: u32 = self.start + i * pool_size;
            let to: u32 = self.start + (i + 1) * pool_size;
            pools.push(Self::new(from, to));
            i = i + 1;
        }
        let last: usize = pools.len() - 1;
        proof {
            self.lemma_part_bounds(parts as int, last as int);
            self.lemma_rest(parts as int);
        }
        let rest: u32 = self.len() % parts;
        let widened = Ipv4Range { start: pools[last].start, end: pools[last].end + rest };
        pools.set(last, widened);
        assert forall|j: int| 0 <= j < parts implies (#[trigger] pools@[j]).wf() by {
            self.lemma_part_bounds(parts as int, j);
        }
        pools
    }

    /// The `i`-th part as it is before the last one gets what is left over.
    spec fn part_before_rest(self, parts: int, i: int) -> Ipv4Range {
        let size = part_size(self.size(), parts);
        Ipv4Range {
            start: (self.start + i * size) as u32,
            end: (self.start + (i + 1) * size) as u32,
        }
    }

    /// The `i`-th part lies in the range.
    pub proof fn lemma_part_bounds(self, parts: int, i: int)
        requires
            self.wf(),
            0 <= i < parts,
        ensures
            ({
                let size = part_size(self.size(), parts);
                &&& 0 <= i * size <= (i + 1) * size <= self.size()
                &&& (i + 1) * size == i * size + size
                &&& size >= 0
            }),
    {
        let size = part_size(self.size(), parts);
        self.lemma_rest(parts);
        assert(0 <= i * size <= (i + 1) * size <= parts * size && (i + 1) * size == i * size + size)
            by (nonlinear_arith)
            requires
                0 <= i < parts,
                size >= 0,
        ;
    }

    /// The parts without what is left over, and what is left over, make up the range.
    pub proof fn lemma_rest(self, parts: int)
        requires
            self.wf(),
            parts > 0,
        ensures
            parts * part_size(self.size(), parts) + self.size() % parts == self.size(),
            0 <= part_size(self.size(), parts),
            0 <= self.size() % parts < parts,
    {
        let len = self.size();
        assert(parts * (len / parts) + len % parts == len && 0 <= len / parts && 0 <= len % parts
            < parts) by (nonlinear_arith)
            requires
                parts > 0,
                len >= 0,
        ;
    }
}

/// A lease on offer, with the prefix length of the network it is for.
#[derive(Debug, Clone, Copy, PartialEq, Eq)]
pub struct LeaseOffer {
    pub lease: Lease,
    pub subnet_mask: u32,
}

/// The whole seconds that are left of a lease which runs out at `expiry`: none if it has run out,
/// and at most `u32::MAX`.
pub open spec fn seconds_left(expiry: Timestamp, now: Timestamp) -> u32 {
    match expiry.spec_since(now) {
        Some(span) => {
            let secs = span.nanos / NANOS_PER_SEC;
            if secs <= u32::MAX {
                secs as u32
            } else {
                u32::MAX
            }
        },
        None => 0,
    }
}

impl LeaseOffer {
    /// The offer as the client gets it at `now`.
    pub fn to_dhcp_offer(&self, now: Timestamp) -> (offer: DhcpOffer)
        ensures
            offer.ip == self.lease.address,
            offer.subnet_mask == self.subnet_mask,
            offer.lease_time == seconds_left(self.lease.expiry_timestamp, now),
    {
        let lease_time: u32 = match self.lease.expiry_timestamp.duration_since(now) {
            Some(span) => {
                let secs: u128 = span.nanos / NANOS_PER_SEC;
                if secs <= u32::MAX as u128 {
                    secs as u32
                } else {
                    u32::MAX
                }
            },
            None => 0,
        };
        DhcpOffer { ip: self.lease.address, lease_time, subnet_mask: self.subnet_mask }
    }
}

/// Why a lease could not be confirmed.
#[derive(Debug, Clone, Copy, PartialEq, Eq)]
pub enum CommitError {
    /// There is no such lease, neither offered nor granted.
    LeaseNotFound { mac_addr: MacAddr, ip_addr: Ipv4Addr },
}

impl CommitError {
    /// The error as a person reads it.
    pub open spec fn text(self) -> Seq<char> {
        match self {
            CommitError::LeaseNotFound { mac_addr, ip_addr } => "No lease found for ("@
                + mac_addr.text() + ", "@ + ip_addr.text() + ")"@,
        }
    }

    /// The error as a person reads it.
    pub fn to_text(&self) -> (text: String)
        ensures
            text@ == self.text(),
    {
        let mut text = String::new();
        match self {
            CommitError::LeaseNotFound { mac_addr, ip_addr } => {
                text.append("No lease found for (");
                mac_addr.push_text(&mut text);
                text.append(", ");
                ip_addr.push_text(&mut text);
                text.append(")");
            },
        }
        assert(text@ =~= self.text());
        text
    }
}

/// The lease of `mac`.
pub open spec fn held_by(mac: MacAddr) -> spec_fn(Lease) -> bool {
    |l: Lease| l.hardware_address == mac
}

/// The lease of the address `ip` to `mac`.
pub open spec fn binding(mac: MacAddr, ip: Ipv4Addr) -> spec_fn(Lease) -> bool {
    |l: Lease| l.hardware_address == mac && l.address == ip
}

/// The leases that have not run out at `now`.
pub open spec fn unexpired(now: Timestamp) -> spec_fn(Lease) -> bool {
    |l: Lease| l.expiry_timestamp.nanos > now.nanos
}

/// Whether one of `leases` is for the address `addr`.
pub open spec fn in_use(leases: Seq<Lease>, addr: Ipv4Addr) -> bool {
    exists|i: int| 0 <= i < leases.len() && (#[trigger] leases[i]).address == addr
}

/// The addresses that are neither leased nor offered.
pub open spec fn free(leases: Seq<Lease>, pending: Seq<Lease>) -> spec_fn(Ipv4Addr) -> bool {
    |addr: Ipv4Addr| !in_use(leases, addr) && !in_use(pending, addr)
}

/// The state of a [`Service`].
pub struct ServiceState {
    pub pool: Ipv4Range,
    pub lease_time: Duration,
    pub leases: Seq<Lease>,
    pub pending: Seq<Lease>,
    pub next: Ipv4Addr,
}

impl ServiceState {
    pub open spec fn wf(self) -> bool {
        &&& self.pool.wf()
        &&& self.lease_time.wf()
        &&& self.pool.start <= self.next.bits <= self.pool.end
    }

    pub open spec fn init(pool: Ipv4Range, lease_time: Duration, leases: Seq<Lease>) -> Self {
        ServiceState {
            pool,
            lease_time,
            leases,
            pending: Seq::empty(),
            next: Ipv4Addr { bits: pool.start },
        }
    }

    /// Serve another pool. The search for a free address goes on where it was, if that lies in
    /// the new pool, and starts anew if it does not.
    pub open spec fn with_pool(self, pool: Ipv4Range) -> Self {
        ServiceState {
            pool,
            next: if pool.start <= self.next.bits <= pool.end {
                self.next
            } else {
                Ipv4Addr { bits: pool.start }
            },
            ..self
        }
    }

    /// Add a lease, or renew the one that binds the same address to the same hardware.
    pub open spec fn with_lease(self, lease: Lease) -> Self {
        match first_where(self.leases, binding(lease.hardware_address, lease.address)) {
            Some(i) => ServiceState {
                leases: self.leases.update(
                    i,
                    Lease { expiry_timestamp: lease.expiry_timestamp, ..self.leases[i] },
                ),
                ..self
            },
            None => ServiceState { leases: self.leases.push(lease), ..self },
        }
    }

    /// Drop all that has run out.
    pub open spec fn pruned(self, now: Timestamp) -> Self {
        ServiceState {
            leases: self.leases.filter(unexpired(now)),
            pending: self.pending.filter(unexpired(now)),
            ..self
        }
    }

    /// The first free address, searched for from the address after the last one given on.
    pub open spec fn candidate(self) -> Option<Ipv4Addr> {
        let order = self.pool.order_from(self.next);
        match first_where(order, free(self.leases, self.pending)) {
            Some(k) => Some(order[k]),
            None => None,
        }
    }

    /// Hand out `addr` to `mac` for now; the lease is to be confirmed.
    pub open spec fn offering(self, mac: MacAddr, addr: Ipv4Addr, now: Timestamp) -> (Self, Lease) {
        let lease = Lease {
            hardware_address: mac,
            address: addr,
            expiry_timestamp: now.spec_after(self.lease_time),
        };
        (
            ServiceState {
                pending: self.pending.push(lease),
                next: Ipv4Addr { bits: (addr.bits + 1) as u32 },
                ..self
            },
            lease,
        )
    }

    /// Find a lease for `mac`: the one it has, or one of a free address.
    pub open spec fn discover(self, mac: MacAddr, now: Timestamp) -> (Self, Option<Lease>) {
        match first_where(self.leases, held_by(mac)) {
            Some(i) => (self, Some(self.leases[i])),
            None => {
                let pruned = self.pruned(now);
                match pruned.candidate() {
                    Some(addr) => {
                        let (offered, lease) = pruned.offering(mac, addr, now);
                        (offered, Some(lease))
                    },
                    None => (pruned, None),
                }
            },
        }
    }

    /// Whether what is shown of the leases can be shown.
    pub open spec fn is_shown_at(self, now: Timestamp) -> bool {
        forall|i: int|
            0 <= i < self.leases.len() && i < SHOWN_LEASES ==> (#[trigger]
            self.leases[i]).is_shown_at(now)
    }

    /// The first `n` leases, one in a line.
    pub open spec fn lease_lines(self, n: nat, now: Timestamp) -> Seq<char>
        decreases n,
    {
        if n == 0 {
            Seq::empty()
        } else {
            self.lease_lines((n - 1) as nat, now) + self.leases[n - 1].text(now) + "\n"@
        }
    }

    /// The pool, the first leases, and how many more there are.
    pub open spec fn text(self, now: Timestamp) -> Seq<char> {
        let n = self.leases.len();
        let gap = if n > 0 {
            "\n"@
        } else {
            Seq::empty()
        };
        let shown = if n < SHOWN_LEASES {
            n
        } else {
            SHOWN_LEASES as nat
        };
        let more = if n > SHOWN_LEASES {
            "And "@ + decimal((n - SHOWN_LEASES) as nat) + " more\n"@
        } else {
            Seq::empty()
        };
        self.pool.text() + "\n"@ + gap + self.lease_lines(shown, now) + more
    }

    /// Whether the lease of `ip` to `mac` was offered or granted.
    pub open spec fn knows(self, mac: MacAddr, ip: Ipv4Addr) -> bool {
        first_where(self.pending, binding(mac, ip)) is Some || first_where(
            self.leases,
            binding(mac, ip),
        ) is Some
    }

    /// Confirm the lease of `ip` to `mac`: one that was offered, or else one to be renewed.
    pub open spec fn commit(self, mac: MacAddr, ip: Ipv4Addr, now: Timestamp) -> (
        Self,
        Result<Lease, CommitError>,
    ) {
        let expiry_timestamp = now.spec_after(self.lease_time);
        match first_where(self.pending, binding(mac, ip)) {
            Some(i) => {
                let lease = Lease { expiry_timestamp, ..self.pending[i] };
                (
                    ServiceState {
                        pending: self.pending.remove(i),
                        leases: self.leases.push(lease),
                        ..self
                    },
                    Ok(lease),
                )
            },
            None => match first_where(self.leases, binding(mac, ip)) {
                Some(i) => {
                    let lease = Lease { expiry_timestamp, ..self.leases[i] };
                    (ServiceState { leases: self.leases.update(i, lease), ..self }, Ok(lease))
                },
                None => (self, Err(CommitError::LeaseNotFound { mac_addr: mac, ip_addr: ip })),
            },
        }
    }
}

/// Leases out the addresses of a pool.
#[derive(Debug, Clone, PartialEq, Eq)]
pub struct Service {
    pub pool: Ipv4Range,
    pub lease_time: Duration,
    pub leases: Vec<Lease>,
    pub pending_leases: Vec<Lease>,
    pub next_candidate_address: Ipv4Addr,
}

impl View for Service {
    type V = ServiceState;

    open spec fn view(&self) -> ServiceState {
        ServiceState {
            pool: self.pool,
            lease_time: self.lease_time,
            leases: self.leases@,
            pending: self.pending_leases@,
            next: self.next_candidate_address,
        }
    }
}

/// The position of the first lease that binds `ip` to `mac`.
fn position_of_binding(leases: &Vec<Lease>, mac: MacAddr, ip: Ipv4Addr) -> (pos: Option<usize>)
    ensures
        match pos {
            Some(i) => first_where(leases@, binding(mac, ip)) == Some(i as int) && i < leases@.len(),
            None => first_where(leases@, binding(mac, ip)) is None,
        },
{
    let mut i: usize = 0;
    while i < leases.len()
        invariant
            i <= leases@.len(),
            forall|j: int| 0 <= j < i ==> !binding(mac, ip)(#[trigger] leases@[j]),
        decreases leases@.len() - i,
    {
        if leases[i].hardware_address == mac && leases[i].address == ip {
            proof {
                lemma_first_where_is(leases@, binding(mac, ip), i as int);
            }
            return Some(i);
        }
        i = i + 1;
    }
    proof {
        lemma_first_where_none(leases@, binding(mac, ip));
    }
    None
}

/// Whether `leases` has one for `addr`.
fn has_address(leases: &Vec<Lease>, addr: Ipv4Addr) -> (found: bool)
    ensures
        found == in_use(leases@, addr),
{
    let mut i: usize = 0;
    while i < leases.len()
        invariant
            i <= leases@.len(),
            forall|j: int| 0 <= j < i ==> (#[trigger] leases@[j]).address != addr,
        decreases leases@.len() - i,
    {
        if leases[i].address == addr {
            assert(leases@[i as int].address == addr);
            return true;
        }
        i = i + 1;
    }
    false
}

/// Keeps what has not run out at `now`.
fn retain_unexpired(leases: &mut Vec<Lease>, now: Timestamp)
    ensures
        final(leases)@ == old(leases)@.filter(unexpired(now)),
{
    let mut kept: Vec<Lease> = Vec::new();
    let mut i: usize = 0;
    assert(leases@.take(0) =~= Seq::<Lease>::empty());
    reveal(Seq::filter);
    while i < leases.len()
        invariant
            i <= leases@.len(),
            kept@ == leases@.take(i as int).filter(unexpired(now)),
        decreases leases@.len() - i,
    {
        let lease = leases[i];
        proof {
            assert(leases@.take(i + 1) =~= leases@.take(i as int).push(lease));
            leases@.take(i as int).lemma_filter_push(lease, unexpired(now));
        }
        if lease.expiry_timestamp.nanos > now.nanos {
            kept.push(lease);
        }
        i = i + 1;
    }
    assert(leases@.take(i as int) =~= leases@);
    *leases = kept;
}

impl Service {
    pub open spec fn wf(self) -> bool {
        self@.wf()
    }

    #[must_use]
    pub fn new_with_leases(pool: Ipv4Range, lease_time: Duration, leases: &[Lease]) -> (service:
        Self)
        ensures
            service@ == ServiceState::init(pool, lease_time, leases@),
            pool.wf() && lease_time.wf() ==> service.wf(),
    {
        let next_candidate_address = pool.start();
        let service = Service {
            pool,
            lease_time,
            leases: vstd::slice::slice_to_vec(leases),
            pending_leases: Vec::new(),
            next_candidate_address,
        };
        service
    }

    #[must_use]
    pub fn new(pool: Ipv4Range, lease_time: Duration) -> (service: Self)
        ensures
            service@ == ServiceState::init(pool, lease_time, Seq::empty()),
            pool.wf() && lease_time.wf() ==> service.wf(),
    {
        let service = Self::new_with_leases(pool, lease_time, &[]);
        assert(service@.leases =~= Seq::empty());
        service
    }

    /// Serve another pool. If the search for a free address stands outside of it, it starts anew.
    pub fn set_pool(&mut self, pool: Ipv4Range)
        ensures
            final(self)@ == old(self)@.with_pool(pool),
            pool.wf() && old(self)@.lease_time.wf() ==> final(self).wf(),
    {
        let next: u32 = self.next_candidate_address.to_bits();
        if next < pool.start || pool.end < next {
            self.next_candidate_address = pool.start();
        }
        self.pool = pool;
    }

    pub fn add_lease(&mut self, new_lease: Lease)
        ensures
            final(self)@ == old(self)@.with_lease(new_lease),
            old(self).wf() ==> final(self).wf(),
    {
        match position_of_binding(&self.leases, new_lease.hardware_address, new_lease.address) {
            Some(i) => {
                let mut lease = self.leases[i];
                lease.expiry_timestamp = new_lease.expiry_timestamp;
                self.leases.set(i, lease);
            },
            None => {
                self.leases.push(new_lease);
            },
        }
    }

    /// Finds a lease for `mac_address` at the time `now`.
    pub fn discover_lease_at(&mut self, mac_address: MacAddr, now: Timestamp) -> (lease: Option<
        Lease,
    >)
        requires
            old(self).wf(),
            now.wf(),
        ensures
            (final(self)@, lease) == old(self)@.discover(mac_address, now),
            final(self).wf(),
    {
        // Check if MAC Address already has an IP
        let mut i: usize = 0;
        while i < self.leases.len()
            invariant
                i <= self.leases@.len(),
                *self == *old(self),
                self.wf(),
                forall|j: int| 0 <= j < i ==> !held_by(mac_address)(#[trigger] self.leases@[j]),
            decreases self.leases@.len() - i,
        {
            if self.leases[i].hardware_address == mac_address {
                proof {
                    lemma_first_where_is(self.leases@, held_by(mac_address), i as int);
                }
                return Some(self.leases[i]);
            }
            i = i + 1;
        }
        proof {
            lemma_first_where_none(self.leases@, held_by(mac_address));
        }

        // Prune leases
        retain_unexpired(&mut self.leases, now);
        retain_unexpired(&mut self.pending_leases, now);
        let ghost pruned = self@;
        let ghost order = pruned.pool.order_from(pruned.next);
        let ghost is_free = free(pruned.leases, pruned.pending);
        assert(pruned == old(self)@.pruned(now));

        // First check a range starting from the last address given
        // Fall back to checking from the start of the full range
        let mut addresses = self.pool.iter_starting_at(self.next_candidate_address);
        let ghost mut visited: int = 0;
        assert(order.skip(0) =~= order);
        loop
            invariant
                self@ == pruned,
                pruned.wf(),
                now.wf(),
                pruned == old(self)@.pruned(now),
                first_where(old(self)@.leases, held_by(mac_address)) is None,
                order == pruned.pool.order_from(pruned.next),
                is_free == free(pruned.leases, pruned.pending),
                0 <= visited <= order.len(),
                addresses.remaining() == order.skip(visited),
                forall|j: int| 0 <= j < visited ==> !is_free(#[trigger] order[j]),
            decreases order.len() - visited,
        {
            match addresses.next() {
                Some(ip_addr) => {
                    assert(ip_addr == order[visited]);
                    assert(order.skip(visited).drop_first() =~= order.skip(visited + 1));
                    if has_address(&self.leases, ip_addr) || has_address(
                        &self.pending_leases,
                        ip_addr,
                    ) {
                        proof {
                            visited = visited + 1;
                        }
                        continue ;
                    }
                    proof {
                        lemma_first_where_is(order, is_free, visited);
                    }
                    // The address is less than the end of the pool
                    self.next_candidate_address = Ipv4Addr::from_bits(ip_addr.to_bits() + 1);
                    let lease = Lease {
                        hardware_address: mac_address,
                        address: ip_addr,
                        expiry_timestamp: self.fresh_timestamp(now),
                    };
                    self.pending_leases.push(lease);
                    return Some(lease);
                },
                None => {
                    proof {
                        assert(visited == order.len());
                        lemma_first_where_none(order, is_free);
                    }
                    return None;
                },
            }
        }
    }

    /// Finds a lease for `mac_address`: the one that it has, or else one of a free address of the
    /// pool, which is then set aside for it.
    pub fn discover_lease(&mut self, mac_address: MacAddr) -> (lease: Option<Lease>)
        requires
            old(self).wf(),
        ensures
            exists|now: Timestamp|
                now.wf() && (final(self)@, lease) == #[trigger] old(self)@.discover(
                    mac_address,
                    now,
                ),
            final(self).wf(),
    {
        let now = now();
        self.discover_lease_at(mac_address, now)
    }

    /// Confirms the lease of `ip_addr` to `mac_addr` at the time `now`.
    pub fn commit_lease_at(&mut self, mac_addr: MacAddr, ip_addr: Ipv4Addr, now: Timestamp) -> (lease:
        Result<Lease, CommitError>)
        requires
            old(self).wf(),
            now.wf(),
        ensures
            (final(self)@, lease) == old(self)@.commit(mac_addr, ip_addr, now),
            final(self).wf(),
    {
        let fresh_timestamp = self.fresh_timestamp(now);
        match position_of_binding(&self.pending_leases, mac_addr, ip_addr) {
            Some(pending_index) => {
                let mut lease = self.pending_leases.remove(pending_index);
                lease.expiry_timestamp = fresh_timestamp;
                self.leases.push(lease);
                Ok(lease)
            },
            None => match position_of_binding(&self.leases, mac_addr, ip_addr) {
                Some(i) => {
                    let mut lease = self.leases[i];
                    lease.expiry_timestamp = fresh_timestamp;
                    self.leases.set(i, lease);
                    Ok(lease)
                },
                None => Err(CommitError::LeaseNotFound { mac_addr, ip_addr }),
            },
        }
    }

    /// Confirms the lease of `ip_addr` to `mac_addr`, which was offered or is to be renewed.
    pub fn commit_lease(&mut self, mac_addr: MacAddr, ip_addr: Ipv4Addr) -> (lease: Result<
        Lease,
        CommitError,
    >)
        requires
            old(self).wf(),
        ensures
            exists|now: Timestamp|
                now.wf() && (final(self)@, lease) == #[trigger] old(self)@.commit(
                    mac_addr,
                    ip_addr,
                    now,
                ),
            final(self).wf(),
    {
        let now = now();
        self.commit_lease_at(mac_addr, ip_addr, now)
    }

    /// Whether the lease of `ip_addr` to `mac_addr` was offered or granted.
    pub fn knows(&self, mac_addr: MacAddr, ip_addr: Ipv4Addr) -> (known: bool)
        ensures
            known == self@.knows(mac_addr, ip_addr),
    {
        position_of_binding(&self.pending_leases, mac_addr, ip_addr).is_some()
            || position_of_binding(&self.leases, mac_addr, ip_addr).is_some()
    }

    /// Appends the pool, and the leases as far as [`SHOWN_LEASES`] goes.
    pub fn push_text(&self, out: &mut String, now: Timestamp)
        requires
            self@.is_shown_at(now),
        ensures
            final(out)@ == old(out)@ + self@.text(now),
    {
        self.pool.push_text(out);
        out.append("\n");
        if !self.leases.is_empty() {
            out.append("\n");
        }
        let ghost head = out@;
        let mut i: usize = 0;
        assert(out@ =~= head + self@.lease_lines(0, now));
        while i < self.leases.len() && i < SHOWN_LEASES
            invariant
                i <= self.leases@.len(),
                i <= SHOWN_LEASES,
                self@.is_shown_at(now),
                out@ == head + self@.lease_lines(i as nat, now),
            decreases self.leases@.len() - i,
        {
            self.leases[i].push_text(out, now);
            out.append("\n");
            assert(out@ =~= head + self@.lease_lines((i + 1) as nat, now));
            i = i + 1;
        }
        if self.leases.len() > SHOWN_LEASES {
            out.append("And ");
            push_decimal(out, (self.leases.len() - SHOWN_LEASES) as u64);
            out.append(" more\n");
        }
        assert(out@ =~= old(out)@ + self@.text(now));
    }

    /// When a lease that is granted at `now` runs out.
    fn fresh_timestamp(&self, now: Timestamp) -> (t: Timestamp)
        requires
            self.lease_time.wf(),
            now.wf(),
        ensures
            t == now.spec_after(self.lease_time),
    {
        now.after(self.lease_time)
    }
}

} // verus!
