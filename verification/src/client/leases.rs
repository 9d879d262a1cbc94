//! The leases that the client holds.

use crate::client::execution::{views, QuerySuccess, QuerySuccessView};
use crate::net::Ipv4Addr;
use crate::time::Timestamp;
use std::collections::HashMap;
use vstd::prelude::*;
use vstd::std_specs::hash::spec_hash_map_iter;
use vstd::std_specs::iter::IteratorSpec;

verus! {

/// The leases that the client holds, by the numbers of their addresses.
#[derive(Debug)]
pub struct LeaseBook {
    entries: HashMap<u32, QuerySuccess>,
}

/// A lease for an address that the client already holds a lease for.
#[derive(Debug, PartialEq, Eq)]
pub struct DuplicateLease {
    pub ip: Ipv4Addr,
    /// The server that granted it now.
    pub server: String,
    /// The server that granted it before.
    pub previous: String,
}

/// What a [`DuplicateLease`] says.
pub struct DuplicateLeaseView {
    pub ip: Ipv4Addr,
    pub server: Seq<char>,
    pub previous: Seq<char>,
}

impl View for DuplicateLease {
    type V = DuplicateLeaseView;

    open spec fn view(&self) -> DuplicateLeaseView {
        DuplicateLeaseView { ip: self.ip, server: self.server@, previous: self.previous@ }
    }
}

impl DuplicateLeaseView {
    /// The warning as a person reads it.
    pub open spec fn text(self) -> Seq<char> {
        "\x1b[31mGot duplicate lease for "@ + self.ip.text() + " from "@ + self.server
            + "\x1b[0m\n"@ + self.ip.text() + " was previously obtained from "@ + self.previous
            + "\n"@
    }
}

impl DuplicateLease {
    /// The warning as a person reads it.
    pub fn to_text(&self) -> (text: String)
        ensures
            text@ == self@.text(),
    {
        let mut text = String::new();
        text.append("\x1b[31mGot duplicate lease for ");
        self.ip.push_text(&mut text);
        text.append(" from ");
        text.append(self.server.as_str());
        text.append("\x1b[0m\n");
        self.ip.push_text(&mut text);
        text.append(" was previously obtained from ");
        text.append(self.previous.as_str());
        text.append("\n");
        assert(text@ =~= self@.text());
        text
    }
}

/// What several warnings say.
pub open spec fn duplicate_views(duplicates: Seq<DuplicateLease>) -> Seq<DuplicateLeaseView> {
    duplicates.map_values(|duplicate: DuplicateLease| duplicate@)
}

/// The leases by their addresses.
pub type Leases = Map<Ipv4Addr, QuerySuccessView>;

/// The leases after those of `successes` were entered one after the other.
pub open spec fn entered(leases: Leases, successes: Seq<QuerySuccessView>) -> Leases
    decreases successes.len(),
{
    if successes.len() == 0 {
        leases
    } else {
        entered(leases, successes.drop_last()).insert(successes.last().offer.ip, successes.last())
    }
}

/// The warnings on entering those of `successes` one after the other.
pub open spec fn warnings(leases: Leases, successes: Seq<QuerySuccessView>) -> Seq<
    DuplicateLeaseView,
>
    decreases successes.len(),
{
    if successes.len() == 0 {
        Seq::empty()
    } else {
        let front = warnings(leases, successes.drop_last());
        let before = entered(leases, successes.drop_last());
        let new = successes.last();
        if before.contains_key(new.offer.ip) {
            front.push(
                DuplicateLeaseView {
                    ip: new.offer.ip,
                    server: new.server,
                    previous: before[new.offer.ip].server,
                },
            )
        } else {
            front
        }
    }
}

/// The leases that have not run out.
pub open spec fn pruned(leases: Leases, now: Timestamp) -> Leases {
    Map::new(
        |ip: Ipv4Addr| leases.contains_key(ip) && leases[ip].is_current(now),
        |ip: Ipv4Addr| leases[ip],
    )
}

/// Whether an entry is the one for an address, and has run out.
spec fn is_expired(entry: (&u32, &QuerySuccess), bits: u32, now: Timestamp) -> bool {
    *entry.0 == bits && !entry.1@.is_current(now)
}

impl View for LeaseBook {
    type V = Leases;

    closed spec fn view(&self) -> Leases {
        Map::new(
            |ip: Ipv4Addr| self.entries@.contains_key(ip.bits),
            |ip: Ipv4Addr| self.entries@[ip.bits]@,
        )
    }
}

impl LeaseBook {
    /// Each lease is found under its address.
    pub closed spec fn wf(&self) -> bool {
        forall|bits: u32| #[trigger]
            self.entries@.contains_key(bits) ==> self.entries@[bits].offer.ip.bits == bits
    }

    /// A book without leases.
    pub fn new() -> (book: Self)
        ensures
            book.wf(),
            book@ == Leases::empty(),
    {
        let book = LeaseBook { entries: HashMap::new() };
        assert(book@ =~= Leases::empty());
        book
    }

    /// The lease for an address.
    pub fn get(&self, ip: Ipv4Addr) -> (lease: Option<&QuerySuccess>)
        requires
            self.wf(),
        ensures
            match lease {
                Some(lease) => self@.contains_key(ip) && lease@ == self@[ip],
                None => !self@.contains_key(ip),
            },
    {
        self.entries.get(&ip.bits)
    }

    /// Enters a lease. The one that was there for this address is given back.
    pub fn insert(&mut self, success: QuerySuccess) -> (previous: Option<QuerySuccess>)
        requires
            old(self).wf(),
        ensures
            final(self).wf(),
            final(self)@ == old(self)@.insert(success.offer.ip, success@),
            match previous {
                Some(previous) => old(self)@.contains_key(success.offer.ip) && previous@ == old(
                    self,
                )@[success.offer.ip],
                None => !old(self)@.contains_key(success.offer.ip),
            },
    {
        let ghost wanted = self@.insert(success.offer.ip, success@);
        let previous = self.entries.insert(success.offer.ip.bits, success);
        assert(self@ =~= wanted);
        previous
    }

    /// Enters the leases one after the other, and warns of those for addresses that there is a
    /// lease for already.
    pub fn record(&mut self, successes: Vec<QuerySuccess>) -> (duplicates: Vec<DuplicateLease>)
        requires
            old(self).wf(),
        ensures
            final(self).wf(),
            final(self)@ == entered(old(self)@, views(successes@)),
            duplicate_views(duplicates@) == warnings(old(self)@, views(successes@)),
    {
        let mut duplicates: Vec<DuplicateLease> = Vec::new();
        let ghost all = views(successes@);
        let mut i: usize = 0;
        assert(all.take(0) =~= Seq::empty());
        assert(duplicate_views(duplicates@) =~= Seq::empty());
        while i < successes.len()
            invariant
                i <= successes@.len(),
                all == views(successes@),
                self.wf(),
                self@ == entered(old(self)@, all.take(i as int)),
                duplicate_views(duplicates@) == warnings(old(self)@, all.take(i as int)),
            decreases successes@.len() - i,
        {
            let success = successes[i].duplicate();
            assert(all.take(i + 1).drop_last() =~= all.take(i as int));
            assert(all.take(i + 1).last() == success@);
            let ip = success.offer.ip;
            let server = success.server.clone();
            let ghost before = duplicates@;
            if let Some(previous) = self.insert(success) {
                let duplicate = DuplicateLease { ip, server, previous: previous.server };
                duplicates.push(duplicate);
                assert(duplicate_views(duplicates@) =~= duplicate_views(before).push(duplicate@));
            }
            i = i + 1;
        }
        assert(all.take(i as int) =~= all);
        duplicates
    }

    /// Strikes out the leases that have run out.
    pub fn prune(&mut self, now: Timestamp)
        requires
            old(self).wf(),
        ensures
            final(self).wf(),
            final(self)@ == pruned(old(self)@, now),
    {
        let ghost before = self.entries@;
        let expired = self.expired(now);
        let mut i: usize = 0;
        while i < expired.len()
            invariant
                i <= expired@.len(),
                self.wf(),
                forall|bits: u32| #[trigger]
                    self.entries@.contains_key(bits) <==> before.contains_key(bits)
                        && !expired@.take(i as int).contains(bits),
                forall|bits: u32| #[trigger]
                    self.entries@.contains_key(bits) ==> self.entries@[bits] == before[bits],
            decreases expired@.len() - i,
        {
            self.entries.remove(&expired[i]);
            assert(expired@.take(i + 1) =~= expired@.take(i as int).push(expired@[i as int]));
            assert forall|bits: u32| expired@.take(i + 1).contains(bits) <==> expired@.take(
                i as int,
            ).contains(bits) || bits == expired@[i as int] by {
                if bits == expired@[i as int] {
                    assert(expired@.take(i + 1)[i as int] == bits);
                }
                if expired@.take(i as int).contains(bits) {
                    let j = choose|j: int|
                        0 <= j < i && #[trigger] expired@.take(i as int)[j] == bits;
                    assert(expired@.take(i + 1)[j] == bits);
                }
            }
            i = i + 1;
        }
        assert(expired@.take(i as int) =~= expired@);
        assert(self@ =~= pruned(old(self)@, now));
    }

    /// The numbers of the addresses whose leases have run out.
    fn expired(&self, now: Timestamp) -> (expired: Vec<u32>)
        ensures
            forall|bits: u32| #[trigger]
                expired@.contains(bits) <==> self.entries@.contains_key(bits)
                    && !self.entries@[bits]@.is_current(now),
    {
        let mut expired: Vec<u32> = Vec::new();
        for (key, success) in iter: self.entries.iter()
            invariant
                iter.seq() == spec_hash_map_iter(&self.entries).remaining(),
                forall|bits: u32| #[trigger]
                    expired@.contains(bits) <==> exists|j: int|
                        0 <= j < iter.index() && is_expired(#[trigger] iter.seq()[j], bits, now),
        {
            let ghost before = expired@;
            let ghost n = iter.index() as int;
            assert(iter.seq()[n] == (key, success));
            if !success.is_current(now) {
                expired.push(*key);
                assert(expired@[before.len() as int] == *key);
                assert forall|bits: u32| before.contains(bits) implies expired@.contains(bits) by {
                    let k = choose|k: int| 0 <= k < before.len() && before[k] == bits;
                    assert(expired@[k] == bits);
                }
            }
            assert forall|bits: u32, j: int|
                0 <= j < n + 1 && is_expired(#[trigger] iter.seq()[j], bits, now) implies #[trigger]
                expired@.contains(bits) by {
                if j < n {
                    assert(before.contains(bits));
                }
            }
            assert forall|bits: u32| #[trigger] expired@.contains(bits) implies exists|j: int|
                0 <= j < n + 1 && is_expired(#[trigger] iter.seq()[j], bits, now) by {
                if before.contains(bits) {
                    let j = choose|j: int|
                        0 <= j < n && is_expired(#[trigger] iter.seq()[j], bits, now);
                    assert(is_expired(iter.seq()[j], bits, now));
                } else {
                    assert(is_expired(iter.seq()[n], bits, now));
                }
            }
        }
        assert forall|bits: u32| #[trigger] expired@.contains(bits) <==> self.entries@.contains_key(
            bits,
        ) && !self.entries@[bits]@.is_current(now) by {
            let pairs = spec_hash_map_iter(&self.entries).remaining();
            if self.entries@.contains_key(bits) && !self.entries@[bits]@.is_current(now) {
                assert(pairs.contains((&bits, &self.entries@[bits])));
                let j = choose|j: int|
                    0 <= j < pairs.len() && pairs[j] == (&bits, &self.entries@[bits]);
                assert(is_expired(pairs[j], bits, now));
            }
        }
        expired
    }
}

/// What was entered is there until the lease runs out, unless another lease for the same address
/// was entered later.
pub proof fn law_entered_leases_are_kept(
    leases: Leases,
    successes: Seq<QuerySuccessView>,
    i: int,
    now: Timestamp,
)
    requires
        0 <= i < successes.len(),
        forall|j: int|
            i < j < successes.len() ==> (#[trigger] successes[j]).offer.ip
                != successes[i].offer.ip,
        successes[i].is_current(now),
    ensures
        pruned(entered(leases, successes), now).contains_key(successes[i].offer.ip),
        pruned(entered(leases, successes), now)[successes[i].offer.ip] == successes[i],
    decreases successes.len(),
{
    let front = successes.drop_last();
    if i < front.len() {
        assert forall|j: int| i < j < front.len() implies (#[trigger] front[j]).offer.ip
            != front[i].offer.ip by {
            assert(front[j] == successes[j]);
        }
        law_entered_leases_are_kept(leases, front, i, now);
        assert(successes.last() == successes[successes.len() - 1]);
    }
}

/// There is no warning iff every lease is for an address of its own that was not there before.
pub proof fn law_duplicates_are_reported(leases: Leases, successes: Seq<QuerySuccessView>)
    ensures
        warnings(leases, successes).len() == 0 <==> (forall|i: int|
            0 <= i < successes.len() ==> !leases.contains_key((#[trigger] successes[i]).offer.ip))
            && (forall|i: int, j: int|
            0 <= i < j < successes.len() ==> (#[trigger] successes[i]).offer.ip != (
            #[trigger] successes[j]).offer.ip),
    decreases successes.len(),
{
    if successes.len() > 0 {
        let front = successes.drop_last();
        let last = successes.len() - 1;
        assert(forall|i: int| 0 <= i < last ==> front[i] == #[trigger] successes[i]);
        assert(successes.last() == successes[last]);
        law_duplicates_are_reported(leases, front);
        lemma_addresses(leases, front, successes.last().offer.ip);
        if warnings(leases, successes).len() == 0 {
            assert(warnings(leases, front).len() == 0);
        }
    }
}

/// The addresses that there are leases for are those from before and those that were entered.
proof fn lemma_addresses(leases: Leases, successes: Seq<QuerySuccessView>, ip: Ipv4Addr)
    ensures
        entered(leases, successes).contains_key(ip) <==> leases.contains_key(ip) || (exists|i: int|
            0 <= i < successes.len() && (#[trigger] successes[i]).offer.ip == ip),
    decreases successes.len(),
{
    if successes.len() > 0 {
        let front = successes.drop_last();
        let last = successes.len() - 1;
        assert(forall|i: int| 0 <= i < last ==> front[i] == #[trigger] successes[i]);
        assert(successes.last() == successes[last]);
        lemma_addresses(leases, front, ip);
        if exists|i: int| 0 <= i < front.len() && (#[trigger] front[i]).offer.ip == ip {
            let i = choose|i: int| 0 <= i < front.len() && (#[trigger] front[i]).offer.ip == ip;
            assert(successes[i].offer.ip == ip);
        }
    }
}

} // verus!
