//! Address pools and lease tables.

use dhcpcluster::dhcp::{CommitError, Ipv4Range, Lease, LeaseOffer, Service, SHOWN_LEASES};
use dhcpcluster::net::Ipv4Addr;
use dhcpcluster::protocol::{DhcpOffer, MacAddr};
use dhcpcluster::time::{Duration, Timestamp};

const SECOND: i128 = 1_000_000_000;
const START: Timestamp = Timestamp {
    nanos: 1_000 * SECOND,
};

fn at(secs: i128) -> Timestamp {
    Timestamp {
        nanos: START.nanos + secs * SECOND,
    }
}

fn ip(bits: u32) -> Ipv4Addr {
    Ipv4Addr::from_bits(bits)
}

fn mac(n: u8) -> MacAddr {
    MacAddr([2, 0, 0, 0, 0, n])
}

fn lease(n: u8, bits: u32, expiry: Timestamp) -> Lease {
    Lease {
        hardware_address: mac(n),
        address: ip(bits),
        expiry_timestamp: expiry,
    }
}

/// A service for the addresses from 100 up to, but not including, 104, with leases of a minute.
fn service() -> Service {
    Service::new(Ipv4Range::new(100, 104), Duration::from_secs(60))
}

fn addresses(range: Ipv4Range, at: u32) -> Vec<u32> {
    let mut addresses = range.iter_starting_at(ip(at));
    let mut all = Vec::new();
    while let Some(addr) = addresses.next() {
        all.push(addr.to_bits());
    }
    all
}

#[test]
fn ranges() {
    let range = Ipv4Range::new(10, 15);
    assert_eq!(range.start(), ip(10));
    assert_eq!(range.end(), ip(15));
    assert_eq!(range.len(), 5);
    assert!(!range.is_empty());
    assert!(Ipv4Range::new(10, 10).is_empty());
    let mut text = String::new();
    Ipv4Range::new(0x0a00_0000, 0x0a00_00ff).push_text(&mut text);
    assert_eq!(text, "10.0.0.0 - 10.0.0.255");
}

#[test]
fn ranges_of_networks() {
    let net = Ipv4Addr::parse("192.168.1.0").unwrap();
    let range = Ipv4Range::from_cidr(net, 24);
    assert_eq!(range.start(), net);
    assert_eq!(range.end(), Ipv4Addr::parse("192.168.1.255").unwrap());
    assert_eq!(range.len(), 255);
    assert!(Ipv4Range::from_cidr(net, 32).is_empty());
    assert_eq!(Ipv4Range::from_cidr(ip(0), 1).len(), (1 << 31) - 1);

    assert!(Ipv4Range::is_cidr(net, 24));
    assert!(Ipv4Range::is_cidr(ip(0), 1));
    assert!(!Ipv4Range::is_cidr(ip(0), 0));
    assert!(!Ipv4Range::is_cidr(ip(0), 33));
    assert!(!Ipv4Range::is_cidr(ip(u32::MAX), 32));
    assert!(!Ipv4Range::is_cidr(Ipv4Addr::parse("255.255.255.0").unwrap(), 24));
    assert!(Ipv4Range::is_cidr(Ipv4Addr::parse("255.255.254.0").unwrap(), 24));
}

#[test]
fn a_search_visits_each_address_once() {
    let range = Ipv4Range::new(100, 104);
    assert_eq!(addresses(range, 100), vec![100, 101, 102, 103]);
    assert_eq!(addresses(range, 102), vec![102, 103, 100, 101]);
    assert_eq!(addresses(range, 104), vec![100, 101, 102, 103]);
}

#[test]
fn parts_are_adjacent_and_even() {
    let range = Ipv4Range::new(100, 111);
    assert_eq!(
        range.divide(3),
        vec![
            Ipv4Range::new(100, 103),
            Ipv4Range::new(103, 106),
            Ipv4Range::new(106, 111),
        ]
    );
    assert_eq!(range.divide(1), vec![range]);
    // More parts than addresses
    let small = Ipv4Range::new(7, 9);
    assert_eq!(
        small.divide(3),
        vec![
            Ipv4Range::new(7, 7),
            Ipv4Range::new(7, 7),
            Ipv4Range::new(7, 9),
        ]
    );
}

#[test]
fn parts_hold_each_address_once() {
    let range = Ipv4Range::new(100, 111);
    for parts in 1..15 {
        let pools = range.divide(parts);
        assert_eq!(pools.len(), parts as usize);
        for addr in 95..120 {
            let holders = pools
                .iter()
                .filter(|pool| pool.start <= addr && addr < pool.end)
                .count();
            assert_eq!(holders, usize::from((100..111).contains(&addr)));
        }
    }
}

#[test]
fn offers_are_free_addresses() {
    let mut service = service();
    let first = service.discover_lease_at(mac(1), START).unwrap();
    assert_eq!(first, lease(1, 100, at(60)));
    let second = service.discover_lease_at(mac(2), at(1)).unwrap();
    assert_eq!(second, lease(2, 101, at(61)));
    assert_eq!(service.pending_leases, vec![first, second]);
    assert!(service.leases.is_empty());
    assert_eq!(service.next_candidate_address, ip(102));
}

#[test]
fn the_pool_runs_dry_and_fills_again() {
    let mut service = service();
    for n in 1..=4 {
        assert!(service.discover_lease_at(mac(n), START).is_some());
    }
    assert_eq!(service.discover_lease_at(mac(5), at(59)), None);
    // What was not confirmed is free again after a while
    assert_eq!(
        service.discover_lease_at(mac(5), at(60)),
        Some(lease(5, 100, at(120)))
    );
    assert_eq!(service.pending_leases.len(), 1);
}

#[test]
fn clients_keep_their_addresses() {
    let mut service = service();
    let offer = service.discover_lease_at(mac(1), START).unwrap();
    let granted = service
        .commit_lease_at(mac(1), offer.address, at(5))
        .unwrap();
    assert_eq!(granted, lease(1, 100, at(65)));
    let before = service.clone();
    assert_eq!(
        service.discover_lease_at(mac(1), at(30)),
        Some(lease(1, 100, at(65)))
    );
    assert_eq!(service, before);
}

#[test]
fn offers_are_confirmed_and_renewed() {
    let mut service = service();
    let offer = service.discover_lease_at(mac(1), START).unwrap();
    assert_eq!(
        service.commit_lease_at(mac(1), offer.address, at(10)),
        Ok(lease(1, 100, at(70)))
    );
    assert!(service.pending_leases.is_empty());
    assert_eq!(service.leases, vec![lease(1, 100, at(70))]);
    assert_eq!(
        service.commit_lease_at(mac(1), offer.address, at(50)),
        Ok(lease(1, 100, at(110)))
    );
    assert_eq!(service.leases, vec![lease(1, 100, at(110))]);
}

#[test]
fn unknown_leases_are_not_confirmed() {
    let mut service = service();
    service.discover_lease_at(mac(1), START).unwrap();
    let before = service.clone();
    assert_eq!(
        service.commit_lease_at(mac(2), ip(100), START),
        Err(CommitError::LeaseNotFound {
            mac_addr: mac(2),
            ip_addr: ip(100)
        })
    );
    assert_eq!(
        service.commit_lease_at(mac(1), ip(101), START),
        Err(CommitError::LeaseNotFound {
            mac_addr: mac(1),
            ip_addr: ip(101)
        })
    );
    assert_eq!(service, before);
}

#[test]
fn reported_leases_are_taken_over() {
    let mut service = service();
    service.add_lease(lease(1, 200, at(5)));
    service.add_lease(lease(2, 100, at(6)));
    service.add_lease(lease(1, 200, at(9)));
    assert_eq!(
        service.leases,
        vec![lease(1, 200, at(9)), lease(2, 100, at(6))]
    );
    // An address of another server's share is renewed here
    assert_eq!(
        service.commit_lease_at(mac(1), ip(200), START),
        Ok(lease(1, 200, at(60)))
    );
    // The address that is leased is not offered to others
    assert_eq!(
        service.discover_lease_at(mac(3), START).unwrap().address,
        ip(101)
    );
}

#[test]
fn expired_leases_are_dropped() {
    let leases = [lease(1, 100, at(1)), lease(2, 101, at(100))];
    let mut service =
        Service::new_with_leases(Ipv4Range::new(100, 104), Duration::from_secs(60), &leases);
    assert_eq!(service.leases, leases);
    assert_eq!(
        service.discover_lease_at(mac(3), at(50)).unwrap().address,
        ip(100)
    );
    assert_eq!(service.leases, vec![lease(2, 101, at(100))]);
}

#[test]
fn another_pool_is_served() {
    let mut service = service();
    service.discover_lease_at(mac(1), START).unwrap();
    service.set_pool(Ipv4Range::new(100, 110));
    assert_eq!(service.next_candidate_address, ip(101));
    service.set_pool(Ipv4Range::new(200, 202));
    assert_eq!(
        service.discover_lease_at(mac(2), START).unwrap().address,
        ip(200)
    );
    assert_eq!(
        service.discover_lease_at(mac(3), START).unwrap().address,
        ip(201)
    );
    assert_eq!(service.discover_lease_at(mac(4), START), None);
    service.set_pool(Ipv4Range::new(100, 102));
    // The address that was offered first is still set aside
    assert_eq!(
        service.discover_lease_at(mac(4), START).unwrap().address,
        ip(101)
    );
}

#[test]
fn servers_with_different_shares_offer_different_addresses() {
    let shares = Ipv4Range::new(100, 110).divide(2);
    let mut one = Service::new(shares[0], Duration::from_secs(60));
    let mut other = Service::new(shares[1], Duration::from_secs(60));
    for n in 0..5 {
        let a = one.discover_lease_at(mac(n), START).unwrap().address;
        let b = other.discover_lease_at(mac(n + 100), START).unwrap().address;
        assert!((100..105).contains(&a.to_bits()));
        assert!((105..110).contains(&b.to_bits()));
    }
    assert_eq!(one.discover_lease_at(mac(9), START), None);
}

#[test]
fn the_clock_sets_the_expiry() {
    let before = std::time::UNIX_EPOCH.elapsed().unwrap().as_nanos() as i128;
    let mut service = service();
    let offer = service.discover_lease(mac(1)).unwrap();
    let granted = service.commit_lease(mac(1), offer.address).unwrap();
    let after = std::time::UNIX_EPOCH.elapsed().unwrap().as_nanos() as i128;
    for found in [offer, granted] {
        assert!(before + 60 * SECOND <= found.expiry_timestamp.nanos);
        assert!(found.expiry_timestamp.nanos <= after + 60 * SECOND);
    }
    let denied = service.commit_lease(mac(2), offer.address).unwrap_err();
    assert_eq!(
        denied.to_text(),
        "No lease found for (02:00:00:00:00:02, 0.0.0.100)"
    );
    assert!(service.knows(mac(1), offer.address));
    assert!(!service.knows(mac(2), offer.address));
}

#[test]
fn clients_are_told_the_seconds_that_are_left() {
    let offer = LeaseOffer {
        lease: lease(1, 100, at(60)),
        subnet_mask: 24,
    };
    let told = |now| offer.to_dhcp_offer(now);
    assert_eq!(
        told(START),
        DhcpOffer {
            ip: ip(100),
            lease_time: 60,
            subnet_mask: 24
        }
    );
    assert_eq!(told(Timestamp { nanos: START.nanos + 1 }).lease_time, 59);
    assert_eq!(told(at(61)).lease_time, 0);
    let forever = LeaseOffer {
        lease: lease(1, 100, Timestamp { nanos: i128::MAX }),
        subnet_mask: 24,
    };
    assert_eq!(forever.to_dhcp_offer(START).lease_time, u32::MAX);
}

#[test]
fn leases_are_shown() {
    let mut text = String::new();
    lease(1, 0x0a00_0001, at(60)).push_text(&mut text, START);
    assert_eq!(
        text,
        "MAC 02:00:00:00:00:01 has IP 10.0.0.1, expiring in 60s      "
    );
    text.clear();
    lease(1, 0x0a00_0001, at(60)).push_text(&mut text, at(61));
    assert_eq!(text, "MAC 02:00:00:00:00:01 has IP 10.0.0.1");
}

#[test]
fn only_the_first_leases_are_shown() {
    let mut service = service();
    let mut text = String::new();
    service.push_text(&mut text, START);
    assert_eq!(text, "0.0.0.100 - 0.0.0.104\n");
    for n in 0..5 {
        service.add_lease(lease(n, 100 + u32::from(n), START));
    }
    text.clear();
    service.push_text(&mut text, at(1));
    assert_eq!(
        text,
        "0.0.0.100 - 0.0.0.104\n\nMAC 02:00:00:00:00:00 has IP 0.0.0.100\n\
         MAC 02:00:00:00:00:01 has IP 0.0.0.101\nMAC 02:00:00:00:00:02 has IP 0.0.0.102\n\
         And 2 more\n"
    );
    assert_eq!(SHOWN_LEASES, 3);
}
