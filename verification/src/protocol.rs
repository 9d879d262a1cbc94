//! The protocol between clients and the cluster.

use crate::net::Ipv4Addr;
use crate::text::{
    decimal, digit_value, digits_value, hex, lemma_number_is_bounded, lemma_split_last,
    lemma_split_whole, number,
    parse_number, push_decimal, push_hex, split, split_text, texts, ParseIntError,
};
use vstd::prelude::*;

verus! {

/// A MAC address.
#[derive(Debug, Clone, Copy)]
pub struct MacAddr(pub [u8; 6]);

impl PartialEq for MacAddr {
    fn eq(&self, other: &Self) -> (same: bool) {
        let same = self.0[0] == other.0[0] && self.0[1] == other.0[1] && self.0[2] == other.0[2]
            && self.0[3] == other.0[3] && self.0[4] == other.0[4] && self.0[5] == other.0[5];
        proof {
            if same {
                assert(self.0@ =~= other.0@);
                assert(self.0 =~= other.0);
            }
        }
        same
    }
}

impl vstd::std_specs::cmp::PartialEqSpecImpl for MacAddr {
    open spec fn obeys_eq_spec() -> bool {
        true
    }

    open spec fn eq_spec(&self, other: &Self) -> bool {
        *self == *other
    }
}

impl Eq for MacAddr {

}

impl From<[u8; 6]> for MacAddr {
    fn from(value: [u8; 6]) -> (mac: Self) {
        MacAddr(value)
    }
}

impl vstd::std_specs::convert::FromSpecImpl<[u8; 6]> for MacAddr {
    open spec fn obeys_from_spec() -> bool {
        true
    }

    open spec fn from_spec(value: [u8; 6]) -> Self {
        MacAddr(value)
    }
}

/// Why a text is not a MAC address.
#[derive(Debug, Clone, Copy, PartialEq, Eq, Structural)]
pub enum MacAddrParseError {
    /// The octet at `index` is not a hexadecimal number below 256.
    ParseOctet { index: usize, source: ParseIntError },
    /// There are only so many octets, where 6 are expected.
    Short(usize),
    /// There are more than 6 octets.
    Long,
}

/// The first `n` of the octets that `pieces` spell in hexadecimal.
pub open spec fn octets(pieces: Seq<Seq<char>>, n: nat) -> Result<Seq<u8>, MacAddrParseError>
    decreases n,
{
    if n == 0 {
        Ok(Seq::empty())
    } else {
        let index = (n - 1) as nat;
        match octets(pieces, index) {
            Err(e) => Err(e),
            Ok(front) => if index >= pieces.len() {
                Err(MacAddrParseError::Short(index as usize))
            } else {
                match number(pieces[index as int], 16, 255) {
                    Err(source) => Err(
                        MacAddrParseError::ParseOctet { index: index as usize, source },
                    ),
                    Ok(value) => Ok(front.push(value as u8)),
                }
            },
        }
    }
}

impl MacAddr {
    /// The octets of the MAC address that `s` spells: 6 hexadecimal numbers, with colons between
    /// them.
    pub open spec fn spec_parse(s: Seq<char>) -> Result<Seq<u8>, MacAddrParseError> {
        match octets(split(s, ':'), 6) {
            Err(e) => Err(e),
            Ok(octets) => if split(s, ':').len() > 6 {
                Err(MacAddrParseError::Long)
            } else {
                Ok(octets)
            },
        }
    }

    /// Reads a MAC address.
    pub fn from_str(value: &str) -> (mac: Result<Self, MacAddrParseError>)
        ensures
            match mac {
                Ok(mac) => Self::spec_parse(value@) == Ok::<Seq<u8>, MacAddrParseError>(mac.0@),
                Err(e) => Self::spec_parse(value@) == Err::<Seq<u8>, MacAddrParseError>(e),
            },
    {
        let mut bytes = [0u8;6];
        let pieces = split_text(value, ':');
        let ghost views = split(value@, ':');
        assert(views.len() == pieces@.len());
        assert forall|i: int| 0 <= i < pieces@.len() implies #[trigger] pieces@[i]@ == views[i] by {
            assert(texts(pieces@)[i] == pieces@[i]@);
        }
        let mut i: usize = 0;
        assert(bytes@.take(0) =~= Seq::empty());
        while i < 6
            invariant
                i <= 6,
                bytes@.len() == 6,
                views == split(value@, ':'),
                views.len() == pieces@.len(),
                forall|j: int| 0 <= j < pieces@.len() ==> #[trigger] pieces@[j]@ == views[j],
                octets(views, i as nat) == Ok::<Seq<u8>, MacAddrParseError>(bytes@.take(i as int)),
            decreases 6 - i,
        {
            if i >= pieces.len() {
                proof {
                    lemma_octets_fail(views, i as nat + 1, 6);
                }
                return Err(MacAddrParseError::Short(i));
            }
            match parse_number(pieces[i].as_str(), 16, 255) {
                Err(source) => {
                    proof {
                        lemma_octets_fail(views, i as nat + 1, 6);
                    }
                    return Err(MacAddrParseError::ParseOctet { index: i, source });
                },
                Ok(v) => {
                    let ghost before = bytes@;
                    bytes[i] = v as u8;
                    assert(bytes@ == before.update(i as int, v as u8));
                    assert(bytes@.take(i + 1) =~= before.take(i as int).push(v as u8));
                },
            }
            i = i + 1;
        }
        assert(bytes@.take(6) =~= bytes@);
        if pieces.len() > 6 {
            return Err(MacAddrParseError::Long);
        }
        Ok(MacAddr(bytes))
    }

    /// The octets in hexadecimal, with colons between them.
    pub open spec fn text(self) -> Seq<char> {
        hex(self.0@[0]).push(':') + hex(self.0@[1]).push(':') + hex(self.0@[2]).push(':') + hex(
            self.0@[3],
        ).push(':') + hex(self.0@[4]).push(':') + hex(self.0@[5])
    }

    /// Appends the address in hexadecimal notation.
    pub fn push_text(&self, out: &mut String)
        ensures
            final(out)@ == old(out)@ + self.text(),
    {
        proof {
            reveal_strlit(":");
        }
        push_hex(out, self.0[0]);
        out.append(":");
        push_hex(out, self.0[1]);
        out.append(":");
        push_hex(out, self.0[2]);
        out.append(":");
        push_hex(out, self.0[3]);
        out.append(":");
        push_hex(out, self.0[4]);
        out.append(":");
        push_hex(out, self.0[5]);
        assert(out@ =~= old(out)@ + self.text());
    }

    /// The address in hexadecimal notation.
    pub fn to_text(&self) -> (text: String)
        ensures
            text@ == self.text(),
    {
        let mut out = String::new();
        self.push_text(&mut out);
        assert(out@ =~= self.text());
        out
    }
}

/// Once an octet could not be read, the outcome stays that error.
proof fn lemma_octets_fail(pieces: Seq<Seq<char>>, n: nat, m: nat)
    requires
        n <= m,
        octets(pieces, n) is Err,
    ensures
        octets(pieces, m) == octets(pieces, n),
    decreases m - n,
{
    if n < m {
        assert(octets(pieces, (n + 1) as nat) == octets(pieces, n));
        lemma_octets_fail(pieces, n + 1, m);
    }
}

/// A MAC address that is written in hexadecimal notation is read back.
pub proof fn law_mac_address_is_read_back(mac: MacAddr)
    ensures
        MacAddr::spec_parse(mac.text()) == Ok::<Seq<u8>, MacAddrParseError>(mac.0@),
{
    let o = mac.0@;
    let one = hex(o[0]);
    let two = one.push(':') + hex(o[1]);
    let three = two.push(':') + hex(o[2]);
    let four = three.push(':') + hex(o[3]);
    let five = four.push(':') + hex(o[4]);
    lemma_hex(o[0]);
    lemma_hex(o[1]);
    lemma_hex(o[2]);
    lemma_hex(o[3]);
    lemma_hex(o[4]);
    lemma_hex(o[5]);
    lemma_split_whole(one, ':');
    lemma_split_last(one, ':', hex(o[1]));
    lemma_split_last(two, ':', hex(o[2]));
    lemma_split_last(three, ':', hex(o[3]));
    lemma_split_last(four, ':', hex(o[4]));
    lemma_split_last(five, ':', hex(o[5]));
    assert(mac.text() =~= five.push(':') + hex(o[5]));
    let pieces = split(mac.text(), ':');
    assert(pieces =~= seq![hex(o[0]), hex(o[1]), hex(o[2]), hex(o[3]), hex(o[4]), hex(o[5])]);
    reveal_with_fuel(octets, 7);
    assert(octets(pieces, 6)->Ok_0 =~= o);
}

/// A text is read as a MAC address iff it is six hexadecimal numbers below 256 with colons between
/// them, and these are its octets.
pub proof fn law_a_mac_address_is_six_octets(s: Seq<char>, i: int)
    requires
        0 <= i < 6,
    ensures
        MacAddr::spec_parse(s) is Ok <==> split(s, ':').len() == 6 && (forall|j: int|
            0 <= j < 6 ==> number(#[trigger] split(s, ':')[j], 16, 255) is Ok),
        MacAddr::spec_parse(s) matches Ok(octets) ==> octets.len() == 6 && octets[i] as int
            == number(split(s, ':')[i], 16, 255)->Ok_0,
{
    let pieces = split(s, ':');
    lemma_octets(pieces, 6, i);
    if MacAddr::spec_parse(s) is Ok {
        assert forall|j: int| 0 <= j < 6 implies number(#[trigger] pieces[j], 16, 255) is Ok by {
            lemma_octets(pieces, 6, j);
        }
    }
}

proof fn lemma_octets(pieces: Seq<Seq<char>>, n: nat, i: int)
    requires
        0 <= i < n,
        n <= 6,
    ensures
        octets(pieces, n) is Ok ==> pieces.len() >= n && octets(pieces, n)->Ok_0.len() == n
            && number(pieces[i], 16, 255) is Ok && octets(pieces, n)->Ok_0[i] as int == number(
            pieces[i],
            16,
            255,
        )->Ok_0,
        pieces.len() >= n && (forall|j: int|
            0 <= j < n ==> number(#[trigger] pieces[j], 16, 255) is Ok) ==> octets(pieces, n)
            is Ok,
    decreases n,
{
    let m = (n - 1) as nat;
    lemma_number_is_bounded(pieces[m as int], 16, 255);
    if m > 0 {
        lemma_octets(
            pieces,
            m,
            if i < m {
                i
            } else {
                0
            },
        );
    }
}

/// What is wrong with a MAC address: the first octet that is missing or that cannot be read, or
/// that there are too many of them.
pub proof fn law_what_is_wrong_with_a_mac_address(s: Seq<char>, n: int)
    requires
        0 <= n < 6,
        forall|j: int|
            0 <= j < n ==> j < split(s, ':').len() && number(#[trigger] split(s, ':')[j], 16, 255)
                is Ok,
    ensures
        n >= split(s, ':').len() ==> MacAddr::spec_parse(s) == Err::<Seq<u8>, MacAddrParseError>(
            MacAddrParseError::Short(n as usize),
        ),
        n < split(s, ':').len() && number(split(s, ':')[n], 16, 255) is Err ==> MacAddr::spec_parse(
            s,
        ) == Err::<Seq<u8>, MacAddrParseError>(
            MacAddrParseError::ParseOctet {
                index: n as usize,
                source: number(split(s, ':')[n], 16, 255)->Err_0,
            },
        ),
        n == 5 && split(s, ':').len() > 6 && number(split(s, ':')[n], 16, 255) is Ok
            ==> MacAddr::spec_parse(s) == Err::<Seq<u8>, MacAddrParseError>(
            MacAddrParseError::Long,
        ),
{
    let pieces = split(s, ':');
    if n > 0 {
        assert(pieces.len() >= n && number(pieces[n - 1], 16, 255) is Ok);
        assert forall|j: int| 0 <= j < n implies number(#[trigger] pieces[j], 16, 255) is Ok by {
            assert(number(split(s, ':')[j], 16, 255) is Ok);
        }
        lemma_octets(pieces, n as nat, 0);
    }
    assert(octets(pieces, n as nat) is Ok);
    assert(octets(pieces, (n + 1) as nat) is Err <==> n >= pieces.len() || number(
        pieces[n],
        16,
        255,
    ) is Err);
    if octets(pieces, (n + 1) as nat) is Err {
        lemma_octets_fail(pieces, (n + 1) as nat, 6);
    }
}

/// An octet in hexadecimal is read back, and no colon occurs in it.
proof fn lemma_hex(byte: u8)
    ensures
        number(hex(byte), 16, 255) == Ok::<int, ParseIntError>(byte as int),
        !hex(byte).contains(':'),
{
    let s = hex(byte);
    reveal_with_fuel(digits_value, 3);
    assert(s.drop_last() =~= seq![s[0]]);
    assert(seq![s[0]].drop_last() =~= Seq::empty());
    assert(digit_value(s[0], 16) == Some(byte as int / 16));
    assert(digit_value(s[1], 16) == Some(byte as int % 16));
}

/// What a client sends to a server.
#[derive(Debug, Clone, Copy, PartialEq, Eq)]
pub enum DhcpClientMessage {
    Discover { mac_address: MacAddr },
    Request { mac_address: MacAddr, ip: Ipv4Addr },
}

/// The terms of a lease, as a server offers them to a client.
#[derive(Debug, Clone, Copy, PartialEq, Eq, Structural)]
pub struct DhcpOffer {
    pub ip: Ipv4Addr,
    /// In seconds.
    pub lease_time: u32,
    /// The length of the network prefix.
    pub subnet_mask: u32,
}

impl DhcpOffer {
    /// The address with its prefix length, and for how long it is offered.
    pub open spec fn text(self) -> Seq<char> {
        self.ip.text() + "/"@ + decimal(self.subnet_mask as nat) + " for "@ + decimal(
            self.lease_time as nat,
        ) + "s"@
    }

    /// Appends the offer as a person reads it.
    pub fn push_text(&self, out: &mut String)
        ensures
            final(out)@ == old(out)@ + self.text(),
    {
        self.ip.push_text(out);
        out.append("/");
        push_decimal(out, self.subnet_mask as u64);
        out.append(" for ");
        push_decimal(out, self.lease_time as u64);
        out.append("s");
        assert(out@ =~= old(out)@ + self.text());
    }
}

/// What a server sends to a client.
#[derive(Debug, Clone, Copy, PartialEq, Eq, Structural)]
pub enum DhcpServerMessage {
    Offer(DhcpOffer),
    Ack,
    Nack,
}

} // verus!
