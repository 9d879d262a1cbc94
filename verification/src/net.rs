//! IPv4 addresses.

use crate::text::{
    decimal, digit, digits_value, lemma_decimal_digits, lemma_split_last, lemma_split_whole,
    parse_digits, push_decimal, split, split_text, texts,
};
use crate::text::laws::{
    joined, law_a_number_has_one_notation, law_split_pieces_make_up_the_text,
};
use vstd::prelude::*;

verus! {

/// An IPv4 address, held as the number that its four octets spell, the first being the highest.
#[derive(Debug, Clone, Copy, PartialEq, Eq, Structural)]
pub struct Ipv4Addr {
    pub bits: u32,
}

/// The text is not an IPv4 address.
#[derive(Debug, Clone, Copy, PartialEq, Eq, Structural)]
pub struct AddrParseError;

/// The number that `s` spells as an octet of an address: one to three digits, no leading zero.
pub open spec fn octet(s: Seq<char>) -> Option<int> {
    if 1 <= s.len() <= 3 && (s.len() == 1 || s[0] != '0') {
        match digits_value(s, 10, 255) {
            Ok(value) => Some(value),
            Err(_) => None,
        }
    } else {
        None
    }
}

/// The number that four octets spell.
pub open spec fn from_octets(a: int, b: int, c: int, d: int) -> int {
    a * 0x100_0000 + b * 0x1_0000 + c * 0x100 + d
}

impl Ipv4Addr {
    pub fn from_bits(bits: u32) -> (addr: Self)
        ensures
            addr.bits == bits,
    {
        Ipv4Addr { bits }
    }

    pub fn to_bits(self) -> (bits: u32)
        ensures
            bits == self.bits,
    {
        self.bits
    }

    /// The four octets in decimal, with dots between them.
    pub open spec fn text(self) -> Seq<char> {
        decimal(self.bits as nat / 0x100_0000).push('.') + decimal(
            self.bits as nat / 0x1_0000 % 0x100,
        ).push('.') + decimal(self.bits as nat / 0x100 % 0x100).push('.') + decimal(
            self.bits as nat % 0x100,
        )
    }

    /// Appends the address in dotted notation.
    pub fn push_text(self, out: &mut String)
        ensures
            final(out)@ == old(out)@ + self.text(),
    {
        proof {
            reveal_strlit(".");
        }
        push_decimal(out, (self.bits / 0x100_0000) as u64);
        out.append(".");
        push_decimal(out, (self.bits / 0x1_0000 % 0x100) as u64);
        out.append(".");
        push_decimal(out, (self.bits / 0x100 % 0x100) as u64);
        out.append(".");
        push_decimal(out, (self.bits % 0x100) as u64);
        assert(out@ =~= old(out)@ + self.text());
    }

    /// The address that `s` spells in dotted notation.
    pub open spec fn spec_parse(s: Seq<char>) -> Option<int> {
        let pieces = split(s, '.');
        if pieces.len() == 4 && octet(pieces[0]) is Some && octet(pieces[1]) is Some && octet(
            pieces[2],
        ) is Some && octet(pieces[3]) is Some {
            Some(
                from_octets(
                    octet(pieces[0])->Some_0,
                    octet(pieces[1])->Some_0,
                    octet(pieces[2])->Some_0,
                    octet(pieces[3])->Some_0,
                ),
            )
        } else {
            None
        }
    }

    /// Reads an address in dotted notation.
    pub fn parse(s: &str) -> (addr: Result<Ipv4Addr, AddrParseError>)
        ensures
            match addr {
                Ok(addr) => Self::spec_parse(s@) == Some(addr.bits as int),
                Err(_) => Self::spec_parse(s@) is None,
            },
    {
        let pieces = split_text(s, '.');
        let ghost views = split(s@, '.');
        assert(views.len() == pieces@.len());
        assert forall|i: int| 0 <= i < pieces@.len() implies #[trigger] pieces@[i]@ == views[i] by {
            assert(texts(pieces@)[i] == pieces@[i]@);
        }
        if pieces.len() != 4 {
            return Err(AddrParseError);
        }
        match (
            parse_octet(&pieces[0]),
            parse_octet(&pieces[1]),
            parse_octet(&pieces[2]),
            parse_octet(&pieces[3]),
        ) {
            (Some(a), Some(b), Some(c), Some(d)) => Ok(
                Ipv4Addr { bits: a * 0x100_0000 + b * 0x1_0000 + c * 0x100 + d },
            ),
            _ => Err(AddrParseError),
        }
    }
}

fn parse_octet(s: &String) -> (value: Option<u32>)
    ensures
        match value {
            Some(v) => octet(s@) == Some(v as int) && v < 0x100,
            None => octet(s@) is None,
        },
{
    let len: usize = s.as_str().unicode_len();
    if len < 1 || len > 3 || (len > 1 && s.as_str().get_char(0) == '0') {
        return None;
    }
    match parse_digits(s.as_str(), 10, 255) {
        Ok(v) => Some(v as u32),
        Err(_) => None,
    }
}

/// An address that is written in dotted notation is read back.
pub proof fn law_address_is_read_back(addr: Ipv4Addr)
    ensures
        Ipv4Addr::spec_parse(addr.text()) == Some(addr.bits as int),
{
    let a = addr.bits as nat / 0x100_0000;
    let b = addr.bits as nat / 0x1_0000 % 0x100;
    let c = addr.bits as nat / 0x100 % 0x100;
    let d = addr.bits as nat % 0x100;
    lemma_octet(a);
    lemma_octet(b);
    lemma_octet(c);
    lemma_octet(d);
    lemma_four_pieces(decimal(a), decimal(b), decimal(c), decimal(d));
    assert(from_octets(a as int, b as int, c as int, d as int) == addr.bits);
}

/// Four pieces with dots between them are split into these pieces.
proof fn lemma_four_pieces(a: Seq<char>, b: Seq<char>, c: Seq<char>, d: Seq<char>)
    requires
        !a.contains('.'),
        !b.contains('.'),
        !c.contains('.'),
        !d.contains('.'),
    ensures
        split(a.push('.') + b.push('.') + c.push('.') + d, '.') == seq![a, b, c, d],
{
    let two = a.push('.') + b;
    let three = two.push('.') + c;
    lemma_split_whole(a, '.');
    lemma_split_last(a, '.', b);
    lemma_split_last(two, '.', c);
    lemma_split_last(three, '.', d);
    assert(a.push('.') + b.push('.') + c.push('.') + d =~= three.push('.') + d);
    assert(seq![a].push(b).push(c).push(d) =~= seq![a, b, c, d]);
}

/// A number below 256 is an octet in decimal, and no dot occurs in it.
proof fn lemma_octet(n: nat)
    requires
        n < 256,
    ensures
        octet(decimal(n)) == Some(n as int),
        !decimal(n).contains('.'),
{
    lemma_decimal_digits(n, 255);
    reveal_with_fuel(decimal, 3);
    if n < 10 {
        assert(decimal(n) =~= seq![digit(n as int)]);
    } else if n < 100 {
        assert(decimal(n) =~= seq![digit(n as int / 10), digit(n as int % 10)]);
    } else {
        assert(decimal(n) =~= seq![
            digit(n as int / 100),
            digit(n as int / 10 % 10),
            digit(n as int % 10),
        ]);
    }
}

/// An address has one notation: a text that is read as an address is how the address is written.
pub proof fn law_an_address_has_one_notation(s: Seq<char>, addr: Ipv4Addr)
    requires
        Ipv4Addr::spec_parse(s) == Some(addr.bits as int),
    ensures
        addr.text() == s,
{
    let pieces = split(s, '.');
    law_split_pieces_make_up_the_text(s, '.');
    let (a, b, c, d) = (
        octet(pieces[0])->Some_0,
        octet(pieces[1])->Some_0,
        octet(pieces[2])->Some_0,
        octet(pieces[3])->Some_0,
    );
    law_a_number_has_one_notation(pieces[0], 255);
    law_a_number_has_one_notation(pieces[1], 255);
    law_a_number_has_one_notation(pieces[2], 255);
    law_a_number_has_one_notation(pieces[3], 255);
    lemma_four_joined(pieces);
    lemma_octets_of(addr.bits as nat, a as nat, b as nat, c as nat, d as nat);
}

/// Four pieces with dots between them.
proof fn lemma_four_joined(pieces: Seq<Seq<char>>)
    requires
        pieces.len() == 4,
    ensures
        joined(pieces, '.') == pieces[0].push('.') + pieces[1].push('.') + pieces[2].push('.')
            + pieces[3],
{
    let three = pieces.drop_last();
    let two = three.drop_last();
    let one = two.drop_last();
    assert(joined(one, '.') == pieces[0]);
    assert(joined(two, '.') == pieces[0].push('.') + pieces[1]);
    assert(joined(three, '.') == (pieces[0].push('.') + pieces[1]).push('.') + pieces[2]);
    assert(joined(pieces, '.') =~= pieces[0].push('.') + pieces[1].push('.') + pieces[2].push('.')
        + pieces[3]);
}

/// The octets of the number that four octets spell.
proof fn lemma_octets_of(bits: nat, a: nat, b: nat, c: nat, d: nat)
    requires
        a < 256,
        b < 256,
        c < 256,
        d < 256,
        bits == a * 0x100_0000 + b * 0x1_0000 + c * 0x100 + d,
    ensures
        bits / 0x100_0000 == a,
        bits / 0x1_0000 % 0x100 == b,
        bits / 0x100 % 0x100 == c,
        bits % 0x100 == d,
{
}

} // verus!
