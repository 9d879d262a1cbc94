//! Addresses, numbers and words as they are written and read.

use dhcpcluster::net::{AddrParseError, Ipv4Addr};
use dhcpcluster::protocol::{DhcpOffer, MacAddr, MacAddrParseError};
use dhcpcluster::text::{
    count_lines, parse_digits, parse_number, push_decimal, push_hex, same, split_text, split_words,
    ParseIntError,
};
use dhcpcluster::time::{from_epoch, Duration, Timestamp};

fn text_of(addr: Ipv4Addr) -> String {
    let mut text = String::new();
    addr.push_text(&mut text);
    text
}

#[test]
fn ip_addresses_are_written_in_dotted_notation() {
    assert_eq!(text_of(Ipv4Addr::from_bits(0x7f00_0001)), "127.0.0.1");
    assert_eq!(text_of(Ipv4Addr::from_bits(0)), "0.0.0.0");
    assert_eq!(text_of(Ipv4Addr::from_bits(u32::MAX)), "255.255.255.255");
    assert_eq!(text_of(Ipv4Addr::from_bits(0xc0a8_0a64)), "192.168.10.100");
}

#[test]
fn ip_addresses_are_read_back() {
    for bits in [0, 1, 0x0a00_0001, 0xc0a8_00ff, 0x6409_0a63, u32::MAX] {
        let addr = Ipv4Addr::from_bits(bits);
        assert_eq!(Ipv4Addr::parse(&text_of(addr)), Ok(addr));
        assert_eq!(addr.to_bits(), bits);
    }
}

#[test]
fn what_is_not_an_ip_address() {
    for text in [
        "", "1.2.3", "1.2.3.4.5", "256.0.0.1", "01.2.3.4", "1.2.3.x", "1..2.3", " 1.2.3.4",
        "+1.2.3.4", "1.2.3.4444",
    ] {
        assert_eq!(Ipv4Addr::parse(text), Err(AddrParseError), "{text:?}");
    }
}

#[test]
fn mac_addresses_are_written_in_hexadecimal() {
    assert_eq!(
        MacAddr([0, 1, 0x0f, 0xa0, 0xff, 0x10]).to_text(),
        "00:01:0F:A0:FF:10"
    );
}

#[test]
fn mac_addresses_are_read_back() {
    for bytes in [[0; 6], [255; 6], [1, 2, 3, 0xab, 0xcd, 0xef]] {
        let mac = MacAddr::from(bytes);
        assert_eq!(MacAddr::from_str(&mac.to_text()), Ok(mac));
    }
    assert_eq!(
        MacAddr::from_str("a:B:c:D:e:F"),
        Ok(MacAddr([10, 11, 12, 13, 14, 15]))
    );
}

#[test]
fn what_is_not_a_mac_address() {
    assert_eq!(
        MacAddr::from_str(""),
        Err(MacAddrParseError::ParseOctet {
            index: 0,
            source: ParseIntError::Empty
        })
    );
    assert_eq!(
        MacAddr::from_str("00:11:22"),
        Err(MacAddrParseError::Short(3))
    );
    assert_eq!(
        MacAddr::from_str("00:11:22:33:44:55:66"),
        Err(MacAddrParseError::Long)
    );
    assert_eq!(
        MacAddr::from_str("00:11:2g:33:44:55"),
        Err(MacAddrParseError::ParseOctet {
            index: 2,
            source: ParseIntError::InvalidDigit
        })
    );
    assert_eq!(
        MacAddr::from_str("00:11:22:100:44:55"),
        Err(MacAddrParseError::ParseOctet {
            index: 3,
            source: ParseIntError::PosOverflow
        })
    );
}

#[test]
fn mac_addresses_are_compared_by_their_octets() {
    assert_eq!(MacAddr([1, 2, 3, 4, 5, 6]), MacAddr([1, 2, 3, 4, 5, 6]));
    assert_ne!(MacAddr([1, 2, 3, 4, 5, 6]), MacAddr([1, 2, 3, 4, 5, 7]));
}

#[test]
fn offers_are_written_with_their_terms() {
    let mut text = String::new();
    DhcpOffer {
        ip: Ipv4Addr::from_bits(0x0a00_0002),
        lease_time: 3600,
        subnet_mask: 24,
    }
    .push_text(&mut text);
    assert_eq!(text, "10.0.0.2/24 for 3600s");
}

#[test]
fn numbers() {
    let mut text = String::new();
    push_decimal(&mut text, 0);
    text.push(' ');
    push_decimal(&mut text, u64::MAX);
    text.push(' ');
    push_hex(&mut text, 0x0c);
    assert_eq!(text, "0 18446744073709551615 0C");

    assert_eq!(parse_number("18446744073709551615", 10, u64::MAX), Ok(u64::MAX));
    assert_eq!(parse_number("+12", 10, 100), Ok(12));
    assert_eq!(parse_number("ff", 16, 255), Ok(255));
    assert_eq!(parse_number("", 10, 100), Err(ParseIntError::Empty));
    assert_eq!(parse_number("+", 10, 100), Err(ParseIntError::InvalidDigit));
    assert_eq!(parse_number("-1", 10, 100), Err(ParseIntError::InvalidDigit));
    assert_eq!(parse_number("101", 10, 100), Err(ParseIntError::PosOverflow));
    assert_eq!(
        parse_number("18446744073709551616", 10, u64::MAX),
        Err(ParseIntError::PosOverflow)
    );
    assert_eq!(parse_digits("+1", 10, 100), Err(ParseIntError::InvalidDigit));
    assert_eq!(parse_digits("007", 10, 100), Ok(7));
    // As the standard library has it
    assert_eq!("255".parse::<u8>().ok(), parse_number("255", 10, 255).ok().map(|n| n as u8));
}

#[test]
fn pieces_words_and_lines() {
    assert_eq!(split_text("a:b::c", ':'), vec!["a", "b", "", "c"]);
    assert_eq!(split_text("", ':'), vec![""]);
    assert_eq!(split_words("  query\t-n  3 \n"), vec!["query", "-n", "3"]);
    assert_eq!(split_words(" \t "), Vec::<String>::new());
    assert!(same("random", "random"));
    assert!(!same("random", "Random"));
    for text in ["", "a", "a\n", "a\nb", "\n", "\n\n", "a\n\nb\n"] {
        assert_eq!(count_lines(text), text.lines().count(), "{text:?}");
    }
}

#[test]
fn spans_of_time() {
    assert_eq!(Duration::from_secs(3), Duration::from_millis(3000));
    let mut text = String::new();
    Duration { nanos: 1_234_567 }.push_text(&mut text, 0, 3);
    text.push('|');
    Duration::from_millis(1500).push_text(&mut text, 9, 3);
    text.push('|');
    Duration::from_secs(59).push_text(&mut text, 9, 0);
    text.push('|');
    assert_eq!(text, "1.235ms|1.500s   |59s      |");

    let early = Timestamp { nanos: 10 };
    let late = early.after(Duration { nanos: 5 });
    assert_eq!(late, Timestamp { nanos: 15 });
    assert_eq!(late.duration_since(early), Some(Duration { nanos: 5 }));
    assert_eq!(early.duration_since(late), None);
}

#[test]
fn points_in_time_before_the_epoch() {
    assert_eq!(from_epoch(Ok(7)), Timestamp { nanos: 7 });
    let before = from_epoch(Err(7));
    assert_eq!(before, Timestamp { nanos: -7 });
    assert_eq!(before.after(Duration { nanos: 10 }), Timestamp { nanos: 3 });
    assert_eq!(
        Timestamp { nanos: 3 }.duration_since(before),
        Some(Duration { nanos: 10 })
    );
    assert_eq!(
        Timestamp { nanos: -2 }.duration_since(before),
        Some(Duration { nanos: 5 })
    );
    assert_eq!(before.duration_since(Timestamp { nanos: -2 }), None);
    assert_eq!(
        Timestamp { nanos: i128::MAX }.duration_since(Timestamp { nanos: i128::MIN }),
        Some(Duration { nanos: u128::MAX })
    );
}
