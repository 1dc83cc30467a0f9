use pasque::bigendian::be_octets;
use pasque::buffer::{put_bytes, put_u8, put_varint_with_len, Reader};
use pasque::error::PsqError;
use pasque::net::{covering_block, IpAddr, IpNetwork, Ipv4Network, Ipv6Network};
use pasque::stream::iptunnel::IpTunnel;
use pasque::text::decimal_text;

const DEAD_1: u128 = 0xfd76_0212_dead_0000_0000_0000_0000_0001;

#[test]
fn addresses_as_text() {
    assert_eq!(IpAddr::V4(0x0a4c_0002).to_text(), "10.76.0.2");
    assert_eq!(IpAddr::V4(u32::MAX).to_text(), "255.255.255.255");
    assert_eq!(IpAddr::V6(DEAD_1).to_text(), "fd76:212:dead::1");
    assert_eq!(IpAddr::V6(0).to_text(), "::");
}

#[test]
fn addresses_as_bytes() {
    assert_eq!(IpAddr::V4(0x0a4c_0002).octets(), vec![10, 76, 0, 2]);
    assert_eq!(
        IpAddr::V6(DEAD_1).octets(),
        vec![0xfd, 0x76, 2, 0x12, 0xde, 0xad, 0, 0, 0, 0, 0, 0, 0, 0, 0, 1]
    );
    assert_eq!(be_octets(0x1234, 1), vec![0x34]);
}

#[test]
fn networks_are_parsed() {
    let v4 = IpNetwork::parse("10.76.0.1/24").unwrap();
    assert_eq!(v4, IpNetwork::V4(Ipv4Network { addr: 0x0a4c_0001, prefix: 24 }));
    assert_eq!(v4.ip(), IpAddr::V4(0x0a4c_0001));
    assert_eq!(v4.to_text(), "10.76.0.1/24");
    let v6 = IpNetwork::parse("fd76:0212:dead::1/48").unwrap();
    assert_eq!(v6, IpNetwork::V6(Ipv6Network { addr: DEAD_1, prefix: 48 }));
    assert_eq!(v6.to_text(), "fd76:212:dead::1/48");
    assert_eq!(
        IpNetwork::parse("10.76.0.1/33"),
        Err(PsqError::AddressParse("invalid address: 10.76.0.1/33".to_string()))
    );
    assert_eq!(
        IpNetwork::parse("nowhere").unwrap_err().message(),
        "IP Address parse error: invalid address: nowhere"
    );
}

#[test]
fn network_sizes_and_places() {
    let n = Ipv4Network { addr: 0x0a4c_0001, prefix: 24 };
    assert_eq!(n.size(), 256);
    assert_eq!(n.nth(0), Some(0x0a4c_0000));
    assert_eq!(n.nth(255), Some(0x0a4c_00ff));
    assert_eq!(n.nth(256), None);
    assert_eq!(n.broadcast(), 0x0a4c_00ff);
    assert_eq!(Ipv4Network { addr: 7, prefix: 0 }.broadcast(), u32::MAX);
    assert_eq!(Ipv4Network { addr: 7, prefix: 0 }.size(), u32::MAX);
    assert_eq!(Ipv4Network { addr: 7, prefix: 32 }.size(), 1);
    let n = Ipv6Network { addr: DEAD_1, prefix: 48 };
    assert_eq!(n.size(), 1u128 << 80);
    assert_eq!(n.nth(2), Some(DEAD_1 + 1));
    assert_eq!(n.broadcast(), DEAD_1 - 1 + ((1u128 << 80) - 1));
    assert_eq!(Ipv6Network { addr: 7, prefix: 0 }.broadcast(), u128::MAX);
    assert_eq!(Ipv6Network { addr: 7, prefix: 0 }.size(), u128::MAX);
    assert_eq!(Ipv6Network { addr: 7, prefix: 128 }.nth(1), None);
}

#[test]
fn networks_contain_addresses() {
    let v4 = IpNetwork::parse("10.76.0.1/24").unwrap();
    assert!(v4.contains(IpAddr::V4(0x0a4c_00ff)));
    assert!(!v4.contains(IpAddr::V4(0x0a4c_0100)));
    assert!(!v4.contains(IpAddr::V6(0x0a4c_00ff)));
    let v6 = IpNetwork::parse("fd76:0212:dead::1/48").unwrap();
    assert!(v6.contains(IpAddr::V6(DEAD_1 + 99)));
    assert!(!v6.contains(IpAddr::V6(1)));
    assert!(!v6.contains(IpAddr::V4(1)));
    assert!(IpNetwork::parse("0.0.0.0/0").unwrap().contains(IpAddr::V4(u32::MAX)));
}

#[test]
fn ranges_become_the_smallest_networks() {
    assert_eq!(
        IpTunnel::ipv4_range_to_cidr(0x0101_0100, 0x0101_01ff),
        Some("1.1.1.0/24".to_string())
    );
    assert_eq!(
        IpTunnel::ipv4_range_to_cidr(0x0101_0101, 0x0101_0101),
        Some("1.1.1.1/32".to_string())
    );
    assert_eq!(
        IpTunnel::ipv4_range_to_cidr(0x0101_0103, 0x0101_0104),
        Some("1.1.1.0/29".to_string())
    );
    assert_eq!(
        IpTunnel::ipv4_range_to_cidr(0, u32::MAX),
        Some("0.0.0.0/0".to_string())
    );
    // A range that ends before it starts is covered by its first address.
    assert_eq!(IpTunnel::ipv4_range_to_cidr(9, 3), Some("0.0.0.9/32".to_string()));
    assert_eq!(
        IpTunnel::ipv6_range_to_cidr(DEAD_1 - 1, DEAD_1 - 1 + ((1u128 << 80) - 1)),
        Some("fd76:212:dead::/48".to_string())
    );
    assert_eq!(IpTunnel::ipv6_range_to_cidr(0, u128::MAX), Some("::/0".to_string()));
    assert_eq!(covering_block(5, 6, 8), (4, 6));
}

#[test]
fn readers_stop_at_the_end() {
    let data = [0x40u8, 0x19, 7, 1, 2];
    let mut r = Reader::with_slice(&data);
    assert_eq!(r.get_varint(), Ok(25));
    assert_eq!(r.get_u8(), Ok(7));
    assert_eq!(r.get_u16(), Ok(258));
    assert_eq!(r.get_u8(), Err(PsqError::Octets));
    assert_eq!(r.get_u16(), Err(PsqError::Octets));
    assert_eq!(r.get_varint(), Err(PsqError::Octets));
    assert_eq!(r.skip(1), Err(PsqError::Octets));
    assert_eq!(r.off, 5);
    let data = [0xc2u8, 0x19, 0x7c, 0x5e, 0xff, 0x14, 0xe8, 0x8c];
    assert_eq!(Reader::with_slice(&data).get_varint(), Ok(151_288_809_941_952_652));
    let data = [0x9du8, 0x7f, 0x3e, 0x7d];
    assert_eq!(Reader::with_slice(&data).get_varint(), Ok(494_878_333));
    let mut r = Reader::with_slice(&data);
    assert_eq!(r.skip(4), Ok(()));
    assert_eq!(r.off, 4);
}

#[test]
fn writers_need_room() {
    let mut buf = vec![9u8; 4];
    assert_eq!(put_u8(&mut buf, 0, 1), Ok(1));
    assert_eq!(put_varint_with_len(&mut buf, 1, 25, 2), Ok(3));
    assert_eq!(buf, vec![1, 0x40, 25, 9]);
    assert_eq!(put_bytes(&mut buf, 3, &[5, 6]), Err(PsqError::Octets));
    assert_eq!(buf, vec![1, 0x40, 25, 9]);
    assert_eq!(put_bytes(&mut buf, 2, &[5, 6]), Ok(4));
    assert_eq!(buf, vec![1, 0x40, 5, 6]);
    assert_eq!(put_u8(&mut buf, 4, 1), Err(PsqError::Octets));
    assert_eq!(put_varint_with_len(&mut buf, 4, 0, 1), Err(PsqError::Octets));
}

#[test]
fn numbers_as_text() {
    assert_eq!(decimal_text(0), "0");
    assert_eq!(decimal_text(405), "405");
    assert_eq!(decimal_text(u128::MAX), "340282366920938463463374607431768211455");
}
