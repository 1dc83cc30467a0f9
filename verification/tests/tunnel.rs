use bytes::BytesMut;
use pasque::error::PsqError;
use pasque::net::IpAddr;
use pasque::stream::capsule::{Capsule, Setting};
use pasque::stream::codec::IpPacketCodec;
use pasque::stream::connect::ConnectRequest;
use pasque::stream::iptunnel::{Delivery, IpTunnel, TaskEnd};
use pasque::stream::packet::ipv6_packet_output;

fn route(s: &str) -> Setting {
    Setting::Route(s.to_string())
}

#[test]
fn address_capsule_is_written_and_read() {
    let addresses = vec![IpAddr::V4(0x0a4c_0002), IpAddr::V6(0xfd76 << 112 | 2)];
    let mut buf = vec![0xeeu8; 40];
    assert_eq!(IpTunnel::address_assign_capsule(&mut buf, &addresses), Ok(29));
    assert_eq!(
        buf[..29],
        [
            1, 0x40, 26, 0, 4, 10, 76, 0, 2, 32, 0, 6, 0xfd, 0x76, 0, 0, 0, 0, 0, 0, 0, 0, 0, 0,
            0, 0, 0, 2, 128
        ]
    );
    assert_eq!(buf[29], 0xee);
    let mut settings = Vec::new();
    assert_eq!(IpTunnel::process_h3_capsule(&buf, &mut settings), Ok(29));
    assert_eq!(
        settings,
        vec![Setting::Address(addresses[0]), Setting::Address(addresses[1])]
    );
}

#[test]
fn address_capsule_needs_room() {
    let mut buf = vec![0u8; 9];
    let r = IpTunnel::address_assign_capsule(&mut buf, &vec![IpAddr::V4(1)]);
    assert_eq!(r, Err(PsqError::Octets));
    assert_eq!(IpTunnel::address_assign_capsule(&mut buf, &Vec::new()), Ok(3));
    assert_eq!(buf[..3], [1, 0x40, 0]);
}

#[test]
fn route_capsule_is_written_and_read() {
    let routes = vec![4, 1, 1, 1, 0, 1, 1, 1, 255, 0];
    let mut buf = vec![0u8; 16];
    assert_eq!(IpTunnel::route_advertisement_capsule(&mut buf, 2, &routes), Ok(13));
    assert_eq!(buf[2..15], [3, 0x40, 10, 4, 1, 1, 1, 0, 1, 1, 1, 255, 0]);
    let (settings, outcome) = IpTunnel::process_h3_data(&buf[2..15]);
    assert_eq!(settings, vec![route("1.1.1.0/24")]);
    assert_eq!(outcome, Ok(13));
    assert_eq!(
        IpTunnel::route_advertisement_capsule(&mut buf, 4, &routes),
        Err(PsqError::Octets)
    );
    assert_eq!(IpTunnel::route_advertisement_capsule(&mut buf, 99, &vec![1, 2, 3]), Ok(0));
}

#[test]
fn several_capsules_are_read() {
    let mut data = vec![1, 7, 0, 4, 10, 76, 0, 2, 32];
    data.extend_from_slice(&[0x20, 3, 9, 9, 9]);
    data.extend_from_slice(&[3, 34, 6]);
    data.extend_from_slice(&IpAddr::V6(0xfd76_0212_dead << 80).octets());
    data.extend_from_slice(&IpAddr::V6(0xfd76_0212_dead << 80 | ((1 << 80) - 1)).octets());
    data.push(0);
    let (settings, outcome) = IpTunnel::process_h3_data(&data);
    assert_eq!(
        settings,
        vec![Setting::Address(IpAddr::V4(0x0a4c_0002)), route("fd76:212:dead::/48")]
    );
    assert_eq!(outcome, Ok(data.len()));
}

#[test]
fn malformed_capsules_fail() {
    let fails = |data: &[u8], e: PsqError| {
        assert_eq!(IpTunnel::process_h3_data(data).1, Err(e));
    };
    let capsule = |s: &str| PsqError::H3Capsule(s.to_string());
    fails(&[1], PsqError::Octets);
    fails(&[0x40], PsqError::Octets);
    fails(&[1, 7, 0], capsule("Truncated capsule received"));
    fails(&[1, 1, 0], capsule("Invalid length in Address Assign capsule"));
    fails(
        &[1, 7, 0, 5, 0, 0, 0, 0, 0],
        capsule("Address assign: Invalid IP version: 5"),
    );
    fails(
        &[3, 10, 7, 0, 0, 0, 0, 0, 0, 0, 0, 0],
        capsule("Route advertisement: Invalid IP version: 7"),
    );
    // An unknown capsule that claims one byte more than there is.
    fails(&[0x40, 0x20, 2, 9], PsqError::Octets);
    // An IPv6 address of which bytes are missing.
    fails(&[1, 7, 0, 6, 0, 0, 0, 0, 0], PsqError::Octets);
    fails(&[3, 10, 6, 0, 0, 0, 0, 0, 0, 0, 0, 0], PsqError::Octets);
    // What is left of a route capsule is cut off.
    fails(&[3, 0x40, 2, 7], PsqError::Octets);
}

#[test]
fn entries_longer_than_their_capsule_fail() {
    let mut data = vec![1, 7, 0, 6];
    data.extend_from_slice(&[0; 17]);
    let (settings, outcome) = IpTunnel::process_h3_data(&data);
    assert_eq!(settings, vec![]);
    assert_eq!(
        outcome,
        Err(PsqError::H3Capsule("Invalid length in Address Assign capsule".to_string()))
    );
    let mut data = vec![3, 10, 6];
    data.extend_from_slice(&[0; 33]);
    let (settings, outcome) = IpTunnel::process_h3_data(&data);
    assert_eq!(settings, vec![]);
    assert_eq!(
        outcome,
        Err(PsqError::H3Capsule("Invalid length in Route Advertisement capsule".to_string()))
    );
}

#[test]
fn capsules_are_given_their_size() {
    // One byte more than the route takes.
    let data = [3, 11, 4, 1, 1, 1, 0, 1, 1, 1, 255, 0, 0];
    let mut settings = Vec::new();
    assert_eq!(IpTunnel::process_h3_capsule(&data, &mut settings), Ok(13));
    assert_eq!(settings, vec![route("1.1.1.0/24")]);
    // The next capsule starts behind it.
    let mut more = data.to_vec();
    more.extend_from_slice(&[1, 7, 0, 4, 10, 76, 0, 2, 32]);
    let (settings, outcome) = IpTunnel::process_h3_data(&more);
    assert_eq!(outcome, Ok(22));
    assert_eq!(
        settings,
        vec![route("1.1.1.0/24"), Setting::Address(IpAddr::V4(0x0a4c_0002))]
    );
    assert_eq!(IpTunnel::process_h3_capsule(&[3, 2, 7, 7, 9], &mut Vec::new()), Ok(4));
    assert_eq!(IpTunnel::process_h3_capsule(&[0x40, 0x20, 1, 9, 9], &mut Vec::new()), Ok(4));
}

#[test]
fn capsule_types_have_numbers() {
    assert_eq!(Capsule::from_code(Capsule::AddressAssign.code()), Some(Capsule::AddressAssign));
    assert_eq!(Capsule::from_code(3), Some(Capsule::RouteAdvertisement));
    assert_eq!(Capsule::from_code(2), None);
}

#[test]
fn made_settings_are_recorded() {
    let mut tunnel = IpTunnel::new(4, "tun-c1", false).unwrap();
    assert_eq!(tunnel.stream_id(), 4);
    assert_eq!(tunnel.ifname, "tun-c1");
    assert!(tunnel.addresses().is_empty());
    let settings = vec![
        Setting::Address(IpAddr::V4(1)),
        route("1.1.1.0/24"),
        Setting::Address(IpAddr::V4(2)),
    ];
    assert_eq!(tunnel.complete(&settings, Ok(9), None), Ok(9));
    assert_eq!(tunnel.addresses(), &vec![IpAddr::V4(1), IpAddr::V4(2)]);
    let e = PsqError::Io("no".to_string());
    assert_eq!(
        tunnel.complete(&settings, Ok(9), Some((2, e.duplicate()))),
        Err(e)
    );
    assert_eq!(tunnel.addresses(), &vec![IpAddr::V4(1), IpAddr::V4(2), IpAddr::V4(1)]);
    assert_eq!(
        tunnel.complete(&Vec::new(), Err(PsqError::Octets), None),
        Err(PsqError::Octets)
    );
}

#[test]
fn datagrams_go_where_they_can() {
    let mut tunnel = IpTunnel::new(4, "tun-c1", true).unwrap();
    assert!(!tunnel.is_ready());
    assert_eq!(
        tunnel.process_datagram(&[0; 20], None),
        Ok(Delivery { to_tun: false, to_teststream: true })
    );
    tunnel.device_started();
    assert!(tunnel.is_ready());
    assert_eq!(
        tunnel.process_datagram(&[0; 19], None),
        Ok(Delivery { to_tun: true, to_teststream: false })
    );
}

#[test]
fn the_end_of_the_task_is_noticed_once() {
    let mut tunnel = IpTunnel::new(4, "tun-c1", false).unwrap();
    tunnel.device_started();
    assert_eq!(tunnel.check_task_error(None), None);
    assert_eq!(
        tunnel.process_datagram(&[0; 20], Some(TaskEnd::Panicked)),
        Err(PsqError::Custom("Task panicked".to_string()))
    );
    assert!(!tunnel.tuntask);
    assert_eq!(tunnel.check_task_error(Some(TaskEnd::Panicked)), None);
    tunnel.device_started();
    assert_eq!(tunnel.check_task_error(Some(TaskEnd::Completed)), None);
    tunnel.device_started();
    assert_eq!(
        tunnel.check_task_error(Some(TaskEnd::Failed(PsqError::Octets))),
        Some(PsqError::Octets)
    );
}

#[test]
fn packets_are_described() {
    let mut p = vec![0u8; 33];
    p[0] = 0x45;
    p[3] = 33;
    p[9] = 17;
    p[16..20].copy_from_slice(&[1, 1, 1, 100]);
    p[22..24].copy_from_slice(&20001u16.to_be_bytes());
    assert_eq!(
        IpTunnel::packet_output(&p, 33),
        "IPv4: bytes: 33; Len: 33; Dest: 1.1.1.100; Proto: 17; Dest port: 20001"
    );
    p[9] = 1;
    assert_eq!(
        IpTunnel::packet_output(&p, 33),
        "IPv4: bytes: 33; Len: 33; Dest: 1.1.1.100; Proto: 1; "
    );
    assert_eq!(IpTunnel::packet_output(&p[..19], 19), "Truncated IPv4 packet");
    let mut p = vec![0u8; 53];
    p[0] = 0x60;
    p[5] = 13;
    p[6] = 17;
    p[24..28].copy_from_slice(&[0xfd, 0x76, 2, 0x12]);
    p[39] = 1;
    p[42..44].copy_from_slice(&20003u16.to_be_bytes());
    assert_eq!(
        IpTunnel::packet_output(&p, 53),
        "IPv6: bytes: 53; Payload Len: 13; Dest: fd76:212::1; Next header: 17; Dest port: 20003"
    );
    assert_eq!(
        ipv6_packet_output(&p[..47], 47, "there"),
        "IPv6: bytes: 47; Payload Len: 13; Dest: there; Next header: 17; "
    );
    assert_eq!(IpTunnel::packet_output(&p[..39], 39), "Truncated IPv6 packet");
    assert_eq!(IpTunnel::packet_output(&[0x70], 1), "Unknown IP version");
}

#[test]
fn packets_survive_the_codec() {
    let mut codec = IpPacketCodec;
    let mut wire = BytesMut::new();
    codec.encode(BytesMut::from(&b"abc"[..]), &mut wire).unwrap();
    codec.encode(BytesMut::from(&b"de"[..]), &mut wire).unwrap();
    assert_eq!(&wire[..], b"abcde");
    let packet = codec.decode(&mut wire).unwrap().unwrap();
    assert_eq!(&packet[..], b"abcde");
    assert!(wire.is_empty());
    assert!(codec.decode(&mut wire).unwrap().is_none());
    assert!(matches!(codec.encode_if_room(packet, &mut wire), Some(Ok(()))));
    assert_eq!(&wire[..], b"abcde");
}

#[test]
fn tunnels_are_requested_by_url() {
    assert_eq!(
        IpTunnel::connect("https://127.0.0.1:8888/", "ip"),
        Ok(ConnectRequest {
            url: "https://127.0.0.1:8888/ip".to_string(),
            protocol: "connect-ip".to_string(),
        })
    );
    assert_eq!(
        IpTunnel::connect("nowhere", "ip").unwrap_err().message(),
        "URL parse error: relative URL without a base"
    );
}
