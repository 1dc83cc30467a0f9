use pasque::error::PsqError;
use pasque::net::{IpAddr, IpNetwork};
use pasque::stream::addresspool::AddressPool;
use pasque::stream::capsule::Setting;
use pasque::stream::ipendpoint::IpEndpoint;
use pasque::stream::iprequest::{HeaderCheck, RequestAction, Stage};
use pasque::stream::iptunnel::IpTunnel;

fn net(s: &str) -> IpNetwork {
    IpNetwork::parse(s).unwrap()
}

fn custom(s: &str) -> PsqError {
    PsqError::Custom(s.to_string())
}

/// Serves one request to its end and returns the name of the interface, the
/// actions before the answer and the answer.
fn serve(endpoint: &mut IpEndpoint) -> (String, Vec<RequestAction>, Vec<u8>) {
    let mut request = endpoint.process_request(&Vec::new(), 0).unwrap();
    let mut actions = Vec::new();
    loop {
        match endpoint.next_action(&mut request, Ok(())).unwrap() {
            RequestAction::Respond(body) => {
                assert_eq!(request.stage, Stage::Finished);
                return (request.tunnel.ifname.clone(), actions, body);
            }
            action => actions.push(action),
        }
    }
}

#[test]
fn test_ip_tunnel() {
    let mut ip_endpoint = IpEndpoint::new("tun-s");
    ip_endpoint.add_addresspool(net("10.76.0.1/24")).unwrap();
    ip_endpoint.add_route(net("1.1.1.0/24")).unwrap();
    ip_endpoint.add_teststream();
    ip_endpoint.add_addresspool(net("fd76:0212:dead::1/48")).unwrap();
    ip_endpoint.add_route(net("fd76:0212:dead::/48")).unwrap();

    for (i, addr) in [(0, "10.76.0.2"), (1, "10.76.0.3")] {
        let (ifname, actions, body) = serve(&mut ip_endpoint);
        assert_eq!(ifname, format!("tun-s-i{}", i));
        assert_eq!(
            actions,
            vec![
                RequestAction::AddAddress("10.76.0.1".to_string()),
                RequestAction::AddRoute(addr.to_string()),
                RequestAction::AddAddress("fd76:212:dead::1".to_string()),
                RequestAction::AddRoute(format!("fd76:212:dead::{}", i + 2)),
            ]
        );
        let mut iptunnel = IpTunnel::new(0, "tun-c1", false).unwrap();
        let (settings, outcome) = IpTunnel::process_h3_data(&body);
        assert_eq!(outcome, Ok(body.len()));
        assert_eq!(settings[2], Setting::Route("1.1.1.0/24".to_string()));
        assert_eq!(settings[3], Setting::Route("fd76:212:dead::/48".to_string()));
        assert_eq!(settings.len(), 4);
        iptunnel.complete(&settings, outcome, None).unwrap();
        let expect_ad = *iptunnel.addresses().first().unwrap();
        assert_eq!(expect_ad.to_text(), addr);
    }

    // An IPv4 datagram with "Hello" to 1.1.1.100:20001.
    let mut buf = vec![0x45u8, 0, 0, 33, 0, 0, 0, 0, 64, 17, 0, 0, 10, 76, 0, 2, 1, 1, 1, 100];
    buf.extend_from_slice(&[0x4e, 0x20, 0x4e, 0x21, 0, 13, 0, 0]);
    buf.extend_from_slice(b"Hello");
    assert_eq!(
        IpTunnel::packet_output(&buf, buf.len()),
        "IPv4: bytes: 33; Len: 33; Dest: 1.1.1.100; Proto: 17; Dest port: 20001"
    );
}

#[test]
fn the_answer_stands_on_the_wire() {
    let mut endpoint = IpEndpoint::new("tun-s0");
    endpoint.add_addresspool(net("10.76.0.1/24")).unwrap();
    endpoint.add_route(net("1.1.1.7/24")).unwrap();
    assert_eq!(endpoint.route_adv, vec![4, 1, 1, 1, 0, 1, 1, 1, 255, 0]);
    let (ifname, _, body) = serve(&mut endpoint);
    assert_eq!(ifname, "tun-s0-i0");
    assert_eq!(
        body,
        vec![
            1, 0x40, 7, 0, 4, 10, 76, 0, 2, 32, 3, 0x40, 10, 4, 1, 1, 1, 0, 1, 1, 1, 255, 0
        ]
    );
    assert_eq!(endpoint.tuncount, 1);
}

#[test]
fn an_endpoint_without_pools_answers_at_once() {
    let mut endpoint = IpEndpoint::new("tun");
    let (_, actions, body) = serve(&mut endpoint);
    assert_eq!(actions, vec![]);
    assert_eq!(body, vec![1, 0x40, 0]);
}

#[test]
fn default_routes_are_advertised_as_such() {
    let mut endpoint = IpEndpoint::new("tun");
    endpoint.add_route(net("0.0.0.0/0")).unwrap();
    assert_eq!(endpoint.route_adv, vec![4, 0, 0, 0, 0, 255, 255, 255, 255, 0]);
    endpoint.add_route(net("::/0")).unwrap();
    let mut all = vec![6u8];
    all.extend_from_slice(&[0; 16]);
    all.extend_from_slice(&[0xff; 16]);
    all.push(0);
    assert_eq!(endpoint.route_adv[10..], all[..]);
    let (_, _, body) = serve(&mut endpoint);
    let (settings, _) = IpTunnel::process_h3_data(&body);
    assert_eq!(
        settings,
        vec![
            Setting::Route("0.0.0.0/0".to_string()),
            Setting::Route("::/0".to_string())
        ]
    );
}

#[test]
fn too_many_routes_do_not_fit() {
    let mut endpoint = IpEndpoint::new("tun");
    for _ in 0..8 {
        endpoint.add_route(net("::/0")).unwrap();
    }
    let mut request = endpoint.process_request(&Vec::new(), 0).unwrap();
    assert_eq!(endpoint.next_action(&mut request, Ok(())), Err(PsqError::Octets));
    assert_eq!(endpoint.tuncount, 0);
}

#[test]
fn failed_steps_end_a_request() {
    let mut endpoint = IpEndpoint::new("tun");
    endpoint.add_addresspool(net("10.0.0.1/30")).unwrap();
    endpoint.add_teststream();
    let mut request = endpoint.process_request(&Vec::new(), 0).unwrap();
    assert!(request.tunnel.teststream);
    assert!(!endpoint.teststream);
    let e = PsqError::Tun("no".to_string());
    assert_eq!(
        endpoint.next_action(&mut request, Err(e)),
        Err(PsqError::HttpResponse(503, "Could not create TUN interface".to_string()))
    );
    let mut request = endpoint.process_request(&Vec::new(), 0).unwrap();
    endpoint.next_action(&mut request, Ok(())).unwrap();
    assert!(request.tunnel.is_ready());
    let e = PsqError::Io("no".to_string());
    assert_eq!(endpoint.next_action(&mut request, Err(e.duplicate())), Err(e.duplicate()));
    assert_eq!(
        endpoint.next_action(&mut request, Ok(())),
        Ok(RequestAction::AddRoute("10.0.0.2".to_string()))
    );
    assert_eq!(endpoint.next_action(&mut request, Err(e.duplicate())), Err(e));
    // The third request finds the pool exhausted.
    serve(&mut endpoint);
    let mut request = endpoint.process_request(&Vec::new(), 0).unwrap();
    endpoint.next_action(&mut request, Ok(())).unwrap();
    assert_eq!(
        endpoint.next_action(&mut request, Ok(())),
        Err(custom("AddressPool: no addresses available"))
    );
}

#[test]
fn permissions_are_required() {
    let check = |token: Result<bool, PsqError>| HeaderCheck { common: Ok(()), token };
    let refused = PsqError::HttpResponse(401, "Authorization required".to_string());
    let jwt = PsqError::Jwt("bad".to_string());
    let mut endpoint = IpEndpoint::new("tun");
    assert!(endpoint.process_request(&vec![check(Err(jwt.duplicate()))], 0).is_ok());
    endpoint.require_permission(&"ipauth".to_string());
    assert_eq!(endpoint.permission, Some("ipauth".to_string()));
    assert_eq!(endpoint.process_request(&Vec::new(), 0).err(), Some(refused.duplicate()));
    assert_eq!(
        endpoint.process_request(&vec![check(Ok(false)), check(Ok(false))], 0).err(),
        Some(refused)
    );
    assert_eq!(
        endpoint.process_request(&vec![check(Ok(false)), check(Err(jwt.duplicate()))], 0).err(),
        Some(jwt.duplicate())
    );
    let good = vec![check(Ok(true)), check(Err(jwt))];
    assert!(endpoint.process_request(&good, 0).is_ok());
    let wrong = PsqError::HttpResponse(405, "no".to_string());
    let checks = vec![
        check(Ok(true)),
        HeaderCheck { common: Err(wrong.duplicate()), token: Ok(true) },
    ];
    assert_eq!(endpoint.process_request(&checks, 0).err(), Some(wrong));
}

#[test]
fn pools_hand_out_each_address_once() {
    let mut pool = AddressPool::new(net("10.0.0.1/30")).unwrap();
    let a = IpAddr::V4(0x0a00_0002);
    let b = IpAddr::V4(0x0a00_0003);
    assert_eq!(pool.get(), Ok(a));
    assert_eq!(pool.get(), Ok(b));
    assert_eq!(pool.get(), Err(custom("AddressPool: no addresses available")));
    pool.remove(&a);
    pool.remove(&IpAddr::V6(0x0a00_0003));
    assert_eq!(pool.get(), Ok(a));
    assert_eq!(pool.get(), Err(custom("AddressPool: no addresses available")));
}

#[test]
fn pools_know_their_range() {
    let mut pool = AddressPool::new(net("10.0.0.1/30")).unwrap();
    assert_eq!(
        pool.add(IpAddr::V4(0x0a00_0001)),
        Err(custom("AddressPool: already in use"))
    );
    assert_eq!(
        pool.add(IpAddr::V4(0x0a00_0004)),
        Err(custom("AddressPool: address not in range"))
    );
    assert_eq!(pool.add(IpAddr::V6(1)), Err(custom("AddressPool: address not in range")));
    assert_eq!(pool.add(IpAddr::V4(0x0a00_0002)), Ok(()));
    assert_eq!(pool.get(), Ok(IpAddr::V4(0x0a00_0003)));
    assert_eq!(pool.nth(3), Some(IpAddr::V4(0x0a00_0003)));
    assert_eq!(pool.nth(4), None);
}

#[test]
fn single_address_pools_are_empty() {
    let mut pool = AddressPool::new(net("10.0.0.1/32")).unwrap();
    assert_eq!(pool.get(), Err(custom("AddressPool: no addresses available")));
    let mut pool = AddressPool::new(net("fd00::/128")).unwrap();
    assert_eq!(pool.get(), Err(custom("AddressPool: no addresses available")));
}

#[test]
fn large_pools_start_at_their_first_addresses() {
    let mut pool = AddressPool::new(net("fd76:0212:dead::1/48")).unwrap();
    assert_eq!(pool.get().unwrap().to_text(), "fd76:212:dead::2");
    assert_eq!(pool.get().unwrap().to_text(), "fd76:212:dead::3");
    let mut pool = AddressPool::new(net("0.0.0.0/0")).unwrap();
    assert_eq!(pool.get().unwrap().to_text(), "0.0.0.1");
}

#[test]
fn pools_hand_out_in_order() {
    // The server's own address lies in the middle.
    let mut pool = AddressPool::new(net("10.0.0.4/29")).unwrap();
    let mut places = Vec::new();
    while let Ok(IpAddr::V4(a)) = pool.get() {
        places.push(a - 0x0a00_0000);
    }
    assert_eq!(places, vec![1, 2, 3, 5, 6, 7]);
    assert!(pool.get().is_err());
    // It is the network address.
    let mut pool = AddressPool::new(net("10.0.0.0/29")).unwrap();
    let mut places = Vec::new();
    while let Ok(IpAddr::V4(a)) = pool.get() {
        places.push(a - 0x0a00_0000);
    }
    assert_eq!(places, vec![1, 2, 3, 4, 5, 6]);
    let mut pool = AddressPool::new(net("10.0.0.0/31")).unwrap();
    assert!(pool.get().is_err());
}

#[test]
fn failed_requests_leave_no_gap_in_the_interfaces() {
    let mut endpoint = IpEndpoint::new("tun");
    endpoint.add_addresspool(net("10.0.0.1/24")).unwrap();
    let mut seen = Vec::new();
    for i in 0..3u32 {
        let (ifname, actions, _) = serve(&mut endpoint);
        assert_eq!(ifname, format!("tun-i{}", i));
        assert!(!seen.contains(&actions[1]));
        seen.push(actions[1].clone());
        // A request that fails when its route is set.
        let mut request = endpoint.process_request(&Vec::new(), 0).unwrap();
        endpoint.next_action(&mut request, Ok(())).unwrap();
        let taken = endpoint.next_action(&mut request, Ok(())).unwrap();
        assert!(!seen.contains(&taken));
        assert!(endpoint.next_action(&mut request, Err(PsqError::Octets)).is_err());
        assert_eq!(endpoint.tuncount, i + 1);
    }
}
