use pasque::error::PsqError;
use pasque::net::IpAddr;
use pasque::qlog;
use pasque::server::config::{Common, Config, EndpointConfig, JWTSecretConfig};
use pasque::server::endpoint::Endpoint;
use pasque::server::packet::{PacketHeader, PacketType};
use pasque::server::response::{build_h3_resp_headers, build_h3_response};
use pasque::server::token::{derive_id, generate_key, mint_token, validate_token};
use pasque::server::{PacketDecision, PsqServer};

fn custom(s: &str) -> PsqError {
    PsqError::Custom(s.to_string())
}

fn common(path: &str, permission: Option<&str>) -> Common {
    Common { path: path.to_string(), permission: permission.map(|s| s.to_string()) }
}

fn config(endpoints: Vec<EndpointConfig>) -> Config {
    Config {
        cert_file: "src/bin/cert.crt".to_string(),
        key_file: "src/bin/cert.key".to_string(),
        jwt_config: JWTSecretConfig::Plain("secret".to_string()),
        endpoints,
    }
}

fn ip_config(path: &str, pools: &[&str], routes: &[&str]) -> EndpointConfig {
    EndpointConfig::IpEndpoint {
        common: common(path, Some("ipauth")),
        ifprefix: "tun-s0".to_string(),
        addresspools: pools.iter().map(|s| s.to_string()).collect(),
        routes: routes.iter().map(|s| s.to_string()).collect(),
    }
}

fn start(config: &Config) -> Result<PsqServer<u32, Endpoint>, PsqError> {
    PsqServer::start(vec![1; 32], vec![2; 32], b"secret".to_vec(), config)
}

fn text_at(server: &PsqServer<u32, Endpoint>, path: &str) -> String {
    server.endpoints.get(&path.to_string()).unwrap().fmt()
}

/// An Initial packet of a version with connection IDs and a token.
fn initial(version: u32, dcid: &[u8], token: &[u8]) -> Vec<u8> {
    let mut p = vec![0xc0];
    p.extend_from_slice(&version.to_be_bytes());
    p.push(dcid.len() as u8);
    p.extend_from_slice(dcid);
    p.extend_from_slice(&[3, 7, 8, 9]);
    p.extend_from_slice(&(0x4000 + token.len() as u16).to_be_bytes());
    p.extend_from_slice(token);
    p
}

#[test]
fn read_endpoint_config() {
    let config = config(vec![
        ip_config(
            "ip",
            &["10.76.0.1/24", "fd76:0212:dead::1/48"],
            &["1.1.1.0/24", "fd76:0212:dead::/48"],
        ),
        EndpointConfig::UdpEndpoint { common: common("udp", None) },
        EndpointConfig::Files { common: common("files", None), root: ".".to_string() },
    ]);
    let psqserver = start(&config).unwrap();
    assert!(
        text_at(&psqserver, "ip") == "IpEndpoint(tun-s0 10.76.0.1/24 fd76:212:dead::1/48)"
    );
    assert!(text_at(&psqserver, "udp") == "UdpEndpoint()");
    assert!(text_at(&psqserver, "files") == "Files(.)");
    assert!(psqserver.endpoints.get(&"other".to_string()).is_none());
    assert_eq!(psqserver.jwt_secret, b"secret".to_vec());
    match psqserver.endpoints.get(&"ip".to_string()).unwrap() {
        Endpoint::Ip(e) => {
            assert_eq!(e.permission, Some("ipauth".to_string()));
            assert_eq!(e.route_adv.len(), 44);
        }
        _ => panic!("not an IP endpoint"),
    }
}

#[test]
fn permissions_reach_all_endpoints() {
    let config = config(vec![
        EndpointConfig::UdpEndpoint { common: common("udp", Some("regular")) },
        EndpointConfig::Files { common: common("files", Some("regular")), root: ".".to_string() },
    ]);
    let server = start(&config).unwrap();
    let label = Some("regular".to_string());
    match server.endpoints.get(&"udp".to_string()) {
        Some(Endpoint::Udp(e)) => assert_eq!(e.permission, label),
        _ => panic!("not a UDP endpoint"),
    }
    match server.endpoints.get(&"files".to_string()) {
        Some(Endpoint::Files(e)) => assert_eq!(e.permission, label),
        _ => panic!("not a files endpoint"),
    }
}

#[test]
fn wrong_networks_are_errors() {
    let invalid =
        |s: &str| Some(PsqError::AddressParse(format!("invalid address: {}", s)));
    let c = config(vec![ip_config("ip", &["10.76.0.1/24", "x"], &["y"])]);
    assert_eq!(start(&c).err(), invalid("x"));
    let c = config(vec![
        EndpointConfig::UdpEndpoint { common: common("udp", None) },
        ip_config("ip", &["10.76.0.1/24"], &["y", "z"]),
        ip_config("ip", &["x"], &[]),
    ]);
    assert_eq!(start(&c).err(), invalid("y"));
    // The endpoints before the wrong one are there.
    let mut server = start(&config(Vec::new())).unwrap();
    assert_eq!(c.set_server_endpoints(&mut server).err(), invalid("y"));
    assert_eq!(server.endpoints.entries.len(), 1);
    assert_eq!(text_at(&server, "udp"), "UdpEndpoint()");
}

#[test]
fn later_endpoints_replace_earlier_ones() {
    let c = config(vec![
        EndpointConfig::UdpEndpoint { common: common("a", None) },
        EndpointConfig::UdpEndpoint { common: common("b", None) },
        EndpointConfig::Files { common: common("a", None), root: "/srv".to_string() },
    ]);
    let mut server = start(&c).unwrap();
    assert_eq!(text_at(&server, "a"), "Files(/srv)");
    assert_eq!(text_at(&server, "b"), "UdpEndpoint()");
    server.add_endpoint("a", c.endpoints[1].build().unwrap());
    assert_eq!(text_at(&server, "a"), "UdpEndpoint()");
}

#[test]
fn cert_and_key_files() {
    let c = config(Vec::new());
    assert!(c.cert_file().eq("src/bin/cert.crt"));
    assert!(c.key_file().eq("src/bin/cert.key"));
    let with = config(vec![EndpointConfig::UdpEndpoint { common: common("udp", None) }]);
    let without = Config::default_without_endpoints(with);
    assert!(without.endpoints.is_empty());
    assert!(without.cert_file().eq("src/bin/cert.crt"));
}

#[test]
fn jwt_path() {
    let mut f = config(Vec::new());
    assert!(f.jwt_secret_path().is_none());
    assert_eq!(f.jwt_secret(None).expect("must succeed"), b"secret");
    f.jwt_config = JWTSecretConfig::FilePath("tests/jwt-secret".to_string());
    assert_eq!(f.jwt_secret_path(), Some(&"tests/jwt-secret".to_string()));
    assert_eq!(
        f.jwt_secret(Some(Ok(b"jwt-secret-from-file".to_vec()))).expect("must succeed"),
        b"jwt-secret-from-file"
    );
    // Nothing is stripped.
    assert_eq!(f.jwt_secret(Some(Ok(b"secret \n".to_vec()))), Ok(b"secret \n".to_vec()));
    let e = PsqError::Io("no".to_string());
    assert_eq!(f.jwt_secret(Some(Err(e.duplicate()))), Err(e));
}

#[test]
fn config_file_errors() {
    assert_eq!(Config::open_error("gone"), custom("Could not open config file: gone"));
    assert_eq!(Config::parse_error("bad"), custom("Could not parse config file: bad"));
    assert_eq!(
        PsqServer::<u32, Endpoint>::bind_error("0.0.0.0:4433", "in use"),
        custom("Failed to bind to 0.0.0.0:4433: in use")
    );
}

#[test]
fn connection_ids_are_derived() {
    // The second vector of RFC 4231.
    let id = derive_id(&b"Jefe".to_vec(), &b"what do ya want for nothing?".to_vec());
    assert_eq!(
        id,
        vec![
            0x5b, 0xdc, 0xc1, 0x46, 0xbf, 0x60, 0x75, 0x4e, 0x6a, 0x04, 0x24, 0x26, 0x08, 0x95,
            0x75, 0xc7, 0x5a, 0x00, 0x3f, 0x08
        ]
    );
}

#[test]
fn tokens_are_validated() {
    let key = vec![2u8; 32];
    let v4 = IpAddr::V4(0x7f00_0001);
    let dcid = vec![1u8, 2, 3, 4, 5, 6, 7, 8];
    let token = mint_token(&key, v4, &dcid);
    assert_eq!(token.len(), 5 + 4 + 8 + 32);
    assert_eq!(token[..17], *b"0.1.0\x7f\x00\x00\x01\x01\x02\x03\x04\x05\x06\x07\x08");
    assert_eq!(validate_token(&key, v4, &token), Some(dcid.clone()));
    assert_eq!(validate_token(&vec![3u8; 32], v4, &token), None);
    for i in 0..token.len() {
        let mut bad = token.clone();
        bad[i] ^= 1;
        assert_eq!(validate_token(&key, v4, &bad), None);
    }
    for i in 0..token.len() {
        assert_eq!(validate_token(&key, v4, &token[..i].to_vec()), None);
    }
    let v6 = IpAddr::V6(1);
    let token = mint_token(&key, v6, &dcid);
    assert_eq!(token.len(), 5 + 16 + 8 + 32);
    assert_eq!(validate_token(&key, v6, &token), Some(dcid));
    let token = mint_token(&key, v4, &Vec::new());
    assert_eq!(validate_token(&key, v4, &token), None);
}

#[test]
fn keys_are_fresh() {
    let a = generate_key().unwrap();
    let b = generate_key().unwrap();
    assert_eq!(a.len(), 32);
    assert_eq!(b.len(), 32);
    assert_ne!(a, b);
}

#[test]
fn headers_are_parsed() {
    let p = initial(1, &[1, 2, 3], b"tok");
    assert_eq!(
        PacketHeader::parse(&p),
        Ok(PacketHeader {
            ty: PacketType::Initial,
            version: 1,
            dcid: vec![1, 2, 3],
            scid: vec![7, 8, 9],
            token: Some(b"tok".to_vec()),
        })
    );
    let mut p = vec![0x40u8];
    p.extend_from_slice(&[5; 30]);
    assert_eq!(
        PacketHeader::parse(&p),
        Ok(PacketHeader {
            ty: PacketType::Short,
            version: 0,
            dcid: vec![5; 20],
            scid: vec![],
            token: None,
        })
    );
    assert_eq!(PacketHeader::parse(&[0xc0]), Err("BufferTooShort".to_string()));
    let long = initial(1, &[1; 21], b"");
    assert_eq!(PacketHeader::parse(&long), Err("InvalidPacket".to_string()));
}

#[test]
fn a_new_client_is_accepted_after_a_retry() {
    let mut server = start(&config(Vec::new())).unwrap();
    let from = IpAddr::V4(0x7f00_0001);
    let dcid = vec![1u8, 2, 3, 4, 5, 6, 7, 8];
    let (header, decision) = server.process_udp(&initial(1, &dcid, b""), from).unwrap();
    assert_eq!(header.dcid, dcid);
    let (id, token) = match decision {
        PacketDecision::Retry(id, token) => (id, token),
        _ => panic!("no retry"),
    };
    assert_eq!(id, derive_id(&server.conn_id_seed, &dcid));
    assert_eq!(token, mint_token(&server.retry_token_key, from, &dcid));
    let (_, decision) = server.process_udp(&initial(1, &id, &token), from).unwrap();
    assert_eq!(decision, PacketDecision::Accept(id.clone(), dcid.clone()));
    server.add_client(id.clone(), 42);

    // Packets with either ID reach the client.
    let (_, decision) = server.process_udp(&initial(1, &id, &token), from).unwrap();
    assert_eq!(decision, PacketDecision::Deliver(id.clone()));
    let (_, decision) = server.process_udp(&initial(1, &dcid, b""), from).unwrap();
    assert_eq!(decision, PacketDecision::Deliver(id.clone()));
    let mut short = vec![0x40u8];
    short.extend_from_slice(&id);
    let (_, decision) = server.process_udp(&short, from).unwrap();
    assert_eq!(decision, PacketDecision::Deliver(id.clone()));
    assert_eq!(server.clients.get(&id), Some(&42));

    server.collect_garbage(&vec![vec![9, 9]]);
    assert!(server.clients.contains_key(&id));
    server.collect_garbage(&vec![id.clone()]);
    assert!(!server.clients.contains_key(&id));
}

#[test]
fn only_closed_clients_are_forgotten() {
    let mut server = start(&config(Vec::new())).unwrap();
    for i in 0..4u8 {
        server.add_client(vec![i], i as u32);
    }
    server.add_client(vec![3], 33);
    server.collect_garbage(&vec![vec![0], vec![2], vec![0]]);
    assert_eq!(server.clients.entries.len(), 2);
    assert_eq!(server.clients.get(&vec![1]), Some(&1));
    assert_eq!(server.clients.get(&vec![3]), Some(&33));
    assert_eq!(server.clients.position(&vec![2]), None);
}

#[test]
fn other_packets_are_refused() {
    let server = start(&config(Vec::new())).unwrap();
    let from = IpAddr::V4(0x7f00_0001);
    let dcid = vec![1u8, 2, 3, 4, 5, 6, 7, 8];
    let refused = |p: &[u8]| server.process_udp(p, from).err().unwrap();
    let mut short = vec![0x40u8];
    short.extend_from_slice(&[5; 20]);
    assert_eq!(refused(&short), custom("Packet not initial"));
    assert_eq!(refused(&[0xc0]), PsqError::Quiche("BufferTooShort".to_string()));
    assert_eq!(
        refused(&initial(1, &dcid, b"token")),
        custom("Invalid address validation token")
    );
    let token = mint_token(&server.retry_token_key, from, &dcid);
    assert_eq!(
        refused(&initial(1, &dcid, &token)),
        custom("Invalid destination connection ID")
    );
    let (_, decision) = server.process_udp(&initial(0x0a0a_0a0a, &dcid, b""), from).unwrap();
    assert_eq!(decision, PacketDecision::NegotiateVersion);
}

#[test]
fn responses_have_headers() {
    let (headers, body, fin) = build_h3_response(401, "Authorization required");
    assert_eq!(body, b"Authorization required");
    assert!(fin);
    let pairs: Vec<(&[u8], &[u8])> =
        headers.iter().map(|h| (&h.name[..], &h.value[..])).collect();
    assert_eq!(
        pairs,
        vec![
            (&b":status"[..], &b"401"[..]),
            (&b"server"[..], &b"pasque/0.1.0"[..]),
            (&b"capsule-protocol"[..], &b"?1"[..]),
            (&b"content-length"[..], &b"22"[..]),
        ]
    );
    assert_eq!(build_h3_resp_headers(200, &Vec::new())[3].value, b"0");
}

#[test]
fn logs_have_names() {
    assert_eq!(qlog::file_name("client", "0a1b"), "client-0a1b.sqlog");
    assert_eq!(qlog::description("0a1b"), "quiche-client qlog id=0a1b");
    assert_eq!(
        qlog::create_error("\"/x\"", "denied"),
        "Error creating qlog file attempted path was \"/x\": denied"
    );
}

#[test]
fn errors_have_texts() {
    let s = || "x".to_string();
    let all = vec![
        (PsqError::H3Capsule(s()), "HTTP/3 capsule error: x"),
        (PsqError::NotSupported(s()), "Not supported: x"),
        (PsqError::HttpResponse(405, s()), "HTTP response error: x (405)"),
        (PsqError::StreamClose(s()), "Stream closing: x"),
        (PsqError::Io(s()), "IO error: x"),
        (PsqError::UrlParse(s()), "URL parse error: x"),
        (PsqError::AddressParse(s()), "IP Address parse error: x"),
        (PsqError::Quiche(s()), "QUIC error: x"),
        (PsqError::Http3(s()), "HTTP/3 error: x"),
        (PsqError::Octets, "Octets buffer error: BufferTooShortError"),
        (PsqError::Tun(s()), "TUN interface error: x"),
        (PsqError::Utf8(s()), "UTF8 parsing error: x"),
        (PsqError::Jwt(s()), "JSON Web Token error: x"),
        (PsqError::Custom(s()), "Custom error: x"),
        (PsqError::Unimplemented, "Unimplemented"),
    ];
    for (e, text) in all {
        assert_eq!(e.message(), text);
        assert_eq!(e.duplicate(), e);
    }
}
