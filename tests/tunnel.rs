use tunl::cidr::Cidr;
use tunl::config::{freedom, Config, Inbound, Outbound, Protocol};
use tunl::proxy::{Network, ProxyError, RequestContext};
use tunl::pump::Pump;
use tunl::tunnel::{connect_target, process, upstream_target};
use tunl::vmess;
use tunl::ws::{ReadStep, WebSocketStream};

const UUID: &str = "0fbf4f81-2598-4b6a-a623-0ead4cb9efa8";

fn uuid_bytes() -> [u8; 16] {
    *uuid::Uuid::parse_str(UUID).unwrap().as_bytes()
}

fn inbound(protocol: Protocol, path: &str) -> Inbound {
    Inbound { protocol, uuid: uuid_bytes(), password: "secret".to_string(), path: path.to_string() }
}

fn outbound(protocol: Protocol, cidrs: Vec<Cidr>, addresses: &[&str], port: u16) -> Outbound {
    Outbound {
        cidrs,
        protocol,
        addresses: addresses.iter().map(|a| a.to_string()).collect(),
        port,
        uuid: uuid_bytes(),
        password: String::new(),
    }
}

fn config(out: Outbound) -> Config {
    Config {
        inbound: vec![
            inbound(Protocol::Vless, "/vless"),
            inbound(Protocol::Vmess, "/vmess"),
            inbound(Protocol::Trojan, "/trojan"),
        ],
        outbound: out,
    }
}

fn request(inbound: Inbound, address: &str, port: u16, network: Network) -> RequestContext {
    RequestContext { address: address.to_string(), port, network, inbound }
}

#[test]
fn dispatch_inbound_by_path() {
    let c = config(freedom());
    assert_eq!(c.dispatch_inbound("/vmess").unwrap().protocol, Protocol::Vmess);
    assert_eq!(c.dispatch_inbound("/vless").unwrap().path, "/vless");
    assert!(c.dispatch_inbound("/link").is_none());
    assert!(c.dispatch_inbound("/vles").is_none());
}

#[test]
fn dispatcher_cidr() {
    let c = config(outbound(Protocol::Vless, vec![Cidr::new(vec![10, 0, 0, 0], 8).unwrap()], &["1.1.1.1"], 6666));
    let ib = inbound(Protocol::Vless, "/vless");
    let out = c.dispatch_outbound(&request(ib.clone(), "10.1.2.3", 443, Network::Tcp));
    assert_eq!(out.protocol, Protocol::Vless);
    assert_eq!(out.port, 6666);
    let out = c.dispatch_outbound(&request(ib.clone(), "11.0.0.1", 443, Network::Tcp));
    assert_eq!(out.protocol, Protocol::Freedom);
    assert!(out.addresses.is_empty());
    for addr in ["11.0.0.1", "10.1.2.3", "::1", "example.com"] {
        let out = c.dispatch_outbound(&request(ib.clone(), addr, 53, Network::Udp));
        assert_eq!(out.protocol, Protocol::Vless);
    }
    let out = c.dispatch_outbound(&request(ib, "example.com", 443, Network::Tcp));
    assert_eq!(out.protocol, Protocol::Freedom);
}

#[test]
fn ws_fragmentation() {
    let mut s = WebSocketStream::new();
    s.push_message(b"hel");
    s.push_message(b"lo ");
    s.push_message(b"world");
    let mut got = Vec::new();
    loop {
        match s.poll_read(4) {
            ReadStep::Data(d) => {
                assert!(d.len() <= 4);
                got.extend_from_slice(&d);
            }
            ReadStep::NeedEvent => break,
            ReadStep::Eof => panic!("not closed"),
        }
    }
    assert_eq!(got, b"hello world".to_vec());
    s.close();
    assert!(matches!(s.poll_read(8), ReadStep::Eof));
    match s.poll_read(0) {
        ReadStep::Data(d) => assert!(d.is_empty()),
        _ => panic!("a zero-length read gives zero bytes"),
    }
}

#[test]
fn ws_read_after_close_drains_buffer_first() {
    let mut s = WebSocketStream::new();
    s.push_message(b"abc");
    s.close();
    match s.poll_read(10) {
        ReadStep::Data(d) => assert_eq!(d, b"abc".to_vec()),
        _ => panic!("buffered bytes come first"),
    }
    assert!(matches!(s.poll_read(10), ReadStep::Eof));
}

fn vless_client_request(target: [u8; 4], port: u16, payload: &[u8]) -> Vec<u8> {
    let mut req = vec![0u8];
    req.extend_from_slice(&uuid_bytes());
    req.extend_from_slice(&[0, 1]);
    req.extend_from_slice(&port.to_be_bytes());
    req.push(1);
    req.extend_from_slice(&target);
    req.extend_from_slice(payload);
    req
}

#[test]
fn vless_tcp_to_ipv4() {
    let c = config(outbound(Protocol::Vless, vec![Cidr::new(vec![1, 1, 1, 0], 24).unwrap()], &["1.1.1.1"], 6666));
    let ctx = request(c.dispatch_inbound("/vless").unwrap(), "", 0, Network::Tcp);
    let data = vless_client_request([8, 8, 8, 8], 443, b"hello");
    let plan = process(&c, &ctx, &data, &Vec::new()).unwrap();
    assert_eq!(plan.preamble, vec![0, 0]);
    assert_eq!(plan.outbound.protocol, Protocol::Freedom);
    assert_eq!((plan.address.as_str(), plan.port), ("8.8.8.8", 443));
    assert_eq!(plan.context.network, Network::Tcp);
    assert!(plan.handshake.is_empty());
    assert_eq!(&data[plan.consumed..], b"hello");
}

#[test]
fn vless_request_needs_more_bytes() {
    let c = config(freedom());
    let ctx = request(c.dispatch_inbound("/vless").unwrap(), "", 0, Network::Tcp);
    let data = vless_client_request([8, 8, 8, 8], 443, b"");
    assert!(matches!(process(&c, &ctx, &data[..20], &Vec::new()), Err(ProxyError::Incomplete)));
}

#[test]
fn vmess_with_cidr_matched_relay() {
    let c = config(outbound(Protocol::RelayV2, vec![Cidr::new(vec![1, 1, 1, 0], 24).unwrap()], &["upstream.example"], 9000));
    let ctx = request(c.dispatch_inbound("/vmess").unwrap(), "", 0, Network::Tcp);
    let mut header = vec![1u8];
    header.extend_from_slice(&[7u8; 16]);
    header.extend_from_slice(&[9u8; 16]);
    header.extend_from_slice(&[0x42, 0, 0, 0, 1, 0x01, 0xbb, 1, 1, 1, 1, 1, 0, 0, 0, 0]);
    let mut data = vmess::seal_request_header(&uuid_bytes(), &[5u8; 16], &[6u8; 8], &header);
    let header_len = data.len();
    data.extend_from_slice(b"payload");
    let plan = process(&c, &ctx, &data, &Vec::new()).unwrap();
    assert_eq!((plan.address.as_str(), plan.port), ("upstream.example", 9000));
    assert_eq!(plan.handshake, vec![0, 10, 1, 0, 0, 1, 1, 1, 1, 251, 0xbb, 0x01]);
    assert_eq!(plan.consumed, header_len);
    let frames = vmess::encode_response_header(&[9u8; 16], &[7u8; 16], 0x42).unwrap();
    let mut expected = frames.length.clone();
    expected.extend_from_slice(&frames.payload);
    assert_eq!(plan.preamble, expected);
}

#[test]
fn freedom_fallback() {
    let c = config(outbound(Protocol::RelayV1, vec![Cidr::new(vec![1, 1, 1, 0], 24).unwrap()], &["relay.example"], 9000));
    let ctx = request(c.dispatch_inbound("/vless").unwrap(), "", 0, Network::Tcp);
    let data = vless_client_request([9, 9, 9, 9], 80, b"");
    let plan = process(&c, &ctx, &data, &Vec::new()).unwrap();
    assert_eq!(plan.outbound.protocol, Protocol::Freedom);
    assert_eq!((plan.address.as_str(), plan.port), ("9.9.9.9", 80));
    assert!(plan.handshake.is_empty());
}

#[test]
fn trojan_auth_failure_closes() {
    let c = config(freedom());
    let ctx = request(c.dispatch_inbound("/trojan").unwrap(), "", 0, Network::Tcp);
    let mut data = vec![b'0'; 56];
    data.extend_from_slice(b"\r\n");
    assert!(matches!(process(&c, &ctx, &data, &Vec::new()), Err(ProxyError::Auth)));
}

#[test]
fn blackhole_outbound() {
    let c = config(outbound(Protocol::Blackhole, vec![Cidr::new(vec![1, 1, 1, 0], 24).unwrap()], &["blackhole.invalid"], 1));
    let ctx = request(c.dispatch_inbound("/vmess").unwrap(), "", 0, Network::Tcp);
    let mut header = vec![1u8];
    header.extend_from_slice(&[7u8; 32]);
    header.extend_from_slice(&[0x11, 0, 0, 0, 1, 0x01, 0xbb, 1, 1, 1, 1, 2]);
    let data = vmess::seal_request_header(&uuid_bytes(), &[1u8; 16], &[2u8; 8], &header);
    let plan = process(&c, &ctx, &data, &Vec::new()).unwrap();
    assert_eq!(plan.outbound.protocol, Protocol::Blackhole);
    assert_eq!((plan.address.as_str(), plan.port), ("blackhole.invalid", 1));
    assert!(plan.handshake.is_empty());
    assert_eq!(plan.preamble.len(), 18 + 20);
}

#[test]
fn upstream_picks_configured_address() {
    let ob = outbound(Protocol::Vless, vec![], &["a.example", "b.example"], 7);
    let ctx = request(inbound(Protocol::Vless, "/v"), "8.8.8.8", 443, Network::Tcp);
    assert_eq!(upstream_target(&ctx, &ob, 1), ("b.example".to_string(), 7));
    let empty = outbound(Protocol::Vless, vec![], &[], 7);
    assert_eq!(upstream_target(&ctx, &empty, 0), ("8.8.8.8".to_string(), 7));
    assert_eq!(upstream_target(&ctx, &freedom(), 0), ("8.8.8.8".to_string(), 443));
}

#[test]
fn upstream_is_one_of_the_configured_addresses() {
    let names = ["a.example", "b.example", "c.example"];
    let ob = outbound(Protocol::RelayV1, vec![], &names, 9);
    let ctx = request(inbound(Protocol::Vless, "/v"), "8.8.8.8", 443, Network::Tcp);
    let mut seen = std::collections::HashSet::new();
    for _ in 0..200 {
        let (addr, port) = connect_target(&ctx, &ob);
        assert_eq!(port, 9);
        assert!(names.contains(&addr.as_str()));
        seen.insert(addr);
    }
    assert!(seen.len() > 1);
}

#[test]
fn full_duplex_pump() {
    let mut pump = Pump::new(vec![0, 0]);
    let mut to_client = pump.start();
    let mut to_upstream = Vec::new();
    to_upstream.extend(pump.client_data(b"he"));
    to_client.extend(pump.upstream_data(b"wor"));
    to_upstream.extend(pump.client_data(b"llo"));
    to_client.extend(pump.upstream_data(b"ld"));
    assert_eq!(to_upstream, b"hello".to_vec());
    assert_eq!(to_client, b"\0\0world".to_vec());
    assert!(pump.start().is_empty());
}

#[test]
fn pump_sends_preamble_before_upstream_bytes() {
    let mut pump = Pump::new(vec![9, 9]);
    assert_eq!(pump.upstream_data(b"x"), vec![9, 9, b'x']);
    assert_eq!(pump.upstream_data(b"y"), vec![b'y']);
}

#[test]
fn dispatcher_reads_ipv6_as_the_standard_library_does() {
    let mut a = vec![0u8; 16];
    a[1] = 0x0a;
    let c = config(outbound(Protocol::Vless, vec![Cidr::new(a, 16).unwrap()], &["1.1.1.1"], 6666));
    let ib = inbound(Protocol::Bepass, "/bepass");
    for addr in ["A::", "a::1", "000a:0:0:0:0:0:0:1"] {
        let out = c.dispatch_outbound(&request(ib.clone(), addr, 443, Network::Tcp));
        assert_eq!(out.protocol, Protocol::Vless, "{addr}");
    }
    let out = c.dispatch_outbound(&request(ib, "B::", 443, Network::Tcp));
    assert_eq!(out.protocol, Protocol::Freedom);
}
