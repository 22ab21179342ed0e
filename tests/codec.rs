use md5::{Digest, Md5};
use tunl::addr::{encode_addr, parse_domain, parse_ipv4, parse_ipv6};
use tunl::bepass;
use tunl::cidr::Cidr;
use tunl::hash::kdf;
use tunl::proxy::{Network, ProxyError};
use tunl::relay::{header_v2_for, process_v1};
use tunl::text::{ipv4_bytes_text, ipv6_bytes_text, parse_ip_std};
use tunl::trojan;
use tunl::vless;
use tunl::vmess;

fn vmess_user_key(uuid: &[u8]) -> Vec<u8> {
    let mut h = Md5::new();
    h.update(uuid);
    h.update(b"c48619fe-8f02-49e0-b9e9-edf763e17e21");
    h.finalize().to_vec()
}

#[test]
fn test_kdf() {
    let uuid = uuid::Uuid::parse_str("96850032-1b92-46e9-a4f2-b99631456894").unwrap();
    let key = vmess_user_key(uuid.as_bytes());

    let res = kdf(&key, &[&b"AES Auth ID Encryption"[..]]);

    assert_eq!(
        res[..16],
        [117, 82, 144, 159, 147, 65, 74, 253, 91, 74, 70, 84, 114, 118, 203, 30]
    );
}

#[test]
fn kdf_depends_on_every_label() {
    let a = kdf(b"key", &[&b"one"[..], &b"two"[..]]);
    let b = kdf(b"key", &[&b"one"[..], &b"twO"[..]]);
    let c = kdf(b"key", &[&b"one"[..]]);
    assert_ne!(a, b);
    assert_ne!(a, c);
    assert_eq!(a, kdf(b"key", &[&b"one"[..], &b"two"[..]]));
}

fn sample_vmess_header() -> Vec<u8> {
    let mut h = vec![1u8];
    h.extend_from_slice(&[7u8; 16]); // iv
    h.extend_from_slice(&[9u8; 16]); // key
    h.extend_from_slice(&[0x42, 0, 0, 0, 1]); // response auth, options, network TCP
    h.extend_from_slice(&[0x01, 0xbb]); // port 443
    h.push(1);
    h.extend_from_slice(&[1, 1, 1, 1]);
    h.extend_from_slice(&[0xaa, 0xbb, 0xcc, 0xdd]); // checksum, unchecked
    h
}

#[test]
fn vmess_frame_round_trip() {
    let uuid = [3u8; 16];
    let header = sample_vmess_header();
    let frame = vmess::seal_request_header(&uuid, &[5u8; 16], &[6u8; 8], &header);
    assert_eq!(frame.len(), 42 + header.len() + 16);
    let (opened, end) = vmess::aead_decrypt(&frame, &uuid).unwrap();
    assert_eq!(opened, header);
    assert_eq!(end, frame.len());

    let (h, end) = vmess::decode_request_header(&frame, &uuid).unwrap();
    assert_eq!(end, frame.len());
    assert_eq!(h.network, Network::Tcp);
    assert_eq!(h.address, "1.1.1.1");
    assert_eq!(h.port, 443);
    assert_eq!(h.key, [9u8; 16]);
    assert_eq!(h.iv, [7u8; 16]);
    assert_eq!(h.response_header, 0x42);
}

#[test]
fn vmess_flipped_bytes_fail() {
    let uuid = [3u8; 16];
    let header = sample_vmess_header();
    let frame = vmess::seal_request_header(&uuid, &[5u8; 16], &[6u8; 8], &header);
    for i in [0usize, 15, 16, 33, 42, frame.len() - 1] {
        let mut bad = frame.clone();
        bad[i] ^= 0x01;
        assert!(matches!(vmess::aead_decrypt(&bad, &uuid), Err(ProxyError::Auth)), "byte {i}");
    }
    assert!(matches!(vmess::aead_decrypt(&frame, &[4u8; 16]), Err(ProxyError::Auth)));
}

#[test]
fn vmess_short_input_needs_more() {
    let uuid = [3u8; 16];
    let frame = vmess::seal_request_header(&uuid, &[5u8; 16], &[6u8; 8], &sample_vmess_header());
    assert!(matches!(vmess::aead_decrypt(&frame[..41], &uuid), Err(ProxyError::Incomplete)));
    assert!(matches!(vmess::aead_decrypt(&frame[..frame.len() - 1], &uuid), Err(ProxyError::Incomplete)));
}

#[test]
fn vmess_bad_version_and_types() {
    let mut h = sample_vmess_header();
    h[0] = 2;
    assert!(matches!(vmess::parse_command(&h), Err(ProxyError::BadRequest)));
    let mut h = sample_vmess_header();
    h[37] = 9;
    assert!(matches!(vmess::parse_command(&h), Err(ProxyError::BadRequest)));
    let mut h = sample_vmess_header();
    h[40] = 7;
    assert!(matches!(vmess::parse_command(&h), Err(ProxyError::BadRequest)));
}

#[test]
fn vmess_response_frames() {
    let r = vmess::encode_response_header(&[9u8; 16], &[7u8; 16], 0x42).unwrap();
    assert_eq!(r.length.len(), 18);
    assert_eq!(r.payload.len(), 20);
    let other = vmess::encode_response_header(&[9u8; 16], &[7u8; 16], 0x43).unwrap();
    assert_eq!(r.length, other.length);
    assert_ne!(r.payload, other.payload);
}

#[test]
fn address_codec_ipv4() {
    for b in [[0u8, 0, 0, 0], [8, 8, 8, 8], [255, 255, 255, 255], [10, 1, 2, 3], [192, 168, 0, 10]] {
        let text = String::from_utf8(ipv4_bytes_text(&b)).unwrap();
        assert_eq!(encode_addr(&text).unwrap(), b.to_vec());
    }
    assert_eq!(String::from_utf8(ipv4_bytes_text(&[1, 20, 255, 0])).unwrap(), "1.20.255.0");
    assert!(parse_ip_std(b"01.2.3.4").is_none());
    assert!(parse_ip_std(b"256.2.3.4").is_none());
    assert!(parse_ip_std(b"1.2.3").is_none());
    assert!(parse_ip_std(b"1.2.3.4.").is_none());
}

#[test]
fn address_codec_ipv6() {
    let cases: [([u8; 16], &str); 6] = [
        ([0, 0, 0, 0, 0, 0, 0, 0, 0, 0, 0xff, 0xff, 1, 2, 3, 4], "::ffff:1.2.3.4"),
        ([0, 0, 0, 0, 0, 0, 0, 0, 0, 0, 0xff, 0xfe, 1, 2, 3, 4], "::fffe:102:304"),
        ([0; 16], "::"),
        ([0, 0, 0, 0, 0, 0, 0, 0, 0, 0, 0, 0, 0, 0, 0, 1], "::1"),
        ([0x20, 0x01, 0x0d, 0xb8, 0, 0, 0, 0, 0, 0, 0, 0, 0, 0, 0, 1], "2001:db8::1"),
        ([0x20, 0x01, 0x0d, 0xb8, 0, 1, 0, 0, 0, 1, 0, 0, 0, 1, 0, 1], "2001:db8:1:0:1:0:1:1"),
    ];
    for (b, text) in cases {
        assert_eq!(String::from_utf8(ipv6_bytes_text(&b)).unwrap(), text);
        assert_eq!(parse_ip_std(text.as_bytes()).unwrap(), b.to_vec());
        assert_eq!(encode_addr(text).unwrap(), b.to_vec());
    }
    assert_eq!(encode_addr("example.com"), Err(ProxyError::Upstream));
}

#[test]
fn address_reads() {
    let s = [9u8, 1, 2, 3, 4, 3, b'a', b'b', b'c'];
    assert_eq!(parse_ipv4(&s, 1), Some(("1.2.3.4".to_string(), 5)));
    assert_eq!(parse_domain(&s, 5), Some(("abc".to_string(), 9)));
    assert_eq!(parse_domain(&s, 6), None);
    assert_eq!(parse_ipv4(&s, 6), None);
    let mut v6 = vec![0u8; 16];
    v6[15] = 1;
    assert_eq!(parse_ipv6(&v6, 0), Some(("::1".to_string(), 16)));
    let long = {
        let mut d = vec![255u8];
        d.extend(std::iter::repeat(b'x').take(255));
        d
    };
    assert_eq!(parse_domain(&long, 0).unwrap().0, "x".repeat(255));
    assert_eq!(parse_domain(&[2, 0xff, b'a'], 0).unwrap().0, "\u{fffd}a");
}

fn vless_ctx(address: &str, port: u16, network: Network) -> tunl::proxy::RequestContext {
    tunl::proxy::RequestContext {
        address: address.to_string(),
        port,
        network,
        inbound: tunl::config::Inbound {
            protocol: tunl::config::Protocol::Vless,
            uuid: [0; 16],
            password: String::new(),
            path: String::new(),
        },
    }
}

#[test]
fn vless_round_trip() {
    let uuid = *uuid::Uuid::parse_str("0fbf4f81-2598-4b6a-a623-0ead4cb9efa8").unwrap().as_bytes();
    for (addr, port, net) in [("8.8.8.8", 443u16, Network::Tcp), ("10.0.0.1", 53, Network::Udp)] {
        let req = vless::encode_request(&vless_ctx(addr, port, net), &uuid).unwrap();
        let (h, end) = vless::decode_request_header(&req, &uuid).unwrap();
        assert_eq!(end, req.len());
        assert_eq!((h.address.as_str(), h.port, h.network), (addr, port, net));
    }
    let req = vless::encode_request(&vless_ctx("8.8.8.8", 443, Network::Tcp), &uuid).unwrap();
    let mut expected = vec![0u8];
    expected.extend_from_slice(&uuid);
    expected.extend_from_slice(&[0, 1, 0x01, 0xbb, 1, 8, 8, 8, 8]);
    assert_eq!(req, expected);
    assert!(vless::encode_request(&vless_ctx("example.com", 1, Network::Tcp), &uuid).is_err());
}

#[test]
fn vless_decode_errors() {
    let uuid = [1u8; 16];
    let mut req = vec![0u8];
    req.extend_from_slice(&uuid);
    req.extend_from_slice(&[2, 0xee, 0xee, 1, 0, 80, 2, 3, b'a', b'b', b'c']);
    let (h, end) = vless::decode_request_header(&req, &uuid).unwrap();
    assert_eq!((h.address.as_str(), h.port, end), ("abc", 80, req.len()));
    assert!(matches!(vless::decode_request_header(&req[..req.len() - 1], &uuid), Err(ProxyError::Incomplete)));
    assert!(matches!(vless::decode_request_header(&req, &[2u8; 16]), Err(ProxyError::Auth)));
    let mut bad = req.clone();
    bad[0] = 1;
    assert!(matches!(vless::decode_request_header(&bad, &uuid), Err(ProxyError::BadRequest)));
    let mut bad = req.clone();
    bad[20] = 3;
    assert!(matches!(vless::decode_request_header(&bad, &uuid), Err(ProxyError::BadRequest)));
    let mut bad = req.clone();
    bad[23] = 9;
    assert!(matches!(vless::decode_request_header(&bad, &uuid), Err(ProxyError::BadRequest)));
}

#[test]
fn vless_reply_filter_skips_two_bytes_once() {
    let mut f = vless::ReplyFilter::new();
    assert_eq!(f.filter(&[0]), Vec::<u8>::new());
    assert_eq!(f.filter(&[0, 1, 2]), vec![1, 2]);
    assert_eq!(f.filter(&[0, 0, 3]), vec![0, 0, 3]);
}

#[test]
fn trojan_decode() {
    let digest = trojan::digest_password("secret");
    let mut req = digest.clone();
    req.extend_from_slice(b"\r\n");
    req.extend_from_slice(&[1, 1, 9, 9, 9, 9, 0, 80]);
    req.extend_from_slice(b"\r\npayload");
    let (h, end) = trojan::decode_request_header(&req, "secret").unwrap();
    assert_eq!((h.address.as_str(), h.port, h.network), ("9.9.9.9", 80, Network::Tcp));
    assert_eq!(&req[end..], b"payload");

    let mut udp = digest.clone();
    udp.extend_from_slice(b"\r\n");
    udp.extend_from_slice(&[3, 3, 3, b'a', b'b', b'c', 0, 53, 0, 10]);
    udp.extend_from_slice(b"\r\n");
    let (h, end) = trojan::decode_request_header(&udp, "secret").unwrap();
    assert_eq!((h.address.as_str(), h.port, h.network, end), ("abc", 53, Network::Udp, udp.len()));

    let mut bad_crlf = req.clone();
    bad_crlf[57] = b'x';
    assert!(matches!(trojan::decode_request_header(&bad_crlf, "secret"), Err(ProxyError::BadRequest)));
}

#[test]
fn trojan_digest_is_hex_sha224() {
    let d = trojan::digest_password("secret");
    assert_eq!(d.len(), 56);
    assert_eq!(
        String::from_utf8(d).unwrap(),
        "95c7fbca92ac5083afda62a564a3d014fc3b72c9140e3cb99ea6bf12"
    );
    assert_eq!(trojan::hex(&[0x00, 0x0f, 0xa0, 0xff]), b"000fa0ff".to_vec());
}

#[test]
fn trojan_auth_failure() {
    let mut req = vec![b'0'; 56];
    req.extend_from_slice(b"\r\n");
    assert!(matches!(trojan::decode_request_header(&req, "secret"), Err(ProxyError::Auth)));
}

#[test]
fn trojan_request() {
    let ctx = vless_ctx("1.2.3.4", 443, Network::Tcp);
    let r = trojan::encode_request(&ctx, "secret").unwrap();
    let mut expected = trojan::digest_password("secret");
    expected.extend_from_slice(&[13, 10, 1, 1, 1, 2, 3, 4, 1, 187, 13, 10]);
    assert_eq!(r, expected);
}

#[test]
fn relay_headers() {
    let ctx = vless_ctx("example.com", 8443, Network::Udp);
    assert_eq!(process_v1(&ctx), b"udp@example.com$8443\r\n".to_vec());
    assert_eq!(header_v2_for(Network::Tcp, &[1, 1, 1, 1], 443), vec![0, 10, 1, 0, 0, 1, 1, 1, 1, 251, 0xbb, 0x01]);
    assert_eq!(header_v2_for(Network::Udp, &[1, 1, 1, 1], 53), vec![0, 8, 1, 1, 0, 1, 1, 1, 1, 53]);
}

#[test]
fn bepass_query() {
    let q = |pairs: &[(&str, &str)]| -> Vec<(Vec<u8>, Vec<u8>)> {
        pairs.iter().map(|(k, v)| (k.as_bytes().to_vec(), v.as_bytes().to_vec())).collect()
    };
    let h = bepass::decode_request_header(&q(&[("host", "1.1.1.1"), ("port", "443"), ("net", "tcp")])).unwrap();
    assert_eq!((h.address.as_str(), h.port, h.network), ("1.1.1.1", 443, Network::Tcp));
    let h = bepass::decode_request_header(&q(&[("net", "udp"), ("x", "y"), ("port", "+053"), ("host", "a.b")])).unwrap();
    assert_eq!((h.address.as_str(), h.port, h.network), ("a.b", 53, Network::Udp));
    assert!(matches!(bepass::decode_request_header(&q(&[("host", "a"), ("port", "65536"), ("net", "tcp")])), Err(ProxyError::BadRequest)));
    assert!(matches!(bepass::decode_request_header(&q(&[("host", "a"), ("port", "1"), ("net", "icmp")])), Err(ProxyError::BadRequest)));
    assert!(matches!(bepass::decode_request_header(&q(&[("host", "a"), ("port", "1")])), Err(ProxyError::BadRequest)));
    assert_eq!(bepass::parse_port(b"65535"), Some(65535));
    assert_eq!(bepass::parse_port(b""), None);
    assert_eq!(bepass::parse_port(b"+"), None);
    assert_eq!(bepass::parse_port(b"12a"), None);
}

#[test]
fn cidr_contains() {
    let c = Cidr::new(vec![10, 0, 0, 0], 8).unwrap();
    assert!(c.contains(&[10, 1, 2, 3]));
    assert!(!c.contains(&[11, 0, 0, 1]));
    let c = Cidr::new(vec![1, 1, 1, 0], 24).unwrap();
    assert!(c.contains(&[1, 1, 1, 1]));
    assert!(!c.contains(&[1, 1, 2, 1]));
    let c = Cidr::new(vec![172, 64, 0, 0], 13).unwrap();
    assert!(c.contains(&[172, 71, 255, 255]));
    assert!(!c.contains(&[172, 72, 0, 0]));
    assert!(!c.contains(&[0u8; 16]));
    assert!(Cidr::new(vec![1, 2, 3, 4], 33).is_none());
    assert!(Cidr::new(vec![0u8; 16], 128).is_some());
}

#[test]
fn network_bytes() {
    assert_eq!(Network::from_byte(1), Ok(Network::Tcp));
    assert_eq!(Network::from_byte(2), Ok(Network::Udp));
    assert_eq!(Network::from_byte(3), Err(ProxyError::BadRequest));
    assert_eq!(Network::Udp.to_byte(), 2);
    assert_eq!(Network::from_name(b"udp"), Ok(Network::Udp));
}

#[test]
fn dns_answer_slot() {
    let mut slot = tunl::mock_udp::ResponseSlot::new();
    assert_eq!(slot.take(10), None);
    slot.set_response(vec![1, 2, 3]);
    slot.set_response(vec![4, 5, 6, 7]);
    assert_eq!(slot.take(2), Some(vec![4, 5]));
    assert_eq!(slot.take(2), None);
}

fn v6(groups: [u16; 8]) -> Vec<u8> {
    groups.iter().flat_map(|g| g.to_be_bytes()).collect()
}

#[test]
fn address_codec_every_ipv6_form() {
    let cases: [(&str, [u16; 8]); 9] = [
        ("A::", [0xa, 0, 0, 0, 0, 0, 0, 0]),
        ("2001:DB8::1", [0x2001, 0xdb8, 0, 0, 0, 0, 0, 1]),
        ("0:0:0:0:0:0:0:1", [0, 0, 0, 0, 0, 0, 0, 1]),
        ("0001:0002::", [1, 2, 0, 0, 0, 0, 0, 0]),
        ("::ffff:1.2.3.4", [0, 0, 0, 0, 0, 0xffff, 0x0102, 0x0304]),
        ("1:2:3:4:5:6:1.2.3.4", [1, 2, 3, 4, 5, 6, 0x0102, 0x0304]),
        ("1:2:3:4:5:6:7::", [1, 2, 3, 4, 5, 6, 7, 0]),
        ("::2:3:4:5:6:7:8", [0, 2, 3, 4, 5, 6, 7, 8]),
        ("aBcD::Ef:0", [0xabcd, 0, 0, 0, 0, 0, 0xef, 0]),
    ];
    for (text, groups) in cases {
        assert_eq!(encode_addr(text), Ok(v6(groups)), "{text}");
    }
    for bad in [
        "1.2.3.4::", "1::2::3", "12345::", "1:2:3:4:5:6:7:8:9", "::1.2.3", "1:2:3:4:5:6:7:8::",
        ":1::", "1:2:3:4:5:1.2.3.4", "::1.2.3.4:5", "1:::2", "", ":", "g::",
    ] {
        assert_eq!(encode_addr(bad), Err(ProxyError::Upstream), "{bad}");
    }
}
