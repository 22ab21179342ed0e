//! The protocol core of a WebSocket tunnel proxy: the VMess, VLESS, Trojan
//! and Bepass request codecs, the outbound handshakes (VLESS, Trojan and the
//! relay headers), the dispatch of a request to an outbound, and the
//! reassembly of WebSocket messages into a byte stream. Every function states
//! its behaviour in a contract that Verus proves.
pub mod addr;
pub mod bepass;
pub mod cidr;
pub mod config;
pub mod crypto;
pub mod hash;
pub mod mock_udp;
pub mod octets;
pub mod proxy;
pub mod pump;
pub mod relay;
pub mod text;
pub mod trojan;
pub mod tunnel;
pub mod vless;
pub mod vmess;
pub mod ws;
