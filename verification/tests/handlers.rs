//! Tests of the handler decision kernels, the key decoding, the
//! masquerade response, and the firewall rule builders.

use xr_proxy::config::KeyError;
use xr_proxy::config::decode_key;
use xr_proxy::fallback::build_fallback_response;
use xr_proxy::fallback::default_fallback_body;
use xr_proxy::obfuscation::ModifierStrategy;
use xr_proxy::obfuscation::Obfuscator;
use xr_proxy::protocol::Codec;
use xr_proxy::protocol::Command;
use xr_proxy::protocol::FrameError;
use xr_proxy::protocol::IpAddress;
use xr_proxy::protocol::TargetAddr;
use xr_proxy::redirect::iptables_cleanup_commands;
use xr_proxy::redirect::iptables_setup_commands;
use xr_proxy::redirect::nftables_cleanup_args;
use xr_proxy::redirect::nftables_ruleset;
use xr_proxy::relay::AckStep;
use xr_proxy::relay::HandshakeStep;
use xr_proxy::relay::backoff_delay_secs;
use xr_proxy::relay::choose_target;
use xr_proxy::relay::client_ack_step;
use xr_proxy::relay::drain_frames;
use xr_proxy::relay::is_redirect_loop;
use xr_proxy::relay::server_handshake_step;

fn make_codec() -> Codec {
    let obfs = Obfuscator::new(
        b"test-integration-key-1234567890!".to_vec(),
        0xCAFEBABE,
        ModifierStrategy::PositionalXorRotate,
    );
    Codec::new(obfs, 8, 32)
}

#[test]
fn test_drain_two_frames_and_leftover() {
    let codec = make_codec();
    let mut stream = codec.encode_frame(Command::Data, b"first").unwrap();
    stream.extend_from_slice(&codec.encode_frame(Command::Data, b"second").unwrap());
    let tail = codec.encode_frame(Command::Data, b"partial").unwrap();
    let cut = tail.len() / 2;
    stream.extend_from_slice(&tail[..cut]);

    let (payloads, closed, leftover) = drain_frames(&codec, stream).unwrap();
    assert_eq!(payloads, vec![b"first".to_vec(), b"second".to_vec()]);
    assert!(!closed);
    assert_eq!(leftover, tail[..cut].to_vec());
}

#[test]
fn test_drain_stops_at_close() {
    let codec = make_codec();
    let mut stream = codec.encode_frame(Command::Data, b"payload").unwrap();
    stream.extend_from_slice(&codec.encode_frame(Command::Close, &[]).unwrap());
    stream.extend_from_slice(&codec.encode_frame(Command::Data, b"after close").unwrap());

    let (payloads, closed, _) = drain_frames(&codec, stream).unwrap();
    assert_eq!(payloads, vec![b"payload".to_vec()]);
    assert!(closed);
}

#[test]
fn test_drain_ignores_unexpected_commands() {
    let codec = make_codec();
    let mut stream = codec.encode_frame(Command::ConnectAck, &[0]).unwrap();
    stream.extend_from_slice(&codec.encode_frame(Command::Data, b"x").unwrap());
    let (payloads, closed, leftover) = drain_frames(&codec, stream).unwrap();
    assert_eq!(payloads, vec![b"x".to_vec()]);
    assert!(!closed);
    assert!(leftover.is_empty());
}

#[test]
fn test_drain_rejects_garbage() {
    let codec = make_codec();
    let garbage = b"GET / HTTP/1.0\r\n\r\n padding to pass eight bytes".to_vec();
    assert_eq!(drain_frames(&codec, garbage).unwrap_err(), FrameError::BadFrame);
}

#[test]
fn test_server_handshake_accepts_connect() {
    let codec = make_codec();
    let target = TargetAddr::Ip(IpAddress::V4(0x7F000001), 9000);
    let mut buf = codec.encode_frame(Command::Connect, &target.encode()).unwrap();
    // Data following the Connect frame stays buffered for the relay.
    let data = codec.encode_frame(Command::Data, b"early").unwrap();
    buf.extend_from_slice(&data);

    match server_handshake_step(&codec, &mut buf) {
        HandshakeStep::Connect(t) => {
            assert!(matches!(t, TargetAddr::Ip(IpAddress::V4(0x7F000001), 9000)));
        }
        other => panic!("expected Connect, got {:?}", other),
    }
    assert_eq!(buf, data);
}

#[test]
fn test_server_handshake_needs_more_then_rejects() {
    let codec = make_codec();
    let mut short = vec![0u8; 4];
    assert!(matches!(server_handshake_step(&codec, &mut short), HandshakeStep::NeedMore));

    // A wrong-key (undecodable) buffer is foreign traffic.
    let other = Codec::new(
        Obfuscator::new(b"another-key".to_vec(), 0xCAFEBABE, ModifierStrategy::PositionalXorRotate),
        8,
        32,
    );
    let mut wire = other.encode_frame(Command::Connect, b"\x01\x7f\x00\x00\x01\x1f\x90").unwrap();
    let step = server_handshake_step(&codec, &mut wire);
    assert!(
        matches!(step, HandshakeStep::NotProtocol) || matches!(step, HandshakeStep::BadConnect),
        "wrong key must never yield a usable Connect, got {:?}",
        step
    );

    // More than 4096 buffered bytes without a frame is foreign traffic.
    let good = codec.encode_frame(Command::Data, &vec![7u8; 5000]).unwrap();
    let mut prefix = good[..4200].to_vec();
    assert!(matches!(server_handshake_step(&codec, &mut prefix), HandshakeStep::NotProtocol));
}

#[test]
fn test_server_handshake_wrong_first_command() {
    let codec = make_codec();
    let mut buf = codec.encode_frame(Command::Data, b"hello").unwrap();
    assert!(matches!(server_handshake_step(&codec, &mut buf), HandshakeStep::BadConnect));
}

#[test]
fn test_client_ack_steps() {
    let codec = make_codec();

    let ok = codec.encode_frame(Command::ConnectAck, &[0]).unwrap();
    assert_eq!(client_ack_step(&codec, &ok), AckStep::Ready);

    let refused = codec.encode_frame(Command::ConnectAck, &[1]).unwrap();
    assert_eq!(client_ack_step(&codec, &refused), AckStep::Refused);

    let empty = codec.encode_frame(Command::ConnectAck, &[]).unwrap();
    assert_eq!(client_ack_step(&codec, &empty), AckStep::Refused);

    let wrong = codec.encode_frame(Command::Data, &[0]).unwrap();
    assert_eq!(client_ack_step(&codec, &wrong), AckStep::WrongCommand);

    assert_eq!(client_ack_step(&codec, &ok[..5]), AckStep::NeedMore);

    let mut bad = ok.clone();
    bad[7] ^= 0xFF;
    assert_eq!(client_ack_step(&codec, &bad), AckStep::BadFrame);
}

#[test]
fn test_choose_target_prefers_sni() {
    let ip = IpAddress::V4(0x01020304);
    match choose_target(Some(b"example.com"), &ip, 443) {
        TargetAddr::Domain(name, port) => {
            assert_eq!(name, b"example.com");
            assert_eq!(port, 443);
        }
        other => panic!("expected a domain target, got {:?}", other),
    }
    match choose_target(None, &ip, 443) {
        TargetAddr::Ip(IpAddress::V4(0x01020304), 443) => {}
        other => panic!("expected an address target, got {:?}", other),
    }
}

#[test]
fn test_backoff_schedule() {
    assert_eq!(backoff_delay_secs(0), 1);
    assert_eq!(backoff_delay_secs(1), 2);
    assert_eq!(backoff_delay_secs(5), 32);
    assert_eq!(backoff_delay_secs(6), 60);
    assert_eq!(backoff_delay_secs(1000), 60);
}

#[test]
fn test_redirect_loop_guard() {
    assert!(is_redirect_loop(1080, 1080));
    assert!(!is_redirect_loop(443, 1080));
}

#[test]
fn test_decode_key_roundtrip_and_errors() {
    assert_eq!(decode_key("aGVsbG8=").unwrap(), b"hello");
    assert_eq!(decode_key("  aGVsbG8=\n").unwrap(), b"hello");
    assert_eq!(decode_key("!!!"), Err(KeyError::InvalidBase64));
    assert_eq!(decode_key(""), Err(KeyError::EmptyKey));
}

#[test]
fn test_fallback_response_shape() {
    let body = b"<html>hi</html>";
    let resp = build_fallback_response(body);
    let expected = b"HTTP/1.1 200 OK\r\nContent-Type: text/html; charset=utf-8\r\nContent-Length: 15\r\nConnection: close\r\nServer: nginx\r\n\r\n<html>hi</html>";
    assert_eq!(resp, expected);

    let default = default_fallback_body();
    let resp2 = build_fallback_response(&default);
    assert!(resp2.ends_with(&default));
    assert!(resp2.starts_with(b"HTTP/1.1 200 OK\r\n"));
}

#[test]
fn test_nftables_ruleset_text() {
    let text = nftables_ruleset(1080, b"203.0.113.5");
    let s = String::from_utf8(text).unwrap();
    assert!(s.starts_with("table ip xr_proxy {"));
    assert!(s.contains("ip daddr 203.0.113.5 return"));
    assert!(s.contains("ip daddr 10.0.0.0/8 return"));
    assert!(s.contains("ip daddr 127.0.0.0/8 return"));
    assert!(s.contains("tcp dport { 80, 443 } redirect to :1080"));
    assert_eq!(nftables_cleanup_args(), vec![
        b"delete".to_vec(),
        b"table".to_vec(),
        b"ip".to_vec(),
        b"xr_proxy".to_vec(),
    ]);
}

#[test]
fn test_iptables_commands() {
    let cmds = iptables_setup_commands(1080, b"203.0.113.5");
    assert_eq!(cmds.len(), 8);
    assert_eq!(cmds[0], vec![b"-t".to_vec(), b"nat".to_vec(), b"-N".to_vec(), b"XR_PROXY".to_vec()]);
    assert_eq!(cmds[1][5], b"203.0.113.5".to_vec());
    let redirect = &cmds[6];
    assert_eq!(redirect[9], b"80,443".to_vec());
    assert_eq!(redirect[13], b"1080".to_vec());
    let cleanup = iptables_cleanup_commands();
    assert_eq!(cleanup.len(), 3);
    assert_eq!(cleanup[2][2], b"-X".to_vec());
}
