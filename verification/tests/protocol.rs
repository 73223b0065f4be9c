//! Tests of the frame codec and the target address codec.

use xr_proxy::obfuscation::ModifierStrategy;
use xr_proxy::obfuscation::Obfuscator;
use xr_proxy::protocol::AddrError;
use xr_proxy::protocol::Codec;
use xr_proxy::protocol::Command;
use xr_proxy::protocol::FrameError;
use xr_proxy::protocol::IpAddress;
use xr_proxy::protocol::TargetAddr;

fn test_codec() -> Codec {
    let key = b"test-key-32-bytes-long-enough!!!".to_vec();
    let obfs = Obfuscator::new(key, 0xDEADBEEF, ModifierStrategy::PositionalXorRotate);
    Codec::new(obfs, 8, 32)
}

#[test]
fn test_frame_roundtrip() {
    let codec = test_codec();
    let payload = b"Hello from xr-proxy!";
    let wire = codec.encode_frame(Command::Data, payload).unwrap();

    let (frame, consumed) = codec.decode_frame(&wire).unwrap().unwrap();
    assert_eq!(frame.command, Command::Data);
    assert_eq!(frame.payload, payload);
    assert_eq!(consumed, wire.len());
}

#[test]
fn test_connect_addr_roundtrip() {
    let addr = TargetAddr::Domain(b"www.google.com".to_vec(), 443);
    let encoded = addr.encode();
    let (decoded, len) = TargetAddr::decode(&encoded).unwrap();
    assert_eq!(len, encoded.len());
    match decoded {
        TargetAddr::Domain(d, p) => {
            assert_eq!(d, b"www.google.com");
            assert_eq!(p, 443);
        }
        _ => panic!("wrong type"),
    }
}

#[test]
fn test_wrong_key_fails() {
    let key1 = b"correct-key-1234567890abcdef".to_vec();
    let key2 = b"wrong---key-1234567890abcdef".to_vec();
    let obfs1 = Obfuscator::new(key1, 0x11, ModifierStrategy::PositionalXorRotate);
    let obfs2 = Obfuscator::new(key2, 0x11, ModifierStrategy::PositionalXorRotate);

    let codec1 = Codec::new(obfs1, 0, 0);
    let codec2 = Codec::new(obfs2, 0, 0);

    // Try many frames; with the wrong key, most must fail the magic check.
    let mut errors = 0;
    for i in 0..100 {
        let payload = format!("secret payload number {}", i);
        let wire = codec1.encode_frame(Command::Data, payload.as_bytes()).unwrap();
        match codec2.decode_frame(&wire) {
            Err(_) => errors += 1,
            Ok(Some((frame, _))) => {
                // Even when the magic check passes by chance, the payload
                // must come out as garbage.
                if frame.payload != payload.as_bytes() {
                    errors += 1;
                }
            }
            Ok(None) => errors += 1,
        }
    }
    assert!(errors > 90, "wrong key should fail for most frames, got {} errors out of 100", errors);
}

#[test]
fn test_partial_buffer() {
    let codec = test_codec();
    let wire = codec.encode_frame(Command::Data, b"test").unwrap();

    let half = &wire[..wire.len() / 2];
    assert!(codec.decode_frame(half).unwrap().is_none());
}

#[test]
fn test_every_prefix_is_incomplete() {
    // Every strict prefix of a frame asks for more bytes; the full
    // frame decodes; the missing bytes restore the original payload.
    let codec = test_codec();
    let wire = codec.encode_frame(Command::Close, b"tail").unwrap();
    for n in 0..wire.len() {
        assert!(codec.decode_frame(&wire[..n]).unwrap().is_none(), "prefix {} decoded", n);
    }
    let (frame, consumed) = codec.decode_frame(&wire).unwrap().unwrap();
    assert_eq!(frame.command, Command::Close);
    assert_eq!(frame.payload, b"tail");
    assert_eq!(consumed, wire.len());
}

#[test]
fn test_deterministic_encode_decode() {
    // The deterministic encoder with fixed nonce and padding feeds the
    // decoder back the same frame, with trailing bytes left alone.
    let codec = test_codec();
    let padding = [0xEEu8; 11];
    let mut wire = codec.encode_frame_with(Command::ConnectAck, &[0], 0x01020304, &padding);
    assert_eq!(wire[0..4], [1, 2, 3, 4]);
    assert_eq!(wire.len(), 4 + 4 + 11 + 1);
    wire.extend_from_slice(b"more");
    let (frame, consumed) = codec.decode_frame(&wire).unwrap().unwrap();
    assert_eq!(frame.command, Command::ConnectAck);
    assert_eq!(frame.payload, [0]);
    assert_eq!(consumed, 20);
}

#[test]
fn test_payload_too_large() {
    let codec = test_codec();
    let big = vec![0u8; 65536];
    assert_eq!(codec.encode_frame(Command::Data, &big).unwrap_err(), FrameError::PayloadTooLarge);
    let ok = vec![0u8; 65535];
    assert!(codec.encode_frame(Command::Data, &ok).is_ok());
}

#[test]
fn test_bad_magic_is_bad_frame() {
    // A frame whose command byte was flipped after encoding must be
    // rejected as a bad frame.
    let codec = Codec::new(
        Obfuscator::new(b"k".to_vec(), 0, ModifierStrategy::PositionalXorRotate),
        0,
        0,
    );
    let mut wire = codec.encode_frame_with(Command::Data, b"x", 0, &[]);
    wire[7] ^= 0xFF;
    assert_eq!(codec.decode_frame(&wire).unwrap_err(), FrameError::BadFrame);
}

#[test]
fn test_addr_roundtrip_v4_v6_long_domain() {
    let v4 = TargetAddr::Ip(IpAddress::V4(0xC0A80001), 8080);
    let e4 = v4.encode();
    assert_eq!(e4, vec![1, 0xC0, 0xA8, 0, 1, 0x1F, 0x90]);
    let (d4, n4) = TargetAddr::decode(&e4).unwrap();
    assert_eq!(n4, 7);
    assert!(matches!(d4, TargetAddr::Ip(IpAddress::V4(0xC0A80001), 8080)));

    let v6 = TargetAddr::Ip(IpAddress::V6(0x2001_0b28_f23d_0000_0000_0000_0000_0001), 443);
    let e6 = v6.encode();
    assert_eq!(e6.len(), 19);
    assert_eq!(e6[0], 4);
    let (d6, n6) = TargetAddr::decode(&e6).unwrap();
    assert_eq!(n6, 19);
    assert!(matches!(
        d6,
        TargetAddr::Ip(IpAddress::V6(0x2001_0b28_f23d_0000_0000_0000_0000_0001), 443)
    ));

    let long = vec![b'a'; 255];
    let dom = TargetAddr::Domain(long.clone(), 65535);
    let ed = dom.encode();
    assert_eq!(ed.len(), 2 + 255 + 2);
    let (dd, nd) = TargetAddr::decode(&ed).unwrap();
    assert_eq!(nd, ed.len());
    match dd {
        TargetAddr::Domain(name, port) => {
            assert_eq!(name, long);
            assert_eq!(port, 65535);
        }
        _ => panic!("wrong type"),
    }
}

#[test]
fn test_addr_decode_errors() {
    // Empty input, unknown tag, short buffers, an empty domain, and a
    // non-UTF-8 domain are all rejected.
    assert_eq!(TargetAddr::decode(&[]).unwrap_err(), AddrError::BadAddress);
    assert_eq!(TargetAddr::decode(&[9, 0, 0]).unwrap_err(), AddrError::BadAddress);
    assert_eq!(TargetAddr::decode(&[1, 10, 0, 0]).unwrap_err(), AddrError::BadAddress);
    assert_eq!(TargetAddr::decode(&[4, 0, 0, 0]).unwrap_err(), AddrError::BadAddress);
    assert_eq!(TargetAddr::decode(&[3]).unwrap_err(), AddrError::BadAddress);
    // Domain length zero.
    assert_eq!(TargetAddr::decode(&[3, 0, 0, 80]).unwrap_err(), AddrError::BadAddress);
    // Domain bytes that are not UTF-8.
    assert_eq!(TargetAddr::decode(&[3, 2, 0xFF, 0xFE, 0, 80]).unwrap_err(), AddrError::BadAddress);
    // The same layout with a valid name parses.
    let (a, n) = TargetAddr::decode(&[3, 2, b'o', b'k', 0, 80]).unwrap();
    assert_eq!(n, 6);
    match a {
        TargetAddr::Domain(name, port) => {
            assert_eq!(name, b"ok");
            assert_eq!(port, 80);
        }
        _ => panic!("wrong type"),
    }
}

#[test]
fn test_command_bytes() {
    assert_eq!(Command::Connect.to_byte(), 0xA1);
    assert_eq!(Command::Data.to_byte(), 0xA2);
    assert_eq!(Command::Close.to_byte(), 0xA3);
    assert_eq!(Command::ConnectAck.to_byte(), 0xA4);
    assert_eq!(Command::from_byte(0xA1), Some(Command::Connect));
    assert_eq!(Command::from_byte(0xA4), Some(Command::ConnectAck));
    // Bad magic, and a magic with an unknown command code.
    assert_eq!(Command::from_byte(0x21), None);
    assert_eq!(Command::from_byte(0xA5), None);
    assert_eq!(Command::from_byte(0xA0), None);
}

#[test]
fn test_padding_stays_within_bounds() {
    // With bounds [8, 32] every produced frame carries between 8 and
    // 32 padding bytes; the wire length shows it.
    let codec = test_codec();
    for _ in 0..50 {
        let wire = codec.encode_frame(Command::Data, b"0123456789").unwrap();
        assert!(wire.len() >= 4 + 4 + 8 + 10, "padding below the minimum");
        assert!(wire.len() <= 4 + 4 + 32 + 10, "padding above the maximum");
        let (_, consumed) = codec.decode_frame(&wire).unwrap().unwrap();
        assert_eq!(consumed, wire.len());
    }
}

#[test]
fn test_empty_padding_range_uses_minimum() {
    // When the configured range is empty the minimum is used as-is.
    let obfs = Obfuscator::new(b"k".to_vec(), 7, ModifierStrategy::RotatingSalt);
    let codec = Codec::new(obfs, 9, 3);
    let wire = codec.encode_frame(Command::Data, b"abc").unwrap();
    assert_eq!(wire.len(), 4 + 4 + 9 + 3);
}
