//! Tests of the ClientHello SNI sniffer.

use xr_proxy::sni::extract_sni;

#[test]
fn test_extract_sni_from_real_client_hello() {
    // Minimal ClientHello with SNI for "example.com".
    let client_hello = build_test_client_hello("example.com");
    let sni = extract_sni(&client_hello);
    assert_eq!(sni, Some(b"example.com".to_vec()));
}

#[test]
fn test_not_tls() {
    let http = b"GET / HTTP/1.1\r\nHost: example.com\r\n\r\n";
    assert_eq!(extract_sni(http), None);
}

#[test]
fn test_short_buffer() {
    assert_eq!(extract_sni(&[0x16, 0x03, 0x01]), None);
}

#[test]
fn test_truncations_never_panic() {
    // Every truncation of a valid ClientHello yields None, quietly.
    let hello = build_test_client_hello("example.com");
    for n in 0..hello.len() {
        assert_eq!(extract_sni(&hello[..n]), None, "truncation at {}", n);
    }
}

#[test]
fn test_non_utf8_name_is_rejected() {
    let mut hello = build_test_client_hello("example.com");
    // Overwrite the host name (the last 11 bytes) with invalid UTF-8.
    let n = hello.len();
    hello[n - 11] = 0xFF;
    hello[n - 10] = 0xFE;
    assert_eq!(extract_sni(&hello), None);
}

/// Build a minimal TLS ClientHello with a given SNI for testing.
fn build_test_client_hello(hostname: &str) -> Vec<u8> {
    let host_bytes = hostname.as_bytes();

    // SNI extension
    let sni_entry_len = 3 + host_bytes.len(); // name_type(1) + len(2) + name
    let sni_list_len = sni_entry_len;
    let mut sni_ext = Vec::new();
    sni_ext.extend_from_slice(&(sni_list_len as u16).to_be_bytes()); // list len
    sni_ext.push(0x00); // host name type
    sni_ext.extend_from_slice(&(host_bytes.len() as u16).to_be_bytes());
    sni_ext.extend_from_slice(host_bytes);

    // Extensions block
    let mut extensions = Vec::new();
    extensions.extend_from_slice(&0u16.to_be_bytes()); // ext type = SNI
    extensions.extend_from_slice(&(sni_ext.len() as u16).to_be_bytes());
    extensions.extend_from_slice(&sni_ext);

    // ClientHello body
    let mut ch_body = Vec::new();
    ch_body.extend_from_slice(&[0x03, 0x03]); // TLS 1.2
    ch_body.extend_from_slice(&[0u8; 32]); // random
    ch_body.push(0); // session id length = 0
    ch_body.extend_from_slice(&2u16.to_be_bytes()); // cipher suites length
    ch_body.extend_from_slice(&[0x00, 0xff]); // one cipher suite
    ch_body.push(1); // compression methods length
    ch_body.push(0); // null compression
    ch_body.extend_from_slice(&(extensions.len() as u16).to_be_bytes());
    ch_body.extend_from_slice(&extensions);

    // Handshake header
    let mut handshake = Vec::new();
    handshake.push(0x01); // ClientHello
    let hs_len = ch_body.len();
    handshake.push((hs_len >> 16) as u8);
    handshake.push((hs_len >> 8) as u8);
    handshake.push(hs_len as u8);
    handshake.extend_from_slice(&ch_body);

    // TLS record header
    let mut record = Vec::new();
    record.push(0x16); // Handshake
    record.extend_from_slice(&[0x03, 0x01]); // TLS 1.0 record version
    record.extend_from_slice(&(handshake.len() as u16).to_be_bytes());
    record.extend_from_slice(&handshake);

    record
}
