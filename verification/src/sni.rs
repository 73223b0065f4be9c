//! SNI extraction from a TLS ClientHello.
//!
//! A lightweight parser over the first bytes of a TCP stream: record
//! header, handshake header, ClientHello body, extension walk, server
//! name list. It never reads past the buffer and answers `None` on any
//! malformation or truncation: "no SNI" is a common, legitimate case.

use vstd::prelude::*;
use crate::util::check_utf8;
use crate::util::copy_range;
use vstd::utf8::valid_utf8;

verus! {

/// The smaller of two integers.
pub open spec fn spec_min(a: int, b: int) -> int {
    if a < b {
        a
    } else {
        b
    }
}

/// Walk the ServerNameList entries `name_type:u8 | name_len:u16 | name`
/// from `pos`: the bytes of the first entry of type 0 that fits.
pub open spec fn spec_scan_names(data: Seq<u8>, pos: int) -> Option<Seq<u8>>
    recommends
        0 <= pos <= data.len(),
    decreases data.len() - pos,
{
    if pos < 0 || pos + 3 > data.len() {
        None
    } else {
        let name_type = data[pos];
        let nlen = (data[pos + 1] as int) * 256 + data[pos + 2] as int;
        if name_type == 0 && pos + 3 + nlen <= data.len() {
            Some(data.subrange(pos + 3, pos + 3 + nlen))
        } else {
            spec_scan_names(data, spec_min(pos + 3 + nlen, data.len() as int))
        }
    }
}

/// The SNI extension body: a two-byte list length (not trusted), then
/// the server name entries.
pub open spec fn spec_parse_sni_ext(data: Seq<u8>) -> Option<Seq<u8>> {
    if data.len() < 5 {
        None
    } else {
        spec_scan_names(data, 2)
    }
}

/// Walk the extensions `type:u16 | len:u16 | data[len]` between `pos`
/// and `ext_end`: the result of parsing the first SNI extension.
pub open spec fn spec_scan_extensions(ch: Seq<u8>, pos: int, ext_end: int) -> Option<Seq<u8>>
    recommends
        0 <= pos,
        ext_end <= ch.len(),
    decreases ext_end - pos,
{
    if pos < 0 || ext_end > ch.len() || pos + 4 > ext_end {
        None
    } else {
        let ext_type = (ch[pos] as int) * 256 + ch[pos + 1] as int;
        let dlen = (ch[pos + 2] as int) * 256 + ch[pos + 3] as int;
        let body = pos + 4;
        if ext_type == 0 {
            spec_parse_sni_ext(ch.subrange(body, body + spec_min(dlen, ch.len() - body)))
        } else {
            spec_scan_extensions(ch, spec_min(body + dlen, ext_end), ext_end)
        }
    }
}

/// The ClientHello body after the handshake header: skip version and
/// random, then the variable-length session id, cipher suites and
/// compression methods, then walk the extensions.
pub open spec fn spec_parse_client_hello(ch: Seq<u8>) -> Option<Seq<u8>> {
    if ch.len() < 35 {
        None
    } else {
        let sid = ch[34] as int;
        let p1 = 35 + sid;
        if p1 + 2 > ch.len() {
            None
        } else {
            let cs_len = (ch[p1] as int) * 256 + ch[p1 + 1] as int;
            let p2 = p1 + 2 + cs_len;
            if p2 + 1 > ch.len() {
                None
            } else {
                let cm_len = ch[p2] as int;
                let p3 = p2 + 1 + cm_len;
                if p3 + 2 > ch.len() {
                    None
                } else {
                    let ext_len = (ch[p3] as int) * 256 + ch[p3 + 1] as int;
                    let p4 = p3 + 2;
                    let ext_end = p4 + spec_min(ext_len, ch.len() - p4);
                    spec_scan_extensions(ch, p4, ext_end)
                }
            }
        }
    }
}

/// The name bytes of the SNI in a buffer that starts with a TLS
/// handshake record holding a ClientHello, if one is present. The
/// record and handshake lengths only bound the parse; truncation is
/// tolerated.
pub open spec fn spec_extract_sni(buf: Seq<u8>) -> Option<Seq<u8>> {
    if buf.len() < 44 {
        None
    } else if buf[0] != 0x16 {
        None
    } else {
        let record_len = (buf[3] as int) * 256 + buf[4] as int;
        let record_end = 5 + spec_min(record_len, buf.len() - 5);
        let hs = buf.subrange(5, record_end);
        if hs.len() < 4 || hs[0] != 0x01 {
            None
        } else {
            let hs_len = (hs[1] as int) * 65536 + (hs[2] as int) * 256 + hs[3] as int;
            let ch = hs.subrange(4, 4 + spec_min(hs_len, hs.len() - 4));
            spec_parse_client_hello(ch)
        }
    }
}

/// How an executable parser reports a spec-level name: the name itself
/// when it is valid UTF-8, nothing otherwise.
pub open spec fn utf8_gate(o: Option<Seq<u8>>, r: Option<Vec<u8>>) -> bool {
    match o {
        None => r is None,
        Some(name) => if valid_utf8(name) {
            r matches Some(v) && v@ == name
        } else {
            r is None
        },
    }
}

/// Extract the SNI host name from a buffer that may hold a TLS
/// ClientHello: the UTF-8 name bytes, or `None` if the buffer is not
/// TLS, holds no SNI, or the name is not UTF-8.
pub fn extract_sni(buf: &[u8]) -> (r: Option<Vec<u8>>)
    ensures
        utf8_gate(spec_extract_sni(buf@), r),
{
    if buf.len() < 44 {
        return None;
    }
    if buf[0] != 0x16 {
        return None;
    }
    let record_len: usize = (buf[3] as usize) * 256 + (buf[4] as usize);
    let tail: usize = buf.len() - 5;
    let record_end: usize = 5 + (if record_len < tail {
        record_len
    } else {
        tail
    });
    let hs = copy_range(buf, 5, record_end);
    if hs.len() < 4 {
        return None;
    }
    if hs[0] != 0x01 {
        return None;
    }
    let hs_len: usize = (hs[1] as usize) * 65536 + (hs[2] as usize) * 256 + (hs[3] as usize);
    let hs_tail: usize = hs.len() - 4;
    let ch_end: usize = 4 + (if hs_len < hs_tail {
        hs_len
    } else {
        hs_tail
    });
    let ch = copy_range(hs.as_slice(), 4, ch_end);
    parse_client_hello(ch.as_slice())
}

/// Parse the ClientHello body, yielding the SNI name if present.
fn parse_client_hello(ch: &[u8]) -> (r: Option<Vec<u8>>)
    ensures
        utf8_gate(spec_parse_client_hello(ch@), r),
{
    if ch.len() < 35 {
        return None;
    }
    let sid = ch[34] as usize;
    let p1: usize = 35 + sid;
    if p1 + 2 > ch.len() {
        return None;
    }
    let cs_len: usize = (ch[p1] as usize) * 256 + (ch[p1 + 1] as usize);
    let p2: usize = p1 + 2 + cs_len;
    if p2 + 1 > ch.len() {
        return None;
    }
    let cm_len = ch[p2] as usize;
    let p3: usize = p2 + 1 + cm_len;
    if p3 + 2 > ch.len() {
        return None;
    }
    let ext_len: usize = (ch[p3] as usize) * 256 + (ch[p3 + 1] as usize);
    let p4: usize = p3 + 2;
    let ext_tail: usize = ch.len() - p4;
    let ext_end: usize = p4 + (if ext_len < ext_tail {
        ext_len
    } else {
        ext_tail
    });
    scan_extensions(ch, p4, ext_end)
}

/// Walk the extensions from `pos`, parsing the first SNI extension.
fn scan_extensions(ch: &[u8], pos: usize, ext_end: usize) -> (r: Option<Vec<u8>>)
    requires
        ext_end <= ch@.len(),
    ensures
        utf8_gate(spec_scan_extensions(ch@, pos as int, ext_end as int), r),
    decreases ext_end - pos,
{
    if pos > ext_end || ext_end - pos < 4 {
        return None;
    }
    let ext_type: usize = (ch[pos] as usize) * 256 + (ch[pos + 1] as usize);
    let dlen: usize = (ch[pos + 2] as usize) * 256 + (ch[pos + 3] as usize);
    let body: usize = pos + 4;
    if ext_type == 0 {
        let body_tail: usize = ch.len() - body;
        let body_end: usize = body + (if dlen < body_tail {
            dlen
        } else {
            body_tail
        });
        let data = copy_range(ch, body, body_end);
        parse_sni_extension(data.as_slice())
    } else {
        let rest: usize = ext_end - body;
        let next: usize = if dlen < rest {
            body + dlen
        } else {
            ext_end
        };
        proof {
            assert(spec_min(body as int + dlen as int, ext_end as int) == next as int);
        }
        scan_extensions(ch, next, ext_end)
    }
}

/// Parse the body of an SNI extension: the first host-name entry, when
/// it is valid UTF-8.
pub fn parse_sni_extension(data: &[u8]) -> (r: Option<Vec<u8>>)
    ensures
        utf8_gate(spec_parse_sni_ext(data@), r),
{
    if data.len() < 5 {
        return None;
    }
    scan_names(data, 2)
}

/// Walk the server name entries from `pos`.
fn scan_names(data: &[u8], pos: usize) -> (r: Option<Vec<u8>>)
    requires
        pos <= data@.len(),
    ensures
        utf8_gate(spec_scan_names(data@, pos as int), r),
    decreases data@.len() - pos,
{
    if data.len() - pos < 3 {
        return None;
    }
    let name_type = data[pos];
    let nlen: usize = (data[pos + 1] as usize) * 256 + (data[pos + 2] as usize);
    let rem: usize = data.len() - pos - 3;
    if name_type == 0 && nlen <= rem {
        let name = copy_range(data, pos + 3, pos + 3 + nlen);
        if check_utf8(name.as_slice()) {
            Some(name)
        } else {
            None
        }
    } else {
        let next: usize = if nlen < rem {
            pos + 3 + nlen
        } else {
            data.len()
        };
        proof {
            assert(spec_min(pos as int + 3 + nlen as int, data@.len() as int) == next as int);
        }
        scan_names(data, next)
    }
}

} // verus!
