//! Wire protocol: obfuscated frames and target addresses.
//!
//! Frame layout on the wire:
//! `[ nonce: 4 BE ][ header: 4, obfuscated ][ padding: 0..=255 random ][ payload: obfuscated ]`
//! where the plaintext header is
//! `payload_len: u16 BE | padding_len: u8 | cmd_byte: u8` and
//! `cmd_byte = 0xA0 | command`, the upper three bits being a fixed magic
//! that gives probabilistic wrong-key detection.

use vstd::prelude::*;
use crate::obfuscation::Obfuscator;
use crate::obfuscation::lemma_apply_seq_len;
use crate::obfuscation::lemma_apply_involution;
use crate::util::push_all;
use crate::util::copy_range;
use crate::util::check_utf8;
use vstd::utf8::valid_utf8;

verus! {

// ── Big-endian byte strings ─────────────────────────────────────────

/// The value of a big-endian byte string.
pub open spec fn be_val(s: Seq<u8>) -> nat
    decreases s.len(),
{
    if s.len() == 0 {
        0
    } else {
        (be_val(s.drop_last()) * 256 + s.last()) as nat
    }
}

/// The `n`-byte big-endian representation of `x % 256^n`.
pub open spec fn be_bytes(x: nat, n: nat) -> Seq<u8>
    decreases n,
{
    if n == 0 {
        Seq::empty()
    } else {
        be_bytes(x / 256, (n - 1) as nat).push((x % 256) as u8)
    }
}

/// `256^n`.
pub open spec fn p256(n: nat) -> nat
    decreases n,
{
    if n == 0 {
        1
    } else {
        256 * p256((n - 1) as nat)
    }
}

pub proof fn lemma_p256_vals()
    ensures
        p256(2) == 0x1_0000,
        p256(4) == 0x1_0000_0000,
        p256(16) == 0x1_0000_0000_0000_0000_0000_0000_0000_0000,
{
    reveal_with_fuel(p256, 17);
}

pub proof fn lemma_be_bytes_len(x: nat, n: nat)
    ensures
        be_bytes(x, n).len() == n,
    decreases n,
{
    if n > 0 {
        lemma_be_bytes_len(x / 256, (n - 1) as nat);
    }
}

/// Reading back the big-endian representation yields the value.
pub proof fn lemma_be_round_trip(x: nat, n: nat)
    requires
        x < p256(n),
    ensures
        be_val(be_bytes(x, n)) == x,
    decreases n,
{
    if n > 0 {
        assert(x / 256 < p256((n - 1) as nat)) by (nonlinear_arith)
            requires
                x < 256 * p256((n - 1) as nat),
        ;
        lemma_be_round_trip(x / 256, (n - 1) as nat);
        lemma_be_bytes_len(x / 256, (n - 1) as nat);
        let b = be_bytes(x, n);
        assert(b.drop_last() =~= be_bytes(x / 256, (n - 1) as nat));
    }
}

/// A big-endian byte string of length `n` holds a value below `256^n`.
pub proof fn lemma_be_val_bound(s: Seq<u8>)
    ensures
        be_val(s) < p256(s.len()),
    decreases s.len(),
{
    if s.len() > 0 {
        lemma_be_val_bound(s.drop_last());
    }
}

/// The value of a two-byte big-endian string, spelled out.
pub proof fn lemma_be_val2(s: Seq<u8>)
    requires
        s.len() == 2,
    ensures
        be_val(s) == (s[0] as nat) * 256 + s[1] as nat,
{
    reveal_with_fuel(be_val, 3);
    assert(s.drop_last().drop_last() =~= Seq::<u8>::empty());
    assert(s.drop_last().last() == s[0]);
    assert(s.last() == s[1]);
}

/// Append the `n`-byte big-endian representation of `x` to `v`.
pub fn push_be(v: &mut Vec<u8>, x: u128, n: usize)
    ensures
        final(v)@ == old(v)@ + be_bytes(x as nat, n as nat),
    decreases n,
{
    if n == 0 {
        proof {
            assert(v@ =~= v@ + be_bytes(x as nat, 0));
        }
    } else {
        push_be(v, x / 256, n - 1);
        v.push((x % 256) as u8);
        proof {
            assert(v@ =~= old(v)@ + be_bytes(x as nat, n as nat));
        }
    }
}

/// Read `n` bytes (at most 16) big-endian starting at `off`.
pub fn read_be(s: &[u8], off: usize, n: usize) -> (r: u128)
    requires
        off + n <= s@.len(),
        n <= 16,
    ensures
        r == be_val(s@.subrange(off as int, off as int + n as int)),
{
    let slen: usize = s.len();
    let mut acc: u128 = 0;
    let mut i: usize = 0;
    while i < n
        invariant
            slen == s@.len(),
            off + n <= s@.len(),
            n <= 16,
            i <= n,
            acc == be_val(s@.subrange(off as int, off as int + i as int)),
            acc < p256(i as nat),
        decreases n - i,
    {
        proof {
            lemma_p256_vals();
            lemma_p256_le(i as nat, 15);
            assert(p256((i + 1) as nat) == 256 * p256(i as nat));
            assert(acc * 256 + 255 < 256 * p256(i as nat)) by (nonlinear_arith)
                requires
                    acc < p256(i as nat),
            ;
            let cur = s@.subrange(off as int, off as int + i as int);
            let next = s@.subrange(off as int, off as int + i as int + 1);
            assert(next.drop_last() =~= cur);
        }
        acc = acc * 256 + (s[off + i] as u128);
        i = i + 1;
    }
    acc
}

/// `256^a <= 256^b` when `a <= b`.
proof fn lemma_p256_le(a: nat, b: nat)
    requires
        a <= b,
    ensures
        p256(a) <= p256(b),
        p256(a) >= 1,
    decreases b,
{
    if b > 0 {
        if a == b {
            lemma_p256_le((a - 1) as nat, (b - 1) as nat);
        } else {
            lemma_p256_le(a, (b - 1) as nat);
        }
    }
}

// ── Commands ────────────────────────────────────────────────────────

/// Frame commands. On the wire a command is carried in the low five
/// bits of the command byte, under the three-bit magic `0b101`.
#[derive(Debug, Clone, Copy, PartialEq, Eq, Structural)]
pub enum Command {
    /// Client to server: open a connection to the target in the payload.
    Connect,
    /// Either direction: payload bytes of the tunnelled stream.
    Data,
    /// Either direction: close the tunnelled stream.
    Close,
    /// Server to client: the target connection is established.
    ConnectAck,
}

/// The wire code of a command.
pub open spec fn cmd_code(c: Command) -> u8 {
    match c {
        Command::Connect => 1,
        Command::Data => 2,
        Command::Close => 3,
        Command::ConnectAck => 4,
    }
}

/// Which command a (deobfuscated) command byte denotes: the upper three
/// bits must be the magic `0b101`, the lower five a known command code.
pub open spec fn spec_command_of(b: u8) -> Option<Command> {
    if b & 0xE0 != 0xA0 {
        None
    } else if b & 0x1F == 1 {
        Some(Command::Connect)
    } else if b & 0x1F == 2 {
        Some(Command::Data)
    } else if b & 0x1F == 3 {
        Some(Command::Close)
    } else if b & 0x1F == 4 {
        Some(Command::ConnectAck)
    } else {
        None
    }
}

/// A command byte carries the magic and a valid code exactly when some
/// command round-trips through it.
proof fn lemma_cmd_byte(c: u8)
    by (bit_vector)
    requires
        1 <= c <= 4,
    ensures
        (0xA0 | c) & 0xE0 == 0xA0,
        (0xA0 | c) & 0x1F == c,
        0xA0 | c == 0xA0 + c,
{
}

impl Command {
    /// Parse a deobfuscated command byte, checking the magic bits.
    pub fn from_byte(b: u8) -> (r: Option<Command>)
        ensures
            r == spec_command_of(b),
    {
        if b & 0xE0 != 0xA0 {
            return None;
        }
        match b & 0x1F {
            1 => Some(Command::Connect),
            2 => Some(Command::Data),
            3 => Some(Command::Close),
            4 => Some(Command::ConnectAck),
            _ => None,
        }
    }

    /// The wire byte of a command: magic bits over the command code.
    pub fn to_byte(self) -> (r: u8)
        ensures
            r == 0xA0 | cmd_code(self),
            spec_command_of(r) == Some(self),
    {
        proof {
            lemma_cmd_byte(cmd_code(self));
        }
        match self {
            Command::Connect => 0xA0 | 1,
            Command::Data => 0xA0 | 2,
            Command::Close => 0xA0 | 3,
            Command::ConnectAck => 0xA0 | 4,
        }
    }
}

// ── Errors ──────────────────────────────────────────────────────────

/// Frame codec failures.
#[derive(Debug, Clone, Copy, PartialEq, Eq, Structural)]
pub enum FrameError {
    /// Encode-time misuse: the payload exceeds 65535 bytes.
    PayloadTooLarge,
    /// Decode-time magic or command failure: wrong key or not this protocol.
    BadFrame,
}

/// Target address codec failures.
#[derive(Debug, Clone, Copy, PartialEq, Eq, Structural)]
pub enum AddrError {
    /// Unknown tag, short buffer, empty domain, or a non-UTF-8 domain.
    BadAddress,
}

// ── Target addresses ────────────────────────────────────────────────

/// An IP address, as the literal 32- or 128-bit value.
#[derive(Debug, Clone, Copy, PartialEq, Eq, Structural)]
pub enum IpAddress {
    V4(u32),
    V6(u128),
}

/// Target of a `Connect` command: a literal address or a host name
/// (held as its UTF-8 bytes), with the port.
#[derive(Debug, Clone)]
pub enum TargetAddr {
    Ip(IpAddress, u16),
    Domain(Vec<u8>, u16),
}

/// The mathematical shape of a target address.
pub enum AddrView {
    Ip(IpAddress, u16),
    Domain(Seq<u8>, u16),
}

impl View for TargetAddr {
    type V = AddrView;

    open spec fn view(&self) -> AddrView {
        match self {
            TargetAddr::Ip(ip, port) => AddrView::Ip(*ip, *port),
            TargetAddr::Domain(name, port) => AddrView::Domain(name@, *port),
        }
    }
}

/// A host name on the wire carries its length in one byte and is non-empty.
pub open spec fn addr_view_wf(v: AddrView) -> bool {
    match v {
        AddrView::Domain(name, _) => 1 <= name.len() <= 255,
        AddrView::Ip(_, _) => true,
    }
}

/// The wire form of a target address, tagged by its leading byte:
/// `0x01` IPv4, `0x03` domain, `0x04` IPv6.
pub open spec fn spec_addr_encode(v: AddrView) -> Seq<u8> {
    match v {
        AddrView::Ip(IpAddress::V4(ip), port) => seq![1u8] + be_bytes(ip as nat, 4) + be_bytes(
            port as nat,
            2,
        ),
        AddrView::Ip(IpAddress::V6(ip), port) => seq![4u8] + be_bytes(ip as nat, 16) + be_bytes(
            port as nat,
            2,
        ),
        AddrView::Domain(name, port) => seq![3u8, name.len() as u8] + name + be_bytes(
            port as nat,
            2,
        ),
    }
}

/// Structural parse of a target address: the address and the bytes it
/// takes, or nothing on an unknown tag, a short buffer, or an empty
/// domain. UTF-8 validity of a domain is checked separately.
pub open spec fn spec_addr_decode(data: Seq<u8>) -> Option<(AddrView, nat)> {
    if data.len() < 1 {
        None
    } else if data[0] == 1 {
        if data.len() < 7 {
            None
        } else {
            Some(
                (
                    AddrView::Ip(
                        IpAddress::V4(be_val(data.subrange(1, 5)) as u32),
                        be_val(data.subrange(5, 7)) as u16,
                    ),
                    7 as nat,
                ),
            )
        }
    } else if data[0] == 4 {
        if data.len() < 19 {
            None
        } else {
            Some(
                (
                    AddrView::Ip(
                        IpAddress::V6(be_val(data.subrange(1, 17)) as u128),
                        be_val(data.subrange(17, 19)) as u16,
                    ),
                    19 as nat,
                ),
            )
        }
    } else if data[0] == 3 {
        if data.len() < 2 {
            None
        } else {
            let dl = data[1] as int;
            if dl == 0 || data.len() < 4 + dl {
                None
            } else {
                Some(
                    (
                        AddrView::Domain(
                            data.subrange(2, 2 + dl),
                            be_val(data.subrange(2 + dl, 4 + dl)) as u16,
                        ),
                        (4 + dl) as nat,
                    ),
                )
            }
        }
    } else {
        None
    }
}

/// Whether the domain of an address, if any, is valid UTF-8.
pub open spec fn addr_view_utf8_ok(v: AddrView) -> bool {
    match v {
        AddrView::Domain(name, _) => valid_utf8(name),
        AddrView::Ip(_, _) => true,
    }
}

/// What `TargetAddr::decode` must return on `data`.
pub open spec fn addr_decode_matches(
    data: Seq<u8>,
    r: Result<(TargetAddr, usize), AddrError>,
) -> bool {
    match spec_addr_decode(data) {
        None => r is Err,
        Some((v, n)) => if addr_view_utf8_ok(v) {
            r matches Ok(p) && p.0@ == v && addr_view_wf(v) && p.1 == n
        } else {
            r is Err
        },
    }
}

impl TargetAddr {
    /// The domain variant holds between 1 and 255 name bytes.
    pub open spec fn wf(&self) -> bool {
        addr_view_wf(self@)
    }

    /// Encode the address into its wire form.
    pub fn encode(&self) -> (r: Vec<u8>)
        requires
            self.wf(),
        ensures
            r@ == spec_addr_encode(self@),
    {
        let mut buf: Vec<u8> = Vec::new();
        match self {
            TargetAddr::Ip(IpAddress::V4(ip), port) => {
                buf.push(1);
                push_be(&mut buf, *ip as u128, 4);
                push_be(&mut buf, *port as u128, 2);
            },
            TargetAddr::Ip(IpAddress::V6(ip), port) => {
                buf.push(4);
                push_be(&mut buf, *ip, 16);
                push_be(&mut buf, *port as u128, 2);
            },
            TargetAddr::Domain(name, port) => {
                buf.push(3);
                buf.push(name.len() as u8);
                push_all(&mut buf, name.as_slice());
                push_be(&mut buf, *port as u128, 2);
            },
        }
        proof {
            assert(buf@ =~= spec_addr_encode(self@));
        }
        buf
    }

    /// Decode an address from the start of `data`, returning it and the
    /// number of bytes consumed. Fails on an unknown tag, a short buffer,
    /// an empty domain, or a domain that is not UTF-8.
    pub fn decode(data: &[u8]) -> (r: Result<(TargetAddr, usize), AddrError>)
        ensures
            addr_decode_matches(data@, r),
    {
        proof {
            lemma_p256_vals();
        }
        if data.len() < 1 {
            return Err(AddrError::BadAddress);
        }
        let tag = data[0];
        if tag == 1 {
            if data.len() < 7 {
                return Err(AddrError::BadAddress);
            }
            proof {
                lemma_be_val_bound(data@.subrange(1, 5));
                lemma_be_val_bound(data@.subrange(5, 7));
                lemma_p256_le(2, 4);
            }
            let ip = read_be(data, 1, 4) as u32;
            let port = read_be(data, 5, 2) as u16;
            Ok((TargetAddr::Ip(IpAddress::V4(ip), port), 7))
        } else if tag == 4 {
            if data.len() < 19 {
                return Err(AddrError::BadAddress);
            }
            proof {
                lemma_be_val_bound(data@.subrange(17, 19));
                lemma_p256_le(2, 4);
            }
            let ip = read_be(data, 1, 16);
            let port = read_be(data, 17, 2) as u16;
            Ok((TargetAddr::Ip(IpAddress::V6(ip), port), 19))
        } else if tag == 3 {
            if data.len() < 2 {
                return Err(AddrError::BadAddress);
            }
            let dl = data[1] as usize;
            if dl == 0 || data.len() < 4 + dl {
                return Err(AddrError::BadAddress);
            }
            let name = copy_range(data, 2, 2 + dl);
            if !check_utf8(name.as_slice()) {
                return Err(AddrError::BadAddress);
            }
            proof {
                lemma_be_val_bound(data@.subrange(2 + dl as int, 4 + dl as int));
                lemma_p256_le(2, 4);
            }
            let port = read_be(data, 2 + dl, 2) as u16;
            Ok((TargetAddr::Domain(name, port), 4 + dl))
        } else {
            Err(AddrError::BadAddress)
        }
    }
}

/// Encoding a well-formed address and parsing the result yields the
/// address back and consumes every produced byte.
pub proof fn lemma_addr_round_trip(v: AddrView)
    requires
        addr_view_wf(v),
    ensures
        spec_addr_decode(spec_addr_encode(v)) == Some((v, spec_addr_encode(v).len())),
{
    lemma_p256_vals();
    let e = spec_addr_encode(v);
    match v {
        AddrView::Ip(IpAddress::V4(ip), port) => {
            lemma_be_bytes_len(ip as nat, 4);
            lemma_be_bytes_len(port as nat, 2);
            assert(e.subrange(1, 5) =~= be_bytes(ip as nat, 4));
            assert(e.subrange(5, 7) =~= be_bytes(port as nat, 2));
            lemma_be_round_trip(ip as nat, 4);
            lemma_be_round_trip(port as nat, 2);
            lemma_p256_le(2, 4);
        },
        AddrView::Ip(IpAddress::V6(ip), port) => {
            lemma_be_bytes_len(ip as nat, 16);
            lemma_be_bytes_len(port as nat, 2);
            assert(e.subrange(1, 17) =~= be_bytes(ip as nat, 16));
            assert(e.subrange(17, 19) =~= be_bytes(port as nat, 2));
            lemma_be_round_trip(ip as nat, 16);
            lemma_be_round_trip(port as nat, 2);
            lemma_p256_le(2, 16);
        },
        AddrView::Domain(name, port) => {
            lemma_be_bytes_len(port as nat, 2);
            let dl = name.len() as int;
            assert(e.subrange(2, 2 + dl) =~= name);
            assert(e.subrange(2 + dl, 4 + dl) =~= be_bytes(port as nat, 2));
            lemma_be_round_trip(port as nat, 2);
        },
    }
}


// ── Frames and the codec ────────────────────────────────────────────

/// A decoded protocol frame.
#[derive(Debug)]
pub struct Frame {
    pub command: Command,
    pub payload: Vec<u8>,
}

/// Stateless codec for obfuscated frames: the obfuscation context plus
/// the configured bounds for the random padding length.
#[derive(Clone)]
pub struct Codec {
    obfuscator: Obfuscator,
    padding_min: u8,
    padding_max: u8,
}

impl Codec {
    pub closed spec fn spec_obfuscator(&self) -> Obfuscator {
        self.obfuscator
    }

    pub closed spec fn spec_padding_min(&self) -> u8 {
        self.padding_min
    }

    pub closed spec fn spec_padding_max(&self) -> u8 {
        self.padding_max
    }

    pub open spec fn wf(&self) -> bool {
        self.spec_obfuscator().wf()
    }

    pub fn new(obfuscator: Obfuscator, padding_min: u8, padding_max: u8) -> (r: Codec)
        requires
            obfuscator.wf(),
        ensures
            r.wf(),
            r.spec_obfuscator() == obfuscator,
            r.spec_padding_min() == padding_min,
            r.spec_padding_max() == padding_max,
    {
        Codec { obfuscator, padding_min, padding_max }
    }
}

/// The plaintext frame header: payload length (2 BE), padding length,
/// command byte with the magic bits.
pub open spec fn header_plain(payload_len: nat, padding_len: nat, cmd: Command) -> Seq<u8> {
    be_bytes(payload_len, 2) + seq![padding_len as u8, (0xA0 | cmd_code(cmd)) as u8]
}

/// The keystream offset of the payload: the nonce advanced past the
/// header and padding, modulo 2^32.
pub open spec fn offset_after(nonce: u32, padding_len: nat) -> u32 {
    ((nonce + 4 + padding_len) % 0x1_0000_0000) as u32
}

/// The wire bytes of a frame: nonce, obfuscated header, raw random
/// padding, obfuscated payload.
pub open spec fn frame_bytes(
    c: Codec,
    cmd: Command,
    payload: Seq<u8>,
    nonce: u32,
    padding: Seq<u8>,
) -> Seq<u8> {
    be_bytes(nonce as nat, 4) + c.spec_obfuscator().apply_seq(
        header_plain(payload.len(), padding.len(), cmd),
        nonce,
    ) + padding + c.spec_obfuscator().apply_seq(payload, offset_after(nonce, padding.len()))
}

/// What decoding a buffer yields.
pub enum DecodeOutcome {
    /// The buffer does not yet hold a complete frame.
    Incomplete,
    /// The magic or command check failed: wrong key or not this protocol.
    Bad,
    /// A complete frame, and how many buffer bytes it took.
    Frame { command: Command, payload: Seq<u8>, consumed: nat },
}

/// The decode algorithm: read the nonce, deobfuscate the header, check
/// the magic, then wait for or extract the payload.
pub open spec fn decode_spec(c: Codec, buf: Seq<u8>) -> DecodeOutcome {
    if buf.len() < 8 {
        DecodeOutcome::Incomplete
    } else {
        let nonce = be_val(buf.subrange(0, 4)) as u32;
        let hdr = c.spec_obfuscator().apply_seq(buf.subrange(4, 8), nonce);
        let payload_len = (hdr[0] as nat) * 256 + hdr[1] as nat;
        let padding_len = hdr[2] as nat;
        match spec_command_of(hdr[3]) {
            None => DecodeOutcome::Bad,
            Some(cmd) => {
                let total = 8 + padding_len + payload_len;
                if buf.len() < total {
                    DecodeOutcome::Incomplete
                } else {
                    DecodeOutcome::Frame {
                        command: cmd,
                        payload: c.spec_obfuscator().apply_seq(
                            buf.subrange((8 + padding_len) as int, total as int),
                            offset_after(nonce, padding_len),
                        ),
                        consumed: total,
                    }
                }
            },
        }
    }
}

/// What `decode_frame` must return on `buf`.
pub open spec fn frame_decode_matches(
    c: Codec,
    buf: Seq<u8>,
    r: Result<Option<(Frame, usize)>, FrameError>,
) -> bool {
    match decode_spec(c, buf) {
        DecodeOutcome::Incomplete => r matches Ok(o) && o is None,
        DecodeOutcome::Bad => r == Err::<Option<(Frame, usize)>, FrameError>(FrameError::BadFrame),
        DecodeOutcome::Frame { command, payload, consumed } => {
            r matches Ok(o) && o matches Some(p) && p.0.command == command && p.0.payload@
                == payload && p.1 == consumed
        },
    }
}

/// The padding length the codec is allowed to draw: within the configured
/// bounds, or exactly the minimum when the range is empty.
pub open spec fn pad_len_ok(c: Codec, l: nat) -> bool {
    if c.spec_padding_max() > c.spec_padding_min() {
        c.spec_padding_min() <= l <= c.spec_padding_max()
    } else {
        l == c.spec_padding_min()
    }
}

/// A wire string some run of `encode_frame` may produce: a frame over a
/// permitted nonce and padding.
pub open spec fn encoded_frame_ok(
    c: Codec,
    cmd: Command,
    payload: Seq<u8>,
    nonce: u32,
    padding: Seq<u8>,
    wire: Seq<u8>,
) -> bool {
    &&& pad_len_ok(c, padding.len())
    &&& padding.len() <= 255
    &&& wire == frame_bytes(c, cmd, payload, nonce, padding)
}

/// Whether `wire` is a frame some run of `encode_frame` may produce for
/// this command and payload: a frame over some nonce and permitted padding.
pub open spec fn some_encoded_frame(
    c: Codec,
    cmd: Command,
    payload: Seq<u8>,
    wire: Seq<u8>,
) -> bool {
    exists|nonce: u32, padding: Seq<u8>|
        #[trigger] encoded_frame_ok(c, cmd, payload, nonce, padding, wire)
}

impl Codec {
    /// Encode a frame with the given nonce and padding: the deterministic
    /// core of `encode_frame`.
    pub fn encode_frame_with(
        &self,
        command: Command,
        payload: &[u8],
        nonce: u32,
        padding: &[u8],
    ) -> (r: Vec<u8>)
        requires
            self.wf(),
            payload@.len() <= 0xFFFF,
            padding@.len() <= 0xFF,
        ensures
            r@ == frame_bytes(*self, command, payload@, nonce, padding@),
    {
        let mut header: Vec<u8> = Vec::new();
        push_be(&mut header, payload.len() as u128, 2);
        header.push(padding.len() as u8);
        header.push(command.to_byte());
        proof {
            assert(header@ =~= header_plain(payload@.len(), padding@.len(), command));
        }
        self.obfuscator.apply(&mut header, nonce);

        let off64: u64 = nonce as u64 + 4 + padding.len() as u64;
        let payload_offset: u32 = (off64 % 0x1_0000_0000) as u32;
        let mut obf_payload: Vec<u8> = copy_range(payload, 0, payload.len());
        proof {
            assert(payload@.subrange(0, payload@.len() as int) =~= payload@);
        }
        self.obfuscator.apply(&mut obf_payload, payload_offset);

        let mut wire: Vec<u8> = Vec::new();
        push_be(&mut wire, nonce as u128, 4);
        push_all(&mut wire, header.as_slice());
        push_all(&mut wire, padding);
        push_all(&mut wire, obf_payload.as_slice());
        proof {
            assert(wire@ =~= frame_bytes(*self, command, payload@, nonce, padding@));
        }
        wire
    }

    /// Encode a frame with a fresh nonce and fresh padding. Fails only
    /// when the payload exceeds 65535 bytes; otherwise the result is a
    /// frame over some permitted nonce and padding.
    pub fn encode_frame(&self, command: Command, payload: &[u8]) -> (r: Result<
        Vec<u8>,
        FrameError,
    >)
        requires
            self.wf(),
        ensures
            payload@.len() > 0xFFFF ==> r == Err::<Vec<u8>, FrameError>(
                FrameError::PayloadTooLarge,
            ),
            payload@.len() <= 0xFFFF ==> r is Ok && some_encoded_frame(
                *self,
                command,
                payload@,
                r->Ok_0@,
            ),
    {
        if payload.len() > 0xFFFF {
            return Err(FrameError::PayloadTooLarge);
        }
        let nonce = random_u32();
        let pad_len: u8 = if self.padding_max > self.padding_min {
            random_in_range_u8(self.padding_min, self.padding_max)
        } else {
            self.padding_min
        };
        let padding = random_bytes(pad_len as usize);
        let wire = self.encode_frame_with(command, payload, nonce, padding.as_slice());
        proof {
            assert(encoded_frame_ok(*self, command, payload@, nonce, padding@, wire@));
            assert(some_encoded_frame(*self, command, payload@, wire@));
        }
        Ok(wire)
    }

    /// Try to decode one frame from the front of `buf`: the frame and the
    /// bytes consumed once a complete frame is present, nothing when more
    /// bytes are needed, an error when the magic or command check fails.
    pub fn decode_frame(&self, buf: &[u8]) -> (r: Result<Option<(Frame, usize)>, FrameError>)
        requires
            self.wf(),
        ensures
            frame_decode_matches(*self, buf@, r),
    {
        if buf.len() < 8 {
            return Ok(None);
        }
        proof {
            lemma_p256_vals();
            lemma_be_val_bound(buf@.subrange(0, 4));
        }
        let nonce = read_be(buf, 0, 4) as u32;
        let mut hdr: Vec<u8> = copy_range(buf, 4, 8);
        self.obfuscator.apply(&mut hdr, nonce);
        proof {
            lemma_apply_seq_len(self.spec_obfuscator(), buf@.subrange(4, 8), nonce);
        }
        let payload_len: usize = (hdr[0] as usize) * 256 + (hdr[1] as usize);
        let padding_len: usize = hdr[2] as usize;
        let command = match Command::from_byte(hdr[3]) {
            Some(c) => c,
            None => {
                return Err(FrameError::BadFrame);
            },
        };
        let total: usize = 8 + padding_len + payload_len;
        if buf.len() < total {
            return Ok(None);
        }
        let mut payload: Vec<u8> = copy_range(buf, 8 + padding_len, total);
        let off64: u64 = nonce as u64 + 4 + padding_len as u64;
        let payload_offset: u32 = (off64 % 0x1_0000_0000) as u32;
        self.obfuscator.apply(&mut payload, payload_offset);
        Ok(Some((Frame { command, payload }, total)))
    }
}

/// Decoding a complete frame followed by anything yields the command and
/// payload back and consumes exactly the frame's bytes.
pub proof fn lemma_frame_round_trip(
    c: Codec,
    cmd: Command,
    payload: Seq<u8>,
    nonce: u32,
    padding: Seq<u8>,
    rest: Seq<u8>,
)
    requires
        c.wf(),
        payload.len() <= 0xFFFF,
        padding.len() <= 0xFF,
    ensures
        decode_spec(c, frame_bytes(c, cmd, payload, nonce, padding) + rest)
            == (DecodeOutcome::Frame {
            command: cmd,
            payload: payload,
            consumed: (8 + padding.len() + payload.len()) as nat,
        }),
{
    let ob = c.spec_obfuscator();
    let hp = header_plain(payload.len(), padding.len(), cmd);
    let off = offset_after(nonce, padding.len());
    let oh = ob.apply_seq(hp, nonce);
    let op = ob.apply_seq(payload, off);
    let nb = be_bytes(nonce as nat, 4);
    let wire = frame_bytes(c, cmd, payload, nonce, padding) + rest;
    let total = 8 + padding.len() + payload.len();

    lemma_p256_vals();
    lemma_be_bytes_len(nonce as nat, 4);
    lemma_be_bytes_len(payload.len(), 2);
    lemma_apply_seq_len(ob, hp, nonce);
    lemma_apply_seq_len(ob, payload, off);
    assert(hp.len() == 4);
    assert(wire.len() == total + rest.len());

    assert(wire.subrange(0, 4) =~= nb);
    lemma_be_round_trip(nonce as nat, 4);

    assert(wire.subrange(4, 8) =~= oh);
    lemma_apply_involution(ob, hp, nonce);
    assert(ob.apply_seq(wire.subrange(4, 8), nonce) == hp);

    let pl2 = be_bytes(payload.len(), 2);
    lemma_be_round_trip(payload.len(), 2);
    lemma_be_val2(pl2);
    assert(hp[0] == pl2[0] && hp[1] == pl2[1]);
    assert((hp[0] as nat) * 256 + (hp[1] as nat) == payload.len());
    assert(hp[2] == padding.len() as u8);
    lemma_cmd_byte(cmd_code(cmd));
    assert(hp[3] == 0xA0 | cmd_code(cmd));
    assert(spec_command_of(hp[3]) == Some(cmd));

    assert(wire.subrange((8 + padding.len()) as int, total as int) =~= op);
    lemma_apply_involution(ob, payload, off);
}

/// Round trip for the encoder: any wire string `encode_frame` may
/// produce for a command and payload decodes back to exactly that
/// command and payload, consuming every produced byte, and every
/// strict prefix of it asks for more input.
pub proof fn lemma_encode_decode_round_trip(
    c: Codec,
    cmd: Command,
    payload: Seq<u8>,
    wire: Seq<u8>,
)
    requires
        c.wf(),
        payload.len() <= 0xFFFF,
        some_encoded_frame(c, cmd, payload, wire),
    ensures
        decode_spec(c, wire) == (DecodeOutcome::Frame {
            command: cmd,
            payload: payload,
            consumed: wire.len(),
        }),
        forall|n: nat| n < wire.len() ==> decode_spec(c, wire.take(n as int)) is Incomplete,
{
    let (nonce, padding) = choose|nonce: u32, padding: Seq<u8>|
        #[trigger] encoded_frame_ok(c, cmd, payload, nonce, padding, wire);
    lemma_be_bytes_len(nonce as nat, 4);
    lemma_be_bytes_len(payload.len(), 2);
    let hp = header_plain(payload.len(), padding.len(), cmd);
    lemma_apply_seq_len(c.spec_obfuscator(), hp, nonce);
    lemma_apply_seq_len(c.spec_obfuscator(), payload, offset_after(nonce, padding.len()));
    assert(wire.len() == 8 + padding.len() + payload.len());
    lemma_frame_round_trip(c, cmd, payload, nonce, padding, Seq::empty());
    assert(frame_bytes(c, cmd, payload, nonce, padding) + Seq::<u8>::empty() =~= wire);
    assert forall|n: nat| n < wire.len() implies decode_spec(c, wire.take(n as int))
        is Incomplete by {
        lemma_decode_prefix(c, cmd, payload, nonce, padding, n);
    }
}

/// Decoding any strict prefix of a frame's bytes asks for more input.
pub proof fn lemma_decode_prefix(
    c: Codec,
    cmd: Command,
    payload: Seq<u8>,
    nonce: u32,
    padding: Seq<u8>,
    n: nat,
)
    requires
        c.wf(),
        payload.len() <= 0xFFFF,
        padding.len() <= 0xFF,
        n < 8 + padding.len() + payload.len(),
    ensures
        decode_spec(c, frame_bytes(c, cmd, payload, nonce, padding).take(n as int))
            is Incomplete,
{
    let wire = frame_bytes(c, cmd, payload, nonce, padding);
    let pre = wire.take(n as int);
    let ob = c.spec_obfuscator();
    let hp = header_plain(payload.len(), padding.len(), cmd);
    let off = offset_after(nonce, padding.len());
    let nb = be_bytes(nonce as nat, 4);

    lemma_p256_vals();
    lemma_be_bytes_len(nonce as nat, 4);
    lemma_be_bytes_len(payload.len(), 2);
    lemma_apply_seq_len(ob, hp, nonce);
    lemma_apply_seq_len(ob, payload, off);
    assert(hp.len() == 4);
    assert(wire.len() == 8 + padding.len() + payload.len());

    if n >= 8 {
        assert(pre.subrange(0, 4) =~= nb);
        lemma_be_round_trip(nonce as nat, 4);
        assert(pre.subrange(4, 8) =~= ob.apply_seq(hp, nonce));
        lemma_apply_involution(ob, hp, nonce);

        let pl2 = be_bytes(payload.len(), 2);
        lemma_be_round_trip(payload.len(), 2);
        lemma_be_val2(pl2);
        assert(hp[0] == pl2[0] && hp[1] == pl2[1]);
        assert((hp[0] as nat) * 256 + (hp[1] as nat) == payload.len());
        assert(hp[2] == padding.len() as u8);
        lemma_cmd_byte(cmd_code(cmd));
        assert(spec_command_of(hp[3]) == Some(cmd));
    }
}

// ── Randomness, behind trusted wrappers ─────────────────────────────

/// A fresh 32-bit nonce. Relies on rand::random; nothing is promised of
/// the value.
#[verifier::external_body]
fn random_u32() -> u32 {
    rand::random::<u32>()
}

/// A value drawn from the inclusive range. Relies on rand::random_range,
/// which returns a uniform sample within the given bounds and panics on
/// an empty range, kept out by the precondition.
#[verifier::external_body]
fn random_in_range_u8(min: u8, max: u8) -> (r: u8)
    requires
        min <= max,
    ensures
        min <= r && r <= max,
{
    rand::random_range(min..=max)
}

/// `len` random padding bytes. Relies on rand's RngExt::fill, which
/// fills the slice in place.
#[verifier::external_body]
fn random_bytes(len: usize) -> (r: Vec<u8>)
    ensures
        r@.len() == len,
{
    let mut v = vec![0u8; len];
    rand::RngExt::fill(&mut rand::rng(), v.as_mut_slice());
    v
}


} // verus!
