//! Decision kernels of the connection handlers.
//!
//! The handlers on both ends alternate network reads with decisions:
//! decode as many frames as the buffer holds, accept or refuse a
//! handshake, pick the target, back off between dial attempts. The
//! decisions are pure functions of the buffered bytes and live here;
//! the reads and writes around them belong to the embedding program.

use vstd::prelude::*;
use crate::protocol::AddrView;
use crate::protocol::Codec;
use crate::protocol::Command;
use crate::protocol::DecodeOutcome;
use crate::protocol::FrameError;
use crate::protocol::IpAddress;
use crate::protocol::TargetAddr;
use crate::protocol::addr_view_utf8_ok;
use crate::protocol::decode_spec;
use crate::protocol::spec_addr_decode;
use crate::util::copy_range;
use crate::util::views_of;

verus! {

// ── Draining buffered frames ────────────────────────────────────────

/// What greedily decoding every complete frame in `buf` yields: the
/// `Data` payloads in order, whether a `Close` frame ended the stream,
/// and the unconsumed bytes — or nothing when a frame fails to decode.
/// Frames of unexpected commands are ignored; everything after a
/// `Close` is discarded.
pub open spec fn drain_spec(c: Codec, buf: Seq<u8>) -> Option<(Seq<Seq<u8>>, bool, Seq<u8>)>
    decreases buf.len(),
{
    match decode_spec(c, buf) {
        DecodeOutcome::Incomplete => Some((Seq::empty(), false, buf)),
        DecodeOutcome::Bad => None,
        DecodeOutcome::Frame { command, payload, consumed } => {
            if consumed < 8 || consumed > buf.len() {
                None
            } else {
                let rest = buf.skip(consumed as int);
                if command == Command::Close {
                    Some((Seq::empty(), true, rest))
                } else {
                    match drain_spec(c, rest) {
                        None => None,
                        Some((ps, cl, lo)) => if command == Command::Data {
                            Some((seq![payload] + ps, cl, lo))
                        } else {
                            Some((ps, cl, lo))
                        },
                    }
                }
            }
        },
    }
}

/// A decoded frame takes at least its eight fixed bytes and no more
/// than the buffer holds.
pub proof fn lemma_decode_consumed_bounds(c: Codec, buf: Seq<u8>)
    ensures
        decode_spec(c, buf) matches DecodeOutcome::Frame { consumed, .. } ==> 8 <= consumed
            <= buf.len(),
{
}

/// Decode every complete frame at the front of `buf`: the `Data`
/// payloads in order, whether a `Close` was seen, and the leftover
/// bytes, or the decode error.
pub fn drain_frames(codec: &Codec, buf: Vec<u8>) -> (r: Result<
    (Vec<Vec<u8>>, bool, Vec<u8>),
    FrameError,
>)
    requires
        codec.wf(),
    ensures
        match drain_spec(*codec, buf@) {
            None => r == Err::<(Vec<Vec<u8>>, bool, Vec<u8>), FrameError>(FrameError::BadFrame),
            Some((ps, cl, lo)) => r matches Ok(p) && views_of(p.0@) == ps && p.1 == cl && p.2@
                == lo,
        },
{
    let mut outputs: Vec<Vec<u8>> = Vec::new();
    match drain_rec(codec, buf, &mut outputs) {
        Err(e) => Err(e),
        Ok((closed, leftover)) => {
            proof {
                if drain_spec(*codec, buf@) is Some {
                    let (ps, cl, lo) = drain_spec(*codec, buf@)->Some_0;
                    assert(views_of(outputs@) =~= ps);
                }
            }
            Ok((outputs, closed, leftover))
        },
    }
}

/// The recursive worker of `drain_frames`, appending payloads to
/// `outputs`.
fn drain_rec(codec: &Codec, buf: Vec<u8>, outputs: &mut Vec<Vec<u8>>) -> (r: Result<
    (bool, Vec<u8>),
    FrameError,
>)
    requires
        codec.wf(),
    ensures
        match drain_spec(*codec, buf@) {
            None => r == Err::<(bool, Vec<u8>), FrameError>(FrameError::BadFrame),
            Some((ps, cl, lo)) => r matches Ok(p) && p.0 == cl && p.1@ == lo && views_of(
                final(outputs)@,
            ) == views_of(old(outputs)@) + ps,
        },
    decreases buf@.len(),
{
    match codec.decode_frame(buf.as_slice()) {
        Err(e) => Err(e),
        Ok(None) => {
            proof {
                assert(views_of(outputs@) =~= views_of(outputs@) + Seq::<Seq<u8>>::empty());
            }
            Ok((false, buf))
        },
        Ok(Some((frame, consumed))) => {
            proof {
                lemma_decode_consumed_bounds(*codec, buf@);
            }
            let rest = copy_range(buf.as_slice(), consumed, buf.len());
            proof {
                assert(rest@ =~= buf@.skip(consumed as int));
            }
            match frame.command {
                Command::Close => {
                    proof {
                        assert(views_of(outputs@) =~= views_of(outputs@)
                            + Seq::<Seq<u8>>::empty());
                    }
                    Ok((true, rest))
                },
                Command::Data => {
                    let ghost before = views_of(outputs@);
                    let ghost pay = frame.payload@;
                    outputs.push(frame.payload);
                    proof {
                        assert(views_of(outputs@) =~= before + seq![pay]);
                    }
                    let r = drain_rec(codec, rest, outputs);
                    proof {
                        if r is Ok && drain_spec(*codec, rest@) is Some {
                            let (ps, cl, lo) = drain_spec(*codec, rest@)->Some_0;
                            assert(before + seq![pay] + ps =~= before + (seq![pay] + ps));
                        }
                    }
                    r
                },
                _ => drain_rec(codec, rest, outputs),
            }
        },
    }
}

// ── Server handshake ────────────────────────────────────────────────

/// What the server decides after a read during the handshake window.
#[derive(Debug)]
pub enum HandshakeStep {
    /// No complete frame yet: read more.
    NeedMore,
    /// Not this protocol (a bad frame, or too much unparsed data):
    /// masquerade and close.
    NotProtocol,
    /// The first frame is not `Connect`, or carries no valid address.
    BadConnect,
    /// A well-formed handshake naming this target; bytes after the
    /// frame stay in the buffer for the relay.
    Connect(TargetAddr),
}

/// What `server_handshake_step` must decide on `before`, leaving
/// `after` in the buffer.
pub open spec fn handshake_matches(
    c: Codec,
    before: Seq<u8>,
    r: HandshakeStep,
    after: Seq<u8>,
) -> bool {
    match decode_spec(c, before) {
        DecodeOutcome::Incomplete => after == before && if before.len() > 4096 {
            r is NotProtocol
        } else {
            r is NeedMore
        },
        DecodeOutcome::Bad => r is NotProtocol && after == before,
        DecodeOutcome::Frame { command, payload, consumed } => {
            if command != Command::Connect {
                r is BadConnect
            } else {
                match spec_addr_decode(payload) {
                    Some((v, n)) => if addr_view_utf8_ok(v) {
                        r matches HandshakeStep::Connect(t) && t@ == v && t.wf() && after
                            == before.skip(consumed as int)
                    } else {
                        r is BadConnect
                    },
                    None => r is BadConnect,
                }
            }
        },
    }
}

/// One step of the server handshake: try to decode the first frame
/// from `buf`, which must be a `Connect` naming the target. Anything
/// undecodable, or more than 4096 buffered bytes without a frame, is
/// treated as foreign traffic.
pub fn server_handshake_step(codec: &Codec, buf: &mut Vec<u8>) -> (r: HandshakeStep)
    requires
        codec.wf(),
    ensures
        handshake_matches(*codec, old(buf)@, r, final(buf)@),
{
    match codec.decode_frame(buf.as_slice()) {
        Err(_) => HandshakeStep::NotProtocol,
        Ok(None) => {
            if buf.len() > 4096 {
                HandshakeStep::NotProtocol
            } else {
                HandshakeStep::NeedMore
            }
        },
        Ok(Some((frame, consumed))) => {
            proof {
                lemma_decode_consumed_bounds(*codec, buf@);
            }
            let rest = copy_range(buf.as_slice(), consumed, buf.len());
            proof {
                assert(rest@ =~= buf@.skip(consumed as int));
            }
            *buf = rest;
            match frame.command {
                Command::Connect => {
                    match TargetAddr::decode(frame.payload.as_slice()) {
                        Ok((target, _)) => HandshakeStep::Connect(target),
                        Err(_) => HandshakeStep::BadConnect,
                    }
                },
                _ => HandshakeStep::BadConnect,
            }
        },
    }
}

// ── Client handshake ────────────────────────────────────────────────

/// What the client decides after a read while waiting for the
/// connection acknowledgement.
#[derive(Debug, Clone, Copy, PartialEq, Eq, Structural)]
pub enum AckStep {
    /// No complete frame yet: read more.
    NeedMore,
    /// The frame failed to decode: wrong key or not this protocol.
    BadFrame,
    /// A frame arrived, but not a `ConnectAck`.
    WrongCommand,
    /// A `ConnectAck` whose payload does not begin with the success
    /// byte: the server refused the connection.
    Refused,
    /// A successful acknowledgement: the tunnel is up.
    Ready,
}

/// The decision on an acknowledgement buffer: the first frame must be
/// a `ConnectAck` whose payload is non-empty and starts with zero.
pub open spec fn ack_step_spec(c: Codec, buf: Seq<u8>) -> AckStep {
    match decode_spec(c, buf) {
        DecodeOutcome::Incomplete => AckStep::NeedMore,
        DecodeOutcome::Bad => AckStep::BadFrame,
        DecodeOutcome::Frame { command, payload, .. } => {
            if command != Command::ConnectAck {
                AckStep::WrongCommand
            } else if payload.len() == 0 || payload[0] != 0 {
                AckStep::Refused
            } else {
                AckStep::Ready
            }
        },
    }
}

/// One step of the client handshake: examine the buffered reply.
pub fn client_ack_step(codec: &Codec, buf: &[u8]) -> (r: AckStep)
    requires
        codec.wf(),
    ensures
        r == ack_step_spec(*codec, buf@),
{
    match codec.decode_frame(buf) {
        Err(_) => AckStep::BadFrame,
        Ok(None) => AckStep::NeedMore,
        Ok(Some((frame, _))) => {
            match frame.command {
                Command::ConnectAck => {
                    if frame.payload.len() == 0 {
                        AckStep::Refused
                    } else if frame.payload[0] != 0 {
                        AckStep::Refused
                    } else {
                        AckStep::Ready
                    }
                },
                _ => AckStep::WrongCommand,
            }
        },
    }
}

// ── Target choice and backoff ───────────────────────────────────────

/// The target the client asks the server to dial: the host name from
/// the ClientHello when one was sniffed, else the recovered pre-NAT
/// address, with the pre-NAT port either way.
pub fn choose_target(sni: Option<&[u8]>, orig_ip: &IpAddress, orig_port: u16) -> (r: TargetAddr)
    requires
        sni matches Some(h) ==> 1 <= h@.len() <= 255,
    ensures
        r.wf(),
        match sni {
            Some(h) => r@ == AddrView::Domain(h@, orig_port),
            None => r@ == AddrView::Ip(*orig_ip, orig_port),
        },
{
    match sni {
        Some(h) => {
            let name = copy_range(h, 0, h.len());
            proof {
                assert(name@ =~= h@);
            }
            TargetAddr::Domain(name, orig_port)
        },
        None => TargetAddr::Ip(*orig_ip, orig_port),
    }
}

/// The dial-retry delay: one second doubled after each failed attempt,
/// capped at sixty seconds.
pub open spec fn spec_backoff(attempt: u32) -> u64 {
    if attempt >= 6 {
        60
    } else {
        (1u64 << attempt) as u64
    }
}

/// Seconds to wait before retry number `attempt` (counted from zero).
pub fn backoff_delay_secs(attempt: u32) -> (r: u64)
    ensures
        r == spec_backoff(attempt),
{
    if attempt >= 6 {
        60
    } else {
        1u64 << attempt
    }
}

/// A redirected flow whose recovered original destination is the
/// proxy's own listen port would loop through the proxy forever; it
/// must be dropped before any outbound connection is made.
pub fn is_redirect_loop(orig_port: u16, listen_port: u16) -> (r: bool)
    ensures
        r == (orig_port == listen_port),
{
    orig_port == listen_port
}

} // verus!
