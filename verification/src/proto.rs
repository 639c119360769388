//! Wire packet codec: one leading tag byte, fixed length per tag,
//! multi-byte fields big-endian. Only the rejection, identify and
//! discover packets are encoded; the channel, file and block packets
//! are reserved in the numbering scheme but intentionally unencoded.

use vstd::prelude::*;
use crate::bytes::{be128_bytes, be128_val, be16_bytes, be16_val, be32_bytes, be32_val};
use crate::bytes::{push_be128, push_be16, push_be32, read_be128, read_be16, read_be32};

verus! {

pub const ID_REJECTED: u8 = 0xF0;

pub const ID_PEER_IDENTIFY: u8 = 0x01;

pub const ID_PEER_DISCOVER_IPV4: u8 = 0x02;

pub const ID_PEER_DISCOVER_IPV6: u8 = 0x03;

/// The address of a peer, as the integer value of its four or sixteen
/// network-order address bytes.
#[derive(Clone, Copy, PartialEq, Eq, Structural, Debug)]
#[allow(inconsistent_fields)]
pub enum PeerAddr {
    V4 { ip: u32 },
    V6 { ip: u128 },
}

/// A codec failure.
#[derive(Clone, Copy, PartialEq, Eq, Structural, Debug)]
pub enum CodecError {
    /// Not enough bytes yet for one whole packet.
    Truncated,
    /// The leading byte is no implemented packet tag: invalid data.
    UnknownTag,
    /// The packet kind is reserved and intentionally has no encoding.
    NotImplemented,
}

/// A packet goes from an "origin" peer to another "destination" peer.
#[derive(Debug, PartialEq)]
pub enum Packet {
    /// Sent back when an inbound connection finds no free link slot.
    Rejected,
    /// Sent right after a peer dials out, to register itself: carries
    /// the port its own listening endpoint is bound to.
    PeerIdentify { port: u16 },
    /// Announces another peer's address and listening port; triggered
    /// by `PeerIdentify`.
    PeerDiscover { addr: PeerAddr, port: u16 },
    /// Reserved: opening a named channel.
    ChannelOpen { request_id: u64, name: String },
    /// Reserved: the handle answering a `ChannelOpen`.
    ChannelHandle { request_id: u64, handle: u64 },
    /// Reserved: a request to open a file on a channel.
    FileOpen { request_id: u64, channel_handle: u64, path: String },
    /// Reserved: the handle answering a `FileOpen`, with the block
    /// ranges the responder already holds.
    FileHandle { request_id: u64, handle: u64, block_count: u64, block_ranges: Vec<(u64, u64)> },
    /// Reserved: new block ranges for a previously opened file.
    FileHandleUpdate { handle: u64, block_count: u64, block_ranges: Vec<(u64, u64)> },
    /// Reserved: a request for one block of an open file.
    FileBlockGet { request_id: u64, handle: u64, index: u64 },
    /// Reserved: the data answering a `FileBlockGet`.
    FileBlockData { request_id: u64, data: Vec<u8> },
    /// Reserved: a block checksum for cross-peer validation.
    FileBlockChecksum { handle: u64, index: u64, checksum: u64 },
}

/// The exact byte encoding of a packet, or `None` for the reserved
/// kinds, which must fail fast rather than silently mis-encode.
pub open spec fn packet_bytes(p: Packet) -> Option<Seq<u8>> {
    match p {
        Packet::Rejected => Some(seq![ID_REJECTED]),
        Packet::PeerIdentify { port } => Some(seq![ID_PEER_IDENTIFY] + be16_bytes(port)),
        Packet::PeerDiscover { addr, port } => match addr {
            PeerAddr::V4 { ip } => Some(
                seq![ID_PEER_DISCOVER_IPV4] + be32_bytes(ip) + be16_bytes(port),
            ),
            PeerAddr::V6 { ip } => Some(
                seq![ID_PEER_DISCOVER_IPV6] + be128_bytes(ip) + be16_bytes(port),
            ),
        },
        _ => None,
    }
}

/// The exact decoding of a byte prefix: the packet and how many bytes
/// it took, `Truncated` when more bytes are needed, `UnknownTag` when
/// the leading byte is no implemented tag.
pub open spec fn spec_decode(s: Seq<u8>) -> Result<(Packet, int), CodecError> {
    if s.len() < 1 {
        Err(CodecError::Truncated)
    } else if s[0] == ID_REJECTED {
        Ok((Packet::Rejected, 1))
    } else if s[0] == ID_PEER_IDENTIFY {
        if s.len() < 3 {
            Err(CodecError::Truncated)
        } else {
            Ok((Packet::PeerIdentify { port: be16_val(s.subrange(1, 3)) }, 3))
        }
    } else if s[0] == ID_PEER_DISCOVER_IPV4 {
        if s.len() < 7 {
            Err(CodecError::Truncated)
        } else {
            Ok((
                Packet::PeerDiscover {
                    addr: PeerAddr::V4 { ip: be32_val(s.subrange(1, 5)) },
                    port: be16_val(s.subrange(5, 7)),
                },
                7,
            ))
        }
    } else if s[0] == ID_PEER_DISCOVER_IPV6 {
        if s.len() < 19 {
            Err(CodecError::Truncated)
        } else {
            Ok((
                Packet::PeerDiscover {
                    addr: PeerAddr::V6 { ip: be128_val(s.subrange(1, 17)) },
                    port: be16_val(s.subrange(17, 19)),
                },
                19,
            ))
        }
    } else {
        Err(CodecError::UnknownTag)
    }
}

impl Packet {
    /// Appends the packet's encoding to `out`; the reserved kinds fail
    /// fast with `NotImplemented` and leave `out` untouched.
    pub fn write(&self, out: &mut Vec<u8>) -> (r: Result<(), CodecError>)
        ensures
            r is Ok ==> packet_bytes(*self) is Some && final(out)@ == old(out)@
                + packet_bytes(*self)->0,
            r is Err ==> packet_bytes(*self) is None && r->Err_0 == CodecError::NotImplemented
                && final(out)@ == old(out)@,
    {
        match self {
            Packet::Rejected => {
                out.push(ID_REJECTED);
                proof {
                    assert(out@ =~= old(out)@ + packet_bytes(*self)->0);
                }
                Ok(())
            }
            Packet::PeerIdentify { port } => {
                out.push(ID_PEER_IDENTIFY);
                push_be16(out, *port);
                proof {
                    assert(out@ =~= old(out)@ + packet_bytes(*self)->0);
                }
                Ok(())
            }
            Packet::PeerDiscover { addr, port } => {
                match addr {
                    PeerAddr::V4 { ip } => {
                        out.push(ID_PEER_DISCOVER_IPV4);
                        push_be32(out, *ip);
                    }
                    PeerAddr::V6 { ip } => {
                        out.push(ID_PEER_DISCOVER_IPV6);
                        push_be128(out, *ip);
                    }
                }
                push_be16(out, *port);
                proof {
                    assert(out@ =~= old(out)@ + packet_bytes(*self)->0);
                }
                Ok(())
            }
            _ => Err(CodecError::NotImplemented),
        }
    }

    /// Decodes at most one packet from the front of `bytes`, returning
    /// it with the number of bytes it took.
    pub fn read(bytes: &[u8]) -> (r: Result<(Packet, usize), CodecError>)
        ensures
            r is Ok ==> spec_decode(bytes@) is Ok && r->Ok_0.0 == spec_decode(bytes@)->Ok_0.0
                && r->Ok_0.1 as int == spec_decode(bytes@)->Ok_0.1,
            r is Err ==> spec_decode(bytes@) is Err && r->Err_0 == spec_decode(bytes@)->Err_0,
    {
        if bytes.len() < 1 {
            return Err(CodecError::Truncated);
        }
        let tag = bytes[0];
        if tag == ID_REJECTED {
            Ok((Packet::Rejected, 1))
        } else if tag == ID_PEER_IDENTIFY {
            if bytes.len() < 3 {
                Err(CodecError::Truncated)
            } else {
                let port = read_be16(bytes, 1);
                Ok((Packet::PeerIdentify { port }, 3))
            }
        } else if tag == ID_PEER_DISCOVER_IPV4 {
            if bytes.len() < 7 {
                Err(CodecError::Truncated)
            } else {
                let ip = read_be32(bytes, 1);
                let port = read_be16(bytes, 5);
                Ok((Packet::PeerDiscover { addr: PeerAddr::V4 { ip }, port }, 7))
            }
        } else if tag == ID_PEER_DISCOVER_IPV6 {
            if bytes.len() < 19 {
                Err(CodecError::Truncated)
            } else {
                let ip = read_be128(bytes, 1);
                let port = read_be16(bytes, 17);
                Ok((Packet::PeerDiscover { addr: PeerAddr::V6 { ip }, port }, 19))
            }
        } else {
            Err(CodecError::UnknownTag)
        }
    }
}

/// Decoding inverts encoding: any encodable packet, written and then
/// read back from the front of any byte stream, yields itself and
/// consumes exactly its own encoding.
pub proof fn lemma_packet_round_trip(p: Packet, tail: Seq<u8>)
    requires
        packet_bytes(p) is Some,
    ensures
        spec_decode(packet_bytes(p)->0 + tail) == Ok::<(Packet, int), CodecError>(
            (p, packet_bytes(p)->0.len() as int),
        ),
{
    let enc = packet_bytes(p)->0;
    let s = enc + tail;
    match p {
        Packet::Rejected => {
            assert(s[0] == ID_REJECTED);
        }
        Packet::PeerIdentify { port } => {
            assert(s[0] == ID_PEER_IDENTIFY);
            assert(s.subrange(1, 3) =~= be16_bytes(port));
            crate::bytes::lemma_be16_round_trip(port);
        }
        Packet::PeerDiscover { addr, port } => {
            match addr {
                PeerAddr::V4 { ip } => {
                    assert(s[0] == ID_PEER_DISCOVER_IPV4);
                    assert(s.subrange(1, 5) =~= be32_bytes(ip));
                    assert(s.subrange(5, 7) =~= be16_bytes(port));
                    crate::bytes::lemma_be32_round_trip(ip);
                    crate::bytes::lemma_be16_round_trip(port);
                }
                PeerAddr::V6 { ip } => {
                    assert(s[0] == ID_PEER_DISCOVER_IPV6);
                    assert(s.subrange(1, 17) =~= be128_bytes(ip));
                    assert(s.subrange(17, 19) =~= be16_bytes(port));
                    crate::bytes::lemma_be128_round_trip(ip);
                    crate::bytes::lemma_be16_round_trip(port);
                }
            }
        }
        _ => {}
    }
}

/// Decoding is exact: whatever a successful decode consumed is the
/// decoded packet's own encoding, byte for byte. With the round trip
/// above, each implemented packet has exactly one byte form.
pub proof fn lemma_decode_exact(s: Seq<u8>)
    requires
        spec_decode(s) is Ok,
    ensures
        packet_bytes(spec_decode(s)->Ok_0.0) == Some(s.subrange(0, spec_decode(s)->Ok_0.1)),
{
    let p = spec_decode(s)->Ok_0.0;
    let n = spec_decode(s)->Ok_0.1;
    if s[0] == ID_REJECTED {
        assert(packet_bytes(p)->0 =~= s.subrange(0, 1));
    } else if s[0] == ID_PEER_IDENTIFY {
        crate::bytes::lemma_be16_bytes_of_val(s.subrange(1, 3));
        assert(packet_bytes(p)->0 =~= s.subrange(0, 3));
    } else if s[0] == ID_PEER_DISCOVER_IPV4 {
        crate::bytes::lemma_be32_bytes_of_val(s.subrange(1, 5));
        crate::bytes::lemma_be16_bytes_of_val(s.subrange(5, 7));
        assert(packet_bytes(p)->0 =~= s.subrange(0, 7));
    } else {
        crate::bytes::lemma_be128_bytes_of_val(s.subrange(1, 17));
        crate::bytes::lemma_be16_bytes_of_val(s.subrange(17, 19));
        assert(packet_bytes(p)->0 =~= s.subrange(0, 19));
    }
}

} // verus!
