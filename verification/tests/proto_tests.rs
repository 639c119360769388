use peerfs::{CodecError, Packet, PeerAddr};

fn encode(p: &Packet) -> Result<Vec<u8>, CodecError> {
    let mut out = Vec::new();
    p.write(&mut out)?;
    Ok(out)
}

#[test]
fn rejected_is_one_tag_byte() {
    assert_eq!(encode(&Packet::Rejected).unwrap(), vec![0xF0]);
}

#[test]
fn peer_identify_is_tag_and_port_big_endian() {
    let bytes = encode(&Packet::PeerIdentify { port: 0x1234 }).unwrap();
    assert_eq!(bytes, vec![0x01, 0x12, 0x34]);
}

#[test]
fn peer_discover_v4_layout() {
    let addr = PeerAddr::V4 { ip: 0x7F000001 };
    let bytes = encode(&Packet::PeerDiscover { addr, port: 17127 }).unwrap();
    assert_eq!(bytes, vec![0x02, 127, 0, 0, 1, (17127u16 >> 8) as u8, (17127u16 & 0xff) as u8]);
}

#[test]
fn peer_discover_v6_layout() {
    let addr = PeerAddr::V6 { ip: 1 };
    let bytes = encode(&Packet::PeerDiscover { addr, port: 443 }).unwrap();
    let mut expected = vec![0x03];
    expected.extend_from_slice(&[0; 15]);
    expected.push(1);
    expected.push((443u16 >> 8) as u8);
    expected.push((443u16 & 0xff) as u8);
    assert_eq!(bytes, expected);
}

#[test]
fn reserved_packets_fail_fast_on_write() {
    let mut out = Vec::new();
    let r = Packet::ChannelOpen { request_id: 1, name: String::from("c") }.write(&mut out);
    assert_eq!(r, Err(CodecError::NotImplemented));
    assert!(out.is_empty());

    let r = Packet::FileBlockGet { request_id: 1, handle: 2, index: 3 }.write(&mut out);
    assert_eq!(r, Err(CodecError::NotImplemented));

    let r = Packet::FileBlockChecksum { handle: 1, index: 2, checksum: 3 }.write(&mut out);
    assert_eq!(r, Err(CodecError::NotImplemented));
}

#[test]
fn read_decodes_each_implemented_packet() {
    let (p, n) = Packet::read(&[0xF0, 0xAA]).unwrap();
    assert_eq!(p, Packet::Rejected);
    assert_eq!(n, 1);

    let (p, n) = Packet::read(&[0x01, 0x42, 0xE7]).unwrap();
    assert_eq!(p, Packet::PeerIdentify { port: 0x42E7 });
    assert_eq!(n, 3);

    let (p, n) = Packet::read(&[0x02, 10, 0, 0, 7, 0x01, 0x00]).unwrap();
    assert_eq!(
        p,
        Packet::PeerDiscover { addr: PeerAddr::V4 { ip: 0x0A000007 }, port: 256 }
    );
    assert_eq!(n, 7);

    let mut v6 = vec![0x03];
    v6.extend_from_slice(&[0; 16]);
    v6.push(0x00);
    v6.push(0x50);
    let (p, n) = Packet::read(&v6).unwrap();
    assert_eq!(p, Packet::PeerDiscover { addr: PeerAddr::V6 { ip: 0 }, port: 80 });
    assert_eq!(n, 19);
}

#[test]
fn read_write_round_trip() {
    for packet in [
        Packet::Rejected,
        Packet::PeerIdentify { port: 0 },
        Packet::PeerIdentify { port: u16::MAX },
        Packet::PeerDiscover { addr: PeerAddr::V4 { ip: u32::MAX }, port: 1 },
        Packet::PeerDiscover { addr: PeerAddr::V6 { ip: u128::MAX }, port: 65535 },
    ] {
        let bytes = encode(&packet).unwrap();
        let (decoded, n) = Packet::read(&bytes).unwrap();
        assert_eq!(decoded, packet);
        assert_eq!(n, bytes.len());
    }
}

#[test]
fn truncated_input_asks_for_more_bytes() {
    assert_eq!(Packet::read(&[]), Err(CodecError::Truncated));
    assert_eq!(Packet::read(&[0x01]), Err(CodecError::Truncated));
    assert_eq!(Packet::read(&[0x01, 0x12]), Err(CodecError::Truncated));
    assert_eq!(Packet::read(&[0x02, 1, 2, 3]), Err(CodecError::Truncated));
    assert_eq!(Packet::read(&[0x03, 0, 0, 0, 0, 0]), Err(CodecError::Truncated));
}

#[test]
fn unknown_and_reserved_tags_are_invalid_data() {
    assert_eq!(Packet::read(&[0x99, 0, 0]), Err(CodecError::UnknownTag));
    // reserved tags are intentionally not decodable either
    assert_eq!(Packet::read(&[0x10, 0, 0]), Err(CodecError::UnknownTag));
    assert_eq!(Packet::read(&[0x31, 0, 0]), Err(CodecError::UnknownTag));
}
