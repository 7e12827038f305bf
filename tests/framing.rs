use mu_proto::codec::{MuCodec, TcpSessionReader};
use mu_proto::packet::{DecodeError, FrameKind, MuPacket, MuPacketError};
use mu_proto::protocol::{ConnectResult, JoinServerStat, ProtoMsg, Protocol, ServerInfo, ServerList};
use mu_proto::session::{TcpSessionError, TcpSessionWriter};
use mu_proto::wire::{get_u16, get_u32, set_u16, set_u32};

fn server_list_bytes() -> Vec<u8> {
    vec![0xC2, 0x00, 0x0B, 0xF4, 0x06, 0x00, 0x01, 0x00, 0x01, 0x50, 0xFF]
}

#[test]
fn decode_short_frame() {
    let p = MuPacket::new(&[0xC1, 0x04, 0x00, 0x01]).unwrap();
    assert_eq!(p.kind(), FrameKind::Short);
    assert_eq!(p.code(), 0x00);
    assert_eq!(p.sub_code(), None);
    assert_eq!(p.data(), &[0x01u8][..]);
    assert_eq!(p.len(), 4);
}

#[test]
fn decode_long_frame_with_sub_code() {
    let p = MuPacket::new(&server_list_bytes()).unwrap();
    assert_eq!(p.kind(), FrameKind::Long);
    assert_eq!(p.code(), 0xF4);
    assert_eq!(p.sub_code(), Some(0x06));
    assert_eq!(p.data(), &[0x00u8, 0x01, 0x00, 0x01, 0x50, 0xFF][..]);
}

#[test]
fn sub_code_absent_for_other_codes() {
    // 0x06 in the payload position is payload, not a sub-code.
    let p = MuPacket::new(&[0xC1, 0x05, 0x01, 0x06, 0x07]).unwrap();
    assert_eq!(p.sub_code(), None);
    assert_eq!(p.data(), &[0x06u8, 0x07][..]);
    let q = MuPacket::new(&[0xC1, 0x05, 0xF4, 0x06, 0x07]).unwrap();
    assert_eq!(q.sub_code(), Some(0x06));
    assert_eq!(q.data(), &[0x07u8][..]);
}

#[test]
fn round_trip_of_encoded_packets() {
    let pkts = vec![
        ConnectResult { res: 1 }.to_packet(),
        JoinServerStat { queue_cnt: 0x01020304 }.to_packet(),
        MuPacket::new(&server_list_bytes()).unwrap(),
        MuPacket::empty(),
    ];
    for p in pkts {
        let bytes = p.to_bytes();
        assert_eq!(bytes.len(), p.len());
        let q = MuPacket::decode(&bytes).unwrap().unwrap();
        assert_eq!(q.kind(), p.kind());
        assert_eq!(q.code(), p.code());
        assert_eq!(q.sub_code(), p.sub_code());
        assert_eq!(q.data(), p.data());
        assert_eq!(q.to_bytes(), bytes);
    }
}

#[test]
fn truncated_frames_need_more_data() {
    let bytes = server_list_bytes();
    for k in 0..bytes.len() {
        assert!(matches!(MuPacket::decode(&bytes[..k]), Ok(None)), "prefix of {} bytes", k);
    }
    let short = ConnectResult { res: 1 }.to_packet().to_bytes();
    for k in 0..short.len() {
        assert!(matches!(MuPacket::decode(&short[..k]), Ok(None)));
    }
}

#[test]
fn unknown_marker_is_invalid() {
    assert_eq!(MuPacket::decode(&[0xC3, 0x03, 0x00]).unwrap_err(), DecodeError::InvalidHeader);
    assert!(MuPacket::new(&[0xC3, 0x03, 0x00]).is_none());
    // two bytes are not enough to judge the marker
    assert!(matches!(MuPacket::decode(&[0xC3, 0x03]), Ok(None)));
}

#[test]
fn length_shorter_than_header_is_invalid() {
    assert_eq!(MuPacket::decode(&[0xC1, 0x02, 0x00]).unwrap_err(), DecodeError::InvalidHeader);
    assert_eq!(
        MuPacket::decode(&[0xC1, 0x03, 0xF4, 0x06]).unwrap_err(),
        DecodeError::InvalidHeader
    );
}

#[test]
fn decode_takes_first_frame_only() {
    let mut bytes = vec![0xC1, 0x04, 0x00, 0x01];
    bytes.extend_from_slice(&[0xC1, 0x04]);
    let p = MuPacket::decode(&bytes).unwrap().unwrap();
    assert_eq!(p.len(), 4);
    assert_eq!(p.data(), &[0x01u8][..]);
}

#[test]
fn header_lengths() {
    assert_eq!(MuPacket::header_len(FrameKind::Short, 0x00), 3);
    assert_eq!(MuPacket::header_len(FrameKind::Long, 0x00), 4);
    assert_eq!(MuPacket::header_len(FrameKind::Short, 0xF4), 4);
    assert_eq!(MuPacket::header_len(FrameKind::Long, 0xF4), 5);
    assert!(MuPacket::has_sub_code(0xF4));
    assert!(!MuPacket::has_sub_code(0x01));
}

#[test]
fn serialize_into_buffer() {
    let p = ConnectResult { res: 1 }.to_packet();
    let mut small = [0u8; 3];
    assert_eq!(p.serialize(&mut small), Err(MuPacketError::BufferTooSmall));
    assert_eq!(small, [0u8; 3]);
    let mut buf = [0xEEu8; 6];
    assert_eq!(p.serialize(&mut buf), Ok(4));
    assert_eq!(buf, [0xC1, 0x04, 0x00, 0x01, 0xEE, 0xEE]);
}

#[test]
fn close_signal_is_never_written() {
    let w = TcpSessionWriter::new((), 7);
    let sentinel = MuPacket::empty();
    assert!(sentinel.is_empty());
    assert_eq!(w.start_send(&sentinel).unwrap_err(), TcpSessionError::Closed);
    let ok = ConnectResult { res: 1 }.to_packet();
    assert!(!ok.is_empty());
    assert_eq!(w.start_send(&ok).unwrap(), vec![0xC1, 0x04, 0x00, 0x01]);
}

#[test]
fn big_endian_fields() {
    assert_eq!(get_u16(&[0x12, 0x34]), 0x1234);
    assert_eq!(get_u32(&[0x12, 0x34, 0x56, 0x78]), 0x12345678);
    let mut b = [0u8; 6];
    set_u16(&mut b, 1, 0xABCD);
    assert_eq!(b, [0, 0xAB, 0xCD, 0, 0, 0]);
    set_u32(&mut b, 2, 0x01020304);
    assert_eq!(b, [0, 0xAB, 0x01, 0x02, 0x03, 0x04]);
}

#[test]
fn catalog_framing() {
    assert_eq!(ProtoMsg::ServerInfo.parse(), (FrameKind::Short, 0x01, None));
    assert_eq!(ProtoMsg::JoinServerStat.parse(), (FrameKind::Short, 0x02, None));
    assert_eq!(ProtoMsg::ConnectResult.parse(), (FrameKind::Short, 0x00, None));
    assert_eq!(ProtoMsg::ServerList.parse(), (FrameKind::Long, 0xF4, Some(0x06)));
    let r = ConnectResult { res: 1 };
    assert_eq!(r.to_packet().to_bytes(), vec![0xC1, 0x04, 0x00, 0x01]);
    assert_eq!(MuPacket::from_protocol(&ProtoMsg::ConnectResult, &r).to_bytes(), vec![0xC1, 0x04, 0x00, 0x01]);
}

fn sample_info() -> ServerInfo {
    let mut ip = [0u8; 16];
    ip[..9].copy_from_slice(b"127.0.0.1");
    ServerInfo {
        svr_code: 0x0102,
        ip,
        port: 55901,
        perc: 42,
        usr_cnt: 300,
        acc_cnt: 7,
        mx_usr_cnt: 1000,
    }
}

#[test]
fn server_info_layout_and_round_trip() {
    let m = sample_info();
    let w = m.to_wire();
    assert_eq!(w.len(), 27);
    assert_eq!(m.size(), 27);
    assert_eq!(&w[0..2], &[0x01, 0x02]);
    assert_eq!(&w[2..11], b"127.0.0.1");
    assert_eq!(&w[18..20], &[0xDA, 0x5D]);
    assert_eq!(w[20], 42);
    assert_eq!(&w[21..23], &[0x01, 0x2C]);
    assert_eq!(&w[23..25], &[0x00, 0x07]);
    assert_eq!(&w[25..27], &[0x03, 0xE8]);
    assert_eq!(ServerInfo::parse(&w), Some(m));
    assert_eq!(ServerInfo::parse(&w[..26]), None);
    let p = m.to_packet();
    assert_eq!(p.len(), 30);
    assert_eq!(p.code(), 0x01);
    let mut buf = [0u8; 28];
    m.serialize(&mut buf);
    assert_eq!(&buf[..27], &w[..]);
}

#[test]
fn join_server_stat_round_trip() {
    let m = JoinServerStat { queue_cnt: 0xDEADBEEF };
    let w = m.to_wire();
    assert_eq!(w, vec![0xDE, 0xAD, 0xBE, 0xEF]);
    assert_eq!(JoinServerStat::parse(&w), Some(m));
    assert_eq!(JoinServerStat::parse(&w[..3]), None);
}

#[test]
fn server_list_layout() {
    let mut list = ServerList::new(2);
    list.add(1, 80);
    assert_eq!(list.cnt(), 1);
    assert_eq!(list.to_packet().to_bytes(), server_list_bytes());
    list.add(0x0203, 5);
    let w = list.to_wire();
    assert_eq!(w, vec![0x00, 0x02, 0x00, 0x01, 80, 0xFF, 0x02, 0x03, 5, 0xFF]);
    assert_eq!(list.size(), 10);
    // the filler byte is not read back
    let read = ServerList::parse(&[0x00, 0x02, 0x00, 0x01, 80, 0x00, 0x02, 0x03, 5, 0x11]).unwrap();
    assert_eq!(read.entries(), &vec![(1u16, 80u8), (0x0203u16, 5u8)]);
    assert!(ServerList::parse(&[0x00, 0x02, 0x00, 0x01, 80, 0xFF]).is_none());
}

#[test]
fn codec_cuts_frames_from_buffer() {
    let mut codec = MuCodec;
    let mut buf = bytes::BytesMut::new();
    buf.extend_from_slice(&[0xC1, 0x04, 0x00, 0x01]);
    buf.extend_from_slice(&server_list_bytes()[..5]);
    let first = codec.decode(&mut buf).unwrap().unwrap();
    assert_eq!(first.data(), &[0x01u8][..]);
    assert_eq!(buf.len(), 5);
    assert!(codec.decode(&mut buf).unwrap().is_none());
    assert_eq!(buf.len(), 5);
    buf.extend_from_slice(&server_list_bytes()[5..]);
    let second = codec.decode(&mut buf).unwrap().unwrap();
    assert_eq!(second.code(), 0xF4);
    assert_eq!(buf.len(), 0);
}

#[test]
fn codec_rejects_bad_marker_without_consuming() {
    let mut codec = MuCodec;
    let mut buf = bytes::BytesMut::new();
    buf.extend_from_slice(&[0x00, 0x04, 0x00, 0x01]);
    assert_eq!(codec.decode(&mut buf).unwrap_err(), DecodeError::InvalidHeader);
    assert_eq!(buf.len(), 4);
}

#[test]
fn codec_encode_appends() {
    let mut codec = MuCodec;
    let mut buf = bytes::BytesMut::new();
    buf.extend_from_slice(&[0xAA]);
    codec.encode(ConnectResult { res: 1 }.to_packet(), &mut buf);
    assert_eq!(&buf[..], &[0xAA, 0xC1, 0x04, 0x00, 0x01]);
}

#[test]
fn reader_joins_split_frames() {
    let mut reader = TcpSessionReader::new((), 3);
    let bytes = server_list_bytes();
    let got = reader.receive(&bytes[..2]).unwrap();
    assert!(got.is_empty());
    let got = reader.receive(&bytes[2..7]).unwrap();
    assert!(got.is_empty());
    let mut rest = bytes[7..].to_vec();
    rest.extend_from_slice(&[0xC1, 0x04, 0x00, 0x01, 0xC1]);
    let got = reader.receive(&rest).unwrap();
    assert_eq!(got.len(), 2);
    assert_eq!(got[0].code(), 0xF4);
    assert_eq!(got[1].code(), 0x00);
    assert_eq!(reader.pending.len(), 1);
    assert_eq!(reader.id, 3);
}

#[test]
fn reader_fails_on_bad_bytes() {
    let mut reader = TcpSessionReader::new((), 1);
    assert_eq!(reader.receive(&[0x10, 0x20, 0x30]).unwrap_err(), DecodeError::InvalidHeader);
}

#[test]
fn hex_rendering_includes_header() {
    assert_eq!(ConnectResult { res: 1 }.to_packet().to_hex(), "C1 04 00 01");
    assert_eq!(
        MuPacket::new(&server_list_bytes()).unwrap().to_hex(),
        "C2 00 0B F4 06 00 01 00 01 50 FF"
    );
    assert_eq!(MuPacket::new(&[0xC1, 0x05, 0x2A, 0xAB, 0x9F]).unwrap().to_hex(), "C1 05 2A AB 9F");
}
