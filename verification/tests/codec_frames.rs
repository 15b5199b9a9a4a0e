use bytes::BytesMut;
use localdrop::protocol::codec::{CodecError, Frame, MessageCodec};
use localdrop::protocol::message::MessageType;

fn encoded(t: MessageType, payload: &[u8]) -> BytesMut {
    let mut codec = MessageCodec;
    let mut dst = BytesMut::new();
    codec.encode_frame(t, payload, &mut dst);
    dst
}

#[test]
fn frame_layout() {
    let dst = encoded(MessageType::ChunkAck, b"{}");
    assert_eq!(&dst[..], &[b'L', b'O', b'C', b'A', 1, 7, 0, 0, 0, 2, b'{', b'}'][..]);
}

#[test]
fn encode_appends_after_existing_bytes() {
    let mut codec = MessageCodec;
    let mut dst = BytesMut::from(&b"xy"[..]);
    codec.encode_frame(MessageType::Discovery, b"", &mut dst);
    assert_eq!(&dst[..], &[b'x', b'y', b'L', b'O', b'C', b'A', 1, 0, 0, 0, 0, 0][..]);
}

#[test]
fn type_bytes_follow_declaration_order() {
    assert_eq!(MessageType::Discovery.type_byte(), 0);
    assert_eq!(MessageType::FileListMetadata.type_byte(), 3);
    assert_eq!(MessageType::ChunkData.type_byte(), 6);
    assert_eq!(MessageType::SessionComplete.type_byte(), 12);
    assert_eq!(MessageType::ResumeInfo.type_byte(), 14);
}

#[test]
fn decode_gives_back_what_was_encoded() {
    let payload: Vec<u8> = (0..300u32).map(|i| (i % 251) as u8).collect();
    let mut buf = encoded(MessageType::ChunkData, &payload);
    buf.extend_from_slice(b"rest");
    let mut codec = MessageCodec;
    let frame = codec.decode_frame(&mut buf).unwrap().unwrap();
    assert_eq!(frame, Frame { message_type: 6, payload: payload.clone() });
    assert_eq!(&buf[..], b"rest");
}

#[test]
fn two_frames_in_a_row() {
    let mut buf = encoded(MessageType::Handshake, b"one");
    let second = encoded(MessageType::TransferStart, b"second");
    buf.extend_from_slice(&second);
    let mut codec = MessageCodec;
    assert_eq!(codec.decode_frame(&mut buf).unwrap().unwrap().payload, b"one".to_vec());
    let f = codec.decode_frame(&mut buf).unwrap().unwrap();
    assert_eq!(f.message_type, 8);
    assert_eq!(f.payload, b"second".to_vec());
    assert!(buf.is_empty());
    assert_eq!(codec.decode_frame(&mut buf), Ok(None));
}

#[test]
fn partial_frames_wait() {
    let full = encoded(MessageType::FileMetadata, b"0123456789");
    let mut codec = MessageCodec;
    for k in 0..full.len() {
        if k == 9 {
            continue;
        }
        let mut buf = BytesMut::from(&full[..k]);
        assert_eq!(codec.decode_frame(&mut buf), Ok(None), "prefix {}", k);
        assert_eq!(&buf[..], &full[..k]);
    }
}

#[test]
fn wrong_magic_is_refused_and_kept() {
    let mut buf = BytesMut::from(&b"LOCB\x01\x00\x00\x00\x00\x00"[..]);
    let mut codec = MessageCodec;
    assert_eq!(codec.decode_frame(&mut buf), Err(CodecError::InvalidMagic));
    assert_eq!(buf.len(), 10);
}

#[test]
fn wrong_version_is_refused() {
    let mut buf = BytesMut::from(&b"LOCA\x02\x00\x00\x00\x00\x00"[..]);
    let mut codec = MessageCodec;
    assert_eq!(codec.decode_frame(&mut buf), Err(CodecError::UnsupportedVersion));
    assert_eq!(buf.len(), 10);
}

#[test]
fn short_buffers_are_not_checked() {
    let mut buf = BytesMut::from(&b"XXXXXXXX"[..]);
    let mut codec = MessageCodec;
    assert_eq!(codec.decode_frame(&mut buf), Ok(None));
}

#[test]
fn empty_payload_frame() {
    let mut buf = encoded(MessageType::TransferPause, b"");
    let mut codec = MessageCodec;
    assert_eq!(codec.decode_frame(&mut buf), Ok(Some(Frame { message_type: 9, payload: vec![] })));
}
