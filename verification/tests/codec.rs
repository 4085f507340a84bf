use bytes::BytesMut;
use forkpool::codec::RmpCodec;
use forkpool::error::PoolError;

fn buffer(bytes: &[u8]) -> BytesMut {
    BytesMut::from(bytes)
}

fn to_vec(payload: &[u8]) -> Result<Vec<u8>, String> {
    Ok(payload.to_vec())
}

#[test]
fn encode_writes_length_then_payload() {
    let mut codec: RmpCodec<Vec<u8>> = RmpCodec::new();
    let mut dst = BytesMut::new();
    assert!(codec.encode(Ok(b"abc".to_vec()), &mut dst).is_ok());
    assert_eq!(&dst[..], &[3, 0, 0, 0, b'a', b'b', b'c']);
}

#[test]
fn encode_appends_to_what_is_there() {
    let mut codec: RmpCodec<Vec<u8>> = RmpCodec::new();
    let mut dst = buffer(&[9, 9]);
    assert!(codec.encode(Ok(vec![]), &mut dst).is_ok());
    assert!(codec.encode(Ok(vec![1]), &mut dst).is_ok());
    assert_eq!(&dst[..], &[9, 9, 0, 0, 0, 0, 1, 0, 0, 0, 1]);
}

#[test]
fn encode_length_is_little_endian() {
    let mut codec: RmpCodec<Vec<u8>> = RmpCodec::new();
    let mut dst = BytesMut::new();
    assert!(codec.encode(Ok(vec![7; 0x01_02_03]), &mut dst).is_ok());
    assert_eq!(&dst[..4], &[0x03, 0x02, 0x01, 0x00]);
    assert_eq!(dst.len(), 4 + 0x01_02_03);
}

#[test]
fn encode_reports_a_failed_serialization() {
    let mut codec: RmpCodec<Vec<u8>> = RmpCodec::new();
    let mut dst = buffer(&[1, 2]);
    let err = codec.encode(Err("no bytes".to_string()), &mut dst).unwrap_err();
    assert!(matches!(err, PoolError::Serialization(_)));
    assert_eq!(err.message(), "Serialization error: no bytes");
    assert_eq!(&dst[..], &[1, 2]);
}

#[test]
fn decode_reads_back_what_encode_wrote() {
    let mut codec: RmpCodec<Vec<u8>> = RmpCodec::new();
    let mut buf = BytesMut::new();
    assert!(codec.encode(Ok(b"hello".to_vec()), &mut buf).is_ok());
    let item = codec.decode(&mut buf, to_vec).unwrap();
    assert_eq!(item, Some(b"hello".to_vec()));
    assert_eq!(buf.len(), 0);
}

#[test]
fn decode_reads_messages_in_order() {
    let mut codec: RmpCodec<Vec<u8>> = RmpCodec::new();
    let mut buf = BytesMut::new();
    assert!(codec.encode(Ok(vec![1]), &mut buf).is_ok());
    assert!(codec.encode(Ok(vec![]), &mut buf).is_ok());
    assert!(codec.encode(Ok(vec![2, 3]), &mut buf).is_ok());
    buf.extend_from_slice(&[5, 0, 0, 0, 1]);
    assert_eq!(codec.decode(&mut buf, to_vec).unwrap(), Some(vec![1]));
    assert_eq!(codec.decode(&mut buf, to_vec).unwrap(), Some(vec![]));
    assert_eq!(codec.decode(&mut buf, to_vec).unwrap(), Some(vec![2, 3]));
    assert_eq!(codec.decode(&mut buf, to_vec).unwrap(), None);
    assert_eq!(&buf[..], &[5, 0, 0, 0, 1]);
}

#[test]
fn decode_waits_for_every_byte() {
    let whole = [4, 0, 0, 0, 10, 20, 30, 40];
    for received in 0..whole.len() {
        let mut codec: RmpCodec<Vec<u8>> = RmpCodec::new();
        let mut buf = buffer(&whole[..received]);
        assert_eq!(codec.decode(&mut buf, to_vec).unwrap(), None);
        assert_eq!(&buf[..], &whole[..received]);
        buf.extend_from_slice(&whole[received..]);
        assert_eq!(codec.decode(&mut buf, to_vec).unwrap(), Some(vec![10, 20, 30, 40]));
    }
}

#[test]
fn decode_leaves_what_follows_the_frame() {
    let mut codec: RmpCodec<Vec<u8>> = RmpCodec::new();
    let mut buf = buffer(&[1, 0, 0, 0, 77, 88, 99]);
    assert_eq!(codec.decode(&mut buf, to_vec).unwrap(), Some(vec![77]));
    assert_eq!(&buf[..], &[88, 99]);
}

#[test]
fn decode_uses_all_four_bytes_of_the_length() {
    let mut codec: RmpCodec<Vec<u8>> = RmpCodec::new();
    let mut buf = buffer(&[0x01, 0x02, 0x01, 0x00]);
    let payload = vec![6u8; 0x01_02_01];
    buf.extend_from_slice(&payload);
    assert_eq!(codec.decode(&mut buf, to_vec).unwrap(), Some(payload));
}

#[test]
fn decode_makes_room_for_the_rest_of_a_frame() {
    let mut codec: RmpCodec<Vec<u8>> = RmpCodec::new();
    let mut buf = buffer(&[0, 16, 0, 0, 1]);
    assert_eq!(codec.decode(&mut buf, to_vec).unwrap(), None);
    assert!(buf.capacity() >= 4 + 4096);
}

#[test]
fn decode_of_a_bad_payload_takes_off_only_the_length() {
    let mut codec: RmpCodec<u8> = RmpCodec::new();
    let mut buf = buffer(&[2, 0, 0, 0, 50, 60, 70]);
    let err = codec.decode(&mut buf, |_: &[u8]| Err("odd".to_string())).unwrap_err();
    assert!(matches!(err, PoolError::Deserialization(_)));
    assert_eq!(err.message(), "Deserialization error: odd");
    assert_eq!(&buf[..], &[50, 60, 70]);
}

#[test]
fn frame_in_two_halves() {
    let mut codec: RmpCodec<u8> = RmpCodec::new();
    let mut buf = buffer(&[2, 0, 0, 0, 50, 60, 70]);
    assert_eq!(codec.begin_frame(&mut buf), Some(2));
    assert_eq!(&buf[..], &[50, 60, 70]);
    assert_eq!(codec.finish_frame(&mut buf, 2, Ok(110)).unwrap(), 110);
    assert_eq!(&buf[..], &[70]);
    assert_eq!(codec.begin_frame(&mut buf), None);
    assert_eq!(&buf[..], &[70]);
}

#[test]
fn message_pack_payloads_survive() {
    let mut codec: RmpCodec<(u64, String)> = RmpCodec::new();
    let mut buf = BytesMut::new();
    let item = (300u64, "two hundred".to_string());
    let bytes = rmp_serde::to_vec(&item).map_err(|e| e.to_string());
    assert!(codec.encode(bytes, &mut buf).is_ok());
    let back = codec
        .decode(&mut buf, |b: &[u8]| rmp_serde::from_slice(b).map_err(|e| e.to_string()))
        .unwrap();
    assert_eq!(back, Some(item));
}

#[test]
fn a_message_that_was_read_is_written_the_same_way() {
    let bytes = [3, 0, 0, 0, 9, 8, 7, 1, 1];
    let mut codec: RmpCodec<Vec<u8>> = RmpCodec::new();
    let mut buf = buffer(&bytes);
    let item = codec.decode(&mut buf, to_vec).unwrap().unwrap();
    let mut again = BytesMut::new();
    assert!(codec.encode(Ok(item), &mut again).is_ok());
    again.extend_from_slice(&buf);
    assert_eq!(&again[..], &bytes);
}
