use bytes::BytesMut;
use int_pipeline::codec::{CodecError, IntCodec};
use int_pipeline::wire::FRAME_LEN;

fn buffer_of(bytes: &[u8]) -> BytesMut {
    let mut buf = BytesMut::new();
    buf.extend_from_slice(bytes);
    buf
}

#[test]
fn a_frame_is_eight_bytes() {
    assert_eq!(FRAME_LEN, 8);
}

#[test]
fn decode_of_an_empty_buffer_is_incomplete() {
    let mut codec = IntCodec;
    let mut buf = BytesMut::new();
    assert_eq!(codec.decode(&mut buf), Ok(None));
    assert_eq!(buf.len(), 0);
}

#[test]
fn decode_of_seven_bytes_is_incomplete_and_consumes_nothing() {
    let mut codec = IntCodec;
    let mut buf = buffer_of(&[1, 2, 3, 4, 5, 6, 7]);
    assert_eq!(codec.decode(&mut buf), Ok(None));
    assert_eq!(&buf[..], &[1u8, 2, 3, 4, 5, 6, 7][..]);
}

#[test]
fn decode_reads_the_most_significant_byte_first() {
    let mut codec = IntCodec;
    let mut buf = buffer_of(&[0x01, 0x02, 0x03, 0x04, 0x05, 0x06, 0x07, 0x08]);
    assert_eq!(codec.decode(&mut buf), Ok(Some(0x0102_0304_0506_0708)));
    assert_eq!(buf.len(), 0);
}

#[test]
fn decode_takes_eight_bytes_and_leaves_the_rest() {
    let mut codec = IntCodec;
    let mut buf = buffer_of(&[0, 0, 0, 0, 0, 0, 1, 0, 0xaa, 0xbb, 0xcc]);
    assert_eq!(codec.decode(&mut buf), Ok(Some(256)));
    assert_eq!(&buf[..], &[0xaau8, 0xbb, 0xcc][..]);
    assert_eq!(codec.decode(&mut buf), Ok(None));
    assert_eq!(&buf[..], &[0xaau8, 0xbb, 0xcc][..]);
}

#[test]
fn encode_writes_eight_bytes_most_significant_first() {
    let mut codec = IntCodec;
    let mut buf = BytesMut::new();
    assert_eq!(codec.encode(0x0102_0304_0506_0708, &mut buf), Ok(()));
    assert_eq!(&buf[..], &[1u8, 2, 3, 4, 5, 6, 7, 8][..]);
}

#[test]
fn encode_of_small_and_large_numbers() {
    let mut codec = IntCodec;
    let mut buf = BytesMut::new();
    assert_eq!(codec.encode(0, &mut buf), Ok(()));
    assert_eq!(codec.encode(10, &mut buf), Ok(()));
    assert_eq!(codec.encode(u64::MAX, &mut buf), Ok(()));
    assert_eq!(
        &buf[..],
        &[
            0u8, 0, 0, 0, 0, 0, 0, 0, 0, 0, 0, 0, 0, 0, 0, 10, 0xff, 0xff, 0xff, 0xff, 0xff,
            0xff, 0xff, 0xff
        ][..]
    );
}

#[test]
fn encode_appends_behind_what_is_there() {
    let mut codec = IntCodec;
    let mut buf = buffer_of(&[9, 9]);
    assert_eq!(codec.encode(1, &mut buf), Ok(()));
    assert_eq!(&buf[..], &[9u8, 9, 0, 0, 0, 0, 0, 0, 0, 1][..]);
}

#[test]
fn encode_grows_a_buffer_that_is_full() {
    let mut codec = IntCodec;
    let mut buf = BytesMut::with_capacity(64);
    for i in 0..64u64 {
        assert_eq!(codec.encode(i, &mut buf), Ok(()));
    }
    assert_eq!(buf.len(), 64 * 8);
    for i in 0..64u64 {
        assert_eq!(codec.decode(&mut buf), Ok(Some(i)));
    }
    assert_eq!(codec.decode(&mut buf), Ok(None));
}

#[test]
fn round_trip_gives_the_number_back() {
    let mut codec = IntCodec;
    let values = [
        0u64,
        1,
        5,
        255,
        256,
        0x0102_0304_0506_0708,
        1 << 63,
        u64::MAX - 1,
        u64::MAX,
    ];
    for v in values.iter() {
        let mut buf = BytesMut::new();
        assert_eq!(codec.encode(*v, &mut buf), Ok(()));
        assert_eq!(buf.len(), 8);
        assert_eq!(codec.decode(&mut buf), Ok(Some(*v)));
        assert_eq!(buf.len(), 0);
    }
}

#[test]
fn a_frame_fed_one_byte_at_a_time_is_incomplete_until_the_last_byte() {
    let mut codec = IntCodec;
    let v: u64 = 0xdead_beef_0bad_cafe;
    let mut encoded = BytesMut::new();
    assert_eq!(codec.encode(v, &mut encoded), Ok(()));
    let mut buf = BytesMut::new();
    for i in 0..8 {
        buf.extend_from_slice(&encoded[i..i + 1]);
        if i < 7 {
            assert_eq!(codec.decode(&mut buf), Ok(None));
            assert_eq!(&buf[..], &encoded[..i + 1]);
        } else {
            assert_eq!(codec.decode(&mut buf), Ok(Some(v)));
            assert_eq!(buf.len(), 0);
        }
    }
}

#[test]
fn a_frame_split_three_and_five_decodes_once_whole() {
    let mut codec = IntCodec;
    let mut buf = buffer_of(&[0, 0, 0]);
    assert_eq!(codec.decode(&mut buf), Ok(None));
    buf.extend_from_slice(&[0, 0, 0, 0x12, 0x34]);
    assert_eq!(codec.decode(&mut buf), Ok(Some(0x1234)));
    assert_eq!(codec.decode(&mut buf), Ok(None));
    assert_eq!(buf.len(), 0);
}

#[test]
fn several_frames_drain_in_order_and_then_incomplete() {
    let mut codec = IntCodec;
    let values = [7u64, 0, u64::MAX, 42, 1 << 40];
    let mut buf = BytesMut::new();
    for v in values.iter() {
        assert_eq!(codec.encode(*v, &mut buf), Ok(()));
    }
    assert_eq!(buf.len(), 40);
    for v in values.iter() {
        assert_eq!(codec.decode(&mut buf), Ok(Some(*v)));
    }
    assert_eq!(codec.decode(&mut buf), Ok(None));
    assert_eq!(buf.len(), 0);
}

#[test]
fn a_buffer_too_long_to_grow_has_no_room() {
    assert_eq!(
        IntCodec::room_for_frame(usize::MAX - 3),
        Err(CodecError::Capacity { available: 3 })
    );
    assert_eq!(
        IntCodec::room_for_frame(usize::MAX),
        Err(CodecError::Capacity { available: 0 })
    );
    assert_eq!(
        IntCodec::room_for_frame(usize::MAX - 7),
        Err(CodecError::Capacity { available: 7 })
    );
    assert_eq!(IntCodec::room_for_frame(usize::MAX - 8), Ok(()));
    assert_eq!(IntCodec::room_for_frame(0), Ok(()));
}
