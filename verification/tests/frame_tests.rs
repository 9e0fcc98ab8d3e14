use streamfly::frame::{decode_frame, decode_header, encode_frame, encode_header, FrameError, HEADER_LEN};

#[test]
fn header_is_little_endian() {
    assert_eq!(encode_header(0), [0, 0, 0, 0]);
    assert_eq!(encode_header(1), [1, 0, 0, 0]);
    assert_eq!(encode_header(258), [2, 1, 0, 0]);
    assert_eq!(encode_header(0x0403_0201), [1, 2, 3, 4]);
    assert_eq!(encode_header(u32::MAX), [255, 255, 255, 255]);
}

#[test]
fn header_matches_std_encoding() {
    for n in [0u32, 7, 255, 256, 65535, 65536, 16_777_215, 16_777_216, 0xdead_beef, u32::MAX] {
        assert_eq!(encode_header(n), n.to_le_bytes());
        assert_eq!(decode_header(n.to_le_bytes()), n);
    }
}

#[test]
fn header_roundtrip() {
    for n in [0u32, 1, 300, 70000, 0x1234_5678, u32::MAX] {
        assert_eq!(decode_header(encode_header(n)), n);
    }
}

#[test]
fn frame_of_hello() {
    let f = encode_frame(b"hello");
    assert_eq!(f, vec![5, 0, 0, 0, b'h', b'e', b'l', b'l', b'o']);
}

#[test]
fn frame_of_empty_body() {
    assert_eq!(encode_frame(&[]), vec![0, 0, 0, 0]);
    assert_eq!(decode_frame(&[0, 0, 0, 0]), Ok((vec![], HEADER_LEN)));
}

#[test]
fn frame_roundtrip_with_trailing_bytes() {
    let body: Vec<u8> = (0..=255u8).collect();
    let mut buf = encode_frame(&body);
    buf.extend_from_slice(&[9, 9, 9]);
    assert_eq!(decode_frame(&buf), Ok((body.clone(), body.len() + 4)));
}

#[test]
fn two_frames_in_a_row() {
    let mut buf = encode_frame(b"ab");
    buf.extend_from_slice(&encode_frame(b"cde"));
    let (first, used) = decode_frame(&buf).unwrap();
    assert_eq!(first, b"ab".to_vec());
    assert_eq!(used, 6);
    let (second, used2) = decode_frame(&buf[used..]).unwrap();
    assert_eq!(second, b"cde".to_vec());
    assert_eq!(used2, 7);
}

#[test]
fn short_header_is_incomplete() {
    assert_eq!(decode_frame(&[]), Err(FrameError::Incomplete));
    assert_eq!(decode_frame(&[1, 0, 0]), Err(FrameError::Incomplete));
}

#[test]
fn short_body_is_incomplete() {
    assert_eq!(decode_frame(&[3, 0, 0, 0, 1, 2]), Err(FrameError::Incomplete));
    assert_eq!(decode_frame(&[0, 0, 0, 1]), Err(FrameError::Incomplete));
}
