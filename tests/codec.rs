use libsql_replication::frame::{
    decode, encode, Frame, FrameError, FrameHeader, FRAME_SIZE, HEADER_SIZE, PAGE_SIZE,
};

fn sample_frame() -> Frame {
    let data: Vec<u8> = (0..PAGE_SIZE).map(|i| (i % 251) as u8).collect();
    Frame::new(
        FrameHeader { frame_no: 0x0102_0304_0506_0708, page_no: 42, size_after: 7 },
        data,
    )
}

#[test]
fn encode_then_decode_gives_same_frame() {
    let f = sample_frame();
    let bytes = encode(&f);
    assert_eq!(bytes.len(), FRAME_SIZE);
    let g = decode(&bytes).unwrap();
    assert_eq!(g.header, f.header);
    assert_eq!(g.data, f.data);
    assert_eq!(encode(&g), bytes);
}

#[test]
fn encoding_is_little_endian_header_then_page() {
    let f = sample_frame();
    let bytes = encode(&f);
    assert_eq!(&bytes[0..4], &[42, 0, 0, 0]);
    assert_eq!(&bytes[4..8], &[7, 0, 0, 0]);
    assert_eq!(&bytes[8..16], &[8, 7, 6, 5, 4, 3, 2, 1]);
    assert_eq!(&bytes[HEADER_SIZE..], &f.data[..]);
}

#[test]
fn decode_reads_header_fields() {
    let mut bytes = vec![0u8; FRAME_SIZE];
    bytes[0] = 3;
    bytes[4] = 1;
    bytes[8] = 9;
    bytes[9] = 1;
    bytes[FRAME_SIZE - 1] = 0xab;
    let f = decode(&bytes).unwrap();
    assert_eq!(f.frame_no(), 265);
    assert_eq!(f.page_no(), 3);
    assert_eq!(f.size_after(), 1);
    assert!(f.is_commit());
    assert_eq!(f.data.len(), PAGE_SIZE);
    assert_eq!(f.data[PAGE_SIZE - 1], 0xab);
}

#[test]
fn decode_rejects_short_buffer() {
    let bytes = vec![0u8; FRAME_SIZE - 1];
    assert!(matches!(decode(&bytes), Err(FrameError::InvalidFrameSize)));
}

#[test]
fn decode_rejects_long_buffer() {
    let bytes = vec![0u8; FRAME_SIZE + 1];
    assert!(matches!(decode(&bytes), Err(FrameError::InvalidFrameSize)));
}

#[test]
fn decode_rejects_empty_buffer() {
    assert!(matches!(decode(&[]), Err(FrameError::InvalidFrameSize)));
}
