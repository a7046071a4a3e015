use light_client_core::scale::{decode_compact, encode_compact_u64, read_le, ErrorKind};

#[test]
fn compact_encodings() {
    assert_eq!(encode_compact_u64(0), vec![0x00]);
    assert_eq!(encode_compact_u64(1), vec![0x04]);
    assert_eq!(encode_compact_u64(63), vec![0xfc]);
    assert_eq!(encode_compact_u64(64), vec![0x01, 0x01]);
    assert_eq!(encode_compact_u64(16383), vec![0xfd, 0xff]);
    assert_eq!(encode_compact_u64(16384), vec![0x02, 0x00, 0x01, 0x00]);
    assert_eq!(encode_compact_u64((1 << 30) - 1), vec![0xfe, 0xff, 0xff, 0xff]);
    assert_eq!(encode_compact_u64(1 << 30), vec![0x03, 0x00, 0x00, 0x00, 0x40]);
    assert_eq!(encode_compact_u64(1 << 32), vec![0x07, 0x00, 0x00, 0x00, 0x00, 0x01]);
    assert_eq!(
        encode_compact_u64(u64::MAX),
        vec![0x13, 0xff, 0xff, 0xff, 0xff, 0xff, 0xff, 0xff, 0xff]
    );
}

#[test]
fn compact_decodings() {
    for v in [0u64, 1, 63, 64, 16383, 16384, (1 << 30) - 1, 1 << 30, 1 << 32, u32::MAX as u64] {
        let mut bytes = vec![0xaa];
        bytes.extend_from_slice(&encode_compact_u64(v));
        bytes.push(0x55);
        assert_eq!(decode_compact(&bytes, 1), Ok((v as usize, bytes.len() - 1)));
    }
}

#[test]
fn compact_failures() {
    assert_eq!(decode_compact(&[], 0), Err((ErrorKind::Incomplete, 0)));
    assert_eq!(decode_compact(&[0x01], 0), Err((ErrorKind::Incomplete, 0)));
    assert_eq!(decode_compact(&[0x02, 0, 1], 0), Err((ErrorKind::Incomplete, 0)));
    assert_eq!(decode_compact(&[0x03, 0, 0, 0], 0), Err((ErrorKind::Incomplete, 0)));
    // Values that fit in a shorter form.
    assert_eq!(decode_compact(&[0x05, 0x00], 0), Err((ErrorKind::Malformed, 0)));
    assert_eq!(decode_compact(&[0x06, 0x00, 0x00, 0x00], 0), Err((ErrorKind::Malformed, 0)));
    assert_eq!(decode_compact(&[0x03, 0xff, 0xff, 0xff, 0x3f], 0), Err((ErrorKind::Malformed, 0)));
    assert_eq!(decode_compact(&[0x07, 0, 0, 0, 0x40, 0x00], 0), Err((ErrorKind::Malformed, 0)));
    // More than eight bytes.
    assert_eq!(decode_compact(&[0x17, 1, 1, 1, 1, 1, 1, 1, 1, 1], 0), Err((ErrorKind::Malformed, 0)));
}

#[test]
fn little_endian_reads() {
    let bytes = [0x31, 0xe7, 0x4d, 0x00, 0xff];
    assert_eq!(read_le(&bytes, 0, 4), 5_105_457);
    assert_eq!(read_le(&bytes, 1, 2), 0x4de7);
    assert_eq!(read_le(&bytes, 4, 1), 0xff);
    assert_eq!(read_le(&bytes, 2, 0), 0);
    assert_eq!(read_le(&[0xff; 8], 0, 8), u64::MAX);
}
