use nrbf_rs::{
    read_i16, read_i32, read_i64, read_i8, read_lps, read_u16, read_u32, read_u64, read_u8,
    read_variable_length, DecodeError, Stream,
};

fn stream(bytes: &[u8]) -> Stream {
    Stream::new(bytes.to_vec())
}

/// Seven bits per byte, lowest group first, high bit on all but the last.
fn encode_varint(mut n: usize) -> Vec<u8> {
    let mut out = Vec::new();
    loop {
        let low = (n & 0x7f) as u8;
        n >>= 7;
        if n == 0 {
            out.push(low);
            return out;
        }
        out.push(low | 0x80);
    }
}

#[test]
fn fixed_width_readers_are_little_endian() {
    let mut s = stream(&[0xfe]);
    assert_eq!(read_u8(&mut s), Ok(0xfe));
    let mut s = stream(&[0xfe]);
    assert_eq!(read_i8(&mut s), Ok(-2));
    let mut s = stream(&[0x34, 0x12]);
    assert_eq!(read_u16(&mut s), Ok(0x1234));
    let mut s = stream(&[0xff, 0xff]);
    assert_eq!(read_i16(&mut s), Ok(-1));
    let mut s = stream(&[0x78, 0x56, 0x34, 0x12]);
    assert_eq!(read_u32(&mut s), Ok(0x1234_5678));
    let mut s = stream(&[0xfd, 0xff, 0xff, 0xff]);
    assert_eq!(read_i32(&mut s), Ok(-3));
    let mut s = stream(&[1, 2, 3, 4, 5, 6, 7, 8]);
    assert_eq!(read_u64(&mut s), Ok(0x0807_0605_0403_0201));
    let mut s = stream(&[0, 0, 0, 0, 0, 0, 0, 0x80]);
    assert_eq!(read_i64(&mut s), Ok(i64::MIN));
}

#[test]
fn readers_consume_exactly_their_width() {
    let mut s = stream(&[1, 0, 0, 0, 9]);
    assert_eq!(read_i32(&mut s), Ok(1));
    assert_eq!(s.remaining(), 1);
    assert_eq!(read_u8(&mut s), Ok(9));
    assert_eq!(s.remaining(), 0);
}

#[test]
fn short_read_is_an_error() {
    let mut s = stream(&[1, 2, 3]);
    assert_eq!(read_u32(&mut s), Err(DecodeError::UnexpectedEnd));
    assert_eq!(s.remaining(), 3);
    let mut s = stream(&[]);
    assert_eq!(read_u8(&mut s), Err(DecodeError::UnexpectedEnd));
}

#[test]
fn variable_length_single_and_multi_byte() {
    let mut s = stream(&[0x05]);
    assert_eq!(read_variable_length(&mut s), Ok(5));
    let mut s = stream(&[0x85, 0x01]);
    assert_eq!(read_variable_length(&mut s), Ok(5 + 128));
    let mut s = stream(&[0xff, 0xff, 0x03]);
    assert_eq!(read_variable_length(&mut s), Ok(0xffff));
}

#[test]
fn variable_length_round_trip() {
    for n in [0usize, 1, 127, 128, 300, 16_383, 16_384, 2_097_151, 2_097_152, 0x7fff_ffff, 1 << 35] {
        let mut bytes = encode_varint(n);
        bytes.push(0xaa);
        let mut s = Stream::new(bytes);
        assert_eq!(read_variable_length(&mut s), Ok(n));
        assert_eq!(read_u8(&mut s), Ok(0xaa));
    }
}

#[test]
fn variable_length_has_no_group_limit() {
    let mut s = stream(&[0x80, 0x80, 0x80, 0x80, 0x80, 0x01]);
    assert_eq!(read_variable_length(&mut s), Ok(1usize << 35));
    let mut padded = vec![0x80u8; 12];
    padded.push(0x00);
    let mut s = Stream::new(padded);
    assert_eq!(read_variable_length(&mut s), Ok(0));
    let mut bytes = encode_varint(usize::MAX);
    bytes.push(0x42);
    let mut s = Stream::new(bytes);
    assert_eq!(read_variable_length(&mut s), Ok(usize::MAX));
    assert_eq!(read_u8(&mut s), Ok(0x42));
}

#[test]
fn variable_length_too_large_for_usize() {
    let mut bytes = vec![0xffu8; 10];
    bytes.push(0x7f);
    let mut s = Stream::new(bytes);
    assert_eq!(read_variable_length(&mut s), Err(DecodeError::BadVariableLength));
    let mut s = stream(&[0xff, 0xff]);
    assert_eq!(read_variable_length(&mut s), Err(DecodeError::UnexpectedEnd));
}

#[test]
fn variable_length_truncated() {
    let mut s = stream(&[0x80]);
    assert_eq!(read_variable_length(&mut s), Err(DecodeError::UnexpectedEnd));
}

#[test]
fn length_prefixed_string() {
    let mut s = stream(&[2, b'h', b'i', 7]);
    assert_eq!(read_lps(&mut s), Ok("hi".to_string()));
    assert_eq!(read_u8(&mut s), Ok(7));
    let mut s = stream(&[0]);
    assert_eq!(read_lps(&mut s), Ok(String::new()));
    let mut s = stream(&[3, 0xc3, 0xa9, b'x']);
    assert_eq!(read_lps(&mut s), Ok("\u{e9}x".to_string()));
}

#[test]
fn length_prefixed_string_errors() {
    let mut s = stream(&[2, 0xff, 0xfe]);
    assert_eq!(read_lps(&mut s), Err(DecodeError::InvalidUtf8));
    let mut s = stream(&[5, b'a']);
    assert_eq!(read_lps(&mut s), Err(DecodeError::UnexpectedEnd));
}
