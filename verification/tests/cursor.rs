use bitreader::errors::BitreadError;
use bitreader::Bitreader;

#[test]
fn new_reader_starts_at_zero() {
    let input: &[u8] = &[1, 2, 3];
    let reader = Bitreader::new(input);
    assert_eq!(reader.position(), 0);
    assert_eq!(reader.length(), 24);
}

#[test]
fn empty_buffer_has_no_bits() {
    let input: &[u8] = &[];
    let mut reader = Bitreader::new(input);
    assert_eq!(reader.length(), 0);
    assert_eq!(reader.read_bits(0), Ok(0));
    assert_eq!(reader.read_bits(1), Err(BitreadError::BufferExceeded));
    assert_eq!(reader.skip_bits(0), Ok(()));
    assert_eq!(reader.skip_bits(1), Err(BitreadError::BufferExceeded));
    assert_eq!(reader.read_string(0), Ok(String::new()));
    assert_eq!(reader.position(), 0);
}

#[test]
fn read_zero_bits_yields_zero_and_stays() {
    let input: &[u8] = &[0xff, 0xff];
    let mut reader = Bitreader::new(input);
    assert_eq!(reader.skip_bits(3), Ok(()));
    assert_eq!(reader.read_bits(0), Ok(0));
    assert_eq!(reader.position(), 3);
}

#[test]
fn read_bits_is_msb_first() {
    let input: &[u8] = &[0b1011_0010, 0b0100_1101];
    let mut reader = Bitreader::new(input);
    assert_eq!(reader.read_bits(1), Ok(1));
    assert_eq!(reader.read_bits(2), Ok(0b01));
    assert_eq!(reader.read_bits(3), Ok(0b100));
    assert_eq!(reader.position(), 6);
    assert_eq!(reader.read_bits(7), Ok(0b10_0100_1));
    assert_eq!(reader.position(), 13);
    assert_eq!(reader.read_bits(3), Ok(0b101));
    assert_eq!(reader.position(), 16);
    assert_eq!(reader.read_bits(1), Err(BitreadError::BufferExceeded));
    assert_eq!(reader.position(), 16);
}

#[test]
fn read_bits_advances_by_exactly_size() {
    let input: Vec<u8> = vec![0xa5; 16];
    for size in 0u8..=64 {
        let mut reader = Bitreader::new(&input);
        let value = reader.read_bits(size).unwrap();
        assert_eq!(reader.position(), size as u64);
        let whole: u128 = 0xa5a5_a5a5_a5a5_a5a5_a5a5_a5a5_a5a5_a5a5;
        let expected = if size == 0 { 0 } else { (whole >> (128 - size as u32)) as u64 };
        assert_eq!(value, expected);
    }
}

#[test]
fn read_bits_across_byte_boundary() {
    let input: &[u8] = &[0x12, 0x34, 0x56];
    let mut reader = Bitreader::new(input);
    assert_eq!(reader.skip_bits(4), Ok(()));
    assert_eq!(reader.read_bits(16), Ok(0x2345));
    assert_eq!(reader.read_bits(4), Ok(0x6));
    assert_eq!(reader.position(), 24);
}

#[test]
fn read_bits_of_more_than_64_keeps_the_last_64() {
    let input: &[u8] = &[0xab, 0x01, 0x23, 0x45, 0x67, 0x89, 0xab, 0xcd, 0xef, 0x77];
    let mut reader = Bitreader::new(input);
    assert_eq!(reader.read_bits(72), Ok(0x0123_4567_89ab_cdef));
    assert_eq!(reader.position(), 72);
    assert_eq!(reader.read_u8(), Ok(0x77));
}

#[test]
fn read_bits_of_more_than_remaining_fails_without_moving() {
    let input: &[u8] = &[0xab, 0xcd];
    let mut reader = Bitreader::new(input);
    assert_eq!(reader.read_bits(9), Ok(0x157));
    assert_eq!(reader.read_bits(8), Err(BitreadError::BufferExceeded));
    assert_eq!(reader.position(), 9);
    assert_eq!(reader.read_bits(255), Err(BitreadError::BufferExceeded));
    assert_eq!(reader.position(), 9);
    assert_eq!(reader.read_bits(7), Ok(0x4d));
    assert_eq!(reader.position(), 16);
}

#[test]
fn failing_reads_repeat_and_leave_the_cursor() {
    let input: &[u8] = &[0x01, 0x02, 0x03];
    let mut reader = Bitreader::new(input);
    assert_eq!(reader.read_u8(), Ok(1));
    for _ in 0..3 {
        assert_eq!(reader.read_bits(17), Err(BitreadError::BufferExceeded));
        assert_eq!(reader.read_u32(), Err(BitreadError::BufferExceeded));
        assert_eq!(reader.read_u64(), Err(BitreadError::BufferExceeded));
        assert_eq!(reader.skip_bits(17), Err(BitreadError::BufferExceeded));
        assert_eq!(reader.read_string(3), Err(BitreadError::BufferExceeded));
        assert_eq!(reader.position(), 8);
        assert_eq!(reader.length(), 24);
    }
    assert_eq!(reader.read_u16(), Ok(0x0203));
    assert_eq!(reader.position(), 24);
    for _ in 0..3 {
        assert_eq!(reader.read_u8(), Err(BitreadError::BufferExceeded));
        assert_eq!(reader.read_u16(), Err(BitreadError::BufferExceeded));
        assert_eq!(reader.position(), 24);
    }
}

#[test]
fn skip_bits_past_the_end_fails_without_moving() {
    let input: &[u8] = &[0xff, 0xff];
    let mut reader = Bitreader::new(input);
    assert_eq!(reader.skip_bits(16), Ok(()));
    assert_eq!(reader.position(), 16);
    assert_eq!(reader.skip_bits(1), Err(BitreadError::BufferExceeded));
    assert_eq!(reader.position(), 16);
    assert_eq!(reader.skip_bits(0), Ok(()));
    assert_eq!(reader.position(), 16);
}

#[test]
fn skip_then_read_sees_the_bits_after_the_skip() {
    let input: &[u8] = &[0xff, 0x00, 0x2a];
    let mut reader = Bitreader::new(input);
    assert_eq!(reader.skip_bits(16), Ok(()));
    assert_eq!(reader.read_u8(), Ok(42));
}

#[test]
fn sequential_u8_reads_compose() {
    let input: &[u8] = &[10, 20, 30];
    let mut reader = Bitreader::new(input);
    assert_eq!(reader.read_u8(), Ok(10));
    assert_eq!(reader.read_u8(), Ok(20));
    assert_eq!(reader.read_u8(), Ok(30));
    assert_eq!(reader.position(), 24);
}

#[test]
fn split_reads_spell_the_whole_read() {
    let input: &[u8] = &[0xde, 0xad, 0xbe, 0xef];
    let mut whole = Bitreader::new(input);
    let all = whole.read_bits(29).unwrap();
    let mut parts = Bitreader::new(input);
    let first = parts.read_bits(11).unwrap();
    let second = parts.read_bits(18).unwrap();
    assert_eq!(all, (first << 18) | second);
    assert_eq!(whole.position(), parts.position());
}

#[test]
fn typed_reads_round_trip_big_endian() {
    let mut buffer: Vec<u8> = Vec::new();
    buffer.push(0x9c);
    buffer.extend_from_slice(&0xbeefu16.to_be_bytes());
    buffer.extend_from_slice(&0xdead_beefu32.to_be_bytes());
    buffer.extend_from_slice(&0x0123_4567_89ab_cdefu64.to_be_bytes());
    let mut reader = Bitreader::new(&buffer);
    assert_eq!(reader.read_u8(), Ok(0x9c));
    assert_eq!(reader.read_u16(), Ok(0xbeef));
    assert_eq!(reader.read_u32(), Ok(0xdead_beef));
    assert_eq!(reader.read_u64(), Ok(0x0123_4567_89ab_cdef));
    assert_eq!(reader.position(), 120);
    assert_eq!(reader.position(), reader.length());
}

#[test]
fn typed_reads_work_off_the_byte_boundary() {
    let input: &[u8] = &[0x0f, 0xf0, 0x12, 0x34, 0x50];
    let mut reader = Bitreader::new(input);
    assert_eq!(reader.skip_bits(4), Ok(()));
    assert_eq!(reader.read_u8(), Ok(0xff));
    assert_eq!(reader.read_u16(), Ok(0x0123));
    assert_eq!(reader.read_bits(12), Ok(0x450));
}

#[test]
fn read_u32_gives_the_bit_pattern_of_a_float() {
    let input = &[0b01000000, 0b01100001, 0b01000111, 0b10101110];
    let mut bitreader = Bitreader::new(input);

    let bits = bitreader.read_u32().unwrap();
    assert_eq!(bits, 0x4061_47ae);
    assert_eq!(f32::from_bits(bits), 3.52f32);
}
