use wasm_stack_tables::view::{bytes_to_int, read_u32, read_u32_or_zero, read_u8, ViewError};

#[test]
fn bytes_to_int_reads_four_bytes() {
    assert_eq!(bytes_to_int(&[0x2a, 0, 0, 0]), Ok(42));
    assert_eq!(bytes_to_int(&[0x78, 0x56, 0x34, 0x12]), Ok(0x1234_5678));
    assert_eq!(bytes_to_int(&[0x00, 0x00, 0xff, 0xff]), Ok(0xffff_0000));
    assert_eq!(bytes_to_int(&[0x01, 0x00, 0xff, 0xff]), Ok(-65535));
    assert_eq!(bytes_to_int(&[0xff, 0xff, 0xff, 0xff]), Ok(-1));
    assert_eq!(bytes_to_int(&[0x00, 0x00, 0x00, 0x80]), Ok(0x8000_0000));
}

#[test]
fn bytes_to_int_reads_eight_bytes() {
    assert_eq!(bytes_to_int(&[1, 0, 0, 0, 0, 0, 0, 0]), Ok(1));
    assert_eq!(bytes_to_int(&[0, 0, 0, 0, 1, 0, 0, 0]), Ok(0x1_0000_0000));
    assert_eq!(bytes_to_int(&[0xff; 8]), Ok(-1));
    assert_eq!(bytes_to_int(&[0, 0, 0, 0, 0, 0, 0, 0x80]), Ok(i64::MIN));
    assert_eq!(bytes_to_int(&[0xff, 0xff, 0xff, 0xff, 0xff, 0xff, 0xff, 0x7f]), Ok(i64::MAX));
    assert_eq!(
        bytes_to_int(&[0xef, 0xcd, 0xab, 0x89, 0x67, 0x45, 0x23, 0x01]),
        Ok(0x0123_4567_89ab_cdef)
    );
}

#[test]
fn bytes_to_int_of_no_bytes_is_zero() {
    assert_eq!(bytes_to_int(&[]), Ok(0));
}

#[test]
fn bytes_to_int_refuses_other_lengths() {
    assert_eq!(bytes_to_int(&[1]), Err(ViewError::UnsupportedLength(1)));
    assert_eq!(bytes_to_int(&[1, 2, 3]), Err(ViewError::UnsupportedLength(3)));
    assert_eq!(bytes_to_int(&[0; 12]), Err(ViewError::UnsupportedLength(12)));
}

#[test]
fn read_u32_moves_the_cursor() {
    let data = [0xaa, 0x01, 0x02, 0x03, 0x04, 0x05];
    let mut cursor = 1;
    assert_eq!(read_u32(&mut cursor, &data), Ok(0x0403_0201));
    assert_eq!(cursor, 5);
    assert_eq!(read_u32(&mut cursor, &data), Err(ViewError::UnexpectedEnd));
    assert_eq!(cursor, 5);
}

#[test]
fn read_u32_at_the_very_end() {
    let data = [1, 0, 0, 0];
    let mut cursor = 0;
    assert_eq!(read_u32(&mut cursor, &data), Ok(1));
    assert_eq!(cursor, 4);
    let mut far = usize::MAX;
    assert_eq!(read_u32(&mut far, &data), Err(ViewError::UnexpectedEnd));
    assert_eq!(far, usize::MAX);
}

#[test]
fn read_u32_or_zero_gives_zero_past_the_end() {
    let data = [0xff, 0xff, 0xff, 0xff, 0x07];
    let mut cursor = 0;
    assert_eq!(read_u32_or_zero(&mut cursor, &data), u32::MAX);
    assert_eq!(cursor, 4);
    assert_eq!(read_u32_or_zero(&mut cursor, &data), 0);
    assert_eq!(cursor, 4);
}

#[test]
fn read_u8_moves_the_cursor() {
    let data = [7, 9];
    let mut cursor = 0;
    assert_eq!(read_u8(&mut cursor, &data), Ok(7));
    assert_eq!(read_u8(&mut cursor, &data), Ok(9));
    assert_eq!(cursor, 2);
    assert_eq!(read_u8(&mut cursor, &data), Err(ViewError::UnexpectedEnd));
    assert_eq!(cursor, 2);
}
