//! The cursor, the scalar codec, and the parameterized codec.

use typeface::Error;
use typeface::tape::{Read, ReadExt, Sink, Tape, WriteExt};
use typeface::walue::Write as GivenWrite;

fn tape_over(bytes: &[u8]) -> Tape {
    Tape::new(bytes.to_vec())
}

#[test]
fn read_u16_low() {
    let mut tape = tape_over(&[0x00, 0x01]);
    let value: u16 = tape.take().unwrap();
    assert_eq!(value, 1);
}

#[test]
fn read_u16_all_bits() {
    let mut tape = tape_over(&[0xFF, 0xFF]);
    let value: u16 = tape.take().unwrap();
    assert_eq!(value, 65535);
}

#[test]
fn read_i16_low() {
    let mut tape = tape_over(&[0x00, 0x01]);
    let value: i16 = tape.take().unwrap();
    assert_eq!(value, 1);
}

#[test]
fn read_i16_all_bits() {
    let mut tape = tape_over(&[0xFF, 0xFF]);
    let value: i16 = tape.take().unwrap();
    assert_eq!(value, -1);
}

#[test]
fn read_scalars_in_order() {
    let mut tape = tape_over(&[0x12, 0x34, 0x56, 0x78, 0x9A, 0xBC, 0xDE, 0xF0]);
    let first: u32 = tape.take().unwrap();
    let second: u32 = tape.take().unwrap();
    assert_eq!(first, 0x12345678);
    assert_eq!(second, 0x9ABCDEF0);
    assert_eq!(tape.position().unwrap(), 8);
}

#[test]
fn read_u64_and_i64() {
    let mut tape = tape_over(&[0xFF; 8]);
    let value: u64 = tape.take().unwrap();
    assert_eq!(value, u64::MAX);
    let mut tape = tape_over(&[0xFF; 8]);
    let value: i64 = tape.take().unwrap();
    assert_eq!(value, -1);
    let mut tape = tape_over(&[0x80, 0, 0, 0, 0, 0, 0, 0]);
    let value: i64 = tape.take().unwrap();
    assert_eq!(value, i64::MIN);
}

#[test]
fn read_u8_and_i8() {
    let mut tape = tape_over(&[0x80, 0x80]);
    let unsigned: u8 = tape.take().unwrap();
    let signed: i8 = tape.take().unwrap();
    assert_eq!(unsigned, 128);
    assert_eq!(signed, -128);
}

#[test]
fn read_byte_arrays() {
    let mut tape = tape_over(&[b'O', b'T', b'T', b'O']);
    let tag: [u8; 4] = tape.take().unwrap();
    assert_eq!(&tag, b"OTTO");
    let mut tape = tape_over(&[1, 2, 3]);
    let three: [u8; 3] = tape.take().unwrap();
    assert_eq!(three, [1, 2, 3]);
    let mut tape = tape_over(&[0, 1, 2, 3, 4, 5, 6, 7, 8, 9]);
    let ten: [u8; 10] = tape.take().unwrap();
    assert_eq!(ten, [0, 1, 2, 3, 4, 5, 6, 7, 8, 9]);
}

#[test]
fn read_signed_byte_array() {
    let mut tape = tape_over(&[0x00, 0x7F, 0x80, 0xFF]);
    let value: [i8; 4] = tape.take().unwrap();
    assert_eq!(value, [0, 127, -128, -1]);
}

#[test]
fn read_pair_in_order() {
    let mut tape = tape_over(&[0x00, 0x02, 0xFF, 0xFF, 0xFF, 0xFE]);
    let (first, second): (u16, i32) = tape.take().unwrap();
    assert_eq!(first, 2);
    assert_eq!(second, -2);
}

#[test]
fn short_read_fails_with_io() {
    let mut tape = tape_over(&[0x12]);
    let outcome: Result<u16, Error> = tape.take();
    match outcome {
        Err(Error::Io { position, wanted }) => {
            assert_eq!(position, 0);
            assert_eq!(wanted, 2);
        }
        _ => panic!("a two-byte read over one byte must fail with an I/O error"),
    }
}

#[test]
fn round_trip_from_bytes() {
    let bytes = [0x12, 0x34, 0x56, 0x78];
    let mut tape = tape_over(&bytes);
    let value: u32 = tape.take().unwrap();
    let mut sink = Sink::new();
    sink.give(&value).unwrap();
    assert_eq!(sink.into_bytes(), bytes.to_vec());
}

#[test]
fn round_trip_from_values() {
    let mut sink = Sink::new();
    sink.give(&0xABCDu16).unwrap();
    sink.give(&(-12345i16)).unwrap();
    sink.give(&0xDEADBEEFu32).unwrap();
    sink.give(&(-2100000000i32)).unwrap();
    sink.give(&0x0123456789ABCDEFu64).unwrap();
    sink.give(&(-42i64)).unwrap();
    sink.give(&7u8).unwrap();
    sink.give(&(-7i8)).unwrap();
    let mut tape = Tape::new(sink.into_bytes());
    assert_eq!(tape.take::<u16>().unwrap(), 0xABCD);
    assert_eq!(tape.take::<i16>().unwrap(), -12345);
    assert_eq!(tape.take::<u32>().unwrap(), 0xDEADBEEF);
    assert_eq!(tape.take::<i32>().unwrap(), -2100000000);
    assert_eq!(tape.take::<u64>().unwrap(), 0x0123456789ABCDEF);
    assert_eq!(tape.take::<i64>().unwrap(), -42);
    assert_eq!(tape.take::<u8>().unwrap(), 7);
    assert_eq!(tape.take::<i8>().unwrap(), -7);
}

#[test]
fn round_trip_arrays_and_pair() {
    let mut sink = Sink::new();
    sink.give(&[1u8, 2, 3]).unwrap();
    sink.give(&[-1i8, 0, 1, -128]).unwrap();
    sink.give(&(0x0102u16, 0x03040506u32)).unwrap();
    let mut tape = Tape::new(sink.into_bytes());
    assert_eq!(tape.take::<[u8; 3]>().unwrap(), [1, 2, 3]);
    assert_eq!(tape.take::<[i8; 4]>().unwrap(), [-1, 0, 1, -128]);
    assert_eq!(tape.take::<(u16, u32)>().unwrap(), (0x0102, 0x03040506));
}

#[test]
fn write_slice_in_order() {
    let values: Vec<u16> = vec![1, 2, 3];
    let mut sink = Sink::new();
    sink.give(values.as_slice()).unwrap();
    assert_eq!(sink.into_bytes(), vec![0, 1, 0, 2, 0, 3]);
}

#[test]
fn jump_returns_previous_position() {
    let mut tape = tape_over(&[0, 1, 2, 3]);
    let _: u16 = tape.take().unwrap();
    let previous = tape.jump(0).unwrap();
    assert_eq!(previous, 2);
    assert_eq!(tape.position().unwrap(), 0);
}

#[test]
fn jump_forward_and_backward() {
    let mut tape = tape_over(&[0, 1, 2, 3, 4, 5]);
    tape.jump(4).unwrap();
    assert_eq!(tape.take::<u16>().unwrap(), 0x0405);
    tape.jump(1).unwrap();
    assert_eq!(tape.take::<u16>().unwrap(), 0x0102);
}

#[test]
fn jump_past_end_fails_at_the_read() {
    let mut tape = tape_over(&[0, 1]);
    tape.jump(100).unwrap();
    match tape.take::<u8>() {
        Err(Error::Io { position, wanted }) => {
            assert_eq!(position, 100);
            assert_eq!(wanted, 1);
        }
        _ => panic!("a read past the end must fail with an I/O error"),
    }
}

#[test]
fn take_bytes_exact() {
    let mut tape = tape_over(&[9, 8, 7, 6]);
    let bytes = tape.take_bytes(3).unwrap();
    assert_eq!(bytes, vec![9, 8, 7]);
    assert_eq!(tape.position().unwrap(), 3);
}

#[test]
fn take_bytes_short_does_not_move() {
    let mut tape = tape_over(&[9, 8]);
    let _ = tape.take::<u8>().unwrap();
    assert!(tape.take_bytes(5).is_err());
    assert_eq!(tape.position().unwrap(), 1);
}

#[test]
fn peek_keeps_position_on_success() {
    let mut tape = tape_over(&[0, 9, 1, 2]);
    let _ = tape.take::<u8>().unwrap();
    let peeked: u8 = tape.peek().unwrap();
    assert_eq!(peeked, 9);
    assert_eq!(tape.position().unwrap(), 1);
    let again: u16 = tape.peek().unwrap();
    assert_eq!(again, 0x0901);
    assert_eq!(tape.position().unwrap(), 1);
}

#[test]
fn peek_keeps_position_on_failure() {
    let mut tape = tape_over(&[0, 9]);
    let _ = tape.take::<u8>().unwrap();
    let outcome: Result<u32, Error> = tape.peek();
    assert!(outcome.is_err());
    assert_eq!(tape.position().unwrap(), 1);
}

#[test]
fn list_with_count_zero_reads_nothing() {
    let mut tape = tape_over(&[1, 2, 3, 4]);
    let values: Vec<u16> = tape.take_given(0).unwrap();
    assert!(values.is_empty());
    assert_eq!(tape.position().unwrap(), 0);
}

#[test]
fn list_with_count_three_reads_in_order() {
    let mut tape = tape_over(&[0, 1, 0, 2, 0, 3, 0, 4]);
    let values: Vec<u16> = tape.take_given(3).unwrap();
    assert_eq!(values, vec![1, 2, 3]);
    assert_eq!(tape.position().unwrap(), 6);
}

#[test]
fn list_longer_than_the_bytes_fails() {
    let mut tape = tape_over(&[0, 1, 0, 2]);
    let outcome: Result<Vec<u16>, Error> = tape.take_given(3);
    match outcome {
        Err(Error::Io { .. }) => {}
        _ => panic!("a list read past the end must fail with an I/O error"),
    }
}

#[test]
fn list_write_emits_each_element() {
    let values: Vec<u32> = vec![0x01020304, 0x05060708];
    let mut sink = Sink::new();
    values.write(&mut sink, 2).unwrap();
    assert_eq!(sink.into_bytes(), vec![1, 2, 3, 4, 5, 6, 7, 8]);
}
