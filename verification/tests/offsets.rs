//! The offset-addressing helpers: all addressing is relative to a record's
//! base position, never to the cursor's position at call time.

use typeface::Error;
use typeface::jump::{
    jump_take, jump_take_all, jump_take_given, jump_take_given_all, jump_take_maybe,
    jump_take_maybe_all,
};
use typeface::tape::{Read, ReadExt, Tape};

fn tape_over(bytes: &[u8]) -> Tape {
    Tape::new(bytes.to_vec())
}

#[test]
fn single_offset_dereferences_from_base() {
    let mut tape = tape_over(&[0xAA, 0xBB, 0x12, 0x34, 0x56]);
    tape.jump(4).unwrap();
    let value: u16 = jump_take(&mut tape, 1, 1).unwrap();
    assert_eq!(value, 0x1234);
}

#[test]
fn single_offset_past_end_fails() {
    let mut tape = tape_over(&[0xAA]);
    let outcome: Result<u16, Error> = jump_take(&mut tape, 0, 4);
    match outcome {
        Err(Error::Io { .. }) => {}
        _ => panic!("an offset pointing past the end must fail with an I/O error"),
    }
}

#[test]
fn offset_array_collects_in_offset_order() {
    let mut tape = tape_over(&[0, 7, 0, 8, 0, 9]);
    let offsets = vec![4, 0, 2];
    let values: Vec<u16> = jump_take_all(&mut tape, 0, &offsets).unwrap();
    assert_eq!(values, vec![9, 7, 8]);
}

#[test]
fn optional_offset_zero_is_absent_and_keeps_the_cursor() {
    let mut tape = tape_over(&[1, 2, 3, 4]);
    tape.jump(3).unwrap();
    let absent: Option<u16> = jump_take_maybe(&mut tape, 1, 0).unwrap();
    assert_eq!(absent, None);
    assert_eq!(tape.position().unwrap(), 3);
}

#[test]
fn optional_offset_dereferences_wherever_the_cursor_was() {
    let bytes = [0xAA, 0xBB, 0xCC, 0x12, 0x34];
    for start in 0..5 {
        let mut tape = tape_over(&bytes);
        tape.jump(start).unwrap();
        let value: Option<u16> = jump_take_maybe(&mut tape, 1, 2).unwrap();
        assert_eq!(value, Some(0x1234));
    }
}

#[test]
fn optional_offset_array_keeps_absent_entries_in_place() {
    let mut tape = tape_over(&[0, 5, 0, 6]);
    let offsets = vec![2, 0, 0];
    let values: Vec<Option<u16>> = jump_take_maybe_all(&mut tape, 0, &offsets).unwrap();
    assert_eq!(values, vec![Some(6), None, None]);
}

#[test]
fn parameterized_offset_read_threads_the_count() {
    let mut tape = tape_over(&[0xFF, 0, 1, 0, 2, 0, 3]);
    let values: Vec<u16> = jump_take_given(&mut tape, 1, 0, 3).unwrap();
    assert_eq!(values, vec![1, 2, 3]);
}

#[test]
fn parameterized_offset_array_hands_each_read_the_parameter() {
    let mut tape = tape_over(&[0, 1, 0, 2, 0, 3, 0, 4]);
    let offsets = vec![4, 0];
    let values: Vec<Vec<u16>> = jump_take_given_all(&mut tape, 0, &offsets, 2).unwrap();
    assert_eq!(values, vec![vec![3, 4], vec![1, 2]]);
}
