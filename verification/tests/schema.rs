//! The record, choice and flag schema interpreters, the fixed-point types,
//! and the error value.

use typeface::choice::{Choice, ChoiceScheme};
use typeface::flag::{FlagScheme, Flags};
use typeface::number::{q16, q32};
use typeface::scalar::{Scalar, ScalarKind};
use typeface::table::{Field, FieldRule, FieldValue, TableScheme, read_table, write_table};
use typeface::tape::{Read, ReadExt, Sink, Tape, WriteExt};
use typeface::{Error, ErrorWithSource, choice, flag};

fn tape_over(bytes: &[u8]) -> Tape {
    Tape::new(bytes.to_vec())
}

fn header_scheme() -> TableScheme {
    TableScheme {
        name: String::from("Header"),
        fields: vec![
            Field {
                name: String::from("major_version"),
                rule: FieldRule::Constant(Scalar::U16(1)),
            },
            Field {
                name: String::from("minor_version"),
                rule: FieldRule::Scalar(ScalarKind::U16),
            },
            Field {
                name: String::from("record_count"),
                rule: FieldRule::Scalar(ScalarKind::U16),
            },
            Field {
                name: String::from("records"),
                rule: FieldRule::List(ScalarKind::U16, 2),
            },
        ],
    }
}

#[test]
fn table_reads_fields_in_declaration_order() {
    let mut tape = tape_over(&[0, 1, 0, 5, 0, 2, 0, 7, 0, 9]);
    let table = read_table(&header_scheme(), &mut tape).unwrap();
    assert_eq!(table.base, 0);
    assert_eq!(table.values.len(), 4);
    assert_eq!(table.values[0], FieldValue::Single(Scalar::U16(1)));
    assert_eq!(table.values[1], FieldValue::Single(Scalar::U16(5)));
    assert_eq!(table.values[2], FieldValue::Single(Scalar::U16(2)));
    assert_eq!(
        table.values[3],
        FieldValue::List(vec![Scalar::U16(7), Scalar::U16(9)])
    );
    assert_eq!(tape.position().unwrap(), 10);
}

#[test]
fn table_captures_its_base_position() {
    let mut tape = tape_over(&[0xAA, 0xAA, 0, 1, 0, 5, 0, 0]);
    tape.jump(2).unwrap();
    let table = read_table(&header_scheme(), &mut tape).unwrap();
    assert_eq!(table.base, 2);
    assert_eq!(table.values[3], FieldValue::List(vec![]));
}

#[test]
fn constant_field_mismatch_names_the_record_and_both_values() {
    let mut tape = tape_over(&[0, 2, 0, 5, 0, 0]);
    match read_table(&header_scheme(), &mut tape) {
        Err(Error::Validation { subject, found, expected }) => {
            assert_eq!(subject, "Header::major_version");
            assert_eq!(found, 2);
            assert_eq!(expected, Some(1));
        }
        _ => panic!("a constant mismatch must fail validation"),
    }
}

#[test]
fn table_short_read_fails_with_io() {
    let mut tape = tape_over(&[0, 1, 0, 5]);
    match read_table(&header_scheme(), &mut tape) {
        Err(Error::Io { .. }) => {}
        _ => panic!("a record over too few bytes must fail with an I/O error"),
    }
}

#[test]
fn table_list_shorter_than_its_count_fails_with_io() {
    let mut tape = tape_over(&[0, 1, 0, 5, 0, 3, 0, 7]);
    match read_table(&header_scheme(), &mut tape) {
        Err(Error::Io { .. }) => {}
        _ => panic!("a counted list over too few bytes must fail with an I/O error"),
    }
}

#[test]
fn table_write_emits_scalars_and_omits_lists() {
    let scheme = header_scheme();
    let mut tape = tape_over(&[0, 1, 0, 5, 0, 2, 0, 7, 0, 9]);
    let table = read_table(&scheme, &mut tape).unwrap();
    let mut sink = Sink::new();
    write_table(&scheme, &table, &mut sink).unwrap();
    assert_eq!(sink.into_bytes(), vec![0, 1, 0, 5, 0, 2]);
}

#[test]
fn signed_scalar_fields_decode_by_kind() {
    let scheme = TableScheme {
        name: String::from("Metrics"),
        fields: vec![
            Field { name: String::from("ascent"), rule: FieldRule::Scalar(ScalarKind::I16) },
            Field { name: String::from("descent"), rule: FieldRule::Scalar(ScalarKind::I16) },
        ],
    };
    let mut tape = tape_over(&[0xFF, 0xFE, 0x00, 0x02]);
    let table = read_table(&scheme, &mut tape).unwrap();
    assert_eq!(table.values[0], FieldValue::Single(Scalar::I16(-2)));
    assert_eq!(table.values[1], FieldValue::Single(Scalar::I16(2)));
}

fn weight_scheme(total: bool) -> ChoiceScheme {
    ChoiceScheme {
        name: String::from("Weight"),
        kind: ScalarKind::U16,
        values: vec![100, 400, 700],
        total,
    }
}

#[test]
fn closed_choice_decodes_every_declared_value() {
    let scheme = weight_scheme(false);
    assert_eq!(choice::from_raw(&scheme, 100).unwrap(), Choice::Known(0));
    assert_eq!(choice::from_raw(&scheme, 400).unwrap(), Choice::Known(1));
    assert_eq!(choice::from_raw(&scheme, 700).unwrap(), Choice::Known(2));
}

#[test]
fn closed_choice_rejects_an_unmapped_value() {
    let scheme = weight_scheme(false);
    match choice::from_raw(&scheme, 123) {
        Err(Error::Validation { subject, found, expected }) => {
            assert_eq!(subject, "Weight");
            assert_eq!(found, 123);
            assert_eq!(expected, None);
        }
        _ => panic!("an unmapped value of a closed choice must fail validation"),
    }
}

#[test]
fn closed_choice_round_trips_every_variant() {
    let scheme = weight_scheme(false);
    for index in 0..3 {
        let raw = choice::to_raw(&scheme, &Choice::Known(index));
        assert_eq!(choice::from_raw(&scheme, raw).unwrap(), Choice::Known(index));
    }
}

#[test]
fn open_choice_falls_back_and_recovers_the_raw_value() {
    let scheme = weight_scheme(true);
    let decoded = choice::from_raw(&scheme, 123).unwrap();
    assert_eq!(decoded, Choice::Other(123));
    assert_eq!(choice::to_raw(&scheme, &decoded), 123);
    assert_eq!(choice::from_raw(&scheme, 400).unwrap(), Choice::Known(1));
}

#[test]
fn choice_reads_its_underlying_scalar() {
    let mut tape = tape_over(&[0x01, 0x90, 0x00, 0x7B]);
    let known = choice::read_choice(&weight_scheme(false), &mut tape).unwrap();
    assert_eq!(known, Choice::Known(1));
    let fallback = choice::read_choice(&weight_scheme(true), &mut tape).unwrap();
    assert_eq!(fallback, Choice::Other(123));
    let mut short = tape_over(&[0x01]);
    assert!(choice::read_choice(&weight_scheme(true), &mut short).is_err());
}

fn style_scheme(permissive: bool) -> FlagScheme {
    FlagScheme {
        name: String::from("Style"),
        kind: ScalarKind::U16,
        recognized: 0b0111,
        permissive,
    }
}

#[test]
fn flags_with_recognized_bits_decode_with_bits_intact() {
    let flags = flag::from_raw(&style_scheme(false), 0b0101).unwrap();
    assert_eq!(flags, Flags { bits: 0b0101 });
    assert!(flags.has(0b0001));
    assert!(!flags.has(0b0010));
    assert!(flags.has(0b0100));
    assert!(flags.has(0b0110));
}

#[test]
fn flags_with_an_unrecognized_bit_fail_by_default() {
    match flag::from_raw(&style_scheme(false), 0b1000_0101) {
        Err(Error::Validation { subject, found, expected }) => {
            assert_eq!(subject, "Style");
            assert_eq!(found, 0b1000_0101);
            assert_eq!(expected, None);
        }
        _ => panic!("an unrecognized bit must fail validation by default"),
    }
}

#[test]
fn permissive_flags_keep_unrecognized_bits() {
    let flags = flag::from_raw(&style_scheme(true), 0b1000_0101).unwrap();
    assert_eq!(flags.bits, 0b1000_0101);
    assert!(flags.has(0b1000_0000));
}

#[test]
fn flags_read_their_underlying_scalar() {
    let mut tape = tape_over(&[0x00, 0b0011]);
    let flags = flag::read_flags(&style_scheme(false), &mut tape).unwrap();
    assert_eq!(flags.bits, 0b0011);
    let mut bad = tape_over(&[0xFF, 0xFF]);
    assert!(flag::read_flags(&style_scheme(false), &mut bad).is_err());
    let mut kept = tape_over(&[0xFF, 0xFF]);
    let all = flag::read_flags(&style_scheme(true), &mut kept).unwrap();
    assert_eq!(all.bits, 0xFFFF);
}

#[test]
fn fixed_point_reads_and_writes_its_raw_integer() {
    let mut tape = tape_over(&[0x00, 0x01, 0x80, 0x00]);
    let value: q16 = tape.take().unwrap();
    assert_eq!(value, q16(0x18000));
    let mut sink = Sink::new();
    sink.give(&value).unwrap();
    assert_eq!(sink.into_bytes(), vec![0x00, 0x01, 0x80, 0x00]);

    let mut tape = tape_over(&[0xC0, 0x00, 0x00, 0x00]);
    let value: q32 = tape.take().unwrap();
    assert_eq!(value, q32(-1073741824));
    let mut sink = Sink::new();
    sink.give(&value).unwrap();
    assert_eq!(sink.into_bytes(), vec![0xC0, 0x00, 0x00, 0x00]);
}

#[test]
fn fixed_point_compares_on_the_raw_integer() {
    assert!(q16(1) < q16(2));
    assert!(q16(-1) < q16(1));
    assert_eq!(q16(5), q16(5));
    assert!(q32(0x4000_0000 - 1) < q32(0x4000_0000 - 0));
}

#[test]
fn dynamic_scalars_round_trip_for_every_kind() {
    let values = [
        Scalar::U8(0xAB),
        Scalar::I8(-5),
        Scalar::U16(0xABCD),
        Scalar::I16(-2),
        Scalar::U32(0xDEADBEEF),
        Scalar::I32(-100000),
        Scalar::U64(u64::MAX),
        Scalar::I64(i64::MIN),
    ];
    for value in values {
        let mut sink = Sink::new();
        typeface::scalar::write_scalar(&mut sink, &value).unwrap();
        let bytes = sink.into_bytes();
        assert_eq!(
            bytes.len(),
            typeface::scalar::width_of(typeface::scalar::kind_of_value(&value))
        );
        let mut tape = Tape::new(bytes);
        let kind = typeface::scalar::kind_of_value(&value);
        let back = typeface::scalar::read_scalar(&mut tape, kind).unwrap();
        assert_eq!(back, value);
    }
}

#[test]
fn dynamic_scalar_list_reads_in_order() {
    let mut tape = tape_over(&[0xFF, 0xFE, 0x00, 0x03]);
    let values = typeface::scalar::read_scalar_list(&mut tape, ScalarKind::I16, 2).unwrap();
    assert_eq!(values, vec![Scalar::I16(-2), Scalar::I16(3)]);
    let mut empty = tape_over(&[]);
    let none = typeface::scalar::read_scalar_list(&mut empty, ScalarKind::I16, 0).unwrap();
    assert_eq!(none, vec![]);
}

#[test]
fn offset_fields_resolve_against_the_record_base() {
    // A directory at position 2: a constant version, a count, and the
    // offsets of two sub-records, each addressed relative to the
    // directory's own start.
    let scheme = TableScheme {
        name: String::from("Directory"),
        fields: vec![
            Field {
                name: String::from("version"),
                rule: FieldRule::Constant(Scalar::U16(1)),
            },
            Field {
                name: String::from("count"),
                rule: FieldRule::Scalar(ScalarKind::U16),
            },
            Field {
                name: String::from("offsets"),
                rule: FieldRule::List(ScalarKind::U16, 1),
            },
        ],
    };
    let bytes = [
        0xAA, 0xAA, // padding before the record
        0x00, 0x01, // version
        0x00, 0x02, // count
        0x00, 0x08, 0x00, 0x0A, // offsets, relative to the base
        0x12, 0x34, // sub-record at base + 8
        0x56, 0x78, // sub-record at base + 10
    ];
    let mut tape = tape_over(&bytes);
    tape.jump(2).unwrap();
    let table = read_table(&scheme, &mut tape).unwrap();
    assert_eq!(table.base, 2);
    let offsets = match &table.values[2] {
        FieldValue::List(list) => list
            .iter()
            .map(|value| typeface::scalar::bits_of(value))
            .collect::<Vec<u64>>(),
        _ => panic!("the offsets field must decode as a list"),
    };
    assert_eq!(offsets, vec![8, 10]);
    let first: u16 = typeface::jump::jump_take(&mut tape, table.base, offsets[0]).unwrap();
    let second: u16 = typeface::jump::jump_take(&mut tape, table.base, offsets[1]).unwrap();
    assert_eq!(first, 0x1234);
    assert_eq!(second, 0x5678);
}

#[test]
fn wrapping_an_error_keeps_the_cause() {
    let cause = Error::Io { position: 3, wanted: 2 };
    let wrapped = cause.wrap(String::from("while reading the header"));
    match wrapped {
        Error::WithSource(inner) => {
            let ErrorWithSource { description, source } = *inner;
            assert_eq!(description, "while reading the header");
            match source {
                Error::Io { position, wanted } => {
                    assert_eq!(position, 3);
                    assert_eq!(wanted, 2);
                }
                _ => panic!("the cause must be kept verbatim"),
            }
        }
        _ => panic!("wrapping must yield an error with a source"),
    }
}
