//! Records ("tables"): ordered field schemas and the reader they drive.
//!
//! A schema lists a record's fields in order; reading follows declaration
//! order exactly, with no gaps or padding, so the record's encoding is the
//! concatenation of its fields' encodings. A field is a plain scalar, a
//! scalar checked against a declared constant, or a counted list whose count
//! is the value of a prior field. The first field that fails aborts the
//! whole read: no partially built record is ever handed back.
//!
//! The record's base — the position it started at — is captured before any
//! field is read and returned with the record; offset-valued fields address
//! sibling content relative to it through the helpers in [`crate::jump`].
//!
//! The generated writer is narrower than the reader by design: it emits the
//! scalar-valued fields in order and silently omits list fields, whose
//! encodings the defining format owes its own write logic for.

use vstd::prelude::*;

use vstd::string::StringExecFns;

use crate::Error;
use crate::scalar::{
    Scalar, ScalarKind, bits_of, count_of, kind_of, kind_of_value, kind_width, read_scalar,
    lemma_scalar_round_trip, read_scalar_list, scalar_count, scalar_decoded, scalar_encoded,
    write_scalar,
};

verus! {

/// How one field of a record is read.
#[derive(Clone, Copy, PartialEq, Eq, Structural, Debug)]
pub enum FieldRule {
    /// A plain scalar of the given kind.
    Scalar(ScalarKind),
    /// A scalar that must equal the given value; a mismatch is a validation
    /// failure naming the record, the field and both values.
    Constant(Scalar),
    /// A list of scalars of the given kind whose count is the value of the
    /// prior field at the given index.
    List(ScalarKind, usize),
}

/// A named field of a record schema.
pub struct Field {
    pub name: String,
    pub rule: FieldRule,
}

/// An ordered record schema: a name and the fields in declaration order.
pub struct TableScheme {
    pub name: String,
    pub fields: Vec<Field>,
}

/// The decoded value of one field.
#[derive(PartialEq, Eq, Debug)]
pub enum FieldValue {
    Single(Scalar),
    List(Vec<Scalar>),
}

/// A decoded record: its base position and one value per field, in
/// declaration order.
pub struct Table {
    pub base: u64,
    pub values: Vec<FieldValue>,
}

/// The spec-level value of one field.
pub enum FieldModel {
    Single(Scalar),
    List(Seq<Scalar>),
}

/// What reading a record yields: every field, or the first failure.
pub enum TableOutcome {
    /// Every field was read; `values` are the fields and `end` is the
    /// position after the last one.
    Done { values: Seq<FieldModel>, end: int },
    /// The bytes ran out inside some field.
    Short,
    /// The field at `index` was read as `found` where the schema declared
    /// the constant `expected`.
    Mismatch { index: int, found: Scalar, expected: Scalar },
}

/// The spec-level value of a decoded field value.
pub open spec fn field_model(value: FieldValue) -> FieldModel {
    match value {
        FieldValue::Single(s) => FieldModel::Single(s),
        FieldValue::List(l) => FieldModel::List(l@),
    }
}

/// The spec-level values of a decoded field list.
pub open spec fn table_model(values: Seq<FieldValue>) -> Seq<FieldModel> {
    values.map_values(|v: FieldValue| field_model(v))
}

/// The rules of a schema's fields, in order.
pub open spec fn scheme_rules(fields: Seq<Field>) -> Seq<FieldRule> {
    fields.map_values(|f: Field| f.rule)
}

/// Whether a kind can supply a count: unsigned, at most 32 bits, so that a
/// count always fits the machine.
pub open spec fn counting_kind(kind: ScalarKind) -> bool {
    kind == ScalarKind::U8 || kind == ScalarKind::U16 || kind == ScalarKind::U32
}

/// The kind of the scalar a rule reads; for a list, its element kind.
pub open spec fn rule_kind(rule: FieldRule) -> ScalarKind {
    match rule {
        FieldRule::Scalar(kind) => kind,
        FieldRule::Constant(expected) => kind_of(expected),
        FieldRule::List(kind, _) => kind,
    }
}

/// A schema is well formed when every list field draws its count from a
/// strictly earlier scalar-valued field of a counting kind.
pub open spec fn rules_wf(rules: Seq<FieldRule>) -> bool {
    forall|i: int|
        0 <= i < rules.len() ==> match #[trigger] rules[i] {
            FieldRule::List(_, source) => {
                &&& source < i
                &&& !(rules[source as int] is List)
                &&& counting_kind(rule_kind(rules[source as int]))
            },
            _ => true,
        }
}

/// The count that the prior values supply at `source`.
pub open spec fn count_from(values: Seq<FieldModel>, source: int) -> nat {
    match values[source] {
        FieldModel::Single(s) => scalar_count(s),
        FieldModel::List(_) => 0,
    }
}

/// The elements of a list field: `count` scalars of `kind` decoded in order
/// from `pos` on.
pub open spec fn list_decoded(kind: ScalarKind, data: Seq<u8>, pos: int, count: nat) -> Seq<
    Scalar,
> {
    Seq::new(
        count,
        |i: int|
            scalar_decoded(
                kind,
                data.subrange(pos + i * kind_width(kind), pos + (i + 1) * kind_width(kind)),
            ),
    )
}

/// The meaning of reading the remaining `rules` from `data` at `pos`, with
/// the values of the fields already read in `acc`: the whole record's
/// outcome once `acc` is empty and `rules` are all of the schema's rules.
pub open spec fn read_fields(
    rules: Seq<FieldRule>,
    data: Seq<u8>,
    pos: int,
    acc: Seq<FieldModel>,
) -> TableOutcome
    decreases rules.len(),
{
    if rules.len() == 0 {
        TableOutcome::Done { values: acc, end: pos }
    } else {
        match rules[0] {
            FieldRule::Scalar(kind) => {
                let width = kind_width(kind);
                if pos + width <= data.len() {
                    read_fields(
                        rules.drop_first(),
                        data,
                        pos + width,
                        acc.push(
                            FieldModel::Single(scalar_decoded(kind, data.subrange(pos, pos + width))),
                        ),
                    )
                } else {
                    TableOutcome::Short
                }
            },
            FieldRule::Constant(expected) => {
                let kind = kind_of(expected);
                let width = kind_width(kind);
                if pos + width <= data.len() {
                    let found = scalar_decoded(kind, data.subrange(pos, pos + width));
                    if found == expected {
                        read_fields(
                            rules.drop_first(),
                            data,
                            pos + width,
                            acc.push(FieldModel::Single(found)),
                        )
                    } else {
                        TableOutcome::Mismatch { index: acc.len() as int, found, expected }
                    }
                } else {
                    TableOutcome::Short
                }
            },
            FieldRule::List(kind, source) => {
                let width = kind_width(kind);
                let count = count_from(acc, source as int);
                if pos + count * width <= data.len() {
                    read_fields(
                        rules.drop_first(),
                        data,
                        pos + count * width,
                        acc.push(FieldModel::List(list_decoded(kind, data, pos, count))),
                    )
                } else {
                    TableOutcome::Short
                }
            },
        }
    }
}

/// The subject a record's validation failure names: the record and the
/// offending field.
pub open spec fn field_subject(scheme_name: Seq<char>, field_name: Seq<char>) -> Seq<char> {
    scheme_name + "::"@ + field_name
}

/// Read a whole record: capture the base, then read every field in
/// declaration order, failing fast on the first field that fails.
#[verifier::rlimit(100)]
pub fn read_table<T: crate::tape::Read>(scheme: &TableScheme, tape: &mut T) -> (r: Result<
    Table,
    Error,
>)
    requires
        rules_wf(scheme_rules(scheme.fields@)),
    ensures
        final(tape).data() == old(tape).data(),
        match r {
            Ok(t) => {
                &&& read_fields(
                    scheme_rules(scheme.fields@),
                    old(tape).data(),
                    old(tape).cursor() as int,
                    Seq::empty(),
                ) == (TableOutcome::Done {
                    values: table_model(t.values@),
                    end: final(tape).cursor() as int,
                })
                &&& t.base == old(tape).cursor()
            },
            Err(e) => match read_fields(
                scheme_rules(scheme.fields@),
                old(tape).data(),
                old(tape).cursor() as int,
                Seq::empty(),
            ) {
                TableOutcome::Done { .. } => false,
                TableOutcome::Short => e is Io,
                TableOutcome::Mismatch { index, found, expected } => {
                    &&& e is Validation
                    &&& e->Validation_subject@ == field_subject(
                        scheme.name@,
                        scheme.fields@[index].name@,
                    )
                    &&& e->Validation_found == crate::scalar::scalar_bits(found)
                    &&& e->Validation_expected == Some(crate::scalar::scalar_bits(expected))
                },
            },
        },
{
    let base = tape.position()?;
    let ghost data = tape.data();
    let ghost rules = scheme_rules(scheme.fields@);
    let ghost whole = read_fields(rules, data, base as int, Seq::empty());
    let count = scheme.fields.len();
    let mut values: Vec<FieldValue> = Vec::new();
    let mut i: usize = 0;
    proof {
        assert(rules.skip(0) =~= rules);
        assert(table_model(values@) =~= Seq::<FieldModel>::empty());
    }
    while i < count
        invariant
            i <= count,
            count == scheme.fields@.len(),
            data == old(tape).data(),
            base == old(tape).cursor(),
            rules == scheme_rules(scheme.fields@),
            rules_wf(rules),
            whole == read_fields(rules, data, base as int, Seq::empty()),
            tape.data() == data,
            values@.len() == i,
            i > 0 ==> tape.cursor() <= data.len(),
            forall|j: int|
                0 <= j < i ==> (!(#[trigger] rules[j] is List) ==> values@[j] is Single),
            whole == read_fields(
                rules.skip(i as int),
                data,
                tape.cursor() as int,
                table_model(values@),
            ),
        decreases count - i,
    {
        let ghost pos = tape.cursor() as int;
        let ghost acc = table_model(values@);
        proof {
            assert(rules[i as int] == scheme.fields@[i as int].rule);
            assert(rules.skip(i as int).len() == count - i);
            assert(rules.skip(i as int)[0] == rules[i as int]);
            assert(rules.skip(i as int).drop_first() =~= rules.skip(i as int + 1));
        }
        let ghost kept = values@;
        match &scheme.fields[i].rule {
            FieldRule::Scalar(kind) => {
                match read_scalar(tape, *kind) {
                    Ok(v) => {
                        values.push(FieldValue::Single(v));
                        proof {
                            assert(table_model(values@) =~= acc.push(FieldModel::Single(v)));
                        }
                    },
                    Err(e) => {
                        proof {
                            assert(whole == TableOutcome::Short);
                        }
                        return Err(e);
                    },
                }
            },
            FieldRule::Constant(expected) => {
                let kind = kind_of_value(expected);
                match read_scalar(tape, kind) {
                    Ok(v) => {
                        if v == *expected {
                            values.push(FieldValue::Single(v));
                            proof {
                                assert(table_model(values@) =~= acc.push(FieldModel::Single(v)));
                            }
                        } else {
                            let mut subject = scheme.name.clone();
                            subject.append("::");
                            subject.append(scheme.fields[i].name.as_str());
                            let found = bits_of(&v);
                            let declared = bits_of(expected);
                            proof {
                                assert(whole == (TableOutcome::Mismatch {
                                    index: i as int,
                                    found: v,
                                    expected: *expected,
                                }));
                            }
                            return Err(
                                Error::Validation {
                                    subject,
                                    found,
                                    expected: Some(declared),
                                },
                            );
                        }
                    },
                    Err(e) => {
                        proof {
                            assert(whole == TableOutcome::Short);
                        }
                        return Err(e);
                    },
                }
            },
            FieldRule::List(kind, source) => {
                let counter = match &values[*source] {
                    FieldValue::Single(s) => count_of(s),
                    FieldValue::List(_) => 0,
                };
                proof {
                    assert(counter == count_from(acc, *source as int));
                }
                match read_scalar_list(tape, *kind, counter) {
                    Ok(list) => {
                        proof {
                            assert(list@ =~= list_decoded(
                                *kind,
                                data,
                                pos,
                                count_from(acc, *source as int),
                            ));
                        }
                        values.push(FieldValue::List(list));
                        proof {
                            assert(table_model(values@) =~= acc.push(
                                FieldModel::List(list_decoded(*kind, data, pos, count_from(acc, *source as int))),
                            ));
                        }
                    },
                    Err(e) => {
                        proof {
                            assert(whole == TableOutcome::Short);
                        }
                        return Err(e);
                    },
                }
            },
        }
        proof {
            assert(forall|j: int| 0 <= j < i ==> values@[j] == #[trigger] kept[j]);
        }
        i += 1;
    }
    proof {
        assert(rules.skip(count as int) =~= Seq::<FieldRule>::empty());
        assert(whole == (TableOutcome::Done {
            values: table_model(values@),
            end: tape.cursor() as int,
        }));
    }
    Ok(Table { base, values })
}

/// The bytes the generated writer emits for a record: each scalar-valued
/// field's encoding in declaration order, with list fields omitted.
pub open spec fn table_encoding(rules: Seq<FieldRule>, values: Seq<FieldModel>) -> Seq<u8>
    decreases rules.len(),
{
    if rules.len() == 0 || values.len() == 0 {
        Seq::empty()
    } else {
        let head = match rules[0] {
            FieldRule::List(..) => Seq::empty(),
            _ => match values[0] {
                FieldModel::Single(s) => scalar_encoded(s),
                FieldModel::List(_) => Seq::empty(),
            },
        };
        head + table_encoding(rules.drop_first(), values.drop_first())
    }
}

/// For a schema without list fields the generated writer is a full inverse
/// of the reader: writing back the values that a successful read yielded
/// reproduces exactly the bytes the read consumed. The accumulator
/// generalizes the statement for the induction; a whole record is the case
/// of an empty one.
pub proof fn lemma_table_round_trip(
    rules: Seq<FieldRule>,
    data: Seq<u8>,
    pos: int,
    acc: Seq<FieldModel>,
)
    requires
        forall|i: int| 0 <= i < rules.len() ==> !(#[trigger] rules[i] is List),
        0 <= pos <= data.len(),
        read_fields(rules, data, pos, acc) is Done,
    ensures
        ({
            let outcome = read_fields(rules, data, pos, acc);
            let values = outcome->Done_values;
            let end = outcome->Done_end;
            &&& acc.len() <= values.len()
            &&& values.take(acc.len() as int) == acc
            &&& pos <= end <= data.len()
            &&& table_encoding(rules, values.skip(acc.len() as int)) == data.subrange(pos, end)
        }),
    decreases rules.len(),
{
    let outcome = read_fields(rules, data, pos, acc);
    let values = outcome->Done_values;
    let end = outcome->Done_end;
    if rules.len() == 0 {
        assert(values.take(acc.len() as int) =~= acc);
        assert(values.skip(acc.len() as int) =~= Seq::<FieldModel>::empty());
        assert(data.subrange(pos, pos) =~= Seq::<u8>::empty());
    } else {
        let kind = rule_kind(rules[0]);
        let width = kind_width(kind) as int;
        let window = data.subrange(pos, pos + width);
        let decoded = scalar_decoded(kind, window);
        let rest = rules.drop_first();
        assert(forall|i: int| 0 <= i < rest.len() ==> !(#[trigger] rest[i] is List)) by {
            assert(forall|i: int| 0 <= i < rest.len() ==> rest[i] == #[trigger] rules[i + 1]);
        }
        lemma_table_round_trip(rest, data, pos + width, acc.push(FieldModel::Single(decoded)));
        let next = acc.len() as int + 1;
        assert(values.take(acc.len() as int) =~= values.take(next).take(acc.len() as int));
        assert(values.take(acc.len() as int) =~= acc);
        assert(values[acc.len() as int] == values.take(next)[acc.len() as int]);
        let suffix = values.skip(acc.len() as int);
        assert(suffix[0] == values[acc.len() as int]);
        assert(suffix.drop_first() =~= values.skip(next));
        lemma_scalar_round_trip(kind, window, decoded);
        assert(table_encoding(rules, suffix) == window + data.subrange(pos + width, end));
        assert(window + data.subrange(pos + width, end) =~= data.subrange(pos, end));
    }
}

/// Write a record's scalar-valued fields in declaration order. List fields
/// are not emitted: a format that mixes them in owes its own write logic
/// for them, and this writer leaves them out rather than guess.
pub fn write_table<T: crate::tape::Write>(
    scheme: &TableScheme,
    table: &Table,
    tape: &mut T,
) -> (r: Result<(), Error>)
    requires
        table.values@.len() == scheme.fields@.len(),
    ensures
        r is Ok,
        final(tape).out() == old(tape).out() + table_encoding(
            scheme_rules(scheme.fields@),
            table_model(table.values@),
        ),
{
    let ghost rules = scheme_rules(scheme.fields@);
    let ghost models = table_model(table.values@);
    let count = scheme.fields.len();
    let mut i: usize = 0;
    proof {
        assert(rules.skip(0) =~= rules);
        assert(models.skip(0) =~= models);
    }
    while i < count
        invariant
            i <= count,
            count == scheme.fields@.len(),
            count == table.values@.len(),
            rules == scheme_rules(scheme.fields@),
            models == table_model(table.values@),
            old(tape).out() + table_encoding(rules, models) == tape.out() + table_encoding(
                rules.skip(i as int),
                models.skip(i as int),
            ),
        decreases count - i,
    {
        proof {
            assert(rules[i as int] == scheme.fields@[i as int].rule);
            assert(models[i as int] == field_model(table.values@[i as int]));
            assert(rules.skip(i as int).len() == count - i);
            assert(rules.skip(i as int)[0] == rules[i as int]);
            assert(models.skip(i as int)[0] == models[i as int]);
            assert(rules.skip(i as int).drop_first() =~= rules.skip(i as int + 1));
            assert(models.skip(i as int).drop_first() =~= models.skip(i as int + 1));
        }
        match &scheme.fields[i].rule {
            FieldRule::List(..) => (),
            _ => {
                match &table.values[i] {
                    FieldValue::Single(s) => {
                        match write_scalar(tape, s) {
                            Ok(()) => (),
                            Err(e) => {
                                return Err(e);
                            },
                        }
                    },
                    FieldValue::List(_) => (),
                }
            },
        }
        i += 1;
    }
    proof {
        assert(rules.skip(count as int) =~= Seq::<FieldRule>::empty());
        assert(tape.out() + Seq::<u8>::empty() =~= tape.out());
        assert(final(tape).out() =~= old(tape).out() + table_encoding(rules, models));
    }
    Ok(())
}

} // verus!
