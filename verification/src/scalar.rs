//! Scalar kinds and dynamically tagged scalar values.
//!
//! A schema names the underlying type of each field by a [`ScalarKind`]; a
//! decoded field carries its value as a [`Scalar`]. The raw bit pattern of a
//! scalar, [`scalar_bits`], is what validation errors report.

use vstd::prelude::*;

use crate::Error;
use crate::bytes::{be_bytes, be_nat, bits_of_signed, lemma_pow256_values, signed_of};
use crate::tape::ReadExt;
use crate::tape::WriteExt;

verus! {

/// The fixed-width scalar types a schema can name.
#[derive(Clone, Copy, PartialEq, Eq, Structural, Debug, Hash)]
pub enum ScalarKind {
    U8,
    I8,
    U16,
    I16,
    U32,
    I32,
    U64,
    I64,
}

/// A decoded scalar value, tagged with its kind.
#[derive(Clone, Copy, PartialEq, Eq, Structural, Debug, Hash)]
pub enum Scalar {
    U8(u8),
    I8(i8),
    U16(u16),
    I16(i16),
    U32(u32),
    I32(i32),
    U64(u64),
    I64(i64),
}

/// How many bytes a scalar of the given kind occupies.
pub open spec fn kind_width(kind: ScalarKind) -> nat {
    match kind {
        ScalarKind::U8 => 1,
        ScalarKind::I8 => 1,
        ScalarKind::U16 => 2,
        ScalarKind::I16 => 2,
        ScalarKind::U32 => 4,
        ScalarKind::I32 => 4,
        ScalarKind::U64 => 8,
        ScalarKind::I64 => 8,
    }
}

/// The kind a scalar value carries.
pub open spec fn kind_of(value: Scalar) -> ScalarKind {
    match value {
        Scalar::U8(_) => ScalarKind::U8,
        Scalar::I8(_) => ScalarKind::I8,
        Scalar::U16(_) => ScalarKind::U16,
        Scalar::I16(_) => ScalarKind::I16,
        Scalar::U32(_) => ScalarKind::U32,
        Scalar::I32(_) => ScalarKind::I32,
        Scalar::U64(_) => ScalarKind::U64,
        Scalar::I64(_) => ScalarKind::I64,
    }
}

/// The decoding of the byte string `s` as a scalar of the given kind, for
/// `s` of exactly `kind_width(kind)` bytes.
pub open spec fn scalar_decoded(kind: ScalarKind, s: Seq<u8>) -> Scalar {
    match kind {
        ScalarKind::U8 => Scalar::U8(be_nat(s) as u8),
        ScalarKind::I8 => Scalar::I8(signed_of(be_nat(s), 1) as i8),
        ScalarKind::U16 => Scalar::U16(be_nat(s) as u16),
        ScalarKind::I16 => Scalar::I16(signed_of(be_nat(s), 2) as i16),
        ScalarKind::U32 => Scalar::U32(be_nat(s) as u32),
        ScalarKind::I32 => Scalar::I32(signed_of(be_nat(s), 4) as i32),
        ScalarKind::U64 => Scalar::U64(be_nat(s) as u64),
        ScalarKind::I64 => Scalar::I64(signed_of(be_nat(s), 8) as i64),
    }
}

/// The encoding of a scalar value: its big-endian bytes.
pub open spec fn scalar_encoded(value: Scalar) -> Seq<u8> {
    be_bytes(scalar_bits(value) as nat, kind_width(kind_of(value)))
}

/// The raw bits of a scalar value, zero-extended to 64: what the scalar's
/// encoding reads back as an unsigned value, and what errors report.
pub open spec fn scalar_bits(value: Scalar) -> u64 {
    match value {
        Scalar::U8(v) => v as u64,
        Scalar::I8(v) => bits_of_signed(v as int, 1) as u64,
        Scalar::U16(v) => v as u64,
        Scalar::I16(v) => bits_of_signed(v as int, 2) as u64,
        Scalar::U32(v) => v as u64,
        Scalar::I32(v) => bits_of_signed(v as int, 4) as u64,
        Scalar::U64(v) => v,
        Scalar::I64(v) => bits_of_signed(v as int, 8) as u64,
    }
}

/// The value a scalar supplies where a schema uses it as a count. Only the
/// unsigned kinds of at most 32 bits stand for counts; any other scalar
/// counts as nothing.
pub open spec fn scalar_count(value: Scalar) -> nat {
    match value {
        Scalar::U8(v) => v as nat,
        Scalar::U16(v) => v as nat,
        Scalar::U32(v) => v as nat,
        _ => 0,
    }
}

/// How many bytes a scalar of the given kind occupies.
pub fn width_of(kind: ScalarKind) -> (r: usize)
    ensures
        r == kind_width(kind),
{
    match kind {
        ScalarKind::U8 => 1,
        ScalarKind::I8 => 1,
        ScalarKind::U16 => 2,
        ScalarKind::I16 => 2,
        ScalarKind::U32 => 4,
        ScalarKind::I32 => 4,
        ScalarKind::U64 => 8,
        ScalarKind::I64 => 8,
    }
}

/// The kind a scalar value carries.
pub fn kind_of_value(value: &Scalar) -> (r: ScalarKind)
    ensures
        r == kind_of(*value),
{
    match value {
        Scalar::U8(_) => ScalarKind::U8,
        Scalar::I8(_) => ScalarKind::I8,
        Scalar::U16(_) => ScalarKind::U16,
        Scalar::I16(_) => ScalarKind::I16,
        Scalar::U32(_) => ScalarKind::U32,
        Scalar::I32(_) => ScalarKind::I32,
        Scalar::U64(_) => ScalarKind::U64,
        Scalar::I64(_) => ScalarKind::I64,
    }
}

/// The raw bits of a scalar value, zero-extended to 64.
pub fn bits_of(value: &Scalar) -> (r: u64)
    ensures
        r == scalar_bits(*value),
{
    proof {
        lemma_pow256_values();
    }
    match value {
        Scalar::U8(v) => *v as u64,
        Scalar::I8(v) => if *v >= 0 {
            *v as u64
        } else {
            ((*v as i64) + 0x100) as u64
        },
        Scalar::U16(v) => *v as u64,
        Scalar::I16(v) => if *v >= 0 {
            *v as u64
        } else {
            ((*v as i64) + 0x1_0000) as u64
        },
        Scalar::U32(v) => *v as u64,
        Scalar::I32(v) => if *v >= 0 {
            *v as u64
        } else {
            ((*v as i64) + 0x1_0000_0000) as u64
        },
        Scalar::U64(v) => *v,
        Scalar::I64(v) => if *v >= 0 {
            *v as u64
        } else {
            ((*v + 0x7FFF_FFFF_FFFF_FFFF + 1) as u64) + 0x8000_0000_0000_0000
        },
    }
}

/// The count a scalar supplies where a schema uses it as one.
pub fn count_of(value: &Scalar) -> (r: usize)
    ensures
        r == scalar_count(*value),
{
    match value {
        Scalar::U8(v) => *v as usize,
        Scalar::U16(v) => *v as usize,
        Scalar::U32(v) => *v as usize,
        _ => 0,
    }
}

/// Encoding inverts decoding, and decoding inverts encoding, for a scalar
/// of any kind: the dynamically tagged codec round-trips exactly as the
/// typed one.
pub proof fn lemma_scalar_round_trip(kind: ScalarKind, s: Seq<u8>, v: Scalar)
    ensures
        s.len() == kind_width(kind) ==> scalar_encoded(scalar_decoded(kind, s)) == s,
        scalar_encoded(v).len() == kind_width(kind_of(v)),
        scalar_decoded(kind_of(v), scalar_encoded(v)) == v,
{
    crate::bytes::lemma_pow256_values();
    if s.len() == kind_width(kind) {
        crate::bytes::lemma_be_nat_bound(s);
        let raw = be_nat(s);
        match kind {
            ScalarKind::I8 => {
                crate::bytes::lemma_signed_round_trip(raw, 0, 1);
            },
            ScalarKind::I16 => {
                crate::bytes::lemma_signed_round_trip(raw, 0, 2);
            },
            ScalarKind::I32 => {
                crate::bytes::lemma_signed_round_trip(raw, 0, 4);
            },
            ScalarKind::I64 => {
                crate::bytes::lemma_signed_round_trip(raw, 0, 8);
            },
            _ => {},
        }
        crate::bytes::lemma_be_bytes_of_be_nat(s);
    }
    let bits = scalar_bits(v) as nat;
    match v {
        Scalar::I8(x) => {
            crate::bytes::lemma_signed_round_trip(0, x as int, 1);
        },
        Scalar::I16(x) => {
            crate::bytes::lemma_signed_round_trip(0, x as int, 2);
        },
        Scalar::I32(x) => {
            crate::bytes::lemma_signed_round_trip(0, x as int, 4);
        },
        Scalar::I64(x) => {
            crate::bytes::lemma_signed_round_trip(0, x as int, 8);
        },
        _ => {},
    }
    crate::bytes::lemma_be_bytes_len(bits, kind_width(kind_of(v)));
    crate::bytes::lemma_be_nat_of_be_bytes(bits, kind_width(kind_of(v)));
}

/// Read one scalar of the given kind at the source's position.
pub fn read_scalar<T: crate::tape::Read>(tape: &mut T, kind: ScalarKind) -> (r: Result<
    Scalar,
    Error,
>)
    ensures
        final(tape).data() == old(tape).data(),
        match r {
            Ok(v) => {
                &&& old(tape).cursor() + kind_width(kind) <= old(tape).data().len()
                &&& final(tape).cursor() == old(tape).cursor() + kind_width(kind)
                &&& v == scalar_decoded(
                    kind,
                    old(tape).data().subrange(
                        old(tape).cursor() as int,
                        old(tape).cursor() + kind_width(kind),
                    ),
                )
                &&& kind_of(v) == kind
            },
            Err(e) => {
                &&& old(tape).cursor() + kind_width(kind) > old(tape).data().len()
                &&& old(tape).cursor() <= final(tape).cursor() <= old(tape).cursor() + kind_width(
                    kind,
                )
                &&& e is Io
            },
        },
{
    match kind {
        ScalarKind::U8 => match tape.take::<u8>() {
            Ok(v) => Ok(Scalar::U8(v)),
            Err(e) => Err(e),
        },
        ScalarKind::I8 => match tape.take::<i8>() {
            Ok(v) => Ok(Scalar::I8(v)),
            Err(e) => Err(e),
        },
        ScalarKind::U16 => match tape.take::<u16>() {
            Ok(v) => Ok(Scalar::U16(v)),
            Err(e) => Err(e),
        },
        ScalarKind::I16 => match tape.take::<i16>() {
            Ok(v) => Ok(Scalar::I16(v)),
            Err(e) => Err(e),
        },
        ScalarKind::U32 => match tape.take::<u32>() {
            Ok(v) => Ok(Scalar::U32(v)),
            Err(e) => Err(e),
        },
        ScalarKind::I32 => match tape.take::<i32>() {
            Ok(v) => Ok(Scalar::I32(v)),
            Err(e) => Err(e),
        },
        ScalarKind::U64 => match tape.take::<u64>() {
            Ok(v) => Ok(Scalar::U64(v)),
            Err(e) => Err(e),
        },
        ScalarKind::I64 => match tape.take::<i64>() {
            Ok(v) => Ok(Scalar::I64(v)),
            Err(e) => Err(e),
        },
    }
}

/// Read `count` scalars of the given kind in order.
pub fn read_scalar_list<T: crate::tape::Read>(
    tape: &mut T,
    kind: ScalarKind,
    count: usize,
) -> (r: Result<Vec<Scalar>, Error>)
    ensures
        final(tape).data() == old(tape).data(),
        match r {
            Ok(v) => {
                &&& old(tape).cursor() + count * kind_width(kind) <= old(tape).data().len()
                    || count == 0
                &&& final(tape).cursor() == old(tape).cursor() + count * kind_width(kind)
                &&& v@ == Seq::new(
                    count as nat,
                    |i: int|
                        scalar_decoded(
                            kind,
                            old(tape).data().subrange(
                                old(tape).cursor() + i * kind_width(kind),
                                old(tape).cursor() + (i + 1) * kind_width(kind),
                            ),
                        ),
                )
            },
            Err(e) => {
                &&& old(tape).cursor() + count * kind_width(kind) > old(tape).data().len()
                &&& old(tape).cursor() <= final(tape).cursor() <= old(tape).cursor() + count
                    * kind_width(kind)
                &&& e is Io
            },
        },
{
    let ghost data = tape.data();
    let ghost start = tape.cursor();
    let ghost w = kind_width(kind);
    let ghost wanted = Seq::new(
        count as nat,
        |i: int| scalar_decoded(kind, data.subrange(start + i * w, start + (i + 1) * w)),
    );
    let mut values: Vec<Scalar> = Vec::new();
    let mut i: usize = 0;
    while i < count
        invariant
            i <= count,
            data == old(tape).data(),
            start == old(tape).cursor(),
            w == kind_width(kind),
            wanted == Seq::new(
                count as nat,
                |j: int| scalar_decoded(kind, data.subrange(start + j * w, start + (j + 1) * w)),
            ),
            tape.data() == data,
            tape.cursor() == start + i * w,
            i > 0 ==> start + i * w <= data.len(),
            values@.len() == i,
            forall|j: int| 0 <= j < i ==> #[trigger] values@[j] == wanted[j],
        decreases count - i,
    {
        proof {
            assert((i + 1) * w <= count * w && i * w <= count * w) by (nonlinear_arith)
                requires
                    0 <= w,
                    i + 1 <= count,
            ;
            assert((i + 1) * w == i * w + w) by (nonlinear_arith);
        }
        let element = match read_scalar(tape, kind) {
            Ok(element) => element,
            Err(e) => {
                proof {
                    assert(start + count * w > data.len());
                }
                return Err(e);
            },
        };
        values.push(element);
        i += 1;
    }
    proof {
        assert(values@ =~= wanted);
    }
    Ok(values)
}

/// Write one scalar: it emits exactly its encoding.
pub fn write_scalar<T: crate::tape::Write>(tape: &mut T, value: &Scalar) -> (r: Result<(), Error>)
    ensures
        r is Ok,
        final(tape).out() == old(tape).out() + scalar_encoded(*value),
{
    proof {
        lemma_pow256_values();
    }
    match value {
        Scalar::U8(v) => tape.give(v),
        Scalar::I8(v) => tape.give(v),
        Scalar::U16(v) => tape.give(v),
        Scalar::I16(v) => tape.give(v),
        Scalar::U32(v) => tape.give(v),
        Scalar::I32(v) => tape.give(v),
        Scalar::U64(v) => tape.give(v),
        Scalar::I64(v) => tape.give(v),
    }
}

} // verus!
