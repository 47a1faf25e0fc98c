//! Fixed-point numbers in Q format.
//!
//! A Q-format number is a 32-bit scalar whose value is `raw / 2^f` for a
//! type-fixed fractional bit count `f`: sixteen fractional bits for [`q16`]
//! and thirty for [`q32`]. Reading and writing treat the raw integer
//! exactly as any fixed-width scalar; equality and ordering compare the raw
//! integer, never a converted value, and the lossy conversion to a floating
//! value is left to unverified callers of the raw accessor.

use vstd::prelude::*;

use crate::Error;
use crate::bytes::{be_bytes, be_nat, bits_of_signed, signed_of};
use crate::tape::WriteExt;

verus! {

/// The fractional bits of a [`q16`]: its value is `raw / 2^16`.
pub const Q16_FRACTION_BITS: u32 = 16;

/// The fractional bits of a [`q32`]: its value is `raw / 2^30`.
pub const Q32_FRACTION_BITS: u32 = 30;

/// A fixed-point number with 16 integer and 16 fractional bits.
#[allow(non_camel_case_types)]
#[derive(Clone, Copy, PartialEq, Eq, Structural, Debug, Hash, PartialOrd, Ord, Default)]
pub struct q16(pub i32);

/// A fixed-point number with 2 integer and 30 fractional bits.
#[allow(non_camel_case_types)]
#[derive(Clone, Copy, PartialEq, Eq, Structural, Debug, Hash, PartialOrd, Ord, Default)]
pub struct q32(pub i32);

impl crate::value::Read for q16 {
    open spec fn spec_width() -> nat {
        4
    }

    open spec fn spec_decodes(s: Seq<u8>, v: Self) -> bool {
        v.0 == signed_of(be_nat(s), 4)
    }

    fn read<T: crate::tape::Read>(tape: &mut T) -> (r: Result<Self, Error>) {
        match <i32 as crate::value::Read>::read(tape) {
            Ok(raw) => Ok(q16(raw)),
            Err(e) => Err(e),
        }
    }
}

impl crate::value::Write for q16 {
    open spec fn spec_encode(&self) -> Seq<u8> {
        be_bytes(bits_of_signed(self.0 as int, 4), 4)
    }

    fn write<T: crate::tape::Write>(&self, tape: &mut T) -> (r: Result<(), Error>) {
        tape.give(&self.0)
    }
}

impl crate::value::Read for q32 {
    open spec fn spec_width() -> nat {
        4
    }

    open spec fn spec_decodes(s: Seq<u8>, v: Self) -> bool {
        v.0 == signed_of(be_nat(s), 4)
    }

    fn read<T: crate::tape::Read>(tape: &mut T) -> (r: Result<Self, Error>) {
        match <i32 as crate::value::Read>::read(tape) {
            Ok(raw) => Ok(q32(raw)),
            Err(e) => Err(e),
        }
    }
}

impl crate::value::Write for q32 {
    open spec fn spec_encode(&self) -> Seq<u8> {
        be_bytes(bits_of_signed(self.0 as int, 4), 4)
    }

    fn write<T: crate::tape::Write>(&self, tape: &mut T) -> (r: Result<(), Error>) {
        tape.give(&self.0)
    }
}

/// Encoding inverts decoding, and decoding inverts encoding, for [`q16`]:
/// the raw integer round-trips exactly as any 32-bit scalar.
pub proof fn lemma_q16_round_trip(s: Seq<u8>, x: q16, v: q16)
    ensures
        s.len() == 4 && <q16 as crate::value::Read>::spec_decodes(s, x)
            ==> crate::value::Write::spec_encode(&x) == s,
        crate::value::Write::spec_encode(&v).len() == 4,
        <q16 as crate::value::Read>::spec_decodes(crate::value::Write::spec_encode(&v), v),
{
    crate::value::lemma_i32_round_trip(s, x.0, v.0)
}

/// Encoding inverts decoding, and decoding inverts encoding, for [`q32`]:
/// the raw integer round-trips exactly as any 32-bit scalar.
pub proof fn lemma_q32_round_trip(s: Seq<u8>, x: q32, v: q32)
    ensures
        s.len() == 4 && <q32 as crate::value::Read>::spec_decodes(s, x)
            ==> crate::value::Write::spec_encode(&x) == s,
        crate::value::Write::spec_encode(&v).len() == 4,
        <q32 as crate::value::Read>::spec_decodes(crate::value::Write::spec_encode(&v), v),
{
    crate::value::lemma_i32_round_trip(s, x.0, v.0)
}

} // verus!
