//! Flags: validated bitmask values over an underlying scalar.
//!
//! A flag schema fixes which bits a raw value may raise. A raw value using
//! only recognized bits decodes with its bits intact; one with any other
//! bit fails unless the schema is permissive, in which case the bits are
//! kept as they are. Named predicates each test one mask, which may cover
//! one or several bits.

use vstd::prelude::*;

use crate::Error;
use crate::bytes::{be_nat, lemma_be_nat_bound, u64_from_be};
use crate::scalar::{ScalarKind, kind_width, width_of};

verus! {

/// A bitmask schema over an underlying scalar type.
pub struct FlagScheme {
    /// The name of the flag type, for validation failures.
    pub name: String,
    /// The underlying scalar type the raw value is read as.
    pub kind: ScalarKind,
    /// The mask of the bits a valid raw value may raise.
    pub recognized: u64,
    /// Whether an invalid raw value is accepted anyway, bits intact.
    pub permissive: bool,
}

/// A decoded flags value: the raw bits, kept exactly as read.
#[derive(Clone, Copy, PartialEq, Eq, Structural, Debug, Hash)]
pub struct Flags {
    pub bits: u64,
}

impl FlagScheme {
    /// Whether `raw` raises only recognized bits.
    pub open spec fn valid(&self, raw: u64) -> bool {
        raw & !self.recognized == 0
    }

    /// Whether `raw` decodes under this schema.
    pub open spec fn admits(&self, raw: u64) -> bool {
        self.valid(raw) || self.permissive
    }
}

impl Flags {
    /// Whether any bit of `mask` is raised: each named predicate of a flag
    /// type tests one such mask.
    pub fn has(&self, mask: u64) -> (r: bool)
        ensures
            r == (self.bits & mask != 0),
    {
        self.bits & mask != 0
    }
}

/// Decode a raw scalar value as flags: the bits pass through exactly when
/// they are valid or the schema is permissive; otherwise the failure names
/// the flag type and the raw value.
pub fn from_raw(scheme: &FlagScheme, raw: u64) -> (r: Result<Flags, Error>)
    ensures
        match r {
            Ok(f) => scheme.admits(raw) && f == (Flags { bits: raw }),
            Err(e) => {
                &&& !scheme.admits(raw)
                &&& e == (Error::Validation {
                    subject: e->Validation_subject,
                    found: raw,
                    expected: None,
                })
                &&& e->Validation_subject@ == scheme.name@
            },
        },
{
    if raw & !scheme.recognized == 0 || scheme.permissive {
        Ok(Flags { bits: raw })
    } else {
        Err(Error::Validation { subject: scheme.name.clone(), found: raw, expected: None })
    }
}

/// Read the underlying scalar and decode it as flags. The raw value is the
/// big-endian reading of the scalar's bytes.
pub fn read_flags<T: crate::tape::Read>(scheme: &FlagScheme, tape: &mut T) -> (r: Result<
    Flags,
    Error,
>)
    ensures
        final(tape).data() == old(tape).data(),
        ({
            let width = kind_width(scheme.kind);
            let fits = old(tape).cursor() + width <= old(tape).data().len();
            let raw = be_nat(
                old(tape).data().subrange(old(tape).cursor() as int, old(tape).cursor() + width),
            ) as u64;
            match r {
                Ok(f) => {
                    &&& fits
                    &&& final(tape).cursor() == old(tape).cursor() + width
                    &&& scheme.admits(raw)
                    &&& f == (Flags { bits: raw })
                },
                Err(e) => match e {
                    Error::Io { .. } => !fits && *final(tape) == *old(tape),
                    Error::Validation { subject, found, expected } => {
                        &&& fits
                        &&& final(tape).cursor() == old(tape).cursor() + width
                        &&& !scheme.admits(raw)
                        &&& subject@ == scheme.name@
                        &&& found == raw
                        &&& expected is None
                    },
                    Error::WithSource(_) => false,
                },
            }
        }),
{
    let width = width_of(scheme.kind);
    let bytes = match tape.take_bytes(width) {
        Ok(bytes) => bytes,
        Err(e) => {
            return Err(e);
        },
    };
    proof {
        lemma_be_nat_bound(bytes@);
        crate::bytes::lemma_pow256_values();
        crate::bytes::lemma_pow256_increases(kind_width(scheme.kind), 8);
    }
    let raw = u64_from_be(&bytes);
    from_raw(scheme, raw)
}

} // verus!
