//! Choices: enumerations over an underlying scalar.
//!
//! A choice schema maps variant indices to raw scalar values. The closed
//! form rejects any unmapped raw value; the open (total) form sends it to a
//! fallback that carries the raw value, so reading never fails. The proofs
//! at the bottom state the round-trip laws of both forms.

use vstd::prelude::*;

use crate::Error;
use crate::bytes::{be_nat, lemma_be_nat_bound, pow256, u64_from_be};
use crate::scalar::{ScalarKind, kind_width, width_of};

verus! {

/// An enumeration schema over an underlying scalar type: variant `i` stands
/// for the raw value `values[i]`.
pub struct ChoiceScheme {
    /// The name of the enumeration type, for validation failures.
    pub name: String,
    /// The underlying scalar type the raw value is read as.
    pub kind: ScalarKind,
    /// The mapped raw values, one per variant, in variant order.
    pub values: Vec<u64>,
    /// Whether the mapping is total — an open choice: an unmapped raw value
    /// falls back to [`Choice::Other`] instead of failing.
    pub total: bool,
}

/// A decoded choice: a declared variant by index, or, for an open choice,
/// the fallback carrying an unmapped raw value.
#[derive(Clone, Copy, PartialEq, Eq, Structural, Debug, Hash)]
pub enum Choice {
    Known(usize),
    Other(u64),
}

impl ChoiceScheme {
    /// A schema is well formed when each mapped value fits the underlying
    /// width and no two variants map the same value.
    pub open spec fn wf(&self) -> bool {
        &&& forall|i: int|
            0 <= i < self.values@.len() ==> #[trigger] self.values@[i] < pow256(
                kind_width(self.kind),
            )
        &&& forall|i: int, j: int|
            0 <= i < j < self.values@.len() ==> self.values@[i] != self.values@[j]
    }

    /// Whether `choice` can have come from this schema.
    pub open spec fn holds(&self, choice: Choice) -> bool {
        match choice {
            Choice::Known(i) => i < self.values@.len(),
            Choice::Other(_) => self.total,
        }
    }
}

/// The first index at which `values` holds `raw`, or `-1` for none.
pub open spec fn index_of(values: Seq<u64>, raw: u64) -> int
    decreases values.len(),
{
    if values.len() == 0 {
        -1
    } else if values[0] == raw {
        0
    } else {
        let rest = index_of(values.drop_first(), raw);
        if rest < 0 {
            -1
        } else {
            rest + 1
        }
    }
}

/// What `index_of` finds: the first match, or proof that none matches.
pub proof fn lemma_index_of(values: Seq<u64>, raw: u64)
    ensures
        index_of(values, raw) < 0 ==> forall|i: int|
            0 <= i < values.len() ==> #[trigger] values[i] != raw,
        index_of(values, raw) >= 0 ==> {
            &&& index_of(values, raw) < values.len()
            &&& values[index_of(values, raw)] == raw
            &&& forall|i: int| 0 <= i < index_of(values, raw) ==> #[trigger] values[i] != raw
        },
    decreases values.len(),
{
    if values.len() > 0 && values[0] != raw {
        lemma_index_of(values.drop_first(), raw);
        let rest = index_of(values.drop_first(), raw);
        assert(forall|i: int|
            1 <= i < values.len() ==> #[trigger] values[i] == values.drop_first()[i - 1]);
    }
}

/// The decoding of the raw value `raw` under `scheme`: the variant mapped
/// to it, the fallback if the scheme is total, or nothing.
pub open spec fn choice_of_raw(scheme: ChoiceScheme, raw: u64) -> Option<Choice> {
    let found = index_of(scheme.values@, raw);
    if found >= 0 {
        Some(Choice::Known(found as usize))
    } else if scheme.total {
        Some(Choice::Other(raw))
    } else {
        None
    }
}

/// The raw value a choice converts back to.
pub open spec fn raw_of_choice(scheme: ChoiceScheme, choice: Choice) -> u64 {
    match choice {
        Choice::Known(i) => scheme.values@[i as int],
        Choice::Other(raw) => raw,
    }
}

/// Decode a raw scalar value into a choice: exactly the mapped variant, the
/// fallback for a total scheme, or a validation failure naming the scheme
/// and the raw value.
pub fn from_raw(scheme: &ChoiceScheme, raw: u64) -> (r: Result<Choice, Error>)
    ensures
        match r {
            Ok(c) => choice_of_raw(*scheme, raw) == Some(c),
            Err(e) => {
                &&& choice_of_raw(*scheme, raw) is None
                &&& e == (Error::Validation {
                    subject: e->Validation_subject,
                    found: raw,
                    expected: None,
                })
                &&& e->Validation_subject@ == scheme.name@
            },
        },
{
    let count = scheme.values.len();
    let mut i: usize = 0;
    while i < count
        invariant
            i <= count,
            count == scheme.values@.len(),
            forall|j: int| 0 <= j < i ==> #[trigger] scheme.values@[j] != raw,
        decreases count - i,
    {
        if scheme.values[i] == raw {
            proof {
                lemma_index_of(scheme.values@, raw);
                let found = index_of(scheme.values@, raw);
                assert(found >= 0) by {
                    if found < 0 {
                        assert(scheme.values@[i as int] != raw);
                    }
                }
                assert(found == i) by {
                    if found < i {
                        assert(scheme.values@[found] != raw);
                    }
                    if found > i {
                        assert(scheme.values@[i as int] != raw);
                    }
                }
            }
            return Ok(Choice::Known(i));
        }
        i += 1;
    }
    proof {
        lemma_index_of(scheme.values@, raw);
        assert(index_of(scheme.values@, raw) < 0) by {
            if index_of(scheme.values@, raw) >= 0 {
                assert(scheme.values@[index_of(scheme.values@, raw)] == raw);
            }
        }
    }
    if scheme.total {
        Ok(Choice::Other(raw))
    } else {
        Err(Error::Validation { subject: scheme.name.clone(), found: raw, expected: None })
    }
}

/// Convert a choice back to its raw scalar value: exact inverse of decoding
/// for mapped variants, and the carried value for the fallback.
pub fn to_raw(scheme: &ChoiceScheme, choice: &Choice) -> (r: u64)
    requires
        scheme.holds(*choice),
    ensures
        r == raw_of_choice(*scheme, *choice),
{
    match choice {
        Choice::Known(i) => scheme.values[*i],
        Choice::Other(raw) => *raw,
    }
}

/// Read the underlying scalar and decode it as a choice. The raw value is
/// the big-endian reading of the scalar's bytes.
pub fn read_choice<T: crate::tape::Read>(scheme: &ChoiceScheme, tape: &mut T) -> (r: Result<
    Choice,
    Error,
>)
    ensures
        final(tape).data() == old(tape).data(),
        ({
            let width = kind_width(scheme.kind);
            let fits = old(tape).cursor() + width <= old(tape).data().len();
            let raw = be_nat(
                old(tape).data().subrange(old(tape).cursor() as int, old(tape).cursor() + width),
            ) as u64;
            match r {
                Ok(c) => {
                    &&& fits
                    &&& final(tape).cursor() == old(tape).cursor() + width
                    &&& choice_of_raw(*scheme, raw) == Some(c)
                },
                Err(e) => match e {
                    Error::Io { .. } => !fits && *final(tape) == *old(tape),
                    Error::Validation { subject, found, expected } => {
                        &&& fits
                        &&& final(tape).cursor() == old(tape).cursor() + width
                        &&& choice_of_raw(*scheme, raw) is None
                        &&& subject@ == scheme.name@
                        &&& found == raw
                        &&& expected is None
                    },
                    Error::WithSource(_) => false,
                },
            }
        }),
{
    let width = width_of(scheme.kind);
    let bytes = match tape.take_bytes(width) {
        Ok(bytes) => bytes,
        Err(e) => {
            return Err(e);
        },
    };
    proof {
        lemma_be_nat_bound(bytes@);
        crate::bytes::lemma_pow256_values();
        crate::bytes::lemma_pow256_increases(kind_width(scheme.kind), 8);
    }
    let raw = u64_from_be(&bytes);
    from_raw(scheme, raw)
}

/// Every declared pair of a well-formed choice round-trips: converting
/// variant `i` to its raw value and decoding that raw value yields variant
/// `i` again.
pub proof fn lemma_choice_round_trip(scheme: ChoiceScheme, i: usize)
    requires
        scheme.wf(),
        i < scheme.values@.len(),
    ensures
        choice_of_raw(scheme, raw_of_choice(scheme, Choice::Known(i))) == Some(Choice::Known(i)),
{
    let raw = scheme.values@[i as int];
    lemma_index_of(scheme.values@, raw);
    let found = index_of(scheme.values@, raw);
    assert(found >= 0) by {
        if found < 0 {
            assert(scheme.values@[i as int] != raw);
        }
    }
    assert(found == i) by {
        if found < i {
            assert(scheme.values@[found] != scheme.values@[i as int]);
        }
        if found > i {
            assert(scheme.values@[i as int] != raw);
        }
    }
}

/// An unmapped raw value of an open choice decodes to the fallback carrying
/// it, and converting the fallback back yields the original raw value.
pub proof fn lemma_choice_fallback(scheme: ChoiceScheme, raw: u64)
    requires
        scheme.total,
        forall|i: int| 0 <= i < scheme.values@.len() ==> #[trigger] scheme.values@[i] != raw,
    ensures
        choice_of_raw(scheme, raw) == Some(Choice::Other(raw)),
        raw_of_choice(scheme, Choice::Other(raw)) == raw,
{
    lemma_index_of(scheme.values@, raw);
    assert(index_of(scheme.values@, raw) < 0) by {
        if index_of(scheme.values@, raw) >= 0 {
            assert(scheme.values@[index_of(scheme.values@, raw)] == raw);
        }
    }
}

/// An unmapped raw value of a closed choice does not decode.
pub proof fn lemma_choice_rejects(scheme: ChoiceScheme, raw: u64)
    requires
        !scheme.total,
        forall|i: int| 0 <= i < scheme.values@.len() ==> #[trigger] scheme.values@[i] != raw,
    ensures
        choice_of_raw(scheme, raw) is None,
{
    lemma_index_of(scheme.values@, raw);
    assert(index_of(scheme.values@, raw) < 0) by {
        if index_of(scheme.values@, raw) >= 0 {
            assert(scheme.values@[index_of(scheme.values@, raw)] == raw);
        }
    }
}

} // verus!
