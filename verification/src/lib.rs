//! Foundation for decoding and encoding strictly laid-out big-endian binary
//! records of the kind found in font-table formats: fixed-width scalar fields,
//! offset-addressed sub-structures, closed and open enumerations, and
//! validated bit-flags.
//!
//! The [`bytes`] module states what big-endian bytes mean; [`tape`] holds
//! the cursor over an in-memory byte source and the byte sink; [`value`] the
//! fixed-width scalar codec; [`walue`] the parameterized codec; [`jump`] the
//! offset-addressing helpers; [`scalar`] the dynamically tagged scalar
//! values that schemas speak of; [`table`] the record schema interpreter;
//! [`choice`] and [`flag`] the enumeration and bit-flag schema interpreters;
//! and [`number`] the fixed-point numbers.

use vstd::prelude::*;

pub mod bytes;
pub mod choice;
pub mod flag;
pub mod jump;
pub mod number;
pub mod scalar;
pub mod table;
pub mod tape;
pub mod value;
pub mod walue;

verus! {

/// Why a read, a write, or a validation failed.
///
/// Failures are immediate and fail-fast: a failing field read aborts its
/// enclosing record read, and no partially constructed value is ever handed
/// back to a caller.
#[derive(Debug)]
pub enum Error {
    /// The byte source could not supply the requested bytes: `wanted` more
    /// bytes were asked for at absolute position `position` than were there.
    Io { position: u64, wanted: u64 },
    /// Decoded data violates a declared invariant: `subject` names the
    /// offending type or field, `found` holds the observed raw bits, and
    /// `expected`, where relevant, the raw bits that were declared.
    Validation { subject: String, found: u64, expected: Option<u64> },
    /// A failure wrapped with a descriptive context message.
    WithSource(Box<ErrorWithSource>),
}

/// An error caused by another error.
#[derive(Debug)]
pub struct ErrorWithSource {
    pub description: String,
    pub source: Error,
}

impl Error {
    /// Whether the error reports that the byte source ran short.
    pub open spec fn is_io(self) -> bool {
        self is Io
    }

    /// Whether the error reports decoded data that violates an invariant.
    pub open spec fn is_validation(self) -> bool {
        self is Validation
    }

    /// Wrap the error with a descriptive context message added at the point
    /// of failure; the underlying cause is kept verbatim.
    pub fn wrap(self, description: String) -> (r: Error)
        ensures
            r matches Error::WithSource(inner) && inner.description == description
                && inner.source == self,
    {
        Error::WithSource(Box::new(ErrorWithSource { description, source: self }))
    }
}

} // verus!
