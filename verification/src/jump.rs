//! Offset-addressing helpers.
//!
//! Offset-valued fields address sibling content relative to the position a
//! record started at — its base — never relative to the cursor's position at
//! call time. Each helper seeks to `base + offset`, reads there, and leaves
//! the cursor after what it read; an optional offset of zero means "absent"
//! and touches neither the cursor nor the bytes.

use vstd::prelude::*;

use crate::Error;
use crate::tape::ReadExt;

verus! {

/// Seek to `base + offset` and read one value there.
pub fn jump_take<T: crate::tape::Read, V: crate::value::Read>(
    tape: &mut T,
    base: u64,
    offset: u64,
) -> (r: Result<V, Error>)
    requires
        base + offset <= u64::MAX,
    ensures
        final(tape).data() == old(tape).data(),
        match r {
            Ok(v) => {
                &&& base + offset + V::spec_width() <= old(tape).data().len()
                &&& final(tape).cursor() == base + offset + V::spec_width()
                &&& V::spec_decodes(
                    old(tape).data().subrange(
                        base + offset,
                        base + offset + V::spec_width(),
                    ),
                    v,
                )
            },
            Err(e) => {
                &&& base + offset + V::spec_width() > old(tape).data().len()
                &&& e is Io
            },
        },
{
    tape.jump(base + offset)?;
    tape.take()
}

/// Seek to `base + offset` and read one parameterized value there.
pub fn jump_take_given<T: crate::tape::Read, V: crate::walue::Read>(
    tape: &mut T,
    base: u64,
    offset: u64,
    parameter: V::Parameter,
) -> (r: Result<V, Error>)
    requires
        base + offset <= u64::MAX,
    ensures
        final(tape).data() == old(tape).data(),
        match r {
            Ok(v) => {
                &&& base + offset + V::spec_width(parameter) <= old(tape).data().len()
                    || V::spec_width(parameter) == 0
                &&& final(tape).cursor() == base + offset + V::spec_width(parameter)
                &&& V::spec_decodes(
                    parameter,
                    old(tape).data().subrange(
                        base + offset,
                        base + offset + V::spec_width(parameter),
                    ),
                    v,
                )
            },
            Err(e) => {
                &&& base + offset + V::spec_width(parameter) > old(tape).data().len()
                &&& e is Io
            },
        },
{
    tape.jump(base + offset)?;
    tape.take_given(parameter)
}

/// Read one value at `base + offset`, or yield "absent" for an offset of
/// zero without seeking or reading: that is the encoding's convention for
/// nullable offset fields.
pub fn jump_take_maybe<T: crate::tape::Read, V: crate::value::Read>(
    tape: &mut T,
    base: u64,
    offset: u64,
) -> (r: Result<Option<V>, Error>)
    requires
        base + offset <= u64::MAX,
    ensures
        final(tape).data() == old(tape).data(),
        match r {
            Ok(taken) => match taken {
                Option::None => offset == 0 && *final(tape) == *old(tape),
                Option::Some(v) => {
                    &&& offset > 0
                    &&& base + offset + V::spec_width() <= old(tape).data().len()
                    &&& final(tape).cursor() == base + offset + V::spec_width()
                    &&& V::spec_decodes(
                        old(tape).data().subrange(
                            base + offset,
                            base + offset + V::spec_width(),
                        ),
                        v,
                    )
                },
            },
            Err(e) => {
                &&& offset > 0
                &&& base + offset + V::spec_width() > old(tape).data().len()
                &&& e is Io
            },
        },
{
    if offset > 0 {
        tape.jump(base + offset)?;
        match tape.take() {
            Ok(v) => Ok(Some(v)),
            Err(e) => Err(e),
        }
    } else {
        Ok(None)
    }
}

/// Seek to `base + offsets[i]` for each index in order and read one value
/// there, collecting the values in the same order as the offsets.
pub fn jump_take_all<T: crate::tape::Read, V: crate::value::Read>(
    tape: &mut T,
    base: u64,
    offsets: &Vec<u64>,
) -> (r: Result<Vec<V>, Error>)
    requires
        forall|i: int| 0 <= i < offsets@.len() ==> base + #[trigger] offsets@[i] <= u64::MAX,
    ensures
        final(tape).data() == old(tape).data(),
        match r {
            Ok(values) => {
                &&& values@.len() == offsets@.len()
                &&& forall|i: int|
                    0 <= i < offsets@.len() ==> base + #[trigger] offsets@[i] + V::spec_width()
                        <= old(tape).data().len()
                &&& forall|i: int|
                    0 <= i < offsets@.len() ==> V::spec_decodes(
                        old(tape).data().subrange(
                            base + offsets@[i],
                            base + offsets@[i] + V::spec_width(),
                        ),
                        #[trigger] values@[i],
                    )
            },
            Err(e) => {
                &&& exists|i: int|
                    0 <= i < offsets@.len() && base + #[trigger] offsets@[i] + V::spec_width()
                        > old(tape).data().len()
                &&& e is Io
            },
        },
{
    let count = offsets.len();
    let mut values: Vec<V> = Vec::new();
    let mut i: usize = 0;
    while i < count
        invariant
            i <= count,
            count == offsets@.len(),
            tape.data() == old(tape).data(),
            values@.len() == i,
            forall|j: int| 0 <= j < count ==> base + #[trigger] offsets@[j] <= u64::MAX,
            forall|j: int|
                0 <= j < i ==> base + #[trigger] offsets@[j] + V::spec_width() <= old(
                    tape,
                ).data().len(),
            forall|j: int|
                0 <= j < i ==> V::spec_decodes(
                    old(tape).data().subrange(
                        base + offsets@[j],
                        base + offsets@[j] + V::spec_width(),
                    ),
                    #[trigger] values@[j],
                ),
        decreases count - i,
    {
        tape.jump(base + offsets[i])?;
        let ghost kept = values@;
        match tape.take::<V>() {
            Ok(v) => {
                values.push(v);
                proof {
                    assert(base + offsets@[i as int] + V::spec_width() <= old(
                        tape,
                    ).data().len());
                    assert forall|j: int| 0 <= j < i + 1 implies V::spec_decodes(
                        old(tape).data().subrange(
                            base + offsets@[j],
                            base + offsets@[j] + V::spec_width(),
                        ),
                        #[trigger] values@[j],
                    ) by {
                        if j < i {
                            assert(values@[j] == kept[j]);
                        } else {
                            assert(values@[j] == v);
                        }
                    }
                }
            },
            Err(e) => {
                proof {
                    assert(0 <= i < offsets@.len() && base + offsets@[i as int] + V::spec_width()
                        > old(tape).data().len());
                }
                return Err(e);
            },
        }
        i += 1;
    }
    Ok(values)
}

/// Seek to `base + offsets[i]` for each index in order and read one
/// parameterized value there, handing each read the same parameter.
pub fn jump_take_given_all<T: crate::tape::Read, V: crate::walue::Read>(
    tape: &mut T,
    base: u64,
    offsets: &Vec<u64>,
    parameter: V::Parameter,
) -> (r: Result<Vec<V>, Error>) where V::Parameter: Copy
    requires
        forall|i: int| 0 <= i < offsets@.len() ==> base + #[trigger] offsets@[i] <= u64::MAX,
    ensures
        final(tape).data() == old(tape).data(),
        match r {
            Ok(values) => {
                &&& values@.len() == offsets@.len()
                &&& forall|i: int|
                    0 <= i < offsets@.len() ==> base + #[trigger] offsets@[i] + V::spec_width(
                        parameter,
                    ) <= old(tape).data().len() || V::spec_width(parameter) == 0
                &&& forall|i: int|
                    0 <= i < offsets@.len() ==> V::spec_decodes(
                        parameter,
                        old(tape).data().subrange(
                            base + offsets@[i],
                            base + offsets@[i] + V::spec_width(parameter),
                        ),
                        #[trigger] values@[i],
                    )
            },
            Err(e) => {
                &&& exists|i: int|
                    0 <= i < offsets@.len() && base + #[trigger] offsets@[i] + V::spec_width(
                        parameter,
                    ) > old(tape).data().len()
                &&& e is Io
            },
        },
{
    let count = offsets.len();
    let mut values: Vec<V> = Vec::new();
    let mut i: usize = 0;
    while i < count
        invariant
            i <= count,
            count == offsets@.len(),
            tape.data() == old(tape).data(),
            values@.len() == i,
            forall|j: int| 0 <= j < count ==> base + #[trigger] offsets@[j] <= u64::MAX,
            forall|j: int|
                0 <= j < i ==> base + #[trigger] offsets@[j] + V::spec_width(parameter) <= old(
                    tape,
                ).data().len() || V::spec_width(parameter) == 0,
            forall|j: int|
                0 <= j < i ==> V::spec_decodes(
                    parameter,
                    old(tape).data().subrange(
                        base + offsets@[j],
                        base + offsets@[j] + V::spec_width(parameter),
                    ),
                    #[trigger] values@[j],
                ),
        decreases count - i,
    {
        tape.jump(base + offsets[i])?;
        let ghost kept = values@;
        match tape.take_given::<V>(parameter) {
            Ok(v) => {
                values.push(v);
                proof {
                    assert(base + offsets@[i as int] + V::spec_width(parameter) <= old(
                        tape,
                    ).data().len() || V::spec_width(parameter) == 0);
                    assert forall|j: int| 0 <= j < i + 1 implies V::spec_decodes(
                        parameter,
                        old(tape).data().subrange(
                            base + offsets@[j],
                            base + offsets@[j] + V::spec_width(parameter),
                        ),
                        #[trigger] values@[j],
                    ) by {
                        if j < i {
                            assert(values@[j] == kept[j]);
                        } else {
                            assert(values@[j] == v);
                        }
                    }
                }
            },
            Err(e) => {
                proof {
                    assert(0 <= i < offsets@.len() && base + offsets@[i as int] + V::spec_width(
                        parameter,
                    ) > old(tape).data().len());
                }
                return Err(e);
            },
        }
        i += 1;
    }
    Ok(values)
}

/// Apply the optional-offset convention at `base + offsets[i]` for each
/// index in order: absent entries stay in place and do not shift the rest.
pub fn jump_take_maybe_all<T: crate::tape::Read, V: crate::value::Read>(
    tape: &mut T,
    base: u64,
    offsets: &Vec<u64>,
) -> (r: Result<Vec<Option<V>>, Error>)
    requires
        forall|i: int| 0 <= i < offsets@.len() ==> base + #[trigger] offsets@[i] <= u64::MAX,
    ensures
        final(tape).data() == old(tape).data(),
        match r {
            Ok(values) => {
                &&& values@.len() == offsets@.len()
                &&& forall|i: int|
                    0 <= i < offsets@.len() ==> match #[trigger] values@[i] {
                        Option::None => offsets@[i] == 0,
                        Option::Some(v) => {
                            &&& offsets@[i] > 0
                            &&& base + offsets@[i] + V::spec_width() <= old(tape).data().len()
                            &&& V::spec_decodes(
                                old(tape).data().subrange(
                                    base + offsets@[i],
                                    base + offsets@[i] + V::spec_width(),
                                ),
                                v,
                            )
                        },
                    }
            },
            Err(e) => {
                &&& exists|i: int|
                    0 <= i < offsets@.len() && #[trigger] offsets@[i] > 0 && base + offsets@[i]
                        + V::spec_width() > old(tape).data().len()
                &&& e is Io
            },
        },
{
    let count = offsets.len();
    let mut values: Vec<Option<V>> = Vec::new();
    let mut i: usize = 0;
    while i < count
        invariant
            i <= count,
            count == offsets@.len(),
            tape.data() == old(tape).data(),
            values@.len() == i,
            forall|j: int| 0 <= j < count ==> base + #[trigger] offsets@[j] <= u64::MAX,
            forall|j: int|
                0 <= j < i ==> match #[trigger] values@[j] {
                    Option::None => offsets@[j] == 0,
                    Option::Some(v) => {
                        &&& offsets@[j] > 0
                        &&& base + offsets@[j] + V::spec_width() <= old(tape).data().len()
                        &&& V::spec_decodes(
                            old(tape).data().subrange(
                                base + offsets@[j],
                                base + offsets@[j] + V::spec_width(),
                            ),
                            v,
                        )
                    },
                },
        decreases count - i,
    {
        if offsets[i] > 0 {
            tape.jump(base + offsets[i])?;
            let ghost kept = values@;
            match tape.take::<V>() {
                Ok(v) => {
                    values.push(Some(v));
                    proof {
                        assert forall|j: int| 0 <= j < i + 1 implies match #[trigger] values@[j] {
                            Option::None => offsets@[j] == 0,
                            Option::Some(w) => {
                                &&& offsets@[j] > 0
                                &&& base + offsets@[j] + V::spec_width() <= old(tape).data().len()
                                &&& V::spec_decodes(
                                    old(tape).data().subrange(
                                        base + offsets@[j],
                                        base + offsets@[j] + V::spec_width(),
                                    ),
                                    w,
                                )
                            },
                        } by {
                            if j < i {
                                assert(values@[j] == kept[j]);
                            } else {
                                assert(values@[j] == Some(v));
                            }
                        }
                    }
                },
                Err(e) => {
                    proof {
                        assert(0 <= i < offsets@.len() && offsets@[i as int] > 0 && base
                            + offsets@[i as int] + V::spec_width() > old(tape).data().len());
                    }
                    return Err(e);
                },
            }
        } else {
            values.push(None);
        }
        i += 1;
    }
    Ok(values)
}

} // verus!
