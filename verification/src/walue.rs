//! Types that can be read and written given a parameter.
//!
//! A parameterized type's shape depends on context the bytes do not carry:
//! the one built-in instance is a list of `N` scalar values whose count `N`
//! comes from the caller, not from the stream. A consuming format adds its
//! own instances by implementing the traits.

use vstd::prelude::*;

use crate::Error;
use crate::value::encoding_of;

verus! {

/// A type that can be read given a parameter that fixes its width.
pub trait Read: Sized {
    /// The parameter type.
    type Parameter;

    /// How many bytes a value of this type occupies, given the parameter.
    spec fn spec_width(parameter: Self::Parameter) -> nat;

    /// Whether `v` is the decoding of the byte string `s` under `parameter`,
    /// for `s` of exactly [`Read::spec_width`] bytes.
    spec fn spec_decodes(parameter: Self::Parameter, s: Seq<u8>, v: Self) -> bool;

    /// Read a value at the source's position, advancing past it; fail with
    /// an I/O error, and only then, if fewer bytes are there than the value
    /// needs. A value of width zero consumes no bytes: in particular, a
    /// list of count zero succeeds with the empty list and performs no
    /// read.
    fn read<T: crate::tape::Read>(tape: &mut T, parameter: Self::Parameter) -> (r: Result<
        Self,
        Error,
    >)
        ensures
            final(tape).data() == old(tape).data(),
            match r {
                Ok(v) => {
                    &&& old(tape).cursor() + Self::spec_width(parameter) <= old(
                        tape,
                    ).data().len() || Self::spec_width(parameter) == 0
                    &&& final(tape).cursor() == old(tape).cursor() + Self::spec_width(parameter)
                    &&& Self::spec_decodes(
                        parameter,
                        old(tape).data().subrange(
                            old(tape).cursor() as int,
                            old(tape).cursor() + Self::spec_width(parameter),
                        ),
                        v,
                    )
                },
                Err(e) => {
                    &&& old(tape).cursor() + Self::spec_width(parameter) > old(tape).data().len()
                    &&& old(tape).cursor() <= final(tape).cursor() <= old(tape).cursor()
                        + Self::spec_width(parameter)
                    &&& e is Io
                },
            },
    ;
}

/// A type that can be written given a parameter.
pub trait Write {
    /// The parameter type.
    type Parameter;

    /// The bytes that writing this value emits, given the parameter.
    spec fn spec_encodes(&self, parameter: Self::Parameter) -> Seq<u8>;

    /// Append the value's encoding to the sink.
    fn write<T: crate::tape::Write>(&self, tape: &mut T, parameter: Self::Parameter) -> (r: Result<
        (),
        Error,
    >)
        ensures
            r is Ok,
            final(tape).out() == old(tape).out() + self.spec_encodes(parameter),
    ;
}

impl<V: crate::value::Read> Read for Vec<V> {
    type Parameter = usize;

    open spec fn spec_width(parameter: usize) -> nat {
        (parameter * V::spec_width()) as nat
    }

    open spec fn spec_decodes(parameter: usize, s: Seq<u8>, v: Self) -> bool {
        &&& v@.len() == parameter
        &&& forall|i: int|
            0 <= i < parameter ==> V::spec_decodes(
                s.subrange(i * V::spec_width(), (i + 1) * V::spec_width()),
                #[trigger] v@[i],
            )
    }

    fn read<T: crate::tape::Read>(tape: &mut T, parameter: usize) -> (r: Result<Self, Error>) {
        let ghost data = tape.data();
        let ghost start = tape.cursor();
        let ghost w = V::spec_width();
        let mut values: Vec<V> = Vec::new();
        let mut i: usize = 0;
        while i < parameter
            invariant
                i <= parameter,
                data == old(tape).data(),
                start == old(tape).cursor(),
                tape.data() == data,
                tape.cursor() == start + i * w,
                w == V::spec_width(),
                i > 0 ==> start + i * w <= data.len(),
                values@.len() == i,
                forall|j: int|
                    0 <= j < i ==> V::spec_decodes(
                        data.subrange(start + j * w, start + (j + 1) * w),
                        #[trigger] values@[j],
                    ),
            decreases parameter - i,
        {
            proof {
                assert((i + 1) * w <= parameter * w && i * w <= parameter * w) by (nonlinear_arith)
                    requires
                        0 <= w,
                        i + 1 <= parameter,
                ;
                assert((i + 1) * w == i * w + w) by (nonlinear_arith);
            }
            let element = match V::read(tape) {
                Ok(element) => element,
                Err(e) => {
                    proof {
                        assert(start + parameter * w > data.len());
                        assert(start + i * w <= tape.cursor() <= start + i * w + w);
                    }
                    return Err(e);
                },
            };
            values.push(element);
            proof {
                let j = i as int;
                assert(forall|k: int|
                    0 <= k < j ==> V::spec_decodes(
                        data.subrange(start + k * w, start + (k + 1) * w),
                        #[trigger] values@[k],
                    ));
                assert(V::spec_decodes(
                    data.subrange(start + j * w, start + (j + 1) * w),
                    values@[j],
                ));
            }
            i += 1;
        }
        proof {
            let width = (parameter * w) as int;
            let whole = data.subrange(start as int, start + width);
            assert forall|j: int| 0 <= j < parameter implies V::spec_decodes(
                whole.subrange(j * w, (j + 1) * w),
                #[trigger] values@[j],
            ) by {
                assert((j + 1) * w <= parameter * w) by (nonlinear_arith)
                    requires
                        0 <= w,
                        j + 1 <= parameter,
                ;
                assert(0 <= j * w && j * w + w == (j + 1) * w) by (nonlinear_arith)
                    requires
                        0 <= j,
                        0 <= w,
                ;
                assert(whole.subrange(j * w, (j + 1) * w) =~= data.subrange(
                    start + j * w,
                    start + (j + 1) * w,
                ));
            }
        }
        Ok(values)
    }
}

impl<V: crate::value::Write> Write for Vec<V> {
    type Parameter = usize;

    open spec fn spec_encodes(&self, parameter: usize) -> Seq<u8> {
        encoding_of(self@)
    }

    fn write<T: crate::tape::Write>(&self, tape: &mut T, parameter: usize) -> (r: Result<
        (),
        Error,
    >) {
        let count = self.len();
        let mut i: usize = 0;
        while i < count
            invariant
                i <= count,
                count == self@.len(),
                tape.out() == old(tape).out() + encoding_of(self@.take(i as int)),
            decreases count - i,
        {
            let ghost before = tape.out();
            match self[i].write(tape) {
                Ok(()) => (),
                Err(e) => {
                    return Err(e);
                },
            };
            proof {
                assert(self@.take(i + 1).drop_last() =~= self@.take(i as int));
                assert(self@.take(i + 1).last() == self@[i as int]);
            }
            i += 1;
        }
        proof {
            assert(self@.take(count as int) =~= self@);
        }
        Ok(())
    }
}

/// A counted list round-trips: whenever the element codec round-trips, the
/// concatenated encoding of a list decodes back to the same elements, in
/// the same order, under its own length as the count.
pub proof fn lemma_list_round_trip<V: crate::value::Read + crate::value::Write>(v: Seq<V>)
    requires
        forall|u: V| (#[trigger] u.spec_encode()).len() == V::spec_width(),
        forall|u: V| V::spec_decodes(#[trigger] u.spec_encode(), u),
    ensures
        encoding_of(v).len() == v.len() * V::spec_width(),
        forall|i: int|
            0 <= i < v.len() ==> V::spec_decodes(
                encoding_of(v).subrange(i * V::spec_width(), (i + 1) * V::spec_width()),
                #[trigger] v[i],
            ),
    decreases v.len(),
{
    let w = V::spec_width() as int;
    if v.len() == 0 {
        assert(encoding_of(v).len() == v.len() * w) by (nonlinear_arith)
            requires
                encoding_of(v).len() == 0,
                v.len() == 0,
        ;
    } else {
        let head = v.drop_last();
        lemma_list_round_trip::<V>(head);
        let whole = encoding_of(v);
        let n = v.len() as int;
        assert(whole == encoding_of(head) + v.last().spec_encode());
        assert(whole.len() == (n - 1) * w + w);
        assert((n - 1) * w + w == n * w) by (nonlinear_arith);
        assert forall|i: int| 0 <= i < n implies V::spec_decodes(
            whole.subrange(i * w, (i + 1) * w),
            #[trigger] v[i],
        ) by {
            assert(0 <= i * w && i * w + w == (i + 1) * w && (i + 1) * w <= n * w)
                by (nonlinear_arith)
                requires
                    0 <= i < n,
                    0 <= w,
            ;
            if i < n - 1 {
                assert((i + 1) * w <= (n - 1) * w) by (nonlinear_arith)
                    requires
                        i + 1 <= n - 1,
                        0 <= w,
                ;
                assert(whole.subrange(i * w, (i + 1) * w) =~= encoding_of(head).subrange(
                    i * w,
                    (i + 1) * w,
                ));
                assert(head[i] == v[i]);
            } else {
                assert(whole.subrange((n - 1) * w, n * w) =~= v.last().spec_encode());
            }
        }
    }
}

} // verus!
