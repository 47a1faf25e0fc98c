//! Types that can be read and written: the fixed-width scalar codec.
//!
//! A readable type consumes exactly [`Read::spec_width`] bytes, big-endian,
//! and a writable one emits exactly its encoding; the round-trip laws at the
//! bottom of the module state that the two directions invert each other.

use vstd::prelude::*;

use crate::Error;
use crate::bytes::{
    be_bytes, be_from_u64, be_nat, bits_of_signed, lemma_be_bytes_len, lemma_be_bytes_of_be_nat,
    lemma_be_nat_bound, lemma_be_nat_of_be_bytes, lemma_pow256_values, lemma_signed_round_trip,
    signed_of, u64_from_be,
};

verus! {

/// A type that can be read: it consumes a fixed number of bytes in order.
pub trait Read: Sized {
    /// How many bytes a value of this type occupies.
    spec fn spec_width() -> nat;

    /// Whether `v` is the decoding of the byte string `s`, for `s` of
    /// exactly [`Read::spec_width`] bytes.
    spec fn spec_decodes(s: Seq<u8>, v: Self) -> bool;

    /// Read a value at the source's position, advancing past it; fail with
    /// an I/O error, and only then, if fewer bytes are there than the value
    /// needs.
    fn read<T: crate::tape::Read>(tape: &mut T) -> (r: Result<Self, Error>)
        ensures
            final(tape).data() == old(tape).data(),
            match r {
                Ok(v) => {
                    &&& old(tape).cursor() + Self::spec_width() <= old(tape).data().len()
                    &&& final(tape).cursor() == old(tape).cursor() + Self::spec_width()
                    &&& Self::spec_decodes(
                        old(tape).data().subrange(
                            old(tape).cursor() as int,
                            old(tape).cursor() + Self::spec_width(),
                        ),
                        v,
                    )
                },
                Err(e) => {
                    &&& old(tape).cursor() + Self::spec_width() > old(tape).data().len()
                    &&& old(tape).cursor() <= final(tape).cursor()
                        <= old(tape).cursor() + Self::spec_width()
                    &&& e is Io
                },
            },
    ;
}

/// A type that can be written: it emits exactly its encoding, in order.
pub trait Write {
    /// The bytes that writing this value emits.
    spec fn spec_encode(&self) -> Seq<u8>;

    /// Append the value's encoding to the sink.
    fn write<T: crate::tape::Write>(&self, tape: &mut T) -> (r: Result<(), Error>)
        ensures
            r is Ok,
            final(tape).out() == old(tape).out() + self.spec_encode(),
    ;
}

/// The concatenation of the encodings of the values of `s`, in order.
pub open spec fn encoding_of<V: Write>(s: Seq<V>) -> Seq<u8>
    decreases s.len(),
{
    if s.len() == 0 {
        Seq::empty()
    } else {
        encoding_of(s.drop_last()) + s.last().spec_encode()
    }
}

impl Read for u8 {
    open spec fn spec_width() -> nat {
        1
    }

    open spec fn spec_decodes(s: Seq<u8>, v: Self) -> bool {
        v == be_nat(s)
    }

    fn read<T: crate::tape::Read>(tape: &mut T) -> (r: Result<Self, Error>) {
        let bytes = tape.take_bytes(1)?;
        proof {
            lemma_be_nat_bound(bytes@);
            lemma_pow256_values();
        }
        Ok(u64_from_be(&bytes) as u8)
    }
}

impl Write for u8 {
    open spec fn spec_encode(&self) -> Seq<u8> {
        be_bytes(*self as nat, 1)
    }

    fn write<T: crate::tape::Write>(&self, tape: &mut T) -> (r: Result<(), Error>) {
        proof {
            lemma_pow256_values();
        }
        let bytes = be_from_u64(*self as u64, 1);
        tape.put(&bytes)
    }
}

impl Read for u16 {
    open spec fn spec_width() -> nat {
        2
    }

    open spec fn spec_decodes(s: Seq<u8>, v: Self) -> bool {
        v == be_nat(s)
    }

    fn read<T: crate::tape::Read>(tape: &mut T) -> (r: Result<Self, Error>) {
        let bytes = tape.take_bytes(2)?;
        proof {
            lemma_be_nat_bound(bytes@);
            lemma_pow256_values();
        }
        Ok(u64_from_be(&bytes) as u16)
    }
}

impl Write for u16 {
    open spec fn spec_encode(&self) -> Seq<u8> {
        be_bytes(*self as nat, 2)
    }

    fn write<T: crate::tape::Write>(&self, tape: &mut T) -> (r: Result<(), Error>) {
        proof {
            lemma_pow256_values();
        }
        let bytes = be_from_u64(*self as u64, 2);
        tape.put(&bytes)
    }
}

impl Read for u32 {
    open spec fn spec_width() -> nat {
        4
    }

    open spec fn spec_decodes(s: Seq<u8>, v: Self) -> bool {
        v == be_nat(s)
    }

    fn read<T: crate::tape::Read>(tape: &mut T) -> (r: Result<Self, Error>) {
        let bytes = tape.take_bytes(4)?;
        proof {
            lemma_be_nat_bound(bytes@);
            lemma_pow256_values();
        }
        Ok(u64_from_be(&bytes) as u32)
    }
}

impl Write for u32 {
    open spec fn spec_encode(&self) -> Seq<u8> {
        be_bytes(*self as nat, 4)
    }

    fn write<T: crate::tape::Write>(&self, tape: &mut T) -> (r: Result<(), Error>) {
        proof {
            lemma_pow256_values();
        }
        let bytes = be_from_u64(*self as u64, 4);
        tape.put(&bytes)
    }
}

impl Read for u64 {
    open spec fn spec_width() -> nat {
        8
    }

    open spec fn spec_decodes(s: Seq<u8>, v: Self) -> bool {
        v == be_nat(s)
    }

    fn read<T: crate::tape::Read>(tape: &mut T) -> (r: Result<Self, Error>) {
        let bytes = tape.take_bytes(8)?;
        proof {
            lemma_be_nat_bound(bytes@);
            lemma_pow256_values();
        }
        Ok(u64_from_be(&bytes))
    }
}

impl Write for u64 {
    open spec fn spec_encode(&self) -> Seq<u8> {
        be_bytes(*self as nat, 8)
    }

    fn write<T: crate::tape::Write>(&self, tape: &mut T) -> (r: Result<(), Error>) {
        proof {
            lemma_pow256_values();
        }
        let bytes = be_from_u64(*self, 8);
        tape.put(&bytes)
    }
}

impl Read for i8 {
    open spec fn spec_width() -> nat {
        1
    }

    open spec fn spec_decodes(s: Seq<u8>, v: Self) -> bool {
        v == signed_of(be_nat(s), 1)
    }

    fn read<T: crate::tape::Read>(tape: &mut T) -> (r: Result<Self, Error>) {
        let bytes = tape.take_bytes(1)?;
        proof {
            lemma_be_nat_bound(bytes@);
            lemma_pow256_values();
        }
        let raw = u64_from_be(&bytes);
        Ok(if raw < 0x80 { raw as i8 } else { ((raw as i64) - 0x100) as i8 })
    }
}

impl Write for i8 {
    open spec fn spec_encode(&self) -> Seq<u8> {
        be_bytes(bits_of_signed(*self as int, 1), 1)
    }

    fn write<T: crate::tape::Write>(&self, tape: &mut T) -> (r: Result<(), Error>) {
        proof {
            lemma_pow256_values();
        }
        let bits: u64 = if *self >= 0 { *self as u64 } else { ((*self as i64) + 0x100) as u64 };
        let bytes = be_from_u64(bits, 1);
        tape.put(&bytes)
    }
}

impl Read for i16 {
    open spec fn spec_width() -> nat {
        2
    }

    open spec fn spec_decodes(s: Seq<u8>, v: Self) -> bool {
        v == signed_of(be_nat(s), 2)
    }

    fn read<T: crate::tape::Read>(tape: &mut T) -> (r: Result<Self, Error>) {
        let bytes = tape.take_bytes(2)?;
        proof {
            lemma_be_nat_bound(bytes@);
            lemma_pow256_values();
        }
        let raw = u64_from_be(&bytes);
        Ok(if raw < 0x8000 { raw as i16 } else { ((raw as i64) - 0x1_0000) as i16 })
    }
}

impl Write for i16 {
    open spec fn spec_encode(&self) -> Seq<u8> {
        be_bytes(bits_of_signed(*self as int, 2), 2)
    }

    fn write<T: crate::tape::Write>(&self, tape: &mut T) -> (r: Result<(), Error>) {
        proof {
            lemma_pow256_values();
        }
        let bits: u64 = if *self >= 0 { *self as u64 } else { ((*self as i64) + 0x1_0000) as u64 };
        let bytes = be_from_u64(bits, 2);
        tape.put(&bytes)
    }
}

impl Read for i32 {
    open spec fn spec_width() -> nat {
        4
    }

    open spec fn spec_decodes(s: Seq<u8>, v: Self) -> bool {
        v == signed_of(be_nat(s), 4)
    }

    fn read<T: crate::tape::Read>(tape: &mut T) -> (r: Result<Self, Error>) {
        let bytes = tape.take_bytes(4)?;
        proof {
            lemma_be_nat_bound(bytes@);
            lemma_pow256_values();
        }
        let raw = u64_from_be(&bytes);
        Ok(if raw < 0x8000_0000 { raw as i32 } else { ((raw as i64) - 0x1_0000_0000) as i32 })
    }
}

impl Write for i32 {
    open spec fn spec_encode(&self) -> Seq<u8> {
        be_bytes(bits_of_signed(*self as int, 4), 4)
    }

    fn write<T: crate::tape::Write>(&self, tape: &mut T) -> (r: Result<(), Error>) {
        proof {
            lemma_pow256_values();
        }
        let bits: u64 = if *self >= 0 {
            *self as u64
        } else {
            ((*self as i64) + 0x1_0000_0000) as u64
        };
        let bytes = be_from_u64(bits, 4);
        tape.put(&bytes)
    }
}

impl Read for i64 {
    open spec fn spec_width() -> nat {
        8
    }

    open spec fn spec_decodes(s: Seq<u8>, v: Self) -> bool {
        v == signed_of(be_nat(s), 8)
    }

    fn read<T: crate::tape::Read>(tape: &mut T) -> (r: Result<Self, Error>) {
        let bytes = tape.take_bytes(8)?;
        proof {
            lemma_be_nat_bound(bytes@);
            lemma_pow256_values();
        }
        let raw = u64_from_be(&bytes);
        Ok(
            if raw < 0x8000_0000_0000_0000 {
                raw as i64
            } else {
                ((raw - 0x8000_0000_0000_0000) as i64) + (-0x7FFF_FFFF_FFFF_FFFFi64 - 1)
            },
        )
    }
}

impl Write for i64 {
    open spec fn spec_encode(&self) -> Seq<u8> {
        be_bytes(bits_of_signed(*self as int, 8), 8)
    }

    fn write<T: crate::tape::Write>(&self, tape: &mut T) -> (r: Result<(), Error>) {
        proof {
            lemma_pow256_values();
        }
        let bits: u64 = if *self >= 0 {
            *self as u64
        } else {
            ((*self + 0x7FFF_FFFF_FFFF_FFFF + 1) as u64) + 0x8000_0000_0000_0000
        };
        let bytes = be_from_u64(bits, 8);
        tape.put(&bytes)
    }
}

/// The two's-complement reading of one byte.
fn i8_of_byte(b: u8) -> (r: i8)
    ensures
        r == signed_of(b as nat, 1),
{
    proof {
        lemma_pow256_values();
    }
    if b < 0x80 {
        b as i8
    } else {
        ((b as i16) - 0x100) as i8
    }
}

/// The byte whose two's-complement reading is `v`.
fn byte_of_i8(v: i8) -> (r: u8)
    ensures
        r == bits_of_signed(v as int, 1),
{
    proof {
        lemma_pow256_values();
    }
    if v >= 0 {
        v as u8
    } else {
        ((v as i16) + 0x100) as u8
    }
}

impl Read for [u8; 3] {
    open spec fn spec_width() -> nat {
        3
    }

    open spec fn spec_decodes(s: Seq<u8>, v: Self) -> bool {
        v@ == s
    }

    fn read<T: crate::tape::Read>(tape: &mut T) -> (r: Result<Self, Error>) {
        let bytes = tape.take_bytes(3)?;
        let value: [u8; 3] = [bytes[0], bytes[1], bytes[2]];
        proof {
            assert(value@ =~= bytes@);
        }
        Ok(value)
    }
}

impl Write for [u8; 3] {
    open spec fn spec_encode(&self) -> Seq<u8> {
        self@
    }

    fn write<T: crate::tape::Write>(&self, tape: &mut T) -> (r: Result<(), Error>) {
        let mut bytes: Vec<u8> = Vec::new();
        bytes.push(self[0]);
        bytes.push(self[1]);
        bytes.push(self[2]);
        proof {
            assert(bytes@ =~= self@);
        }
        tape.put(&bytes)
    }
}

impl Read for [u8; 4] {
    open spec fn spec_width() -> nat {
        4
    }

    open spec fn spec_decodes(s: Seq<u8>, v: Self) -> bool {
        v@ == s
    }

    fn read<T: crate::tape::Read>(tape: &mut T) -> (r: Result<Self, Error>) {
        let bytes = tape.take_bytes(4)?;
        let value: [u8; 4] = [bytes[0], bytes[1], bytes[2], bytes[3]];
        proof {
            assert(value@ =~= bytes@);
        }
        Ok(value)
    }
}

impl Write for [u8; 4] {
    open spec fn spec_encode(&self) -> Seq<u8> {
        self@
    }

    fn write<T: crate::tape::Write>(&self, tape: &mut T) -> (r: Result<(), Error>) {
        let mut bytes: Vec<u8> = Vec::new();
        bytes.push(self[0]);
        bytes.push(self[1]);
        bytes.push(self[2]);
        bytes.push(self[3]);
        proof {
            assert(bytes@ =~= self@);
        }
        tape.put(&bytes)
    }
}

impl Read for [u8; 10] {
    open spec fn spec_width() -> nat {
        10
    }

    open spec fn spec_decodes(s: Seq<u8>, v: Self) -> bool {
        v@ == s
    }

    fn read<T: crate::tape::Read>(tape: &mut T) -> (r: Result<Self, Error>) {
        let bytes = tape.take_bytes(10)?;
        let value: [u8; 10] = [
            bytes[0],
            bytes[1],
            bytes[2],
            bytes[3],
            bytes[4],
            bytes[5],
            bytes[6],
            bytes[7],
            bytes[8],
            bytes[9],
        ];
        proof {
            assert(value@ =~= bytes@);
        }
        Ok(value)
    }
}

impl Write for [u8; 10] {
    open spec fn spec_encode(&self) -> Seq<u8> {
        self@
    }

    fn write<T: crate::tape::Write>(&self, tape: &mut T) -> (r: Result<(), Error>) {
        let mut bytes: Vec<u8> = Vec::new();
        let mut i: usize = 0;
        while i < 10
            invariant
                i <= 10,
                bytes@ =~= self@.subrange(0, i as int),
            decreases 10 - i,
        {
            bytes.push(self[i]);
            assert(bytes@ =~= self@.subrange(0, i + 1));
            i += 1;
        }
        proof {
            assert(bytes@ =~= self@);
        }
        tape.put(&bytes)
    }
}

impl Read for [i8; 4] {
    open spec fn spec_width() -> nat {
        4
    }

    open spec fn spec_decodes(s: Seq<u8>, v: Self) -> bool {
        &&& v@[0] == signed_of(s[0] as nat, 1)
        &&& v@[1] == signed_of(s[1] as nat, 1)
        &&& v@[2] == signed_of(s[2] as nat, 1)
        &&& v@[3] == signed_of(s[3] as nat, 1)
    }

    fn read<T: crate::tape::Read>(tape: &mut T) -> (r: Result<Self, Error>) {
        let bytes = tape.take_bytes(4)?;
        let value: [i8; 4] = [
            i8_of_byte(bytes[0]),
            i8_of_byte(bytes[1]),
            i8_of_byte(bytes[2]),
            i8_of_byte(bytes[3]),
        ];
        Ok(value)
    }
}

impl Write for [i8; 4] {
    open spec fn spec_encode(&self) -> Seq<u8> {
        seq![
            bits_of_signed(self@[0] as int, 1) as u8,
            bits_of_signed(self@[1] as int, 1) as u8,
            bits_of_signed(self@[2] as int, 1) as u8,
            bits_of_signed(self@[3] as int, 1) as u8,
        ]
    }

    fn write<T: crate::tape::Write>(&self, tape: &mut T) -> (r: Result<(), Error>) {
        let mut bytes: Vec<u8> = Vec::new();
        bytes.push(byte_of_i8(self[0]));
        bytes.push(byte_of_i8(self[1]));
        bytes.push(byte_of_i8(self[2]));
        bytes.push(byte_of_i8(self[3]));
        proof {
            lemma_pow256_values();
            assert(bytes@ =~= self.spec_encode());
        }
        tape.put(&bytes)
    }
}

impl<U: Read, V: Read> Read for (U, V) {
    open spec fn spec_width() -> nat {
        U::spec_width() + V::spec_width()
    }

    open spec fn spec_decodes(s: Seq<u8>, v: Self) -> bool {
        &&& U::spec_decodes(s.subrange(0, U::spec_width() as int), v.0)
        &&& V::spec_decodes(
            s.subrange(U::spec_width() as int, (U::spec_width() + V::spec_width()) as int),
            v.1,
        )
    }

    fn read<T: crate::tape::Read>(tape: &mut T) -> (r: Result<Self, Error>) {
        let ghost data = tape.data();
        let ghost start = tape.cursor();
        let first = U::read(tape)?;
        let second = V::read(tape)?;
        proof {
            let whole = data.subrange(start as int, start + U::spec_width() + V::spec_width());
            assert(whole.subrange(0, U::spec_width() as int) =~= data.subrange(
                start as int,
                start + U::spec_width(),
            ));
            assert(whole.subrange(U::spec_width() as int, (U::spec_width() + V::spec_width()) as int)
                =~= data.subrange(start + U::spec_width(), start + U::spec_width()
                + V::spec_width()));
        }
        Ok((first, second))
    }
}

impl<U: Write, V: Write> Write for (U, V) {
    open spec fn spec_encode(&self) -> Seq<u8> {
        self.0.spec_encode() + self.1.spec_encode()
    }

    fn write<T: crate::tape::Write>(&self, tape: &mut T) -> (r: Result<(), Error>) {
        self.0.write(tape)?;
        self.1.write(tape)?;
        proof {
            assert(final(tape).out() =~= old(tape).out() + self.spec_encode());
        }
        Ok(())
    }
}

impl<U: Write> Write for [U] {
    open spec fn spec_encode(&self) -> Seq<u8> {
        encoding_of(self@)
    }

    fn write<T: crate::tape::Write>(&self, tape: &mut T) -> (r: Result<(), Error>) {
        let count = self.len();
        let mut i: usize = 0;
        while i < count
            invariant
                i <= count,
                count == self@.len(),
                tape.out() == old(tape).out() + encoding_of(self@.take(i as int)),
            decreases count - i,
        {
            match self[i].write(tape) {
                Ok(()) => (),
                Err(e) => {
                    return Err(e);
                },
            };
            proof {
                assert(self@.take(i + 1).drop_last() =~= self@.take(i as int));
                assert(self@.take(i + 1).last() == self@[i as int]);
            }
            i += 1;
        }
        proof {
            assert(self@.take(count as int) =~= self@);
        }
        Ok(())
    }
}

/// Encoding inverts decoding, and decoding inverts encoding, for `u8`.
pub proof fn lemma_u8_round_trip(s: Seq<u8>, x: u8, v: u8)
    ensures
        s.len() == 1 && u8::spec_decodes(s, x) ==> x.spec_encode() == s,
        v.spec_encode().len() == 1,
        u8::spec_decodes(v.spec_encode(), v),
{
    lemma_pow256_values();
    if s.len() == 1 && u8::spec_decodes(s, x) {
        lemma_be_bytes_of_be_nat(s);
    }
    lemma_be_bytes_len(v as nat, 1);
    lemma_be_nat_of_be_bytes(v as nat, 1);
}

/// Encoding inverts decoding, and decoding inverts encoding, for `u16`.
pub proof fn lemma_u16_round_trip(s: Seq<u8>, x: u16, v: u16)
    ensures
        s.len() == 2 && u16::spec_decodes(s, x) ==> x.spec_encode() == s,
        v.spec_encode().len() == 2,
        u16::spec_decodes(v.spec_encode(), v),
{
    lemma_pow256_values();
    if s.len() == 2 && u16::spec_decodes(s, x) {
        lemma_be_bytes_of_be_nat(s);
    }
    lemma_be_bytes_len(v as nat, 2);
    lemma_be_nat_of_be_bytes(v as nat, 2);
}

/// Encoding inverts decoding, and decoding inverts encoding, for `u32`.
pub proof fn lemma_u32_round_trip(s: Seq<u8>, x: u32, v: u32)
    ensures
        s.len() == 4 && u32::spec_decodes(s, x) ==> x.spec_encode() == s,
        v.spec_encode().len() == 4,
        u32::spec_decodes(v.spec_encode(), v),
{
    lemma_pow256_values();
    if s.len() == 4 && u32::spec_decodes(s, x) {
        lemma_be_bytes_of_be_nat(s);
    }
    lemma_be_bytes_len(v as nat, 4);
    lemma_be_nat_of_be_bytes(v as nat, 4);
}

/// Encoding inverts decoding, and decoding inverts encoding, for `u64`.
pub proof fn lemma_u64_round_trip(s: Seq<u8>, x: u64, v: u64)
    ensures
        s.len() == 8 && u64::spec_decodes(s, x) ==> x.spec_encode() == s,
        v.spec_encode().len() == 8,
        u64::spec_decodes(v.spec_encode(), v),
{
    lemma_pow256_values();
    if s.len() == 8 && u64::spec_decodes(s, x) {
        lemma_be_bytes_of_be_nat(s);
    }
    lemma_be_bytes_len(v as nat, 8);
    lemma_be_nat_of_be_bytes(v as nat, 8);
}

/// Encoding inverts decoding, and decoding inverts encoding, for `i8`.
pub proof fn lemma_i8_round_trip(s: Seq<u8>, x: i8, v: i8)
    ensures
        s.len() == 1 && i8::spec_decodes(s, x) ==> x.spec_encode() == s,
        v.spec_encode().len() == 1,
        i8::spec_decodes(v.spec_encode(), v),
{
    lemma_pow256_values();
    if s.len() == 1 && i8::spec_decodes(s, x) {
        lemma_be_nat_bound(s);
        lemma_signed_round_trip(be_nat(s), x as int, 1);
        lemma_be_bytes_of_be_nat(s);
    }
    lemma_signed_round_trip(0, v as int, 1);
    lemma_be_bytes_len(bits_of_signed(v as int, 1), 1);
    lemma_be_nat_of_be_bytes(bits_of_signed(v as int, 1), 1);
}

/// Encoding inverts decoding, and decoding inverts encoding, for `i16`.
pub proof fn lemma_i16_round_trip(s: Seq<u8>, x: i16, v: i16)
    ensures
        s.len() == 2 && i16::spec_decodes(s, x) ==> x.spec_encode() == s,
        v.spec_encode().len() == 2,
        i16::spec_decodes(v.spec_encode(), v),
{
    lemma_pow256_values();
    if s.len() == 2 && i16::spec_decodes(s, x) {
        lemma_be_nat_bound(s);
        lemma_signed_round_trip(be_nat(s), x as int, 2);
        lemma_be_bytes_of_be_nat(s);
    }
    lemma_signed_round_trip(0, v as int, 2);
    lemma_be_bytes_len(bits_of_signed(v as int, 2), 2);
    lemma_be_nat_of_be_bytes(bits_of_signed(v as int, 2), 2);
}

/// Encoding inverts decoding, and decoding inverts encoding, for `i32`.
pub proof fn lemma_i32_round_trip(s: Seq<u8>, x: i32, v: i32)
    ensures
        s.len() == 4 && i32::spec_decodes(s, x) ==> x.spec_encode() == s,
        v.spec_encode().len() == 4,
        i32::spec_decodes(v.spec_encode(), v),
{
    lemma_pow256_values();
    if s.len() == 4 && i32::spec_decodes(s, x) {
        lemma_be_nat_bound(s);
        lemma_signed_round_trip(be_nat(s), x as int, 4);
        lemma_be_bytes_of_be_nat(s);
    }
    lemma_signed_round_trip(0, v as int, 4);
    lemma_be_bytes_len(bits_of_signed(v as int, 4), 4);
    lemma_be_nat_of_be_bytes(bits_of_signed(v as int, 4), 4);
}

/// Encoding inverts decoding, and decoding inverts encoding, for `i64`.
pub proof fn lemma_i64_round_trip(s: Seq<u8>, x: i64, v: i64)
    ensures
        s.len() == 8 && i64::spec_decodes(s, x) ==> x.spec_encode() == s,
        v.spec_encode().len() == 8,
        i64::spec_decodes(v.spec_encode(), v),
{
    lemma_pow256_values();
    if s.len() == 8 && i64::spec_decodes(s, x) {
        lemma_be_nat_bound(s);
        lemma_signed_round_trip(be_nat(s), x as int, 8);
        lemma_be_bytes_of_be_nat(s);
    }
    lemma_signed_round_trip(0, v as int, 8);
    lemma_be_bytes_len(bits_of_signed(v as int, 8), 8);
    lemma_be_nat_of_be_bytes(bits_of_signed(v as int, 8), 8);
}

/// Byte arrays read and write verbatim: each direction inverts the other.
pub proof fn lemma_byte_array_round_trip(s: Seq<u8>, x: [u8; 4], v: [u8; 4])
    ensures
        s.len() == 4 && <[u8; 4] as Read>::spec_decodes(s, x) ==> x.spec_encode() == s,
        v.spec_encode().len() == 4,
        <[u8; 4] as Read>::spec_decodes(v.spec_encode(), v),
{
}

/// Byte arrays read and write verbatim: each direction inverts the other.
pub proof fn lemma_byte_array3_round_trip(s: Seq<u8>, x: [u8; 3], v: [u8; 3])
    ensures
        s.len() == 3 && <[u8; 3] as Read>::spec_decodes(s, x) ==> x.spec_encode() == s,
        v.spec_encode().len() == 3,
        <[u8; 3] as Read>::spec_decodes(v.spec_encode(), v),
{
}

/// Byte arrays read and write verbatim: each direction inverts the other.
pub proof fn lemma_byte_array10_round_trip(s: Seq<u8>, x: [u8; 10], v: [u8; 10])
    ensures
        s.len() == 10 && <[u8; 10] as Read>::spec_decodes(s, x) ==> x.spec_encode() == s,
        v.spec_encode().len() == 10,
        <[u8; 10] as Read>::spec_decodes(v.spec_encode(), v),
{
}

/// Signed byte arrays reinterpret each byte: each direction inverts the
/// other.
pub proof fn lemma_signed_byte_array_round_trip(s: Seq<u8>, x: [i8; 4], v: [i8; 4])
    ensures
        s.len() == 4 && <[i8; 4] as Read>::spec_decodes(s, x) ==> x.spec_encode() == s,
        v.spec_encode().len() == 4,
        <[i8; 4] as Read>::spec_decodes(v.spec_encode(), v),
{
    lemma_pow256_values();
    if s.len() == 4 && <[i8; 4] as Read>::spec_decodes(s, x) {
        lemma_signed_round_trip(s[0] as nat, x@[0] as int, 1);
        lemma_signed_round_trip(s[1] as nat, x@[1] as int, 1);
        lemma_signed_round_trip(s[2] as nat, x@[2] as int, 1);
        lemma_signed_round_trip(s[3] as nat, x@[3] as int, 1);
        assert(x.spec_encode() =~= s);
    }
    lemma_signed_round_trip(0, v@[0] as int, 1);
    lemma_signed_round_trip(0, v@[1] as int, 1);
    lemma_signed_round_trip(0, v@[2] as int, 1);
    lemma_signed_round_trip(0, v@[3] as int, 1);
}

/// A pair reads and writes its components in order with nothing between:
/// whenever each component's codec round-trips, so does the pair's.
pub proof fn lemma_pair_round_trip<U: Read + Write, V: Read + Write>(s: Seq<u8>, x: (U, V), v: (
    U,
    V,
))
    requires
        forall|t: Seq<u8>, u: U|
            #[trigger] U::spec_decodes(t, u) && t.len() == U::spec_width() ==> u.spec_encode()
                == t,
        forall|t: Seq<u8>, w: V|
            #[trigger] V::spec_decodes(t, w) && t.len() == V::spec_width() ==> w.spec_encode()
                == t,
        forall|u: U| (#[trigger] u.spec_encode()).len() == U::spec_width(),
        forall|w: V| (#[trigger] w.spec_encode()).len() == V::spec_width(),
        forall|u: U| U::spec_decodes(#[trigger] u.spec_encode(), u),
        forall|w: V| V::spec_decodes(#[trigger] w.spec_encode(), w),
    ensures
        s.len() == <(U, V) as Read>::spec_width() && <(U, V) as Read>::spec_decodes(s, x)
            ==> x.spec_encode() == s,
        v.spec_encode().len() == <(U, V) as Read>::spec_width(),
        <(U, V) as Read>::spec_decodes(v.spec_encode(), v),
{
    if s.len() == <(U, V) as Read>::spec_width() && <(U, V) as Read>::spec_decodes(s, x) {
        let head = s.subrange(0, U::spec_width() as int);
        let tail = s.subrange(U::spec_width() as int, (U::spec_width() + V::spec_width()) as int);
        assert(x.0.spec_encode() == head);
        assert(x.1.spec_encode() == tail);
        assert(x.spec_encode() =~= s);
    }
    let whole = v.spec_encode();
    assert(whole.subrange(0, U::spec_width() as int) =~= v.0.spec_encode());
    assert(whole.subrange(U::spec_width() as int, (U::spec_width() + V::spec_width()) as int)
        =~= v.1.spec_encode());
}

} // verus!
