//! The meaning of big-endian bytes.
//!
//! Everything the codec promises is stated over these functions: [`be_nat`]
//! gives the unsigned value of a big-endian byte string, [`be_bytes`] the
//! byte string of an unsigned value, and [`signed_of`] / [`bits_of_signed`]
//! the two's-complement reinterpretation used by the signed scalar types.

use vstd::prelude::*;

verus! {

/// `256^n`, the number of values a string of `n` bytes can take.
pub open spec fn pow256(n: nat) -> nat
    decreases n,
{
    if n == 0 {
        1
    } else {
        256 * pow256((n - 1) as nat)
    }
}

/// The unsigned value of the big-endian byte string `s`: the first byte is
/// the most significant.
pub open spec fn be_nat(s: Seq<u8>) -> nat
    decreases s.len(),
{
    if s.len() == 0 {
        0
    } else {
        be_nat(s.drop_last()) * 256 + (s.last() as nat)
    }
}

/// The `n`-byte big-endian byte string of the unsigned value `v`.
pub open spec fn be_bytes(v: nat, n: nat) -> Seq<u8>
    recommends
        v < pow256(n),
    decreases n,
{
    if n == 0 {
        Seq::empty()
    } else {
        be_bytes(v / 256, (n - 1) as nat).push((v % 256) as u8)
    }
}

/// The two's-complement reading of the unsigned value `v` of `n` bytes.
pub open spec fn signed_of(v: nat, n: nat) -> int
    recommends
        v < pow256(n),
{
    if v < pow256(n) / 2 {
        v as int
    } else {
        v - pow256(n)
    }
}

/// The unsigned value whose two's-complement reading over `n` bytes is `x`.
pub open spec fn bits_of_signed(x: int, n: nat) -> nat
    recommends
        -(pow256(n) / 2) <= x < pow256(n) / 2,
{
    if x >= 0 {
        x as nat
    } else {
        (x + pow256(n)) as nat
    }
}

/// The values of `pow256` up to eight bytes, unrolled for callers.
pub proof fn lemma_pow256_values()
    ensures
        pow256(0) == 1,
        pow256(1) == 0x100,
        pow256(2) == 0x1_0000,
        pow256(3) == 0x100_0000,
        pow256(4) == 0x1_0000_0000,
        pow256(5) == 0x100_0000_0000,
        pow256(6) == 0x1_0000_0000_0000,
        pow256(7) == 0x100_0000_0000_0000,
        pow256(8) == 0x1_0000_0000_0000_0000,
{
    assert(pow256(0) == 1);
    assert(pow256(1) == 0x100);
    assert(pow256(2) == 0x1_0000);
    assert(pow256(3) == 0x100_0000);
    assert(pow256(4) == 0x1_0000_0000);
    assert(pow256(5) == 0x100_0000_0000);
    assert(pow256(6) == 0x1_0000_0000_0000);
    assert(pow256(7) == 0x100_0000_0000_0000);
    assert(pow256(8) == 0x1_0000_0000_0000_0000);
}

/// `pow256` grows with its argument.
pub proof fn lemma_pow256_increases(a: nat, b: nat)
    requires
        a <= b,
    ensures
        pow256(a) <= pow256(b),
    decreases b,
{
    if a < b {
        lemma_pow256_increases(a, (b - 1) as nat);
    }
}

/// A byte string of `n` bytes holds a value below `256^n`.
pub proof fn lemma_be_nat_bound(s: Seq<u8>)
    ensures
        be_nat(s) < pow256(s.len()),
    decreases s.len(),
{
    if s.len() == 0 {
    } else {
        lemma_be_nat_bound(s.drop_last());
        let head = be_nat(s.drop_last());
        assert(head * 256 <= (pow256((s.len() - 1) as nat) - 1) * 256) by (nonlinear_arith)
            requires
                head <= pow256((s.len() - 1) as nat) - 1,
        ;
    }
}

/// `be_bytes` produces exactly `n` bytes.
pub proof fn lemma_be_bytes_len(v: nat, n: nat)
    ensures
        be_bytes(v, n).len() == n,
    decreases n,
{
    if n > 0 {
        lemma_be_bytes_len(v / 256, (n - 1) as nat);
    }
}

/// Reading back the bytes of `v` yields `v` again.
pub proof fn lemma_be_nat_of_be_bytes(v: nat, n: nat)
    requires
        v < pow256(n),
    ensures
        be_nat(be_bytes(v, n)) == v,
    decreases n,
{
    if n > 0 {
        assert(v / 256 < pow256((n - 1) as nat)) by (nonlinear_arith)
            requires
                v < 256 * pow256((n - 1) as nat),
        ;
        lemma_be_nat_of_be_bytes(v / 256, (n - 1) as nat);
        let rest = be_bytes(v / 256, (n - 1) as nat);
        let whole = rest.push((v % 256) as u8);
        assert(whole.drop_last() =~= rest);
        assert(v / 256 * 256 + v % 256 == v) by (nonlinear_arith);
    }
}

/// Writing back the value of a byte string yields the byte string again.
pub proof fn lemma_be_bytes_of_be_nat(s: Seq<u8>)
    ensures
        be_bytes(be_nat(s), s.len()) == s,
    decreases s.len(),
{
    if s.len() > 0 {
        let head = be_nat(s.drop_last());
        let v = head * 256 + (s.last() as nat);
        assert(v / 256 == head && v % 256 == s.last()) by (nonlinear_arith)
            requires
                v == head * 256 + (s.last() as nat),
                s.last() < 256,
        ;
        lemma_be_bytes_of_be_nat(s.drop_last());
        assert(be_bytes(be_nat(s), s.len()) =~= s);
    }
}

/// The unsigned value of the given big-endian bytes, at most eight of them.
pub fn u64_from_be(bytes: &Vec<u8>) -> (r: u64)
    requires
        bytes@.len() <= 8,
    ensures
        r == be_nat(bytes@),
{
    let count = bytes.len();
    let mut acc: u64 = 0;
    let mut i: usize = 0;
    while i < count
        invariant
            i <= count,
            count == bytes@.len(),
            count <= 8,
            acc == be_nat(bytes@.take(i as int)),
            acc < pow256(i as nat),
        decreases count - i,
    {
        proof {
            lemma_pow256_values();
            lemma_pow256_increases(i as nat, 7);
            assert(bytes@.take(i + 1).drop_last() =~= bytes@.take(i as int));
            assert(bytes@.take(i + 1).last() == bytes@[i as int]);
            assert(pow256(i as nat + 1) == 256 * pow256(i as nat));
        }
        acc = acc * 256 + (bytes[i] as u64);
        i += 1;
    }
    proof {
        assert(bytes@.take(count as int) =~= bytes@);
    }
    acc
}

/// The `width`-byte big-endian encoding of `value`, which must fit in it.
pub fn be_from_u64(value: u64, width: usize) -> (r: Vec<u8>)
    requires
        width <= 8,
        value < pow256(width as nat),
    ensures
        r@ == be_bytes(value as nat, width as nat),
    decreases width,
{
    if width == 0 {
        let r: Vec<u8> = Vec::new();
        proof {
            assert(r@ =~= be_bytes(value as nat, 0));
        }
        r
    } else {
        proof {
            assert(pow256(width as nat) == 256 * pow256((width - 1) as nat));
            assert(value as nat / 256 < pow256((width - 1) as nat)) by (nonlinear_arith)
                requires
                    (value as nat) < 256 * pow256((width - 1) as nat),
            ;
        }
        let mut r = be_from_u64(value / 256, width - 1);
        r.push((value % 256) as u8);
        proof {
            assert(r@ =~= be_bytes(value as nat, width as nat));
        }
        r
    }
}

/// The signed reading inverts the unsigned bits, and the bits invert the
/// signed reading, for every width.
pub proof fn lemma_signed_round_trip(v: nat, x: int, n: nat)
    ensures
        v < pow256(n) ==> bits_of_signed(signed_of(v, n), n) == v,
        -(pow256(n) / 2) <= x < pow256(n) / 2 ==> signed_of(bits_of_signed(x, n), n) == x
            && bits_of_signed(x, n) < pow256(n),
{
    if n > 0 {
        assert(pow256(n) == 256 * pow256((n - 1) as nat));
        assert(pow256(n) % 2 == 0) by (nonlinear_arith)
            requires
                pow256(n) == 256 * pow256((n - 1) as nat),
        ;
    }
}

} // verus!
