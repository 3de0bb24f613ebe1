//! Big-endian integers on the wire, and the records' framing arithmetic.
use vstd::arithmetic::power2::*;
use vstd::prelude::*;
use zerocopy::big_endian::{I16, I32, U16};

verus! {

/// Unsigned value of a big-endian byte sequence.
pub open spec fn be_uint(s: Seq<u8>) -> nat
    decreases s.len(),
{
    if s.len() == 0 {
        0
    } else {
        (be_uint(s.drop_last()) * 256 + s.last()) as nat
    }
}

/// Two's-complement value of a big-endian byte sequence.
pub open spec fn be_sint(s: Seq<u8>) -> int {
    let u = be_uint(s);
    if s.len() > 0 && u >= pow2((8 * s.len() - 1) as nat) {
        u - pow2(8 * s.len())
    } else {
        u as int
    }
}

/// The `n` big-endian bytes of `x` (taken modulo `256^n`).
pub open spec fn be_bytes(x: nat, n: nat) -> Seq<u8>
    decreases n,
{
    if n == 0 {
        Seq::empty()
    } else {
        be_bytes(x / 256, (n - 1) as nat).push((x % 256) as u8)
    }
}

/// The `n` big-endian two's-complement bytes of `v`.
pub open spec fn be_sbytes(v: int, n: nat) -> Seq<u8> {
    if v < 0 {
        be_bytes((v + pow2(8 * n)) as nat, n)
    } else {
        be_bytes(v as nat, n)
    }
}

/// `be_bytes(x, n)` has `n` bytes.
pub proof fn lemma_be_bytes_len(x: nat, n: nat)
    ensures
        be_bytes(x, n).len() == n,
    decreases n,
{
    if n > 0 {
        lemma_be_bytes_len(x / 256, (n - 1) as nat);
    }
}

proof fn lemma_pow2_8n(n: nat)
    ensures
        n > 0 ==> pow2(8 * n) == pow2((8 * (n - 1)) as nat) * 256,
        pow2(8 * n) > 0,
{
    lemma_pow2_pos(8 * n);
    if n > 0 {
        lemma_pow2_adds((8 * (n - 1)) as nat, 8);
        lemma2_to64();
    }
}

/// Reading the bytes of `x` gives back `x`, when it fits.
pub proof fn lemma_be_uint_of_bytes(x: nat, n: nat)
    requires
        x < pow2(8 * n),
    ensures
        be_uint(be_bytes(x, n)) == x,
    decreases n,
{
    lemma_pow2_8n(n);
    if n > 0 {
        let p = pow2((8 * (n - 1)) as nat);
        assert(x / 256 < p) by (nonlinear_arith)
            requires
                x < p * 256,
        ;
        lemma_be_uint_of_bytes(x / 256, (n - 1) as nat);
        let s = be_bytes(x, n);
        assert(s.drop_last() == be_bytes(x / 256, (n - 1) as nat));
        assert(x == (x / 256) * 256 + x % 256) by (nonlinear_arith);
        assert(s.last() == x % 256);
        assert(s.len() > 0);
        assert(be_uint(s) == be_uint(s.drop_last()) * 256 + s.last());
    } else {
        lemma2_to64();
    }
}

/// A sequence of `n` bytes has an unsigned value below `256^n`.
pub proof fn lemma_be_uint_bound(s: Seq<u8>)
    ensures
        be_uint(s) < pow2(8 * s.len()),
    decreases s.len(),
{
    lemma_pow2_8n(s.len());
    if s.len() > 0 {
        lemma_be_uint_bound(s.drop_last());
        let p = pow2((8 * (s.len() - 1)) as nat);
        let a = be_uint(s.drop_last());
        let b = s.last() as int;
        assert(a * 256 + b < p * 256) by (nonlinear_arith)
            requires
                a < p,
                0 <= b < 256,
        ;
    }
}

/// Big-endian order: the first byte is the most significant, weighing `256^(n-1)`.
pub proof fn lemma_be_uint_first(s: Seq<u8>)
    requires
        s.len() > 0,
    ensures
        be_uint(s) == s[0] * pow2((8 * (s.len() - 1)) as nat) + be_uint(s.subrange(1, s.len() as int)),
    decreases s.len(),
{
    lemma2_to64();
    let n = s.len();
    let rest = s.subrange(1, n as int);
    if n == 1 {
        assert(s.drop_last() =~= Seq::<u8>::empty());
        assert(rest =~= Seq::<u8>::empty());
        assert(be_uint(Seq::<u8>::empty()) == 0);
        assert(be_uint(s) == be_uint(s.drop_last()) * 256 + s.last());
        assert(pow2(0) == 1);
        assert((8 * (n - 1)) as nat == 0);
    } else {
        let dl = s.drop_last();
        lemma_be_uint_first(dl);
        assert(dl[0] == s[0]);
        assert(rest.drop_last() =~= dl.subrange(1, dl.len() as int));
        assert(rest.last() == s.last());
        assert(be_uint(rest) == be_uint(rest.drop_last()) * 256 + rest.last());
        assert(be_uint(s) == be_uint(dl) * 256 + s.last());
        let p = pow2((8 * (n - 2)) as nat);
        lemma_pow2_adds((8 * (n - 2)) as nat, 8);
        assert((8 * (n - 2)) as nat + 8 == (8 * (n - 1)) as nat);
        let x = be_uint(dl.subrange(1, dl.len() as int));
        let a = s[0] as int;
        assert((a * p + x) * 256 + s.last() == a * (p * 256) + (x * 256 + s.last()))
            by (nonlinear_arith);
        assert(p * 256 == pow2((8 * (n - 1)) as nat));
        assert(be_uint(dl) == a * p + x);
    }
}

/// Two's complement: the signed value of a byte sequence is its unsigned value, less
/// `256^n` exactly where the first byte's top bit is set.
pub proof fn lemma_be_sint_twos_complement(s: Seq<u8>)
    requires
        s.len() > 0,
    ensures
        be_sint(s) == if s[0] >= 128 {
            be_uint(s) - pow2(8 * s.len())
        } else {
            be_uint(s) as int
        },
{
    lemma2_to64();
    let n = s.len();
    let rest = s.subrange(1, n as int);
    lemma_be_uint_first(s);
    lemma_be_uint_bound(rest);
    let p = pow2((8 * (n - 1)) as nat);
    lemma_pow2_adds(7, (8 * (n - 1)) as nat);
    assert((7 + 8 * (n - 1)) as nat == (8 * n - 1) as nat);
    let r = be_uint(rest);
    let a = s[0] as int;
    assert(a >= 128 <==> a * p + r >= 128 * p) by (nonlinear_arith)
        requires
            0 <= r < p,
            0 <= a < 256,
    ;
}

/// The bytes of the unsigned value of `s` are `s` itself.
pub proof fn lemma_be_bytes_of_uint(s: Seq<u8>)
    ensures
        be_bytes(be_uint(s), s.len()) == s,
    decreases s.len(),
{
    if s.len() > 0 {
        lemma_be_bytes_of_uint(s.drop_last());
        let u = be_uint(s);
        let a = be_uint(s.drop_last());
        assert(u / 256 == a && u % 256 == s.last()) by (nonlinear_arith)
            requires
                u == a * 256 + s.last(),
                0 <= s.last() < 256,
        ;
        assert(be_bytes(u, s.len()) =~= s);
    }
}

/// The two's-complement bytes of the signed value of `s` are `s` itself, and the value is
/// in range.
pub proof fn lemma_be_sbytes_of_sint(s: Seq<u8>)
    requires
        s.len() > 0,
    ensures
        be_sbytes(be_sint(s), s.len()) == s,
        -pow2((8 * s.len() - 1) as nat) <= be_sint(s) < pow2((8 * s.len() - 1) as nat),
{
    lemma_be_bytes_of_uint(s);
    lemma_be_uint_bound(s);
    lemma_pow2_adds((8 * s.len() - 1) as nat, 1);
    lemma2_to64();
    assert(pow2(8 * s.len()) == 2 * pow2((8 * s.len() - 1) as nat));
}

/// Reading the two's-complement bytes of `v` gives back `v`, when it fits.
pub proof fn lemma_be_sint_of_sbytes(v: int, n: nat)
    requires
        n > 0,
        -pow2((8 * n - 1) as nat) <= v < pow2((8 * n - 1) as nat),
    ensures
        be_sint(be_sbytes(v, n)) == v,
        be_sbytes(v, n).len() == n,
{
    lemma_pow2_adds((8 * n - 1) as nat, 1);
    lemma2_to64();
    assert(pow2(8 * n) == 2 * pow2((8 * n - 1) as nat));
    lemma_pow2_pos((8 * n - 1) as nat);
    lemma_be_bytes_len(if v < 0 { (v + pow2(8 * n)) as nat } else { v as nat }, n);
    if v < 0 {
        lemma_be_uint_of_bytes((v + pow2(8 * n)) as nat, n);
    } else {
        lemma_be_uint_of_bytes(v as nat, n);
    }
}

/// Big-endian `u16` from two bytes, through zerocopy's `U16::from_bytes` and `U16::get`;
/// the contract claims the value is the big-endian reading of the bytes.
#[verifier::external_body]
pub(crate) fn u16_from_be(b: [u8; 2]) -> (r: u16)
    ensures
        r == be_uint(b@),
{
    U16::from_bytes(b).get()
}

/// Big-endian `i16` from two bytes, through zerocopy's `I16::from_bytes` and `I16::get`;
/// the contract claims the value is the two's-complement big-endian reading of the bytes.
#[verifier::external_body]
pub(crate) fn i16_from_be(b: [u8; 2]) -> (r: i16)
    ensures
        r == be_sint(b@),
{
    I16::from_bytes(b).get()
}

/// Big-endian `i32` from four bytes, through zerocopy's `I32::from_bytes` and `I32::get`;
/// the contract claims the value is the two's-complement big-endian reading of the bytes.
#[verifier::external_body]
pub(crate) fn i32_from_be(b: [u8; 4]) -> (r: i32)
    ensures
        r == be_sint(b@),
{
    I32::from_bytes(b).get()
}

/// Big-endian bytes of a `u16`, through zerocopy's `U16::new` and `U16::to_bytes`;
/// the contract claims they are the two big-endian bytes of the value.
#[verifier::external_body]
pub(crate) fn u16_to_be(v: u16) -> (r: [u8; 2])
    ensures
        r@ == be_bytes(v as nat, 2),
{
    U16::new(v).to_bytes()
}

/// Big-endian bytes of an `i16`, through zerocopy's `I16::new` and `I16::to_bytes`;
/// the contract claims they are the two big-endian two's-complement bytes of the value.
#[verifier::external_body]
pub(crate) fn i16_to_be(v: i16) -> (r: [u8; 2])
    ensures
        r@ == be_sbytes(v as int, 2),
{
    I16::new(v).to_bytes()
}

/// Big-endian bytes of an `i32`, through zerocopy's `I32::new` and `I32::to_bytes`;
/// the contract claims they are the four big-endian two's-complement bytes of the value.
#[verifier::external_body]
pub(crate) fn i32_to_be(v: i32) -> (r: [u8; 4])
    ensures
        r@ == be_sbytes(v as int, 4),
{
    I32::new(v).to_bytes()
}

} // verus!
