//! GDSII base-16 reals.
//!
//! A GDSII real has a sign bit, a 7-bit exponent in excess-64 and a mantissa that takes the
//! remaining 24 (four-byte) or 56 (eight-byte) bits:
//!
//! ```text
//! value = (-1)^S x (M / 2^mantissa_bits) x 16^(E - 64)
//! ```
//!
//! True zero is all zero bits. Conversion from an IEEE 754 `f64` works on the bits of the
//! `f64` with integer arithmetic alone: eight-byte reals hold every finite `f64` exactly,
//! four-byte reals round to nearest, ties to even.
use crate::bytes::{be_bytes, be_uint, lemma_be_bytes_len, lemma_be_uint_of_bytes};
use vstd::arithmetic::power2::*;
use vstd::bits::{lemma_u64_pow2_no_overflow, lemma_u64_shl_is_mul, lemma_u64_shr_is_div};
use vstd::prelude::*;
use vstd::std_specs::bits::u64_leading_zeros;

verus! {

/// A finite `f64` that no GDSII real can hold (NaN, an infinity, or a magnitude out of the
/// exponent's range).
#[derive(Debug, Clone, Copy, PartialEq, Eq, Structural)]
pub struct NotRepresentable;

/// GDSII four-byte real, as its raw bytes.
#[derive(Debug, Clone, Copy, PartialEq, Eq)]
pub struct GdsFourByteReal(pub [u8; 4]);

/// GDSII eight-byte real, as its raw bytes.
#[derive(Debug, Clone, Copy, PartialEq, Eq)]
pub struct GdsEightByteReal(pub [u8; 8]);

/// A real split into integers: its value is `(-1)^negative x mantissa x 2^exponent`.
#[derive(Debug, Clone, Copy, PartialEq, Eq, Structural)]
pub struct RealParts {
    pub negative: bool,
    pub mantissa: u64,
    pub exponent: i32,
}

// ------------------------------------------------------------------------------------------
// The value of a real
// ------------------------------------------------------------------------------------------

/// The parts of the real whose raw bytes are `s` (`s.len()` is 4 or 8).
pub open spec fn spec_real_parts(s: Seq<u8>) -> RealParts {
    RealParts {
        negative: s[0] >= 128,
        mantissa: be_uint(s.subrange(1, s.len() as int)) as u64,
        exponent: (4 * ((s[0] % 128) - 64) - 8 * (s.len() - 1)) as i32,
    }
}

// ------------------------------------------------------------------------------------------
// The fields of an IEEE 754 binary64
// ------------------------------------------------------------------------------------------

/// Sign bit of an `f64`.
pub open spec fn f64_negative(bits: u64) -> bool {
    bits >= 0x8000_0000_0000_0000
}

/// Biased exponent field of an `f64` (11 bits).
pub open spec fn f64_biased_exponent(bits: u64) -> nat {
    (bits as nat / pow2(52)) % 2048
}

/// Fraction field of an `f64` (52 bits).
pub open spec fn f64_fraction(bits: u64) -> nat {
    bits as nat % pow2(52)
}

/// Whether an `f64` is finite (its exponent field is not all ones).
pub open spec fn f64_is_finite(bits: u64) -> bool {
    f64_biased_exponent(bits) != 2047
}

/// Positive or negative zero.
pub open spec fn f64_is_zero(bits: u64) -> bool {
    f64_biased_exponent(bits) == 0 && f64_fraction(bits) == 0
}

/// Integer significand: the magnitude is `f64_significand(bits) x 2^f64_exponent(bits)`.
pub open spec fn f64_significand(bits: u64) -> nat {
    if f64_biased_exponent(bits) == 0 {
        f64_fraction(bits)
    } else {
        pow2(52) + f64_fraction(bits)
    }
}

/// Binary exponent of an `f64`'s significand: `|value| = significand x 2^exponent`.
pub open spec fn f64_exponent(bits: u64) -> int {
    if f64_biased_exponent(bits) == 0 {
        -1074
    } else {
        f64_biased_exponent(bits) - 1075
    }
}

// ------------------------------------------------------------------------------------------
// Encoding
// ------------------------------------------------------------------------------------------

/// Number of binary digits of `n` (0 for 0).
pub open spec fn bit_len(n: nat) -> nat
    decreases n,
{
    if n == 0 {
        0
    } else {
        1 + bit_len(n / 2)
    }
}

/// `n / 2^r` rounded to the nearest integer, ties to even.
pub open spec fn round_half_even(n: nat, r: nat) -> nat {
    if r == 0 {
        n
    } else {
        let q = n / pow2(r);
        let rem = n % pow2(r);
        let half = pow2((r - 1) as nat);
        if rem > half || (rem == half && q % 2 == 1) {
            q + 1
        } else {
            q
        }
    }
}

/// `n x 2^d`, rounded to the nearest integer (ties to even) where `d` is negative.
pub open spec fn scale_pow2(n: nat, d: int) -> nat {
    if d >= 0 {
        n * pow2(d as nat)
    } else {
        round_half_even(n, (-d) as nat)
    }
}

/// Hex exponent of `sig x 2^e2`: the `g` with `16^(g-1) <= sig x 2^e2 < 16^g`.
pub open spec fn hex_exponent(sig: nat, e2: int) -> int {
    (e2 + bit_len(sig) + 3) / 4
}

/// `sig x 2^e2` as a multiple of `2^(4 g - mb)`, with `g` its hex exponent, before
/// renormalization.
pub open spec fn rounded_mantissa(sig: nat, e2: int, mb: nat) -> nat {
    scale_pow2(sig, e2 + mb - 4 * hex_exponent(sig, e2))
}

/// Rounding reached `2^mb`, one hex digit too many.
pub open spec fn rounding_carries(sig: nat, e2: int, mb: nat) -> bool {
    rounded_mantissa(sig, e2, mb) >= pow2(mb)
}

/// Exponent (unbiased) of the GDSII real nearest to `sig x 2^e2` with `mb` mantissa bits.
pub open spec fn gds_exponent(sig: nat, e2: int, mb: nat) -> int {
    if rounding_carries(sig, e2, mb) {
        hex_exponent(sig, e2) + 1
    } else {
        hex_exponent(sig, e2)
    }
}

/// Mantissa of the GDSII real nearest to `sig x 2^e2` with `mb` mantissa bits.
pub open spec fn gds_mantissa(sig: nat, e2: int, mb: nat) -> nat {
    if rounding_carries(sig, e2, mb) {
        rounded_mantissa(sig, e2, mb) / 16
    } else {
        rounded_mantissa(sig, e2, mb)
    }
}

/// Raw bytes of the `n`-byte real with the given sign, unbiased exponent and mantissa.
pub open spec fn real_bytes(negative: bool, exponent: int, mantissa: nat, n: nat) -> Seq<u8> {
    seq![((if negative { 128int } else { 0int }) + exponent + 64) as u8] + be_bytes(
        mantissa,
        (n - 1) as nat,
    )
}

/// Raw bytes of the `n`-byte real (`n` is 4 or 8) that the `f64` with bits `bits` becomes:
/// `None` for NaN, the infinities, and magnitudes whose exponent does not fit.
pub open spec fn spec_encode(bits: u64, n: nat) -> Option<Seq<u8>> {
    let mb = (8 * (n - 1)) as nat;
    let sig = f64_significand(bits);
    let e2 = f64_exponent(bits);
    if !f64_is_finite(bits) {
        None
    } else if f64_is_zero(bits) {
        Some(Seq::new(n, |i: int| 0u8))
    } else if -64 <= gds_exponent(sig, e2, mb) <= 63 {
        Some(real_bytes(f64_negative(bits), gds_exponent(sig, e2, mb), gds_mantissa(sig, e2, mb), n))
    } else {
        None
    }
}

// ------------------------------------------------------------------------------------------
// Lemmas on bit lengths and rounding
// ------------------------------------------------------------------------------------------

proof fn lemma_leading_zeros_bit_len(i: u64)
    ensures
        64 - u64_leading_zeros(i) == bit_len(i as nat),
    decreases i,
{
    reveal(u64_leading_zeros);
    if i != 0 {
        lemma_leading_zeros_bit_len(i / 2);
    }
}

/// `n` lies between the powers of two that its bit length names.
pub proof fn lemma_bit_len_bounds(n: nat)
    ensures
        n > 0 ==> pow2((bit_len(n) - 1) as nat) <= n,
        n < pow2(bit_len(n)),
    decreases n,
{
    lemma2_to64();
    if n > 0 {
        lemma_bit_len_bounds(n / 2);
        lemma_pow2_unfold(bit_len(n));
        if n / 2 > 0 {
            lemma_pow2_unfold((bit_len(n) - 1) as nat);
        }
    }
}

proof fn lemma_bit_len_le(n: nat, k: nat)
    requires
        n < pow2(k),
    ensures
        bit_len(n) <= k,
    decreases k,
{
    lemma_bit_len_bounds(n);
    if bit_len(n) > k {
        lemma_pow2_strictly_increases(k, (bit_len(n) - 1) as nat);
        if bit_len(n) - 1 == k {
        }
    }
}

/// Rounding `n / 2^r` to nearest lands on `floor` or `floor + 1`, within half a unit.
proof fn lemma_round_half_even_bounds(n: nat, r: nat)
    requires
        r > 0,
    ensures
        n / pow2(r) <= round_half_even(n, r) <= n / pow2(r) + 1,
        round_half_even(n, r) * pow2(r) <= n + pow2((r - 1) as nat),
        n <= round_half_even(n, r) * pow2(r) + pow2((r - 1) as nat),
{
    let p = pow2(r);
    let h = pow2((r - 1) as nat);
    lemma_pow2_unfold(r);
    lemma_pow2_pos((r - 1) as nat);
    let q = n / p;
    let rem = n % p;
    assert(n == q * p + rem && 0 <= rem < p) by (nonlinear_arith)
        requires
            p > 0,
            q == n / p,
            rem == n % p,
    ;
    if rem > h || (rem == h && q % 2 == 1) {
        assert((q + 1) * p == q * p + p) by (nonlinear_arith);
    }
}

// ------------------------------------------------------------------------------------------
// Executable encoding
// ------------------------------------------------------------------------------------------

/// Sign byte, biased exponent and mantissa of a GDSII real.
struct GdsRealComponents {
    sign: u8,
    exponent: u8,
    mantissa: u64,
}

/// Normalization of the rounded mantissa: it lies in `[2^(mb-4), 2^mb)` after the carry.
proof fn lemma_gds_mantissa_normalized(sig: nat, e2: int, mb: nat)
    requires
        sig > 0,
        bit_len(sig) <= 53,
        mb == 24 || mb == 56,
    ensures
        pow2((mb - 4) as nat) <= gds_mantissa(sig, e2, mb) < pow2(mb),
        mb == 56 ==> !rounding_carries(sig, e2, mb) && e2 + mb - 4 * hex_exponent(sig, e2) >= 0,
        rounded_mantissa(sig, e2, mb) <= pow2(mb),
        rounding_carries(sig, e2, mb) ==> e2 + mb - 4 * hex_exponent(sig, e2) < 0,
{
    let sb = bit_len(sig);
    lemma_bit_len_bounds(sig);
    let g = hex_exponent(sig, e2);
    let s = e2 + mb - 4 * g;
    assert(mb - sb - 3 <= s <= mb - sb);
    lemma2_to64();
    if s >= 0 {
        let m = sig * pow2(s as nat);
        lemma_pow2_pos(s as nat);
        lemma_pow2_adds((sb - 1) as nat, s as nat);
        lemma_pow2_adds(sb, s as nat);
        assert(pow2((sb - 1) as nat) * pow2(s as nat) <= m < pow2(sb) * pow2(s as nat))
            by (nonlinear_arith)
            requires
                pow2((sb - 1) as nat) <= sig < pow2(sb),
                m == sig * pow2(s as nat),
                pow2(s as nat) > 0,
        ;
        if ((sb - 1 + s) as nat) > ((mb - 4) as nat) {
            lemma_pow2_strictly_increases((mb - 4) as nat, (sb - 1 + s) as nat);
        }
        if ((sb + s) as nat) < mb {
            lemma_pow2_strictly_increases((sb + s) as nat, mb);
        }
        assert(rounded_mantissa(sig, e2, mb) == m);
    } else {
        let r = (-s) as nat;
        lemma_round_half_even_bounds(sig, r);
        let p = pow2(r);
        lemma_pow2_pos(r);
        let q = sig / p;
        let m = round_half_even(sig, r);
        // sig in [2^(sb-1), 2^sb) and sb - r in [mb-3, mb]
        lemma_pow2_adds((sb - r) as nat, r);
        lemma_pow2_adds((mb - 4) as nat, r);
        lemma_pow2_strictly_increases((mb - 4) as nat, (sb - 1) as nat);
        assert(pow2((mb - 4) as nat) * p <= pow2((sb - 1) as nat)) by {
            if (((mb - 4) + r) as nat) < ((sb - 1) as nat) {
                lemma_pow2_strictly_increases(((mb - 4) + r) as nat, (sb - 1) as nat);
            }
        }
        assert(q >= pow2((mb - 4) as nat)) by (nonlinear_arith)
            requires
                pow2((mb - 4) as nat) * p <= sig,
                q == sig / p,
                p > 0,
        ;
        assert(q < pow2((sb - r) as nat)) by (nonlinear_arith)
            requires
                sig < pow2((sb - r) as nat) * p,
                q == sig / p,
                p > 0,
        ;
        if ((sb - r) as nat) < mb {
            lemma_pow2_strictly_increases((sb - r) as nat, mb);
        }
        assert(m <= pow2(mb));
        assert(rounded_mantissa(sig, e2, mb) == m);
        if m == pow2(mb) {
            lemma_pow2_adds((mb - 4) as nat, 4);
            assert(pow2(mb) / 16 == pow2((mb - 4) as nat));
        }
    }
}

/// Sign byte, integer significand and binary exponent of a non-zero finite `f64`.
fn ieee_fields(bits: u64) -> (r: (u8, u64, i32))
    requires
        f64_is_finite(bits),
        !f64_is_zero(bits),
    ensures
        r.0 == (if f64_negative(bits) { 0x80u8 } else { 0u8 }),
        r.1 == f64_significand(bits),
        r.2 == f64_exponent(bits),
        0 < r.1 < pow2(53),
        -1074 <= r.2 <= 971,
{
    proof {
        lemma2_to64();
        lemma2_to64_rest();
    }
    let sign: u8 = if bits >= 0x8000_0000_0000_0000 { 0x80 } else { 0 };
    let biased_exp: u64 = (bits / 0x10_0000_0000_0000) % 2048;
    let frac: u64 = bits % 0x10_0000_0000_0000;
    assert(biased_exp == f64_biased_exponent(bits));
    assert(frac == f64_fraction(bits));
    let sig: u64 = if biased_exp == 0 { frac } else { 0x10_0000_0000_0000 + frac };
    let e2: i32 = if biased_exp == 0 { -1074 } else { biased_exp as i32 - 1075 };
    proof {
        lemma_pow2_adds(52, 1);
    }
    (sign, sig, e2)
}

/// `sig x 2^shift`, rounded to nearest (ties to even) where `shift` is negative.
fn scale_exec(sig: u64, shift: i32, sb: i32, mb: i32) -> (m: u64)
    requires
        sb == bit_len(sig as nat),
        1 <= sb <= 53,
        mb == 24 || mb == 56,
        mb - sb - 3 <= shift <= mb - sb,
    ensures
        m == scale_pow2(sig as nat, shift as int),
{
    proof {
        lemma2_to64();
        lemma2_to64_rest();
        lemma_bit_len_bounds(sig as nat);
    }
    if shift >= 0 {
        assert(sig * pow2(shift as nat) < pow2(mb as nat)) by {
            lemma_pow2_pos(shift as nat);
            lemma_pow2_adds(sb as nat, shift as nat);
            if (sb + shift) < mb {
                lemma_pow2_strictly_increases((sb + shift) as nat, mb as nat);
            }
            assert(sig * pow2(shift as nat) < pow2(sb as nat) * pow2(shift as nat))
                by (nonlinear_arith)
                requires
                    sig < pow2(sb as nat),
                    pow2(shift as nat) > 0,
            ;
        }
        proof {
            lemma_u64_pow2_no_overflow(mb as nat);
            lemma_u64_shl_is_mul(sig, shift as u64);
        }
        sig << (shift as u64)
    } else {
        let r: u64 = (-shift) as u64;
        proof {
            lemma_u64_shr_is_div(sig, r);
            lemma_u64_shl_is_mul(1, r);
            lemma_u64_shl_is_mul(1, (r - 1) as u64);
            lemma_u64_pow2_no_overflow(r as nat);
            lemma_pow2_pos(r as nat);
        }
        let truncated: u64 = sig >> r;
        let p: u64 = 1u64 << r;
        let remainder: u64 = sig % p;
        let half: u64 = 1u64 << (r - 1);
        assert(truncated < pow2(53)) by {
            assert(sig as nat / pow2(r as nat) <= sig) by (nonlinear_arith)
                requires
                    pow2(r as nat) > 0,
            ;
        }
        if remainder > half || (remainder == half && truncated % 2 == 1) {
            truncated + 1
        } else {
            truncated
        }
    }
}

/// Splits a non-zero finite `f64` into the sign byte, biased exponent and mantissa of the
/// nearest GDSII real with `mantissa_bits` mantissa bits; `NotRepresentable` where its
/// exponent falls outside `-64..=63`.
fn encode_real_components(bits: u64, mantissa_bits: u32) -> (r: Result<
    GdsRealComponents,
    NotRepresentable,
>)
    requires
        f64_is_finite(bits),
        !f64_is_zero(bits),
        mantissa_bits == 24 || mantissa_bits == 56,
    ensures
        ({
            let sig = f64_significand(bits);
            let e2 = f64_exponent(bits);
            let g = gds_exponent(sig, e2, mantissa_bits as nat);
            &&& (r is Ok <==> -64 <= g <= 63)
            &&& (r matches Ok(c) ==> {
                &&& c.sign == (if f64_negative(bits) { 0x80u8 } else { 0u8 })
                &&& c.exponent == g + 64
                &&& c.mantissa == gds_mantissa(sig, e2, mantissa_bits as nat)
                &&& pow2((mantissa_bits - 4) as nat) <= c.mantissa < pow2(mantissa_bits as nat)
            })
        }),
{
    proof {
        lemma2_to64();
        lemma2_to64_rest();
    }
    let (sign, sig, e2) = ieee_fields(bits);
    let lz = sig.leading_zeros();
    proof {
        lemma_leading_zeros_bit_len(sig);
        lemma_bit_len_le(sig as nat, 53);
        lemma_bit_len_bounds(sig as nat);
    }
    let sb: i32 = (64 - lz) as i32;
    assert(sb == bit_len(sig as nat));
    let mb: i32 = mantissa_bits as i32;
    // Non-negative stand-in for e2 + sb + 3: e2 >= -1074, and 1072 is a multiple of 4.
    let base: u32 = (e2 + sb + 3 + 1072) as u32;
    let extra: i32 = (base % 4) as i32;
    let mut gds_exp: i32 = (base / 4) as i32 - 268;
    let shift: i32 = mb - sb - 3 + extra;
    let ghost hex = hex_exponent(sig as nat, e2 as int);
    assert(gds_exp == hex && shift == e2 + mb - 4 * hex) by {
        assert((base as int) == 4 * (base as int / 4) + base as int % 4);
        assert(hex == (e2 + sb + 3) / 4);
    }
    proof {
        lemma_gds_mantissa_normalized(sig as nat, e2 as int, mb as nat);
    }
    let mut m = scale_exec(sig, shift, sb, mb);
    assert(m == rounded_mantissa(sig as nat, e2 as int, mb as nat));
    proof {
        lemma_u64_shl_is_mul(1, mantissa_bits as u64);
        lemma_u64_pow2_no_overflow(mantissa_bits as nat);
    }
    if m >= (1u64 << (mantissa_bits as u64)) {
        m = m / 16;
        gds_exp = gds_exp + 1;
    }
    assert(m == gds_mantissa(sig as nat, e2 as int, mb as nat));
    assert(gds_exp == gds_exponent(sig as nat, e2 as int, mb as nat));
    if gds_exp < -64 || gds_exp > 63 {
        return Err(NotRepresentable);
    }
    Ok(GdsRealComponents { sign, exponent: (gds_exp + 64) as u8, mantissa: m })
}

/// The `n` big-endian bytes of `x`.
fn be_bytes_of(x: u64, n: usize) -> (r: Vec<u8>)
    requires
        n <= 8,
    ensures
        r@ == be_bytes(x as nat, n as nat),
    decreases n,
{
    if n == 0 {
        Vec::new()
    } else {
        let mut v = be_bytes_of(x / 256, n - 1);
        v.push((x % 256) as u8);
        v
    }
}

/// Mantissa bits that a real of `n` bytes carries.
proof fn lemma_mantissa_fits(m: nat, n: nat)
    requires
        n == 4 || n == 8,
        m < pow2((8 * (n - 1)) as nat),
    ensures
        be_uint(be_bytes(m, (n - 1) as nat)) == m,
        be_bytes(m, (n - 1) as nat).len() == n - 1,
{
    lemma_be_uint_of_bytes(m, (n - 1) as nat);
    lemma_be_bytes_len(m, (n - 1) as nat);
}

/// Big-endian value of all bytes of `b` after the first.
fn mantissa_of(b: &[u8]) -> (m: u64)
    requires
        1 <= b.len() <= 8,
    ensures
        m == be_uint(b@.subrange(1, b@.len() as int)),
{
    let mut mantissa: u64 = 0;
    let mut i: usize = 1;
    proof {
        lemma2_to64();
        lemma2_to64_rest();
    }
    while i < b.len()
        invariant
            1 <= i <= b.len() <= 8,
            mantissa == be_uint(b@.subrange(1, i as int)),
            mantissa < pow2((8 * (i - 1)) as nat),
        decreases b.len() - i,
    {
        proof {
            lemma2_to64();
            lemma2_to64_rest();
            assert(b@.subrange(1, (i + 1) as int).drop_last() =~= b@.subrange(1, i as int));
            lemma_pow2_adds((8 * (i - 1)) as nat, 8);
            assert(mantissa * 256 + b[i as int] < pow2((8 * (i - 1)) as nat) * 256)
                by (nonlinear_arith)
                requires
                    mantissa < pow2((8 * (i - 1)) as nat),
                    b[i as int] < 256,
            ;
            if 8 * i < 56 {
                lemma_pow2_strictly_increases((8 * i) as nat, 56);
            }
        }
        mantissa = mantissa * 256 + b[i] as u64;
        i = i + 1;
    }
    mantissa
}

impl GdsFourByteReal {
    /// The four raw bytes.
    pub fn raw(&self) -> (r: [u8; 4])
        ensures
            r == self.0,
    {
        self.0
    }

    /// The real's sign, mantissa and binary exponent:
    /// `value = (-1)^negative x mantissa x 2^exponent`, exactly.
    pub fn parts(&self) -> (p: RealParts)
        ensures
            p == spec_real_parts(self.0@),
    {
        let b = self.0;
        let mantissa = mantissa_of(&b);
        let exponent: i32 = 4 * ((b[0] % 128) as i32 - 64) - 24;
        RealParts { negative: b[0] >= 128, mantissa, exponent }
    }

    /// The four-byte real nearest to the `f64` whose bits are `bits` (ties to even); true
    /// zero for either zero; `NotRepresentable` for NaN, the infinities and magnitudes out
    /// of range.
    pub fn from_f64_bits(bits: u64) -> (r: Result<Self, NotRepresentable>)
        ensures
            match r {
                Ok(x) => spec_encode(bits, 4) == Some(x.0@),
                Err(_) => spec_encode(bits, 4) is None,
            },
            f64_is_zero(bits) ==> (r matches Ok(x) && x.0@ == Seq::new(4, |i: int| 0u8)),
            f64_is_finite(bits) && (f64_is_zero(bits) || (pow2(814) <= f64_scaled_magnitude(bits)
                < pow2(1325))) ==> r is Ok,
            !f64_is_finite(bits) || (!f64_is_zero(bits) && (f64_scaled_magnitude(bits) < pow2(
                813,
            ) || f64_scaled_magnitude(bits) >= pow2(1326))) ==> r is Err,
    {
        proof {
            lemma2_to64();
            lemma2_to64_rest();
            lemma_four_byte_range(bits);
            if f64_is_zero(bits) {
                lemma_zero_is_true_zero(bits, 4);
            }
        }
        assert(f64_biased_exponent(bits) == bits / 0x10_0000_0000_0000 % 2048);
        assert(f64_fraction(bits) == bits % 0x10_0000_0000_0000);
        if bits / 0x10_0000_0000_0000 % 2048 == 2047 {
            return Err(NotRepresentable);
        }
        if bits / 0x10_0000_0000_0000 % 2048 == 0 && bits % 0x10_0000_0000_0000 == 0 {
            let z = GdsFourByteReal([0u8; 4]);
            assert(z.0@ =~= Seq::new(4, |i: int| 0u8));
            return Ok(z);
        }
        let c = encode_real_components(bits, 24)?;
        let mb = be_bytes_of(c.mantissa, 3);
        proof {
            lemma_be_bytes_len(c.mantissa as nat, 3);
        }
        let x = GdsFourByteReal([c.sign + c.exponent, mb[0], mb[1], mb[2]]);
        proof {
            lemma_be_bytes_len(c.mantissa as nat, 3);
            assert(x.0@ =~= real_bytes(
                f64_negative(bits),
                c.exponent - 64,
                c.mantissa as nat,
                4,
            ));
        }
        Ok(x)
    }
}

impl GdsEightByteReal {
    /// The eight raw bytes.
    pub fn raw(&self) -> (r: [u8; 8])
        ensures
            r == self.0,
    {
        self.0
    }

    /// The real's sign, mantissa and binary exponent:
    /// `value = (-1)^negative x mantissa x 2^exponent`, exactly.
    pub fn parts(&self) -> (p: RealParts)
        ensures
            p == spec_real_parts(self.0@),
    {
        let b = self.0;
        let mantissa = mantissa_of(&b);
        let exponent: i32 = 4 * ((b[0] % 128) as i32 - 64) - 56;
        RealParts { negative: b[0] >= 128, mantissa, exponent }
    }

    /// The eight-byte real equal to the `f64` whose bits are `bits`; true zero for either
    /// zero; `NotRepresentable` for NaN, the infinities and magnitudes out of range.
    pub fn from_f64_bits(bits: u64) -> (r: Result<Self, NotRepresentable>)
        ensures
            match r {
                Ok(x) => spec_encode(bits, 8) == Some(x.0@),
                Err(_) => spec_encode(bits, 8) is None,
            },
            f64_is_zero(bits) ==> (r matches Ok(x) && x.0@ == Seq::new(8, |i: int| 0u8)),
            r is Ok <==> f64_is_finite(bits) && (f64_is_zero(bits) || (pow2(814)
                <= f64_scaled_magnitude(bits) < pow2(1326))),
    {
        proof {
            lemma2_to64();
            lemma2_to64_rest();
            lemma_eight_byte_range(bits);
            if f64_is_zero(bits) {
                lemma_zero_is_true_zero(bits, 8);
            }
        }
        assert(f64_biased_exponent(bits) == bits / 0x10_0000_0000_0000 % 2048);
        assert(f64_fraction(bits) == bits % 0x10_0000_0000_0000);
        if bits / 0x10_0000_0000_0000 % 2048 == 2047 {
            return Err(NotRepresentable);
        }
        if bits / 0x10_0000_0000_0000 % 2048 == 0 && bits % 0x10_0000_0000_0000 == 0 {
            let z = GdsEightByteReal([0u8; 8]);
            assert(z.0@ =~= Seq::new(8, |i: int| 0u8));
            return Ok(z);
        }
        let c = encode_real_components(bits, 56)?;
        let mb = be_bytes_of(c.mantissa, 7);
        proof {
            lemma_be_bytes_len(c.mantissa as nat, 7);
        }
        let x = GdsEightByteReal([c.sign + c.exponent, mb[0], mb[1], mb[2], mb[3], mb[4], mb[5], mb[6]]);
        proof {
            lemma_be_bytes_len(c.mantissa as nat, 7);
            assert(x.0@ =~= real_bytes(
                f64_negative(bits),
                c.exponent - 64,
                c.mantissa as nat,
                8,
            ));
        }
        Ok(x)
    }
}

// ------------------------------------------------------------------------------------------
// Which values encode
// ------------------------------------------------------------------------------------------

/// `|value| x 2^1074` of a finite `f64`: a whole number, since every finite `f64` is a
/// multiple of 2^-1074.
pub open spec fn f64_scaled_magnitude(bits: u64) -> nat {
    f64_significand(bits) * pow2((f64_exponent(bits) + 1074) as nat)
}

/// A non-zero finite `f64` lies between two powers of two: `2^t <= |value| x 2^1074 <
/// 2^(t+1)` with `t` its top bit's position plus 1074.
proof fn lemma_scaled_magnitude_window(bits: u64) -> (t: nat)
    requires
        f64_is_finite(bits),
        !f64_is_zero(bits),
    ensures
        t == f64_exponent(bits) + bit_len(f64_significand(bits)) - 1 + 1074,
        pow2(t) <= f64_scaled_magnitude(bits) < pow2(t + 1),
        f64_significand(bits) > 0,
        bit_len(f64_significand(bits)) <= 53,
{
    lemma2_to64();
    lemma2_to64_rest();
    let sig = f64_significand(bits);
    let e2 = f64_exponent(bits);
    assert(sig > 0);
    assert(sig < pow2(53)) by {
        lemma_pow2_adds(52, 1);
    }
    lemma_bit_len_le(sig, 53);
    lemma_bit_len_bounds(sig);
    let sb = bit_len(sig);
    let k = (e2 + 1074) as nat;
    let t = (e2 + sb - 1 + 1074) as nat;
    lemma_pow2_adds((sb - 1) as nat, k);
    lemma_pow2_adds(sb, k);
    lemma_pow2_pos(k);
    assert(pow2((sb - 1) as nat) * pow2(k) <= sig * pow2(k) < pow2(sb) * pow2(k))
        by (nonlinear_arith)
        requires
            pow2((sb - 1) as nat) <= sig < pow2(sb),
            pow2(k) > 0,
    ;
    t
}

/// Where `2^t <= m < 2^(t+1)`, `m` reaches `2^lo` exactly when `lo <= t`, and stays below
/// `2^hi` exactly when `t < hi`.
proof fn lemma_pow2_window(t: nat, m: nat, lo: nat, hi: nat)
    requires
        pow2(t) <= m < pow2(t + 1),
    ensures
        pow2(lo) <= m <==> lo <= t,
        m < pow2(hi) <==> t < hi,
{
    if lo < t {
        lemma_pow2_strictly_increases(lo, t);
    }
    if lo > t + 1 {
        lemma_pow2_strictly_increases(t + 1, lo);
    }
    if hi < t {
        lemma_pow2_strictly_increases(hi, t);
    }
    if hi > t + 1 {
        lemma_pow2_strictly_increases(t + 1, hi);
    }
}

/// Rounding carries only for a magnitude just under a power of sixteen: its top bit is
/// the last bit below `16^g`, with `g` its hex exponent.
proof fn lemma_carry_is_just_below(sig: nat, e2: int, mb: nat)
    requires
        sig > 0,
        bit_len(sig) <= 53,
        mb == 24 || mb == 56,
        rounding_carries(sig, e2, mb),
    ensures
        4 * hex_exponent(sig, e2) == e2 + bit_len(sig),
{
    let sb = bit_len(sig);
    lemma_bit_len_bounds(sig);
    lemma_gds_mantissa_normalized(sig, e2, mb);
    let g = hex_exponent(sig, e2);
    let s = e2 + mb - 4 * g;
    assert(mb - sb - 3 <= s <= mb - sb);
    assert(s < 0);
    let r = (-s) as nat;
    lemma_round_half_even_bounds(sig, r);
    assert(rounded_mantissa(sig, e2, mb) == round_half_even(sig, r));
    if sb + s < mb {
        let p = pow2(r);
        lemma_pow2_pos(r);
        lemma_pow2_adds((sb - r) as nat, r);
        let q = sig / p;
        assert(q < pow2((sb - r) as nat)) by (nonlinear_arith)
            requires
                sig < pow2((sb - r) as nat) * p,
                q == sig / p,
                p > 0,
        ;
        lemma_pow2_strictly_increases((sb - r) as nat, mb);
        assert(false);
    }
}

/// Eight-byte reals take zero and every finite `f64` of magnitude in `[16^-65, 16^63)`,
/// that is `[2^-260, 2^252)`, and nothing else: NaN, the infinities and magnitudes outside
/// that range are refused.
pub proof fn lemma_eight_byte_range(bits: u64)
    ensures
        spec_encode(bits, 8) is Some <==> f64_is_finite(bits) && (f64_is_zero(bits) || (pow2(
            814,
        ) <= f64_scaled_magnitude(bits) < pow2(1326))),
{
    if f64_is_finite(bits) && !f64_is_zero(bits) {
        let t = lemma_scaled_magnitude_window(bits);
        let sig = f64_significand(bits);
        let e2 = f64_exponent(bits);
        lemma_pow2_window(t, f64_scaled_magnitude(bits), 814, 1326);
        lemma_gds_mantissa_normalized(sig, e2, 56);
        assert(gds_exponent(sig, e2, 56) == hex_exponent(sig, e2));
    }
}

/// Four-byte reals take zero and every finite `f64` of magnitude in `[2^-260, 2^251)`, and
/// refuse NaN, the infinities and magnitudes below `2^-261` or from `2^252` up. (Between
/// `2^251` and `2^252`, and between `2^-261` and `2^-260`, rounding decides.)
pub proof fn lemma_four_byte_range(bits: u64)
    ensures
        f64_is_finite(bits) && (f64_is_zero(bits) || (pow2(814) <= f64_scaled_magnitude(bits)
            < pow2(1325))) ==> spec_encode(bits, 4) is Some,
        !f64_is_finite(bits) || (!f64_is_zero(bits) && (f64_scaled_magnitude(bits) < pow2(813)
            || f64_scaled_magnitude(bits) >= pow2(1326))) ==> spec_encode(bits, 4) is None,
{
    if f64_is_finite(bits) && !f64_is_zero(bits) {
        let t = lemma_scaled_magnitude_window(bits);
        let sig = f64_significand(bits);
        let e2 = f64_exponent(bits);
        let m = f64_scaled_magnitude(bits);
        lemma_pow2_window(t, m, 814, 1325);
        lemma_pow2_window(t, m, 813, 1326);
        let hex = hex_exponent(sig, e2);
        if rounding_carries(sig, e2, 24) {
            lemma_carry_is_just_below(sig, e2, 24);
        }
        assert(gds_exponent(sig, e2, 24) == if rounding_carries(sig, e2, 24) {
            hex + 1
        } else {
            hex
        });
    }
}

/// Zero of either sign becomes true zero: all bytes zero, four-byte or eight-byte.
pub proof fn lemma_zero_is_true_zero(bits: u64, n: nat)
    requires
        n == 4 || n == 8,
        f64_is_zero(bits),
    ensures
        spec_encode(bits, n) == Some(Seq::new(n, |i: int| 0u8)),
{
}

/// Reading back the raw bytes of an encoded real gives its sign, exponent and mantissa.
proof fn lemma_real_bytes_parts(negative: bool, g: int, m: nat, n: nat)
    requires
        n == 4 || n == 8,
        -64 <= g <= 63,
        m < pow2((8 * (n - 1)) as nat),
    ensures
        spec_real_parts(real_bytes(negative, g, m, n)).negative == negative,
        spec_real_parts(real_bytes(negative, g, m, n)).mantissa == m,
        spec_real_parts(real_bytes(negative, g, m, n)).exponent == 4 * g - 8 * (n - 1),
        real_bytes(negative, g, m, n).len() == n,
{
    lemma2_to64();
    lemma2_to64_rest();
    lemma_mantissa_fits(m, n);
    let s = real_bytes(negative, g, m, n);
    assert(s.subrange(1, s.len() as int) =~= be_bytes(m, (n - 1) as nat));
}

/// Eight-byte reals hold every finite `f64` exactly: decoding the encoding of a finite `f64`
/// gives the same sign and the same magnitude `significand x 2^exponent`.
pub proof fn lemma_eight_byte_encoding_is_exact(bits: u64)
    requires
        spec_encode(bits, 8) is Some,
    ensures
        ({
            let p = spec_real_parts(spec_encode(bits, 8).unwrap());
            &&& f64_is_zero(bits) ==> p.mantissa == 0
            &&& !f64_is_zero(bits) ==> {
                &&& p.negative == f64_negative(bits)
                &&& pow2(52) <= p.mantissa < pow2(56)
                &&& p.exponent <= f64_exponent(bits)
                &&& p.mantissa == f64_significand(bits) * pow2(
                    (f64_exponent(bits) - p.exponent) as nat,
                )
            }
        }),
{
    lemma2_to64();
    lemma2_to64_rest();
    let s = spec_encode(bits, 8).unwrap();
    if f64_is_zero(bits) {
        assert(s.subrange(1, 8) =~= seq![0u8, 0u8, 0u8, 0u8, 0u8, 0u8, 0u8]);
        reveal_with_fuel(be_uint, 8);
    } else {
        let sig = f64_significand(bits);
        let e2 = f64_exponent(bits);
        assert(sig > 0);
        assert(sig < pow2(53)) by {
            lemma_pow2_adds(52, 1);
        }
        lemma_bit_len_le(sig, 53);
        lemma_gds_mantissa_normalized(sig, e2, 56);
        lemma_real_bytes_parts(f64_negative(bits), gds_exponent(sig, e2, 56), gds_mantissa(sig, e2, 56), 8);
    }
}

/// Four-byte reals round to nearest, ties to even: decoding the encoding of a non-zero
/// finite `f64` gives the same sign, and a magnitude within half a unit of the mantissa's
/// last place (exactly the same magnitude where no bits are dropped); where the `f64` lies
/// exactly halfway between two four-byte reals, the mantissa is even.
pub proof fn lemma_four_byte_encoding_is_nearest(bits: u64)
    requires
        spec_encode(bits, 4) is Some,
        !f64_is_zero(bits),
    ensures
        ({
            let p = spec_real_parts(spec_encode(bits, 4).unwrap());
            let sig = f64_significand(bits);
            let d = f64_exponent(bits) - p.exponent;
            &&& p.negative == f64_negative(bits)
            &&& pow2(20) <= p.mantissa < pow2(24)
            &&& d >= 0 ==> p.mantissa == sig * pow2(d as nat)
            &&& d < 0 ==> {
                &&& p.mantissa * pow2((-d) as nat) <= sig + pow2((-d - 1) as nat)
                &&& sig <= p.mantissa * pow2((-d) as nat) + pow2((-d - 1) as nat)
                &&& (p.mantissa * pow2((-d) as nat) == sig + pow2((-d - 1) as nat) || sig
                    == p.mantissa * pow2((-d) as nat) + pow2((-d - 1) as nat)) ==> p.mantissa % 2
                    == 0
            }
        }),
{
    lemma2_to64();
    lemma2_to64_rest();
    let sig = f64_significand(bits);
    let e2 = f64_exponent(bits);
    assert(sig > 0);
    assert(sig < pow2(53)) by {
        lemma_pow2_adds(52, 1);
    }
    lemma_bit_len_le(sig, 53);
    lemma_gds_mantissa_normalized(sig, e2, 24);
    let g = gds_exponent(sig, e2, 24);
    let m = gds_mantissa(sig, e2, 24);
    lemma_real_bytes_parts(f64_negative(bits), g, m, 4);
    let hex = hex_exponent(sig, e2);
    let s0 = e2 + 24 - 4 * hex;
    let d = e2 - (4 * g - 24);
    if s0 < 0 {
        let r0 = (-s0) as nat;
        lemma_round_half_even_bounds(sig, r0);
        let m0 = rounded_mantissa(sig, e2, 24);
        if rounding_carries(sig, e2, 24) {
            // m0 == 2^24 and m == 2^20; d == s0 - 4
            assert(m0 == pow2(24));
            let r = (r0 + 4) as nat;
            lemma_pow2_adds(r0, 4);
            lemma_pow2_adds(20, r);
            lemma_pow2_adds(24, r0);
            assert(m == pow2(20));
            assert(m * pow2(r) == m0 * pow2(r0)) by {
                assert(pow2(20) * pow2(r) == pow2(20 + r));
                assert(pow2(24) * pow2(r0) == pow2(24 + r0));
                assert(20 + r == 24 + r0);
            }
            lemma_pow2_strictly_increases((r0 - 1) as nat, (r - 1) as nat);
            assert(m % 2 == 0);
        } else {
            lemma_round_tie_even(sig, r0);
        }
    }
}

/// A tie rounds to the even neighbour.
proof fn lemma_round_tie_even(n: nat, r: nat)
    requires
        r > 0,
    ensures
        ({
            let m = round_half_even(n, r);
            (m * pow2(r) == n + pow2((r - 1) as nat) || n == m * pow2(r) + pow2((r - 1) as nat))
                ==> m % 2 == 0
        }),
{
    let p = pow2(r);
    let h = pow2((r - 1) as nat);
    lemma_pow2_unfold(r);
    lemma_pow2_pos((r - 1) as nat);
    let q = n / p;
    let rem = n % p;
    assert(n == q * p + rem && 0 <= rem < p) by (nonlinear_arith)
        requires
            p > 0,
            q == n / p,
            rem == n % p,
    ;
    assert((q + 1) * p == q * p + p) by (nonlinear_arith);
}

} // verus!
