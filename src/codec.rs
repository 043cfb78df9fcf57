//! The fractional plaintext codec. A double is laid out one binary digit per
//! polynomial coefficient: the integer digits at the low indices, the
//! fractional digits at the high indices with their sign inverted, each digit
//! as a residue modulo the plaintext modulus `t` (`t - 1` stands for `-1`).
//! The double enters as its IEEE-754 bit pattern; decoding hands back the
//! signed digits, whose weighted sum is the value.

use vstd::prelude::*;
use crate::params::{Error, Params};

verus! {

/// A plaintext polynomial: its coefficients, lowest degree first.
#[derive(Clone, Debug)]
pub struct Polynomial {
    pub coefficients: Vec<u64>,
}

/// The polynomials of a plaintext.
#[derive(Clone, Debug)]
pub enum InnerPlaintext {
    /// Polynomials of the BFV library.
    Seal(Vec<Polynomial>),
}

/// An encoded, unencrypted value.
#[derive(Clone, Debug)]
pub struct Plaintext {
    pub inner: InnerPlaintext,
}

/// One decoded digit: it contributes `±magnitude · 2^power` to the value,
/// with `-` where `negative` holds.
#[derive(PartialEq, Eq, Structural, Clone, Copy, Debug)]
pub struct SignedDigit {
    pub power: i64,
    pub negative: bool,
    pub magnitude: u64,
}

/// The biased exponent of a double's bit pattern.
pub open spec fn exponent_field(bits: u64) -> u64 {
    (bits >> 52u64) & 0x7FFu64
}

/// The stored fraction of a double's bit pattern.
pub open spec fn fraction_field(bits: u64) -> u64 {
    bits & 0xFFFFFFFFFFFFFu64
}

/// The sign bit of a double's bit pattern.
pub open spec fn sign_field(bits: u64) -> u64 {
    bits >> 63u64
}

/// The 53-bit significand of a normal double, the implicit one included.
pub open spec fn significand(bits: u64) -> u64 {
    fraction_field(bits) | 0x10000000000000u64
}

/// Bit `i` of the significand.
pub open spec fn significand_bit(bits: u64, i: u64) -> u64 {
    (significand(bits) >> i) & 1u64
}

/// The unbiased exponent `p` of a normal double.
pub open spec fn unbiased_exponent(bits: u64) -> int {
    exponent_field(bits) as int - 1023
}

/// The significand bit that lands on coefficient `c` of an `n`-coefficient
/// polynomial for exponent `p`, or `-1` where none does. Bit `i` has weight
/// `2^(p - 52 + i)`; a weight `2^k` goes to index `k` when `k >= 0`, and to
/// index `n + k` otherwise.
pub open spec fn bit_at(c: int, n: int, p: int) -> int {
    if 0 <= c && c <= p && p - 52 <= c {
        c - p + 52
    } else if c < n && c - n < 0 && p - 52 <= c - n && c - n <= p {
        c - n - p + 52
    } else {
        -1
    }
}

/// Coefficient `c` of the encoding of the normal double `bits`: its digit,
/// negated where the sign is negative, with the sign inverted for the
/// fractional digits.
pub open spec fn encoded_coefficient(bits: u64, n: int, t: u64, c: int) -> u64 {
    let p = unbiased_exponent(bits);
    let i = bit_at(c, n, p);
    if i < 0 {
        0
    } else {
        let b = significand_bit(bits, i as u64);
        let negative = if c <= p {
            sign_field(bits) == 1
        } else {
            sign_field(bits) == 0
        };
        if !negative {
            b
        } else if b == 1 {
            (t - 1) as u64
        } else {
            0
        }
    }
}

/// The coefficients that encode `bits` in `n` coefficients modulo `t`, where
/// the value is finite and in range: zero for zero and for subnormals.
pub open spec fn encoded_coefficients(bits: u64, n: nat, t: u64) -> Seq<u64> {
    Seq::new(
        n,
        |c: int|
            if exponent_field(bits) == 0 {
                0u64
            } else {
                encoded_coefficient(bits, n as int, t, c)
            },
    )
}

/// Encoding fails for `bits`: NaN, an infinity, or an integer part wider
/// than `int_bits` bits.
pub open spec fn encoding_fails(bits: u64, int_bits: int) -> bool {
    ||| exponent_field(bits) == 0x7FF
    ||| (exponent_field(bits) != 0 && unbiased_exponent(bits) + 1 > int_bits)
}

/// The lowest digit of `bits` falls inside an `n`-coefficient polynomial.
pub open spec fn lowest_digit_fits(bits: u64, n: int) -> bool {
    exponent_field(bits) == 0 || exponent_field(bits) == 0x7FF || unbiased_exponent(bits) - 52 + n >= 0
}

/// The residues from `t / 2 + 1` up stand for negative digits.
pub open spec fn negative_cutoff(t: u64) -> int {
    t as int / 2 + 1
}

/// The digit that coefficient `i`, holding `coeff`, decodes to.
pub open spec fn decoded_digit(coeff: u64, i: int, n: int, t: u64, int_bits: int) -> SignedDigit {
    let power = if i < int_bits {
        i
    } else {
        i - n
    };
    let residue_negative = coeff as int >= negative_cutoff(t);
    let magnitude = if residue_negative {
        (t - coeff) as u64
    } else {
        coeff
    };
    SignedDigit {
        power: power as i64,
        negative: if power >= 0 {
            residue_negative
        } else {
            !residue_negative
        },
        magnitude,
    }
}

/// The digits that the coefficients `coeffs` decode to, for the first
/// `min(n, coeffs.len())` of them.
pub open spec fn decoded_digits(coeffs: Seq<u64>, n: int, t: u64, int_bits: int) -> Seq<SignedDigit> {
    let len = if n < coeffs.len() {
        n
    } else {
        coeffs.len() as int
    };
    Seq::new(len as nat, |i: int| decoded_digit(coeffs[i], i, n, t, int_bits))
}

/// The polynomials of a plaintext, as coefficient sequences.
pub open spec fn plaintext_polys(p: Plaintext) -> Seq<Polynomial> {
    match p.inner {
        InnerPlaintext::Seal(v) => v@,
    }
}

proof fn lemma_significand_bit(bits: u64, i: u64)
    requires
        i < 53,
    ensures
        significand_bit(bits, i) <= 1,
{
    assert(((((bits & 0xFFFFFFFFFFFFFu64) | 0x10000000000000u64) >> i) & 1u64) <= 1) by (bit_vector);
}

proof fn lemma_exponent_bounds(bits: u64)
    ensures
        exponent_field(bits) <= 0x7FF,
        sign_field(bits) <= 1,
{
    assert((bits >> 52u64) & 0x7FFu64 <= 0x7FF) by (bit_vector);
    assert(bits >> 63u64 <= 1) by (bit_vector);
}

/// Encodes the double with bit pattern `bits` as a plaintext of
/// `params.lattice_dimension` coefficients modulo `params.plain_modulus`,
/// with `int_bits` integer digits. NaN, the infinities, and values whose
/// integer part needs more than `int_bits` bits fail with `FheTypeError`;
/// zero and subnormals encode to the zero polynomial.
pub fn encode_fractional_bits(bits: u64, int_bits: usize, params: &Params) -> (r: Result<Plaintext, Error>)
    requires
        int_bits <= params.lattice_dimension,
        53 <= params.lattice_dimension <= i64::MAX,
        params.lattice_dimension <= usize::MAX,
        params.plain_modulus >= 1,
        lowest_digit_fits(bits, params.lattice_dimension as int),
    ensures
        r is Err <==> encoding_fails(bits, int_bits as int),
        r is Err ==> r->Err_0 is FheTypeError,
        r is Ok ==> plaintext_polys(r->Ok_0).len() == 1 && plaintext_polys(r->Ok_0)[0].coefficients@
            == encoded_coefficients(bits, params.lattice_dimension as nat, params.plain_modulus),
{
    let n = params.lattice_dimension as usize;
    let t = params.plain_modulus;
    let exponent = (bits >> 52u64) & 0x7FFu64;
    let fraction = bits & 0xFFFFFFFFFFFFFu64;
    proof {
        lemma_exponent_bounds(bits);
    }
    if exponent == 0x7FF {
        if fraction != 0 {
            return Err(Error::FheTypeError(String::from_str("Value is NaN.")));
        } else {
            return Err(Error::FheTypeError(String::from_str("Value is infinite.")));
        }
    }
    let mut coefficients: Vec<u64> = Vec::new();
    let mut k: usize = 0;
    while k < n
        invariant
            k <= n,
            coefficients@ == Seq::new(k as nat, |c: int| 0u64),
        decreases n - k,
    {
        coefficients.push(0);
        k = k + 1;
    }
    if exponent == 0 {
        assert(coefficients@ =~= encoded_coefficients(bits, n as nat, t));
        return Ok(single_polynomial(coefficients));
    }
    let power: i64 = exponent as i64 - 1023;
    if power + 1 > int_bits as i64 {
        return Err(Error::FheTypeError(String::from_str("Out of range")));
    }
    let mantissa = fraction | 0x10000000000000u64;
    let sign = bits >> 63u64;
    let ghost p = power as int;
    let mut i: u64 = 0;
    while i < 53
        invariant
            i <= 53,
            n == params.lattice_dimension,
            int_bits <= n,
            53 <= n <= i64::MAX,
            n <= usize::MAX,
            t >= 1,
            p == unbiased_exponent(bits),
            power as int == p,
            p + 1 <= int_bits,
            p - 52 + n >= 0,
            -1023 <= p,
            mantissa == significand(bits),
            sign == sign_field(bits),
            sign <= 1,
            coefficients@.len() == n,
            forall|c: int|
                0 <= c < n ==> #[trigger] coefficients@[c] == if 0 <= bit_at(c, n as int, p) < i {
                    encoded_coefficient(bits, n as int, t, c)
                } else {
                    0u64
                },
        decreases 53 - i,
    {
        let bit_value = (mantissa >> i) & 1u64;
        proof {
            lemma_significand_bit(bits, i);
        }
        let bit_power: i64 = power - (52 - i as i64);
        let coeff_index: usize = if bit_power >= 0 {
            bit_power as usize
        } else {
            (n as i64 + bit_power) as usize
        };
        let negative = if bit_power >= 0 {
            sign == 1
        } else {
            sign == 0
        };
        let coeff = if !negative {
            bit_value
        } else if bit_value > 0 {
            t - bit_value
        } else {
            0
        };
        proof {
            let c = coeff_index as int;
            assert(bit_at(c, n as int, p) == i);
            assert(coeff == encoded_coefficient(bits, n as int, t, c));
        }
        coefficients.set(coeff_index, coeff);
        i = i + 1;
    }
    proof {
        assert forall|c: int| 0 <= c < n implies coefficients@[c] == #[trigger] encoded_coefficients(bits, n as nat, t)[c] by {
            let b = bit_at(c, n as int, p);
            if b >= 0 {
                assert(b < 53);
            }
        }
        assert(coefficients@ =~= encoded_coefficients(bits, n as nat, t));
    }
    Ok(single_polynomial(coefficients))
}

/// Decodes a plaintext of `params.lattice_dimension` coefficients modulo
/// `params.plain_modulus` with `int_bits` integer digits into its signed
/// digits, one for each of the first `min(n, len)` coefficients: a residue
/// below `t / 2 + 1` is the digit itself, a larger one stands for its
/// difference from `t`, negated; the digits at or above `int_bits` weigh
/// `2^(i - n)` and have their sign inverted. The value is the sum of
/// `±magnitude · 2^power` over the digits. A plaintext that does not hold
/// exactly one polynomial fails with `IncorrectCiphertextCount`.
pub fn decode_fractional_digits(plaintext: &Plaintext, int_bits: usize, params: &Params) -> (r: Result<Vec<SignedDigit>, Error>)
    requires
        params.lattice_dimension <= i64::MAX,
        params.lattice_dimension <= usize::MAX,
        plaintext_polys(*plaintext).len() == 1 ==> forall|c: int|
            0 <= c < plaintext_polys(*plaintext)[0].coefficients@.len()
                ==> #[trigger] plaintext_polys(*plaintext)[0].coefficients@[c] < params.plain_modulus,
    ensures
        r is Err <==> plaintext_polys(*plaintext).len() != 1,
        r is Err ==> r->Err_0 is IncorrectCiphertextCount,
        r is Ok ==> r->Ok_0@ == decoded_digits(
            plaintext_polys(*plaintext)[0].coefficients@,
            params.lattice_dimension as int,
            params.plain_modulus,
            int_bits as int,
        ),
{
    let polys = match &plaintext.inner {
        InnerPlaintext::Seal(p) => p,
    };
    if polys.len() != 1 {
        return Err(Error::IncorrectCiphertextCount);
    }
    let coeffs = &polys[0].coefficients;
    let ghost cs = coeffs@;
    assert(plaintext_polys(*plaintext)[0] == polys@[0]);
    assert forall|c: int| 0 <= c < cs.len() implies #[trigger] cs[c] < params.plain_modulus by {
        assert(plaintext_polys(*plaintext)[0].coefficients@[c] < params.plain_modulus);
    }
    let n = params.lattice_dimension as usize;
    let t = params.plain_modulus;
    let len = if n < coeffs.len() {
        n
    } else {
        coeffs.len()
    };
    let cutoff = t / 2 + 1;
    let mut digits: Vec<SignedDigit> = Vec::new();
    let mut i: usize = 0;
    while i < len
        invariant
            i <= len <= n,
            len <= cs.len(),
            n == params.lattice_dimension <= i64::MAX,
            t == params.plain_modulus,
            cutoff == negative_cutoff(t),
            cs == coeffs@,
            forall|c: int| 0 <= c < cs.len() ==> #[trigger] cs[c] < t,
            digits@ == Seq::new(i as nat, |k: int| decoded_digit(cs[k], k, n as int, t, int_bits as int)),
        decreases len - i,
    {
        let power: i64 = if i < int_bits {
            i as i64
        } else {
            i as i64 - n as i64
        };
        let coeff = coeffs[i];
        let residue_negative = coeff >= cutoff;
        let magnitude = if residue_negative {
            t - coeff
        } else {
            coeff
        };
        let negative = if power >= 0 {
            residue_negative
        } else {
            !residue_negative
        };
        let digit = SignedDigit { power, negative, magnitude };
        assert(digit == decoded_digit(cs[i as int], i as int, n as int, t, int_bits as int));
        digits.push(digit);
        assert(digits@ =~= Seq::new((i + 1) as nat, |k: int| decoded_digit(cs[k], k, n as int, t, int_bits as int)));
        i = i + 1;
    }
    assert(digits@ =~= decoded_digits(cs, n as int, t, int_bits as int));
    Ok(digits)
}

/// The coefficient index that significand bit `i` lands on, for exponent `p`
/// in an `n`-coefficient polynomial.
pub open spec fn bit_index(n: int, p: int, i: int) -> int {
    if p - 52 + i >= 0 {
        p - 52 + i
    } else {
        n + p - 52 + i
    }
}

/// Decoding an encoding gives back each significand bit with its weight and
/// the value's sign: every bit `i` lands on its own coefficient, which
/// decodes to `bit_i · 2^(p - 52 + i)`, negated for a negative value, and
/// every other coefficient decodes to zero. This holds for a finite normal
/// value in range, with `t > 2`, where the fractional digits stay clear of
/// the integer digits.
pub proof fn lemma_decode_encode_digits(bits: u64, n: int, t: u64, int_bits: int, c: int)
    requires
        0 <= int_bits,
        int_bits + 53 <= n <= i64::MAX,
        t > 2,
        exponent_field(bits) != 0,
        !encoding_fails(bits, int_bits),
        unbiased_exponent(bits) - 52 + n >= int_bits,
        0 <= c < n,
    ensures
        ({
            let p = unbiased_exponent(bits);
            let i = bit_at(c, n, p);
            let d = decoded_digit(encoded_coefficients(bits, n as nat, t)[c], c, n, t, int_bits);
            &&& i < 0 ==> d.magnitude == 0
            &&& i >= 0 ==> {
                &&& i < 53
                &&& bit_index(n, p, i) == c
                &&& d.magnitude == significand_bit(bits, i as u64)
                &&& d.power == p - 52 + i
                &&& d.magnitude == 1 ==> d.negative == (sign_field(bits) == 1)
            }
        }),
        forall|i: int|
            0 <= i < 53 ==> 0 <= #[trigger] bit_index(n, unbiased_exponent(bits), i) < n
                && bit_at(bit_index(n, unbiased_exponent(bits), i), n, unbiased_exponent(bits)) == i,
{
    let p = unbiased_exponent(bits);
    let i = bit_at(c, n, p);
    lemma_exponent_bounds(bits);
    if i >= 0 {
        lemma_significand_bit(bits, i as u64);
    }
}

/// A plaintext of the one polynomial with `coefficients`.
fn single_polynomial(coefficients: Vec<u64>) -> (r: Plaintext)
    ensures
        plaintext_polys(r).len() == 1,
        plaintext_polys(r)[0].coefficients@ == coefficients@,
{
    let mut polys: Vec<Polynomial> = Vec::new();
    polys.push(Polynomial { coefficients });
    Plaintext { inner: InnerPlaintext::Seal(polys) }
}

} // verus!
