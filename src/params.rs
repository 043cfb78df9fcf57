//! Scheme parameters and the errors of the library.

use vstd::prelude::*;
use crate::circuit::SchemeType;

verus! {

/// The security level that a parameter set meets.
#[derive(PartialEq, Eq, Structural, Clone, Copy, Debug)]
pub enum SecurityLevel {
    /// 128 bits of classical security.
    TC128,
    /// 192 bits of classical security.
    TC192,
    /// 256 bits of classical security.
    TC256,
}

/// The parameters of a BFV scheme instance.
#[derive(Clone, Debug)]
pub struct Params {
    /// The number of coefficients of each polynomial, `n`.
    pub lattice_dimension: u64,
    /// The plaintext modulus, `t`.
    pub plain_modulus: u64,
    /// The moduli of the ciphertext coefficients.
    pub coeff_modulus: Vec<u64>,
    /// The scheme these parameters are for.
    pub scheme_type: SchemeType,
    /// The security level they meet.
    pub security_level: SecurityLevel,
}

impl Params {
    /// A copy of these parameters.
    pub fn copy(&self) -> (r: Params)
        ensures
            r.lattice_dimension == self.lattice_dimension,
            r.plain_modulus == self.plain_modulus,
            r.coeff_modulus@ == self.coeff_modulus@,
            r.scheme_type == self.scheme_type,
            r.security_level == self.security_level,
    {
        Params {
            lattice_dimension: self.lattice_dimension,
            plain_modulus: self.plain_modulus,
            coeff_modulus: self.coeff_modulus.clone(),
            scheme_type: self.scheme_type,
            security_level: self.security_level,
        }
    }
}

/// The errors the library reports.
#[derive(Debug)]
pub enum Error {
    /// A value cannot be encoded as its type: the message says why.
    FheTypeError(String),
    /// A plaintext holds the wrong number of polynomials for its type.
    IncorrectCiphertextCount,
    /// No parameters meet the requested constraints.
    UnsatisfiableParams,
}

} // verus!
