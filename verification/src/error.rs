//! Why an opening proof was not made.
use vstd::prelude::*;

use crate::montgomery_inner_product::MontgomeryError;

verus! {

/// Why an opening proof was not made.
#[derive(Clone, Copy, Debug, PartialEq)]
pub enum ZipError {
    /// The polynomials or the point do not match the parameters.
    InvalidPcsParam(&'static str),
    /// The committed columns could not be opened.
    InvalidPcsOpen(&'static str),
    /// An intermediate integer exceeds its width.
    OverflowError(&'static str),
    /// A product with prepared field elements was refused.
    Montgomery(MontgomeryError),
    /// The transcript refused what was written to it.
    Transcript(&'static str),
}

} // verus!
