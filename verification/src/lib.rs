//! Generation and validation of syntactically well-formed payment-card
//! numbers: a card-type model with issuer prefixes, a Luhn checksum
//! validator, and a random search for checksum-valid numbers.

pub mod arith;
pub mod card;
pub mod generator;
pub mod luhn;
pub mod rng;
pub mod text;

use vstd::prelude::*;

verus! {

} // verus!
