//! Opening proofs of the Zip+ polynomial commitment scheme.
//!
//! [`phase_prove`] starts a proof and hands out a [`prover`], which takes the steps of the
//! [`protocol`]; [`laws`] states what holds of every proof, [`protocol_laws`] what each of its
//! steps does, and [`arithmetic_laws`] what its numbers are. The integers of a proof come from
//! [`combine`], [`row_products`] and [`mle`], and the products of integers with field elements
//! from [`montgomery_inner_product`].
pub mod arithmetic_laws;
pub mod boxed;
pub mod combine;
pub mod error;
pub mod field;
pub mod inner_product;
pub mod integer;
pub mod laws;
pub mod mle;
pub mod modular;
pub mod montgomery_inner_product;
pub mod monty;
pub mod phase_prove;
pub mod protocol;
pub mod protocol_laws;
pub mod prover;
pub mod row_products;
pub mod structs;
pub mod words;

mod bigint;
