//! Verified parameter analysis and protocol logic of a hash-based proof system.
//!
//! The first part derives and checks the parameters of a polynomial commitment: Reed-Solomon codes
//! ([`code`]), query counts ([`query`], [`udr`]), interpolation certificates ([`certificate`]), the
//! error terms of one level ([`soundness`]), the search for the fewest queries ([`optimizer`]), the
//! ladder of levels ([`ladder`]), and the configuration of an opening ([`config`], [`security`],
//! [`derivation`]), with what it leaves unused ([`margin`]). Every decision is made in exact
//! integers.
//!
//! The second part is the logic of lookups and of the proof of an execution: fields ([`field`],
//! [`koala_bear`], [`quintic`]), multilinear polynomials ([`multilinear`]), sums of fractions
//! ([`fractions`], [`quotient_gkr`]), indexed lookups ([`logup_star`]), the buses between tables
//! ([`bus`]), and what an execution proof computes between its steps ([`execution`],
//! [`statements`], [`permutation`]). Provers and verifiers are state machines: each says what it
//! wants from the transcript and takes the reply.
//!
//! What all this guarantees is stated as laws, beside the functions or in modules of their own
//! ([`certificate_laws`], [`level_laws`], [`shape_laws`], [`sum_laws`], [`gkr_laws`],
//! [`logup_laws`]), in the terms of inputs and results.

pub mod text;
pub mod arith;
pub mod bigint;
pub mod code;
pub mod query;
pub mod certificate;
pub mod certificate_laws;
pub mod ring_switch;
pub mod soundness;
pub mod params;
pub mod udr;
pub mod ladder;
pub mod config;
pub mod optimizer;
pub mod security;
pub mod level_laws;
pub mod derivation;
pub mod shape_laws;
pub mod margin;
pub mod field;
pub mod koala_bear;
pub mod quintic;
pub mod multilinear;
pub mod sum_laws;
pub mod log2;
pub mod fractions;
pub mod quotient_gkr;
pub mod gkr_laws;
pub mod gkr_session;
pub mod logup_star;
pub mod logup_laws;
pub mod logup_session;
pub mod bus;
pub mod bus_session;
pub mod execution;
pub mod statements;
pub mod permutation;
