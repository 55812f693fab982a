//! A checker of proofs in natural deduction for propositional logic.
//!
//! A proof is a text of numbered records, one per line. Each record states a
//! formula under the hypotheses that are open, and names the inference rule
//! that justifies it. The library reads formulas ([`formula`]),
//! justifications ([`justif`]) and records ([`record`]), and checks that
//! every record of a proof is a legitimate step ([`checker`]).
//!
//! Every function is specified over sequences of characters and proved to
//! meet its specification. The laws of the parser are in
//! [`parser_invariant`], [`printer`] and [`precedence`], those of the
//! checker in [`checker_laws`].

pub mod checker;
pub mod checker_laws;
pub mod formula;
pub mod justif;
pub mod parser_invariant;
pub mod precedence;
pub mod printer;
pub mod record;
pub mod text;
