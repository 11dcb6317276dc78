//! Symbolic evaluator core for an ISA semantics interpreter.
//!
//! The library provides the typed intermediate representation and symbol
//! table, a concrete fixed-width bit-vector domain, a facade over an
//! incremental SMT solver, the primitive operations that evaluate hybrid
//! concrete/symbolic values, the ISA configuration reader, and the litmus
//! test front end.

pub mod ast;
pub mod bitvector;
pub mod config;
pub mod error;
pub mod laws;
pub mod litmus;
pub mod frame;
pub mod primop;
pub mod primop_bits;
pub mod primop_misc;
pub mod registry;
pub mod sexp;
pub mod smt;
pub mod strings;
pub mod toml_model;
pub mod value;
pub mod zencode;

pub use error::ExecError;
