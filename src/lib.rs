//! Time-expansion models of full-scan gate-level netlists for transition-fault ATPG.
//!
//! A configured top module is cut at its flip-flops into a combinational part
//! (`extraction`), copied into a two-cycle broadside model (`broadside`) and a three-copy
//! detection-identification model (`di`), and turned into a reference/implementation pair
//! that differs only by the configured stuck-at faults (`atpg`). The netlist model, its
//! reader and its writer are in `verilog`, `token`, `parser` and `serializer`; the
//! configuration is in `config`.
use vstd::prelude::*;

pub mod atpg;
pub mod broadside;
pub mod config;
pub mod di;
pub mod extraction;
pub mod fault;
pub mod parser;
pub mod serializer;
pub mod text;
pub mod token;
pub mod verilog;

verus! {

} // verus!
