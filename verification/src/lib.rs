//! A library for the CLD world-description language: it turns a labeled
//! parse tree into typed citizen declarations, assembles them into a single
//! `World`, and checks that world against semantic consistency rules.
//!
//! Everything here is synchronous, single-threaded and free of side
//! effects: each parse, assembly or validation works only on data its
//! caller owns, so independent worlds can be handled concurrently without
//! locking. Value parsing recurses along the input's nesting depth; a
//! caller that needs a bounded stack bounds the input's depth or size
//! before calling in.

pub mod citizens;
pub mod name_map;
pub mod parser;
pub mod world;
