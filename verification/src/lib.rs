//! A combinational-netlist library: a parser for a restricted subset of the
//! Berkeley Logic Interchange Format (BLIF) and a tri-state signal-propagation
//! engine that evaluates the parsed netlist against bound input values.

pub mod blif;
pub mod simulation;
