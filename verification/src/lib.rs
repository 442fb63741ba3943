//! Verified core of an FPGA toolchain: logic-graph intermediate
//! representation, AIGER and BLIF readers, string interning and
//! entity databases.

pub mod ops;
pub mod aiger;
pub mod graph;
pub mod text;
pub mod yosys;
pub mod key;
pub mod stringtable;
pub mod database;
pub mod archmodel;
pub mod architecture;
pub mod arch;
pub mod cli;
pub mod blif;
pub mod place;
pub mod route;
pub mod flow;
pub mod device;
