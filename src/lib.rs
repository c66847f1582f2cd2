//! A compiler for a small Python-like expression language down to x86-64
//! assembly: scanning, parsing and type checking, then shrinking, operand
//! flattening, control-flow lowering, instruction selection, liveness,
//! interference, move-biased register allocation, home assignment, operand
//! patching and frame layout.
pub mod x86;
pub mod patch;
pub mod liveness;
pub mod frame;
pub mod gen;
pub mod assign_homes;
pub mod interference;
pub mod allocate;
pub mod token;
pub mod ast;
pub mod shrink;
pub mod rco;
pub mod select_instructions;
pub mod clike;
pub mod explicate_control;
pub mod env;
pub mod scanner;
pub mod parser;
pub mod type_checking;
pub mod reporter;
pub mod graph;
