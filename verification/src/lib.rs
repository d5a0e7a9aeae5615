//! Static operand-stack analysis of WebAssembly modules, for runtimes that
//! capture a running program and resume it later.
//!
//! For every instruction of every function the library infers the types on
//! the operand stack, and keeps them in one table for each function, by byte
//! offset. The tables can be written and read back, and can be laid out so
//! that the stack at a given offset of a given function is found without
//! reading anything else.
//!
//! - [`parse`] reads a module from its binary form into the [`module`] that
//!   the analysis works on; [`instr`] holds its instructions.
//! - [`opcode`] is the table of stack effects, and [`function`] the
//!   simulation that applies it instruction by instruction.
//! - [`stack_table`] builds the tables, [`codec`] writes and reads them, and
//!   [`create_table`] lays them out for direct addressing.
//! - [`view`] and [`analysis`] read what a runtime has captured.
//!
//! The contracts of the functions are stated over the values of the data
//! types, and what the library promises of several functions together is
//! stated in proof functions: that tables come back from their binary form as
//! they were, that addresses lead to their records, and how the depth of the
//! stack follows from the instructions.

pub mod analysis;
pub mod bytes;
pub mod codec;
pub mod create_table;
pub mod create_table_v2;
pub mod error;
pub mod function;
pub mod instr;
pub mod module;
pub mod opcode;
pub mod parse;
pub mod stack_table;
pub mod val;
pub mod view;
