//! From the binary form of a module to the binary form of its stack tables.

use vstd::prelude::*;
use crate::codec::{decode, encode, fits, round_trip, SerializationError};
use crate::error::Error;
use crate::module::Module;
use crate::parse::{new_module, reads_as, ParseError};
use crate::stack_table::{module_tables, StackTables};

verus! {

/// What writing the tables of a module that was read gives.
///
/// Where the module could not be read, the error of reading it. Else, where
/// a function cannot be analysed, the first such function with its error.
/// Else the binary form of the tables of the module, or `TooLarge` where the
/// tables do not fit.
pub open spec fn written_as(read: Result<Module, ParseError>, r: Result<Vec<u8>, Error>) -> bool {
    match read {
        Err(e) => r == Err::<Vec<u8>, Error>(Error::Parse(e)),
        Ok(module) => match module_tables(module) {
            Err(e) => r == Err::<Vec<u8>, Error>(Error::Analysis(e)),
            Ok(tables) => if fits(tables) {
                r matches Ok(bytes) && bytes@ == encode(tables)
            } else {
                r == Err::<Vec<u8>, Error>(Error::Serialization(SerializationError::TooLarge))
            },
        },
    }
}

/// Reads a module from its binary form, analyses it, and writes its tables
/// in their binary form.
///
/// The result is what `written_as` says of what reading the bytes gives.
/// Bytes that are returned can be read back as tables.
pub fn create_table_v2(buf: &Vec<u8>) -> (r: Result<Vec<u8>, Error>)
    ensures
        exists|read: Result<Module, ParseError>| #[trigger]
            reads_as(buf@, read) && written_as(read, r),
        r matches Ok(bytes) ==> decode(bytes@) is Ok,
{
    let read = new_module(buf);
    let ghost witness = read;
    let module = match read {
        Ok(module) => module,
        Err(e) => {
            let r = Err(Error::Parse(e));
            assert(reads_as(buf@, witness) && written_as(witness, r));
            return r;
        },
    };
    let stack_tables = match StackTables::from_module(&module) {
        Ok(tables) => tables,
        Err(e) => {
            let r = Err(Error::Analysis(e));
            assert(reads_as(buf@, witness) && written_as(witness, r));
            return r;
        },
    };
    let r = match stack_tables.serialize() {
        Ok(bytes) => {
            proof {
                round_trip(stack_tables@);
            }
            Ok(bytes)
        },
        Err(e) => Err(Error::Serialization(e)),
    };
    assert(reads_as(buf@, witness) && written_as(witness, r));
    r
}

} // verus!
