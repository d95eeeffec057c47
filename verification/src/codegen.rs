//! What the code generator decides before it emits anything: the machine
//! type that stands for a type of the language.

use vstd::prelude::*;
use vstd::string::StringExecFns;
use crate::grammar::ast::{SpecType, Type, type_view};

verus! {

/// Represents any non-LLVM codegen error.
#[derive(Clone, Copy, Debug, PartialEq, Eq)]
pub enum CodegenError {
    /// A type was named that does not exist.
    TypeDoesNotExist,
    /// A function was called that was not declared.
    FunctionDoesNotExist,
}

/// The machine types that the types of the language are lowered to.
#[derive(Clone, Copy, Debug, PartialEq, Eq)]
pub enum MachineType {
    /// An integer of 32 bits.
    Int32,
    /// An integer of 8 bits.
    Int8,
    /// An address.
    Pointer,
}

/// The machine type of a type, where it has one: `u32` is an integer of 32
/// bits, `char` one of 8 bits, every pointer an address; no other name is
/// a type.
pub open spec fn lowered(given: SpecType) -> Result<MachineType, CodegenError> {
    match given {
        SpecType::Atomic(name) => if name == "u32"@ {
            Ok(MachineType::Int32)
        } else if name == "char"@ {
            Ok(MachineType::Int8)
        } else {
            Err(CodegenError::TypeDoesNotExist)
        },
        SpecType::Pointer(_) => Ok(MachineType::Pointer),
    }
}

/// The machine type that stands for `typ`, or the failure that it names no
/// type.
pub fn machine_type(typ: &Type) -> (r: Result<MachineType, CodegenError>)
    ensures
        r == lowered(type_view(*typ)),
{
    match typ {
        Type::Atomic(name) => {
            if *name == String::from_str("u32") {
                Ok(MachineType::Int32)
            } else if *name == String::from_str("char") {
                Ok(MachineType::Int8)
            } else {
                Err(CodegenError::TypeDoesNotExist)
            }
        },
        Type::Pointer(_) => Ok(MachineType::Pointer),
    }
}

} // verus!
