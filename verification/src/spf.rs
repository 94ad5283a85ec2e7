//! Math functions that the host provides to a guest program.
//!
//! A guest reaches a provided function by jumping to a fixed address at or above
//! [`SPF_MIN_ADDR`]. The host then computes on the guest's floating-point argument
//! registers instead of executing guest code. This module is the address table:
//! which jump targets are served, which function stands at each, which registers
//! it reads and which one it writes.

use vstd::prelude::*;

verus! {

/// Lowest jump target that the host serves.
pub const SPF_MIN_ADDR: u64 = 0x8000_0000;

pub const SPF_FCN: u64 = 0x8000_0400;

pub const SPF_EXP: u64 = 0x8000_0460;

pub const SPF_EXPM1: u64 = 0x8000_0468;

pub const SPF_LOG: u64 = 0x8000_0470;

pub const SPF_LOG1P: u64 = 0x8000_0478;

pub const SPF_SQRT: u64 = 0x8000_0480;

pub const SPF_CBRT: u64 = 0x8000_0488;

pub const SPF_CEIL: u64 = 0x8000_04a0;

pub const SPF_FLOOR: u64 = 0x8000_04a8;

pub const SPF_ROUND: u64 = 0x8000_04b0;

pub const SPF_FPOWF: u64 = 0x8000_04b8;

pub const SPF_SIN: u64 = 0x8000_04d0;

pub const SPF_COS: u64 = 0x8000_04d8;

pub const SPF_TAN: u64 = 0x8000_04e0;

pub const SPF_ASIN: u64 = 0x8000_04e8;

pub const SPF_ACOS: u64 = 0x8000_04f0;

pub const SPF_ATAN: u64 = 0x8000_04f8;

pub const SPF_ATAN2: u64 = 0x8000_0500;

pub const SPF_SINH: u64 = 0x8000_0508;

pub const SPF_COSH: u64 = 0x8000_0510;

pub const SPF_TANH: u64 = 0x8000_0518;

pub const SPF_ASINH: u64 = 0x8000_0520;

pub const SPF_ACOSH: u64 = 0x8000_0528;

pub const SPF_ATANH: u64 = 0x8000_0530;

/// Index of the first floating-point argument register, `fa0`.
pub const REG_FA0: u64 = 10;

/// Index of the second floating-point argument register, `fa1`.
pub const REG_FA1: u64 = 11;

/// A function that the host computes for the guest.
#[derive(Clone, Copy, Debug, PartialEq, Eq, Structural)]
pub enum HostFunction {
    /// Stores a fixed probe value; reads nothing.
    Fcn,
    Exp,
    Expm1,
    Log,
    Log1p,
    Sqrt,
    Cbrt,
    Ceil,
    Floor,
    Round,
    Powf,
    Sin,
    Cos,
    Tan,
    Asin,
    Acos,
    Atan,
    Atan2,
    Sinh,
    Cosh,
    Tanh,
    Asinh,
    Acosh,
    Atanh,
}

impl HostFunction {
    /// The jump target at which the function stands.
    pub open spec fn entry(self) -> u64 {
        match self {
            HostFunction::Fcn => SPF_FCN,
            HostFunction::Exp => SPF_EXP,
            HostFunction::Expm1 => SPF_EXPM1,
            HostFunction::Log => SPF_LOG,
            HostFunction::Log1p => SPF_LOG1P,
            HostFunction::Sqrt => SPF_SQRT,
            HostFunction::Cbrt => SPF_CBRT,
            HostFunction::Ceil => SPF_CEIL,
            HostFunction::Floor => SPF_FLOOR,
            HostFunction::Round => SPF_ROUND,
            HostFunction::Powf => SPF_FPOWF,
            HostFunction::Sin => SPF_SIN,
            HostFunction::Cos => SPF_COS,
            HostFunction::Tan => SPF_TAN,
            HostFunction::Asin => SPF_ASIN,
            HostFunction::Acos => SPF_ACOS,
            HostFunction::Atan => SPF_ATAN,
            HostFunction::Atan2 => SPF_ATAN2,
            HostFunction::Sinh => SPF_SINH,
            HostFunction::Cosh => SPF_COSH,
            HostFunction::Tanh => SPF_TANH,
            HostFunction::Asinh => SPF_ASINH,
            HostFunction::Acosh => SPF_ACOSH,
            HostFunction::Atanh => SPF_ATANH,
        }
    }

    /// How many argument registers the function reads, starting at `fa0`.
    pub open spec fn operand_count(self) -> nat {
        match self {
            HostFunction::Fcn => 0,
            HostFunction::Powf | HostFunction::Atan2 => 2,
            _ => 1,
        }
    }

    /// The register that receives the result.
    pub open spec fn result_register(self) -> u64 {
        match self {
            HostFunction::Fcn => REG_FA1,
            _ => REG_FA0,
        }
    }

    /// The jump target at which the function stands.
    pub fn address(self) -> (addr: u64)
        ensures
            addr == self.entry(),
    {
        match self {
            HostFunction::Fcn => SPF_FCN,
            HostFunction::Exp => SPF_EXP,
            HostFunction::Expm1 => SPF_EXPM1,
            HostFunction::Log => SPF_LOG,
            HostFunction::Log1p => SPF_LOG1P,
            HostFunction::Sqrt => SPF_SQRT,
            HostFunction::Cbrt => SPF_CBRT,
            HostFunction::Ceil => SPF_CEIL,
            HostFunction::Floor => SPF_FLOOR,
            HostFunction::Round => SPF_ROUND,
            HostFunction::Powf => SPF_FPOWF,
            HostFunction::Sin => SPF_SIN,
            HostFunction::Cos => SPF_COS,
            HostFunction::Tan => SPF_TAN,
            HostFunction::Asin => SPF_ASIN,
            HostFunction::Acos => SPF_ACOS,
            HostFunction::Atan => SPF_ATAN,
            HostFunction::Atan2 => SPF_ATAN2,
            HostFunction::Sinh => SPF_SINH,
            HostFunction::Cosh => SPF_COSH,
            HostFunction::Tanh => SPF_TANH,
            HostFunction::Asinh => SPF_ASINH,
            HostFunction::Acosh => SPF_ACOSH,
            HostFunction::Atanh => SPF_ATANH,
        }
    }

    /// How many argument registers the function reads, starting at `fa0`.
    pub fn operands(self) -> (n: u8)
        ensures
            n == self.operand_count(),
    {
        match self {
            HostFunction::Fcn => 0,
            HostFunction::Powf | HostFunction::Atan2 => 2,
            _ => 1,
        }
    }

    /// The register that receives the result.
    pub fn target(self) -> (reg: u64)
        ensures
            reg == self.result_register(),
    {
        match self {
            HostFunction::Fcn => REG_FA1,
            _ => REG_FA0,
        }
    }
}

/// The function that stands at the address `pc`, if there is one.
pub open spec fn served_function(pc: u64) -> Option<HostFunction> {
    if pc == SPF_FCN {
        Some(HostFunction::Fcn)
    } else if pc == SPF_EXP {
        Some(HostFunction::Exp)
    } else if pc == SPF_EXPM1 {
        Some(HostFunction::Expm1)
    } else if pc == SPF_LOG {
        Some(HostFunction::Log)
    } else if pc == SPF_LOG1P {
        Some(HostFunction::Log1p)
    } else if pc == SPF_SQRT {
        Some(HostFunction::Sqrt)
    } else if pc == SPF_CBRT {
        Some(HostFunction::Cbrt)
    } else if pc == SPF_CEIL {
        Some(HostFunction::Ceil)
    } else if pc == SPF_FLOOR {
        Some(HostFunction::Floor)
    } else if pc == SPF_ROUND {
        Some(HostFunction::Round)
    } else if pc == SPF_FPOWF {
        Some(HostFunction::Powf)
    } else if pc == SPF_SIN {
        Some(HostFunction::Sin)
    } else if pc == SPF_COS {
        Some(HostFunction::Cos)
    } else if pc == SPF_TAN {
        Some(HostFunction::Tan)
    } else if pc == SPF_ASIN {
        Some(HostFunction::Asin)
    } else if pc == SPF_ACOS {
        Some(HostFunction::Acos)
    } else if pc == SPF_ATAN {
        Some(HostFunction::Atan)
    } else if pc == SPF_ATAN2 {
        Some(HostFunction::Atan2)
    } else if pc == SPF_SINH {
        Some(HostFunction::Sinh)
    } else if pc == SPF_COSH {
        Some(HostFunction::Cosh)
    } else if pc == SPF_TANH {
        Some(HostFunction::Tanh)
    } else if pc == SPF_ASINH {
        Some(HostFunction::Asinh)
    } else if pc == SPF_ACOSH {
        Some(HostFunction::Acosh)
    } else if pc == SPF_ATANH {
        Some(HostFunction::Atanh)
    } else {
        None
    }
}

/// Whether a jump to `pc` leaves the guest program.
pub open spec fn is_served(pc: u64) -> bool {
    pc >= SPF_MIN_ADDR
}

/// The handler of jumps into the host's function table.
pub struct SysProvided {}

impl SysProvided {
    /// Whether the host takes over a jump to `new_pc`.
    pub fn should_handle(&self, new_pc: u64) -> (served: bool)
        ensures
            served == is_served(new_pc),
    {
        new_pc >= SPF_MIN_ADDR
    }

    /// The function that stands at `new_pc`. A served address without a function
    /// leaves the registers as they are.
    pub fn function_at(&self, new_pc: u64) -> (found: Option<HostFunction>)
        ensures
            found == served_function(new_pc),
    {
        if new_pc == SPF_FCN {
            Some(HostFunction::Fcn)
        } else if new_pc == SPF_EXP {
            Some(HostFunction::Exp)
        } else if new_pc == SPF_EXPM1 {
            Some(HostFunction::Expm1)
        } else if new_pc == SPF_LOG {
            Some(HostFunction::Log)
        } else if new_pc == SPF_LOG1P {
            Some(HostFunction::Log1p)
        } else if new_pc == SPF_SQRT {
            Some(HostFunction::Sqrt)
        } else if new_pc == SPF_CBRT {
            Some(HostFunction::Cbrt)
        } else if new_pc == SPF_CEIL {
            Some(HostFunction::Ceil)
        } else if new_pc == SPF_FLOOR {
            Some(HostFunction::Floor)
        } else if new_pc == SPF_ROUND {
            Some(HostFunction::Round)
        } else if new_pc == SPF_FPOWF {
            Some(HostFunction::Powf)
        } else if new_pc == SPF_SIN {
            Some(HostFunction::Sin)
        } else if new_pc == SPF_COS {
            Some(HostFunction::Cos)
        } else if new_pc == SPF_TAN {
            Some(HostFunction::Tan)
        } else if new_pc == SPF_ASIN {
            Some(HostFunction::Asin)
        } else if new_pc == SPF_ACOS {
            Some(HostFunction::Acos)
        } else if new_pc == SPF_ATAN {
            Some(HostFunction::Atan)
        } else if new_pc == SPF_ATAN2 {
            Some(HostFunction::Atan2)
        } else if new_pc == SPF_SINH {
            Some(HostFunction::Sinh)
        } else if new_pc == SPF_COSH {
            Some(HostFunction::Cosh)
        } else if new_pc == SPF_TANH {
            Some(HostFunction::Tanh)
        } else if new_pc == SPF_ASINH {
            Some(HostFunction::Asinh)
        } else if new_pc == SPF_ACOSH {
            Some(HostFunction::Acosh)
        } else if new_pc == SPF_ATANH {
            Some(HostFunction::Atanh)
        } else {
            None
        }
    }
}

/// Every function stands at a served address, and no two share one.
pub proof fn lemma_table_is_sound(f: HostFunction, g: HostFunction)
    ensures
        is_served(f.entry()),
        f.entry() == g.entry() ==> f == g,
{
}

/// The table is read both ways alike: a function is found at an address exactly
/// if that address is its entry.
pub proof fn lemma_table_is_inverse(pc: u64, f: HostFunction)
    ensures
        served_function(pc) == Some(f) <==> f.entry() == pc,
        served_function(pc) is Some ==> is_served(pc),
{
}

} // verus!
