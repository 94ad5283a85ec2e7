//! The table of functions that the host provides to a guest.

use gravsim::spf::{
    HostFunction, SysProvided, REG_FA0, REG_FA1, SPF_ATAN2, SPF_ATANH, SPF_EXP, SPF_FCN,
    SPF_FPOWF, SPF_MIN_ADDR, SPF_SQRT,
};

const ALL: [HostFunction; 24] = [
    HostFunction::Fcn,
    HostFunction::Exp,
    HostFunction::Expm1,
    HostFunction::Log,
    HostFunction::Log1p,
    HostFunction::Sqrt,
    HostFunction::Cbrt,
    HostFunction::Ceil,
    HostFunction::Floor,
    HostFunction::Round,
    HostFunction::Powf,
    HostFunction::Sin,
    HostFunction::Cos,
    HostFunction::Tan,
    HostFunction::Asin,
    HostFunction::Acos,
    HostFunction::Atan,
    HostFunction::Atan2,
    HostFunction::Sinh,
    HostFunction::Cosh,
    HostFunction::Tanh,
    HostFunction::Asinh,
    HostFunction::Acosh,
    HostFunction::Atanh,
];

#[test]
fn served_addresses_start_at_the_boundary() {
    let h = SysProvided {};
    assert!(!h.should_handle(0));
    assert!(!h.should_handle(0x4000_0000));
    assert!(!h.should_handle(SPF_MIN_ADDR - 1));
    assert!(h.should_handle(SPF_MIN_ADDR));
    assert!(h.should_handle(SPF_SQRT));
    assert!(h.should_handle(u64::MAX));
}

#[test]
fn every_function_is_found_at_its_address() {
    let h = SysProvided {};
    for fun in ALL {
        assert!(h.should_handle(fun.address()));
        assert_eq!(h.function_at(fun.address()), Some(fun));
    }
    assert_eq!(h.function_at(SPF_EXP), Some(HostFunction::Exp));
    assert_eq!(h.function_at(SPF_FCN), Some(HostFunction::Fcn));
    assert_eq!(h.function_at(SPF_ATANH), Some(HostFunction::Atanh));
    assert_eq!(SPF_SQRT, 0x8000_0480);
}

#[test]
fn other_addresses_hold_no_function() {
    let h = SysProvided {};
    let known: Vec<u64> = ALL.iter().map(|fun| fun.address()).collect();
    for addr in (SPF_MIN_ADDR..SPF_MIN_ADDR + 0x800).chain([0, 0x460, u64::MAX]) {
        if !known.contains(&addr) {
            assert_eq!(h.function_at(addr), None, "{:#x}", addr);
        }
    }
    // Entries that were never assigned stay empty.
    assert_eq!(h.function_at(0x8000_0490), None);
    assert_eq!(h.function_at(0x8000_04c0), None);
}

#[test]
fn operands_and_target_registers() {
    for fun in ALL {
        let (want_operands, want_target) = match fun {
            HostFunction::Fcn => (0, REG_FA1),
            HostFunction::Powf | HostFunction::Atan2 => (2, REG_FA0),
            _ => (1, REG_FA0),
        };
        assert_eq!(fun.operands(), want_operands);
        assert_eq!(fun.target(), want_target);
    }
    assert_eq!(HostFunction::Powf.address(), SPF_FPOWF);
    assert_eq!(HostFunction::Atan2.address(), SPF_ATAN2);
    assert_eq!((REG_FA0, REG_FA1), (10, 11));
}
