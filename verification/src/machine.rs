//! The memory map of the guest machine and the rules of a run.
//!
//! The machine itself is an emulator outside this library. What is fixed here is
//! where its memories lie, where a fresh machine starts, and when a run ends.

use crate::spf::SPF_MIN_ADDR;
use vstd::prelude::*;

verus! {

/// Where the working memory starts; a fresh machine begins execution here.
pub const DRAM_BASE: u64 = 0x4000_0000;

pub const DRAM_SIZE: u64 = 0x2000;

pub const MMIO_BASE: u64 = 0x9000_0000;

pub const MMIO_SIZE: u64 = 0x10_0000;

/// Where the read-only memory starts: the host's function table lies in it.
pub const ROM_BASE: u64 = 0x8000_0000;

pub const ROM_SIZE: u64 = 0x10_0000;

pub const NVRAM_BASE: u64 = 0xa000_0400;

pub const NVRAM_SIZE: u64 = 0x10_0000;

/// Room left free above the initial stack pointer.
pub const STACK_RESERVE: u64 = 0x400;

/// Index of the stack pointer among the integer registers.
pub const REG_SP: u64 = 2;

/// Whether `addr` lies in the memory of `size` bytes that starts at `base`.
pub open spec fn in_region(addr: u64, base: u64, size: u64) -> bool {
    base <= addr < base + size
}

/// The stack pointer of a fresh machine: near the top of the working memory.
pub fn initial_stack_pointer() -> (sp: u64)
    ensures
        sp == DRAM_BASE + DRAM_SIZE - STACK_RESERVE,
        in_region(sp, DRAM_BASE, DRAM_SIZE),
{
    DRAM_BASE + DRAM_SIZE - STACK_RESERVE
}

/// The program counter of a fresh machine.
pub fn initial_pc() -> (pc: u64)
    ensures
        pc == DRAM_BASE,
        in_region(pc, DRAM_BASE, DRAM_SIZE),
        pc < SPF_MIN_ADDR,
{
    DRAM_BASE
}

/// Whether a run that may take `max_cycle` cycles goes on when the machine's
/// clock shows `time`.
pub fn should_cycle(time: u64, max_cycle: u64) -> (go: bool)
    ensures
        go == (time < max_cycle),
{
    time < max_cycle
}

/// The four memories do not overlap, and code in the working memory is never
/// taken for a call into the host.
pub proof fn lemma_memory_map(addr: u64)
    ensures
        !(in_region(addr, DRAM_BASE, DRAM_SIZE) && in_region(addr, ROM_BASE, ROM_SIZE)),
        !(in_region(addr, DRAM_BASE, DRAM_SIZE) && in_region(addr, MMIO_BASE, MMIO_SIZE)),
        !(in_region(addr, DRAM_BASE, DRAM_SIZE) && in_region(addr, NVRAM_BASE, NVRAM_SIZE)),
        !(in_region(addr, ROM_BASE, ROM_SIZE) && in_region(addr, MMIO_BASE, MMIO_SIZE)),
        !(in_region(addr, ROM_BASE, ROM_SIZE) && in_region(addr, NVRAM_BASE, NVRAM_SIZE)),
        !(in_region(addr, MMIO_BASE, MMIO_SIZE) && in_region(addr, NVRAM_BASE, NVRAM_SIZE)),
        in_region(addr, DRAM_BASE, DRAM_SIZE) ==> addr < SPF_MIN_ADDR,
{
}

} // verus!
