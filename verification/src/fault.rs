//! Decoding the page fault error code pushed by the CPU, through the
//! `PageFaultErrorCode` flags of the `x86_64` crate.
use vstd::prelude::*;
use x86_64::structures::idt::PageFaultErrorCode;

verus! {

/// The page fault error code flags the kernel reports.
#[derive(Debug, Clone, Copy, PartialEq, Eq, Structural)]
pub enum FaultFlag {
    /// Set: a protection violation; clear: a non-present page.
    ProtectionViolation,
    /// Set: a write access; clear: a read.
    CausedByWrite,
}

/// Bit of a flag in the error code, as the `x86_64` crate defines it.
pub open spec fn flag_bit(flag: FaultFlag) -> u64 {
    match flag {
        FaultFlag::ProtectionViolation => 1,
        FaultFlag::CausedByWrite => 2,
    }
}

/// `PageFaultErrorCode::contains` on the error code `error_code`, for the
/// constant of `flag`. As the `bitflags` source has it, `contains` holds
/// when every bit of the flag is set in the code; the `x86_64` crate
/// defines `PROTECTION_VIOLATION` as bit 0 and `CAUSED_BY_WRITE` as bit 1.
#[verifier::external_body]
fn error_code_has(error_code: u64, flag: FaultFlag) -> (r: bool)
    ensures
        r == (error_code & flag_bit(flag) == flag_bit(flag)),
{
    let f = match flag {
        FaultFlag::ProtectionViolation => PageFaultErrorCode::PROTECTION_VIOLATION,
        FaultFlag::CausedByWrite => PageFaultErrorCode::CAUSED_BY_WRITE,
    };
    PageFaultErrorCode::from_bits_retain(error_code).contains(f)
}

/// What the page fault handler reports about a fault.
#[derive(Debug, Clone, Copy, PartialEq, Eq, Structural)]
pub struct PageFaultCause {
    /// A protection violation, as opposed to a page that is not present.
    pub protection_violation: bool,
    /// A write, as opposed to a read.
    pub write: bool,
}

/// Cause of a page fault read from its error code: bit 0 tells a protection
/// violation from a missing page, bit 1 a write from a read.
pub fn page_fault_cause(error_code: u64) -> (r: PageFaultCause)
    ensures
        r.protection_violation == (error_code & 1 == 1),
        r.write == (error_code & 2 == 2),
{
    let protection_violation: bool = error_code_has(error_code, FaultFlag::ProtectionViolation);
    let write: bool = error_code_has(error_code, FaultFlag::CausedByWrite);
    PageFaultCause { protection_violation, write }
}

} // verus!
