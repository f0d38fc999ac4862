//! System services of the kernel expressed as SBI calls.
use vstd::prelude::*;
use crate::sbi::{
    ResetReason, ResetType, SbiCall, debug_console_write_byte, eid_dbcn, eid_srst, eid_time,
    set_timer, system_reset,
};

verus! {

/// The call that writes one byte to the console.
pub fn console_write_byte(byte: u8) -> (r: SbiCall)
    ensures
        r == (SbiCall::One { eid: eid_dbcn(), fid: 2, arg0: byte as u32 }),
{
    debug_console_write_byte(byte)
}

/// The call that powers the machine off, giving a system failure as the
/// reason when `failure` holds and no reason otherwise. The firmware does not
/// return from it.
pub fn shutdown(failure: bool) -> (r: SbiCall)
    ensures
        r == (SbiCall::Two { eid: eid_srst(), fid: 0, arg0: 0, arg1: if failure { 1u32 } else { 0u32 } }),
{
    if !failure {
        system_reset(ResetType::Shutdown, ResetReason::NoReason)
    } else {
        system_reset(ResetType::Shutdown, ResetReason::SystemFailure)
    }
}

/// Timer ticks per second.
pub const TICKS_PER_SEC: usize = 100;

/// The frequency of the timer, in ticks of the time counter per second.
pub const CLOCK_FREQ: usize = 12500000;

/// The call that programs the next timer interrupt one tick period after the
/// current time `now`.
pub fn set_next_trigger(now: u64) -> (r: SbiCall)
    requires
        now + 125000 <= u64::MAX,
    ensures
        r == (SbiCall::OneWide { eid: eid_time(), fid: 0, value: (now + 125000) as u64 }),
{
    set_timer(now + (CLOCK_FREQ / TICKS_PER_SEC) as u64)
}

} // verus!
