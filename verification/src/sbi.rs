//! Calls into the supervisor binary interface (SBI): which extension,
//! function and arguments each kernel service passes to the firmware.
use vstd::prelude::*;
use vstd::string::StringSliceAdditionalSpecFns;

verus! {

/// The big-endian value of up to four bytes: how an SBI extension name is
/// turned into its extension id.
pub open spec fn eid_value(b: Seq<u8>) -> nat
    decreases b.len(),
{
    if b.len() == 0 {
        0
    } else {
        eid_value(b.drop_last()) * 256 + b.last() as nat
    }
}

/// The extension id of the SBI extension called `name`: its one to four
/// bytes read as a big-endian number.
pub fn eid_from_str(name: &str) -> (r: u32)
    requires
        1 <= name.spec_bytes().len() <= 4,
    ensures
        r == eid_value(name.spec_bytes()),
{
    let b = name.as_bytes();
    proof {
        reveal_with_fuel(eid_value, 5);
        let s = b@;
        if s.len() >= 2 {
            assert(s.subrange(0, 1) =~= s.take(1));
        }
        assert(s.len() == 1 ==> s.drop_last() =~= Seq::<u8>::empty());
        assert(s.len() == 2 ==> s.drop_last() =~= seq![s[0]]);
        assert(s.len() == 2 ==> s.drop_last().drop_last() =~= Seq::<u8>::empty());
        assert(s.len() == 3 ==> s.drop_last() =~= seq![s[0], s[1]]);
        assert(s.len() == 3 ==> s.drop_last().drop_last() =~= seq![s[0]]);
        assert(s.len() == 3 ==> s.drop_last().drop_last().drop_last() =~= Seq::<u8>::empty());
        assert(s.len() == 4 ==> s.drop_last() =~= seq![s[0], s[1], s[2]]);
        assert(s.len() == 4 ==> s.drop_last().drop_last() =~= seq![s[0], s[1]]);
        assert(s.len() == 4 ==> s.drop_last().drop_last().drop_last() =~= seq![s[0]]);
        assert(s.len() == 4 ==> s.drop_last().drop_last().drop_last().drop_last()
            =~= Seq::<u8>::empty());
    }
    if b.len() == 1 {
        b[0] as u32
    } else if b.len() == 2 {
        (b[0] as u32) * 0x100 + b[1] as u32
    } else if b.len() == 3 {
        (b[0] as u32) * 0x1_0000 + (b[1] as u32) * 0x100 + b[2] as u32
    } else {
        (b[0] as u32) * 0x100_0000 + (b[1] as u32) * 0x1_0000 + (b[2] as u32) * 0x100 + b[3] as u32
    }
}

/// One environment call to the SBI firmware: extension id, function id and
/// arguments.
#[derive(Clone, Copy, PartialEq, Eq, Structural)]
pub enum SbiCall {
    One { eid: u32, fid: u32, arg0: u32 },
    Two { eid: u32, fid: u32, arg0: u32, arg1: u32 },
    OneWide { eid: u32, fid: u32, value: u64 },
}

/// The id of the debug console extension, "DBCN".
pub open spec fn eid_dbcn() -> u32 {
    0x4442_434E
}

/// The id of the system reset extension, "SRST".
pub open spec fn eid_srst() -> u32 {
    0x5352_5354
}

/// The id of the timer extension, "TIME".
pub open spec fn eid_time() -> u32 {
    0x5449_4D45
}

/// The call that writes one byte to the debug console.
pub fn debug_console_write_byte(byte: u8) -> (r: SbiCall)
    ensures
        r == (SbiCall::One { eid: eid_dbcn(), fid: 2, arg0: byte as u32 }),
{
    let name = "DBCN";
    proof {
        reveal_strlit("DBCN");
        vstd::string::is_ascii_spec_bytes(name);
        reveal_with_fuel(eid_value, 5);
    }
    SbiCall::One { eid: eid_from_str(name), fid: 0x2, arg0: byte as u32 }
}

/// The kinds of system reset.
#[derive(Clone, Copy, PartialEq, Eq, Structural)]
pub enum ResetType {
    Shutdown,
}

impl ResetType {
    /// The number the SBI specification gives this kind.
    pub fn code(&self) -> (r: u32)
        ensures
            r == 0,
    {
        match self {
            ResetType::Shutdown => 0,
        }
    }
}

/// The reasons for a system reset.
#[derive(Clone, Copy, PartialEq, Eq, Structural)]
pub enum ResetReason {
    NoReason,
    SystemFailure,
}

impl ResetReason {
    /// The number the SBI specification gives this reason.
    pub fn code(&self) -> (r: u32)
        ensures
            r == (match self {
                ResetReason::NoReason => 0u32,
                ResetReason::SystemFailure => 1u32,
            }),
    {
        match self {
            ResetReason::NoReason => 0,
            ResetReason::SystemFailure => 1,
        }
    }
}

/// The call that resets the system.
pub fn system_reset(reset_type: ResetType, reset_reason: ResetReason) -> (r: SbiCall)
    ensures
        r == (SbiCall::Two {
            eid: eid_srst(),
            fid: 0,
            arg0: 0,
            arg1: match reset_reason {
                ResetReason::NoReason => 0u32,
                ResetReason::SystemFailure => 1u32,
            },
        }),
{
    let name = "SRST";
    proof {
        reveal_strlit("SRST");
        vstd::string::is_ascii_spec_bytes(name);
        reveal_with_fuel(eid_value, 5);
    }
    SbiCall::Two {
        eid: eid_from_str(name),
        fid: 0x0,
        arg0: reset_type.code(),
        arg1: reset_reason.code(),
    }
}

/// The call that programs the next timer interrupt at time `stime_value`.
pub fn set_timer(stime_value: u64) -> (r: SbiCall)
    ensures
        r == (SbiCall::OneWide { eid: eid_time(), fid: 0, value: stime_value }),
{
    let name = "TIME";
    proof {
        reveal_strlit("TIME");
        vstd::string::is_ascii_spec_bytes(name);
        reveal_with_fuel(eid_value, 5);
    }
    SbiCall::OneWide { eid: eid_from_str(name), fid: 0x0, value: stime_value }
}

} // verus!
