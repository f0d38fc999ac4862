use lib::sbi::{debug_console_write_byte, eid_from_str, set_timer, system_reset, ResetReason, ResetType, SbiCall};
use lib::sys::{console_write_byte, set_next_trigger, shutdown, CLOCK_FREQ, TICKS_PER_SEC};

#[test]
fn extension_ids() {
    assert_eq!(eid_from_str("DBCN"), 0x4442_434E);
    assert_eq!(eid_from_str("SRST"), 0x5352_5354);
    assert_eq!(eid_from_str("TIME"), 0x5449_4D45);
    assert_eq!(eid_from_str("A"), 0x41);
    assert_eq!(eid_from_str("AB"), 0x4142);
    assert_eq!(eid_from_str("ABC"), 0x41_4243);
}

#[test]
fn console_byte_call() {
    assert!(debug_console_write_byte(b'A') == SbiCall::One { eid: 0x4442_434E, fid: 2, arg0: 0x41 });
    assert!(console_write_byte(b'\n') == SbiCall::One { eid: 0x4442_434E, fid: 2, arg0: 10 });
}

#[test]
fn reset_calls() {
    assert!(system_reset(ResetType::Shutdown, ResetReason::NoReason)
        == SbiCall::Two { eid: 0x5352_5354, fid: 0, arg0: 0, arg1: 0 });
    assert!(system_reset(ResetType::Shutdown, ResetReason::SystemFailure)
        == SbiCall::Two { eid: 0x5352_5354, fid: 0, arg0: 0, arg1: 1 });
    assert!(shutdown(false) == SbiCall::Two { eid: 0x5352_5354, fid: 0, arg0: 0, arg1: 0 });
    assert!(shutdown(true) == SbiCall::Two { eid: 0x5352_5354, fid: 0, arg0: 0, arg1: 1 });
    assert_eq!(ResetType::Shutdown.code(), 0);
    assert_eq!(ResetReason::SystemFailure.code(), 1);
}

#[test]
fn timer_calls() {
    assert!(set_timer(12345) == SbiCall::OneWide { eid: 0x5449_4D45, fid: 0, value: 12345 });
    assert_eq!(CLOCK_FREQ / TICKS_PER_SEC, 125000);
    assert!(set_next_trigger(1000) == SbiCall::OneWide { eid: 0x5449_4D45, fid: 0, value: 126000 });
}
