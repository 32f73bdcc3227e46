use kernel_core::codec::{get_u16, get_u32, get_u64, put_int, put_signed_word, put_word};
use kernel_core::info::{CloneFlags, RLimit, RUsage, Utsname};
use kernel_core::task::pid::{kernel_stack_position, PidAllocator};
use kernel_core::timer::{get_time_ms, get_timespec, get_timeval, next_trigger, TimeVal, Tms};
use kernel_core::trap::cause::{decode_scause, supported_trap, Exception, Interrupt, Trap};
use kernel_core::trap::context::TrapContext;

#[test]
fn words_are_little_endian() {
    let mut out = vec![9u8];
    put_word(&mut out, 0x0102_0304_0506_0708);
    assert_eq!(out, vec![9, 8, 7, 6, 5, 4, 3, 2, 1]);
    let mut out = Vec::new();
    put_signed_word(&mut out, -2);
    assert_eq!(out, vec![0xfe, 0xff, 0xff, 0xff, 0xff, 0xff, 0xff, 0xff]);
    let mut out = Vec::new();
    put_int(&mut out, 11 << 8);
    put_int(&mut out, -1);
    assert_eq!(out, vec![0, 11, 0, 0, 0xff, 0xff, 0xff, 0xff]);
    let data = [1u8, 2, 3, 4, 5, 6, 7, 8, 9];
    assert_eq!(get_u16(&data, 1), 0x0302);
    assert_eq!(get_u32(&data, 5), 0x0908_0706);
    assert_eq!(get_u64(&data, 1), 0x0908_0706_0504_0302);
}

#[test]
fn names_are_padded_with_zeros() {
    let a = Utsname::str2u8("Linux");
    assert_eq!(&a[..6], b"Linux\0");
    assert!(a[5..].iter().all(|b| *b == 0));
    assert_eq!(Utsname::str2u8(""), [0u8; 65]);
    let full = "x".repeat(65);
    assert_eq!(Utsname::str2u8(&full), [b'x'; 65]);
}

#[test]
fn the_names_of_the_system() {
    let u = Utsname::new();
    assert_eq!(&u.sysname[..6], b"Linux\0");
    assert_eq!(&u.nodename[..8], b"untuntu\0");
    assert_eq!(&u.release[..4], b"5.0\0");
    assert_eq!(&u.version[..5], b"5.13\0");
    assert_eq!(&u.machine[..8], b"riscv64\0");
    assert_eq!(&u.domainname[..12], b"Jeremy_test\0");
    let bytes = u.as_bytes();
    assert_eq!(bytes.len(), 390);
    assert_eq!(&bytes[..5], b"Linux");
    assert_eq!(&bytes[130..133], b"5.0");
    assert_eq!(&bytes[260..267], b"riscv64");
    assert_eq!(bytes[389], 0);
}

#[test]
fn clone_flags_end_at_bit_31() {
    assert_eq!(CloneFlags::from_bits(17).unwrap().bits(), 17);
    assert_eq!(CloneFlags::from_bits(0).unwrap().bits(), 0);
    assert_eq!(CloneFlags::from_bits(0xffff_ffff).unwrap().bits(), 0xffff_ffff);
    assert_eq!(CloneFlags::from_bits(0x1_0000_0000), None);
}

#[test]
fn limits_round_trip() {
    let l = RLimit { rlim_cur: 0x1122, rlim_max: usize::MAX };
    let bytes = l.as_bytes();
    assert_eq!(bytes.len(), 16);
    assert_eq!(&bytes[..3], &[0x22, 0x11, 0]);
    assert_eq!(&bytes[8..], &[0xff; 8]);
    assert_eq!(RLimit::from_bytes(&bytes), l);
    assert_eq!(RLimit::new(), RLimit { rlim_cur: usize::MAX, rlim_max: usize::MAX });
}

#[test]
fn resource_usage_is_all_zero() {
    let r = RUsage::new();
    assert_eq!(r.ru_utime, TimeVal { sec: 0, usec: 0 });
    assert_eq!(r.ru_nivcsw, 0);
    assert_eq!(r.as_bytes(), vec![0u8; 144]);
    let mut r = r;
    r.ru_stime.usec = 1;
    r.ru_maxrss = 2;
    r.ru_nivcsw = -1;
    let bytes = r.as_bytes();
    assert_eq!(bytes[24], 1);
    assert_eq!(bytes[32], 2);
    assert_eq!(&bytes[136..], &[0xff; 8]);
}

#[test]
fn ticks_become_times() {
    assert_eq!(get_time_ms(0), 0);
    assert_eq!(get_time_ms(12_499), 0);
    assert_eq!(get_time_ms(12_500), 1);
    assert_eq!(get_time_ms(12_500_000), 1000);
    assert_eq!(get_timeval(12_500_000 * 3 + 25), TimeVal { sec: 3, usec: 2 });
    assert_eq!(get_timeval(12_499_999), TimeVal { sec: 0, usec: 999_999 });
    assert_eq!(get_timespec(12_500_000 * 3 + 25), (3, 2000));
    assert_eq!(get_timespec(12_499_999), (0, 999_999_920));
    assert_eq!(next_trigger(1000), 126_000);
    assert_eq!(next_trigger(usize::MAX - 5), usize::MAX);
}

#[test]
fn intervals_in_milliseconds() {
    assert_eq!(TimeVal::new(), TimeVal { sec: 0, usec: 0 });
    assert_eq!(TimeVal { sec: 2, usec: 3_999 }.as_millis(), 2003);
    assert_eq!(TimeVal { sec: 0, usec: 999 }.as_millis(), 0);
    assert_eq!(TimeVal { sec: usize::MAX, usec: 0 }.as_millis(), usize::MAX);
    assert_eq!(TimeVal { sec: usize::MAX / 1000, usec: usize::MAX }.as_millis(), usize::MAX);
    let tv = TimeVal { sec: 7, usec: 0x0102 };
    let bytes = tv.as_bytes();
    assert_eq!(bytes, vec![7, 0, 0, 0, 0, 0, 0, 0, 2, 1, 0, 0, 0, 0, 0, 0]);
    assert_eq!(TimeVal::from_bytes(&bytes), tv);
}

#[test]
fn process_times_in_order() {
    let t = Tms { tms_utime: 1, tms_stime: 2, tms_cutime: 3, tms_cstime: -1 };
    let bytes = t.as_bytes();
    assert_eq!(bytes.len(), 32);
    assert_eq!((bytes[0], bytes[8], bytes[16]), (1, 2, 3));
    assert_eq!(&bytes[24..], &[0xff; 8]);
}

#[test]
fn causes_of_traps() {
    let top = 1usize << (usize::BITS - 1);
    assert_eq!(decode_scause(8), Trap::Exception(Exception::UserEnvCall));
    assert_eq!(decode_scause(0), Trap::Exception(Exception::InstructionMisaligned));
    assert_eq!(decode_scause(1), Trap::Exception(Exception::InstructionFault));
    assert_eq!(decode_scause(2), Trap::Exception(Exception::IllegalInstruction));
    assert_eq!(decode_scause(3), Trap::Exception(Exception::Breakpoint));
    assert_eq!(decode_scause(4), Trap::Exception(Exception::Unknown));
    assert_eq!(decode_scause(5), Trap::Exception(Exception::LoadFault));
    assert_eq!(decode_scause(6), Trap::Exception(Exception::StoreMisaligned));
    assert_eq!(decode_scause(7), Trap::Exception(Exception::StoreFault));
    assert_eq!(decode_scause(12), Trap::Exception(Exception::InstructionPageFault));
    assert_eq!(decode_scause(13), Trap::Exception(Exception::LoadPageFault));
    assert_eq!(decode_scause(15), Trap::Exception(Exception::StorePageFault));
    assert_eq!(decode_scause(16), Trap::Exception(Exception::Unknown));
    assert_eq!(decode_scause(top - 1), Trap::Exception(Exception::Unknown));
    assert_eq!(decode_scause(top), Trap::Interrupt(Interrupt::UserSoft));
    assert_eq!(decode_scause(top | 1), Trap::Interrupt(Interrupt::SupervisorSoft));
    assert_eq!(decode_scause(top | 4), Trap::Interrupt(Interrupt::UserTimer));
    assert_eq!(decode_scause(top | 5), Trap::Interrupt(Interrupt::SupervisorTimer));
    assert_eq!(decode_scause(top | 8), Trap::Interrupt(Interrupt::UserExternal));
    assert_eq!(decode_scause(top | 9), Trap::Interrupt(Interrupt::SupervisorExternal));
    assert_eq!(decode_scause(top | 2), Trap::Interrupt(Interrupt::Unknown));
    assert_eq!(decode_scause(usize::MAX), Trap::Interrupt(Interrupt::Unknown));
}

#[test]
fn causes_the_kernel_handles() {
    let top = 1usize << (usize::BITS - 1);
    for code in [1, 2, 5, 7, 8, 12, 13, 15] {
        assert!(supported_trap(decode_scause(code)), "{}", code);
    }
    for code in [0, 3, 4, 6, 9, 14, 16] {
        assert!(!supported_trap(decode_scause(code)), "{}", code);
    }
    assert!(supported_trap(decode_scause(top | 5)));
    for code in [0, 1, 4, 8, 9, 7] {
        assert!(!supported_trap(decode_scause(top | code)), "{}", code);
    }
}

#[test]
fn a_fresh_trap_context() {
    let mut cx = TrapContext::app_init_context(0x1000, 0x2000, 3, 4, 5);
    let mut x = [0usize; 32];
    x[2] = 0x2000;
    assert_eq!(cx.x, x);
    assert_eq!((cx.sstatus, cx.sepc, cx.kernel_satp, cx.kernel_sp, cx.trap_handler), (0, 0x1000, 3, 4, 5));
    cx.set_sp(7);
    cx.set_reg(31, 9);
    x[2] = 7;
    x[31] = 9;
    assert_eq!(cx.x, x);
}

#[test]
fn identifiers_are_used_again_last_in_first_out() {
    let mut a = PidAllocator::new();
    assert_eq!(a.allocate(), Some(0));
    assert_eq!(a.allocate(), Some(1));
    assert_eq!(a.allocate(), Some(2));
    a.release(0);
    a.release(2);
    assert_eq!(a.allocate(), Some(2));
    assert_eq!(a.allocate(), Some(0));
    assert_eq!(a.allocate(), Some(3));
    assert_eq!(a.current, 4);
}

#[test]
fn identifiers_run_out() {
    let mut a = PidAllocator::new();
    a.current = 0x1_0000 - 1;
    assert_eq!(a.allocate(), Some(0x1_0000 - 1));
    assert_eq!(a.allocate(), None);
    a.release(5);
    assert_eq!(a.allocate(), Some(5));
    assert_eq!(a.allocate(), None);
}

#[test]
fn kernel_stacks_lie_below_the_trampoline() {
    assert_eq!(kernel_stack_position(0), (usize::MAX - 4095 - 8192, usize::MAX - 4095));
    assert_eq!(kernel_stack_position(1), (usize::MAX - 4095 - 12288 - 8192, usize::MAX - 4095 - 12288));
    let (bottom, top) = kernel_stack_position(0xffff);
    assert_eq!(top - bottom, 8192);
    assert_eq!(top, usize::MAX - 4095 - 0xffff * 12288);
}
