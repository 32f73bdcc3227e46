use kernel_core::config::USER_STACK_SIZE;
use kernel_core::syscall::dispatch::{syscall, SyscallOutcome};
use kernel_core::syscall::process::{
    copy_from_current, copy_to_current, sys_clock_gettime, sys_faccessat, sys_getegid,
    sys_geteuid, sys_getgid, sys_getpgid, sys_getpid, sys_getppid, sys_getrusage, sys_gettid,
    sys_gettimeofday, sys_getuid, sys_kill, sys_madvise, sys_mprotect, sys_ppoll, sys_prlimit64,
    sys_set_tid_address, sys_setpgid, sys_sysinfo, sys_times, sys_uname, sys_waitpid, sys_yield,
    sys_exit, sys_exit_group, sys_fork,
};
use kernel_core::info::RLimit;
use kernel_core::task::kernel::{Kernel, TrapEntry};
use kernel_core::task::manager::{add_task, fetch_task, pid2task, remove_from_pid2task, TaskManager};
use kernel_core::task::schedule::{
    check_signals_of_current, current_add_signal, exit_current_and_run_next, run_next,
    suspend_current_and_run_next,
};
use kernel_core::signal::{SignalFlags, SIGSEGV, SIGINT, SIGABRT, SIGBUS, SIGFPE, SIGHUP, SIGTERM, SIGCHLD, SIGSTOP};
use kernel_core::task::task::TaskStatus;
use kernel_core::trap::handler::{enable_timer_interrupt, init, trap_return, TrapReturn};

const STACK_TOP: usize = 0x11 * 4096 + 4096 + USER_STACK_SIZE;

fn put16(out: &mut Vec<u8>, v: u16) {
    out.extend_from_slice(&v.to_le_bytes());
}

fn put32(out: &mut Vec<u8>, v: u32) {
    out.extend_from_slice(&v.to_le_bytes());
}

fn put64(out: &mut Vec<u8>, v: u64) {
    out.extend_from_slice(&v.to_le_bytes());
}

/// An image with one page of code at 0x10000.
fn program() -> Vec<u8> {
    let mut out: Vec<u8> = vec![0x7f, 0x45, 0x4c, 0x46, 2, 1, 1, 0];
    out.extend_from_slice(&[0u8; 8]);
    put16(&mut out, 2);
    put16(&mut out, 243);
    put32(&mut out, 1);
    put64(&mut out, 0x1_0000);
    put64(&mut out, 64);
    put64(&mut out, 0);
    put32(&mut out, 0);
    put16(&mut out, 64);
    put16(&mut out, 56);
    put16(&mut out, 1);
    put16(&mut out, 0);
    put16(&mut out, 0);
    put16(&mut out, 0);
    put32(&mut out, 1);
    put32(&mut out, 5);
    put64(&mut out, 120);
    put64(&mut out, 0x1_0000);
    put64(&mut out, 0x1_0000);
    put64(&mut out, 4);
    put64(&mut out, 4);
    put64(&mut out, 4096);
    out.extend_from_slice(&[0x73, 0, 0, 0]);
    out
}

fn boot() -> Kernel {
    let mut k = Kernel::new(&program(), 1, 2).unwrap();
    run_next(&mut k);
    k
}

fn buf() -> usize {
    STACK_TOP - 0x2000
}

fn read(k: &Kernel, va: usize, len: usize) -> Vec<u8> {
    copy_from_current(k, va, len).unwrap()
}

#[test]
fn calls_that_do_nothing() {
    assert_eq!(sys_geteuid(), 0);
    assert_eq!(sys_getegid(), 0);
    assert_eq!(sys_getgid(), 0);
    assert_eq!(sys_gettid(), 0);
    assert_eq!(sys_getuid(), 0);
    assert_eq!(sys_getpgid(), 0);
    assert_eq!(sys_setpgid(), 0);
    assert_eq!(sys_ppoll(), 1);
    assert_eq!(sys_sysinfo(), 0);
    assert_eq!(sys_faccessat(), 0);
    assert_eq!(sys_madvise(1, 2, 3), 0);
    assert_eq!(sys_mprotect(1, 2, 3), 0);
}

#[test]
fn the_table_of_system_calls() {
    let mut k = boot();
    for (id, want) in [
        (48, 0),
        (73, 1),
        (154, 0),
        (155, 0),
        (172, 0),
        (173, 0),
        (174, 0),
        (175, 0),
        (176, 0),
        (177, 0),
        (178, 0),
        (179, 0),
        (226, 0),
        (233, 0),
        (124, 0),
        (0, -1),
        (64, -1),
        (usize::MAX, -1),
    ] {
        assert_eq!(syscall(&mut k, id, [0; 6], 0, None), SyscallOutcome::Return(want), "{}", id);
    }
    assert_eq!(syscall(&mut k, 214, [0; 6], 0, None), SyscallOutcome::Return((STACK_TOP + 4096) as isize));
    assert_eq!(syscall(&mut k, 260, [usize::MAX, 0, 0, 0, 0, 0], 0, None), SyscallOutcome::Return(-1));
    assert_eq!(syscall(&mut k, 220, [17, 0, 0, 0, 0, 0], 0, None), SyscallOutcome::Return(1));
    assert_eq!(syscall(&mut k, 260, [usize::MAX, 0, 0, 0, 0, 0], 0, None), SyscallOutcome::Retry);
    assert_eq!(syscall(&mut k, 129, [1, 11, 0, 0, 0, 0], 0, None), SyscallOutcome::Return(0));
    assert_eq!(syscall(&mut k, 94, [7, 0, 0, 0, 0, 0], 0, None), SyscallOutcome::Exited);
    assert_eq!(k.current, Some(1));
    assert_eq!(k.tasks[0].as_ref().unwrap().exit_code, 7);
    assert_eq!(syscall(&mut k, 93, [(-1isize) as usize, 0, 0, 0, 0, 0], 0, None), SyscallOutcome::Exited);
    assert_eq!(k.current, None);
    assert_eq!(k.tasks[1].as_ref().unwrap().exit_code, -1);
}

#[test]
fn identifiers_of_the_caller() {
    let mut k = boot();
    assert_eq!(k.current_task(), Some(0));
    assert_eq!(sys_getpid(&k), 0);
    assert_eq!(sys_getppid(&k), 0);
    assert_eq!(sys_fork(&mut k, 17, 0, 0, 0, 0), 1);
    assert_eq!(sys_fork(&mut k, 17, 0, 0, 0, 0), 2);
    assert_eq!(sys_yield(&mut k), 0);
    assert_eq!(sys_fork(&mut k, 0, 0, 0, 0, 0), 3);
    assert_eq!(sys_yield(&mut k), 0);
    assert_eq!(sys_yield(&mut k), 0);
    assert_eq!(sys_yield(&mut k), 0);
    assert_eq!(sys_getpid(&k), 3);
    assert_eq!(sys_getppid(&k), 1);
}

#[test]
fn the_time_of_day() {
    let mut k = boot();
    assert_eq!(sys_gettimeofday(&mut k, buf(), 12_500_000 * 5 + 125), 0);
    let mut want = Vec::new();
    want.extend_from_slice(&5u64.to_le_bytes());
    want.extend_from_slice(&10u64.to_le_bytes());
    assert_eq!(read(&k, buf(), 16), want);
    assert_eq!(sys_gettimeofday(&mut k, 0, 0), -1);
    assert_eq!(sys_gettimeofday(&mut k, STACK_TOP - 15, 0), -1);
    assert_eq!(sys_gettimeofday(&mut k, STACK_TOP - 16, 0), 0);
    // The code of the program is not to be written.
    assert_eq!(sys_gettimeofday(&mut k, 0x1_0000, 0), -1);
}

#[test]
fn the_process_times() {
    let mut k = boot();
    assert_eq!(sys_times(&mut k, buf(), 12_500 * 7 + 3), 0);
    let mut want = Vec::new();
    for _ in 0..4 {
        want.extend_from_slice(&7000u64.to_le_bytes());
    }
    assert_eq!(read(&k, buf(), 32), want);
    assert_eq!(sys_times(&mut k, 8, 0), -1);
    assert_eq!(sys_times(&mut k, buf(), usize::MAX), 0);
    let top = (usize::MAX / 12_500 * 1000) as u64;
    assert_eq!(read(&k, buf(), 8), top.to_le_bytes());
}

#[test]
fn the_clock() {
    let mut k = boot();
    assert_eq!(sys_clock_gettime(&mut k, 0, buf(), 12_500_000 * 2 + 1), 0);
    let mut want = Vec::new();
    want.extend_from_slice(&2u64.to_le_bytes());
    want.extend_from_slice(&80u64.to_le_bytes());
    assert_eq!(read(&k, buf(), 16), want);
    assert_eq!(sys_clock_gettime(&mut k, 0, 0, 5), 0);
    assert_eq!(sys_clock_gettime(&mut k, 0, 16, 5), -1);
}

#[test]
fn the_names_of_the_system_reach_the_user() {
    let mut k = boot();
    assert_eq!(sys_uname(&mut k, buf()), 0);
    let got = read(&k, buf(), 390);
    assert_eq!(&got[..6], b"Linux\0");
    assert_eq!(&got[65..73], b"untuntu\0");
    assert_eq!(&got[130..134], b"5.0\0");
    assert_eq!(&got[195..200], b"5.13\0");
    assert_eq!(&got[260..268], b"riscv64\0");
    assert_eq!(&got[325..337], b"Jeremy_test\0");
    assert_eq!(sys_uname(&mut k, STACK_TOP - 389), -1);
}

#[test]
fn resource_usage_of_the_caller_only() {
    let mut k = boot();
    copy_to_current(&mut k, buf(), &[0xee; 150]);
    assert_eq!(sys_getrusage(&mut k, 1, buf()), -1);
    assert_eq!(sys_getrusage(&mut k, -1, buf()), -1);
    assert_eq!(read(&k, buf(), 1), vec![0xee]);
    assert_eq!(sys_getrusage(&mut k, 0, buf()), 0);
    let mut want = vec![0u8; 144];
    want.extend_from_slice(&[0xee; 6]);
    assert_eq!(read(&k, buf(), 150), want);
    assert_eq!(sys_getrusage(&mut k, 0, 4), -1);
}

#[test]
fn the_address_of_the_thread_identifier() {
    let mut k = boot();
    copy_to_current(&mut k, buf(), &[0xee; 9]);
    assert_eq!(sys_set_tid_address(&mut k, buf()), 0);
    assert_eq!(read(&k, buf(), 9), vec![0, 0, 0, 0, 0, 0, 0, 0, 0xee]);
    assert_eq!(sys_set_tid_address(&mut k, 0), -1);
}

#[test]
fn limits_are_read_and_set() {
    let mut k = boot();
    let old = buf();
    let new = buf() + 64;
    let l = RLimit { rlim_cur: 10, rlim_max: 20 };
    copy_to_current(&mut k, new, &l.as_bytes());
    assert_eq!(sys_prlimit64(&mut k, 0, 7, new, old), 0);
    assert_eq!(read(&k, old, 16), vec![0xff; 16]);
    assert_eq!(k.tasks[0].as_ref().unwrap().resource[7], l);
    assert_eq!(k.tasks[0].as_ref().unwrap().resource[6], RLimit::new());
    // Reading alone, setting alone, neither.
    assert_eq!(sys_prlimit64(&mut k, 0, 7, 0, old), 0);
    assert_eq!(read(&k, old, 16), l.as_bytes());
    assert_eq!(sys_prlimit64(&mut k, 0, 15, old, 0), 0);
    assert_eq!(k.tasks[0].as_ref().unwrap().resource[15], l);
    assert_eq!(sys_prlimit64(&mut k, 0, 3, 0, 0), 0);
    // With one buffer for both, the old limits are the new ones.
    assert_eq!(sys_prlimit64(&mut k, 0, 2, old, old), 0);
    assert_eq!(k.tasks[0].as_ref().unwrap().resource[2], RLimit::new());
    // A resource that is none, and addresses that are no good.
    assert_eq!(sys_prlimit64(&mut k, 0, 16, new, old), -1);
    assert_eq!(sys_prlimit64(&mut k, 0, 7, 8, old), -1);
    assert_eq!(sys_prlimit64(&mut k, 0, 7, new, 8), -1);
    assert_eq!(read(&k, old, 16), vec![0xff; 16]);
    assert_eq!(k.tasks[0].as_ref().unwrap().resource[7], l);
}

#[test]
fn every_known_signal_can_be_posted() {
    let mut k = boot();
    let mut bits = 0u32;
    for s in [SIGHUP, SIGINT, SIGABRT, SIGTERM, SIGCHLD, SIGSTOP] {
        assert_eq!(sys_kill(&mut k, 0, s), 0);
        bits |= 1 << s;
        assert_eq!(k.tasks[0].as_ref().unwrap().signals.bits, bits);
        assert_eq!(check_signals_of_current(&k), None);
    }
    assert_eq!(bits, 0x000A_8046);
    for s in [0, 3, 5, 10, 12, 13, 14, 16, 18, 20, 31, 32, 33, u32::MAX] {
        assert_eq!(sys_kill(&mut k, 0, s), 0);
        assert_eq!(sys_kill(&mut k, 1, s), 1);
    }
    assert_eq!(k.tasks[0].as_ref().unwrap().signals.bits, bits);
    assert_eq!(sys_kill(&mut k, 0, SIGSEGV), 0);
    assert_eq!(check_signals_of_current(&k), Some((-11, "Segmentation Fault, SIGSEGV=11")));
    assert_eq!(sys_kill(&mut k, 0, SIGFPE), 0);
    assert_eq!(check_signals_of_current(&k), Some((-8, "Erroneous Arithmetic Operation, SIGFPE=8")));
    assert_eq!(sys_kill(&mut k, 0, SIGBUS), 0);
    assert_eq!(check_signals_of_current(&k), Some((-7, "Bus Error, SIGBUS=7")));
}

#[test]
fn signals_of_the_running_task() {
    let mut k = boot();
    current_add_signal(&mut k, SignalFlags::from_bits(0x102).unwrap());
    assert_eq!(k.tasks[0].as_ref().unwrap().signals.bits, 0x102);
    assert!(k.tasks[0].as_ref().unwrap().signals.contains_signum(8));
    assert!(!k.tasks[0].as_ref().unwrap().signals.contains_signum(9));
    assert!(!k.tasks[0].as_ref().unwrap().signals.contains_signum(40));
    assert_eq!(SignalFlags::from_bits(1), None);
    assert_eq!(SignalFlags::from_bits(0x000A_8BD6).unwrap().bits(), 0x000A_8BD6);
    assert_eq!(SignalFlags::from_bits(0x000A_8BD7), None);
    assert_eq!(SignalFlags::from_signum(0), None);
    assert_eq!(SignalFlags::from_signum(11).unwrap().bits, 0x800);
}

#[test]
fn the_ready_queue_is_first_in_first_out() {
    let mut m = TaskManager::new();
    assert_eq!(m.fetch(), None);
    m.add(3);
    m.add(1);
    m.add(2);
    assert_eq!(m.fetch(), Some(3));
    m.add(3);
    assert_eq!(m.fetch(), Some(1));
    assert_eq!(m.fetch(), Some(2));
    assert_eq!(m.fetch(), Some(3));
    assert_eq!(m.fetch(), None);
}

#[test]
fn the_registry_and_the_queue() {
    let mut k = boot();
    assert_eq!(pid2task(&k, 0), Some(0));
    assert_eq!(pid2task(&k, 1), None);
    assert_eq!(fetch_task(&mut k), None);
    add_task(&mut k, 5);
    add_task(&mut k, 6);
    assert_eq!(pid2task(&k, 5), Some(5));
    remove_from_pid2task(&mut k, 5);
    assert_eq!(pid2task(&k, 5), None);
    assert_eq!(pid2task(&k, 6), Some(6));
    assert_eq!(fetch_task(&mut k), Some(5));
    assert_eq!(fetch_task(&mut k), Some(6));
    assert_eq!(fetch_task(&mut k), None);
}

#[test]
fn giving_up_the_processor_goes_round() {
    let mut k = boot();
    sys_fork(&mut k, 17, 0, 0, 0, 0);
    sys_fork(&mut k, 17, 0, 0, 0, 0);
    let mut order = Vec::new();
    for _ in 0..7 {
        order.push(k.current.unwrap());
        suspend_current_and_run_next(&mut k);
    }
    assert_eq!(order, vec![0, 1, 2, 0, 1, 2, 0]);
    assert_eq!(k.manager.ready_queue, vec![2, 0]);
    assert_eq!(k.tasks[1].as_ref().unwrap().status, TaskStatus::Running);
    assert_eq!(k.tasks[2].as_ref().unwrap().status, TaskStatus::Ready);
}

#[test]
fn a_lone_task_keeps_the_processor() {
    let mut k = boot();
    suspend_current_and_run_next(&mut k);
    assert_eq!(k.current, Some(0));
    assert!(k.manager.ready_queue.is_empty());
    assert_eq!(k.tasks[0].as_ref().unwrap().status, TaskStatus::Running);
}

#[test]
fn exits_keep_their_codes() {
    let mut k = boot();
    sys_fork(&mut k, 17, 0, 0, 0, 0);
    sys_fork(&mut k, 17, 0, 0, 0, 0);
    sys_yield(&mut k);
    sys_exit(&mut k, i32::MIN);
    sys_exit_group(&mut k, i32::MAX);
    assert_eq!(k.current, Some(0));
    assert_eq!(k.tasks[1].as_ref().unwrap().exit_code, i32::MIN);
    assert_eq!(k.tasks[2].as_ref().unwrap().exit_code, i32::MAX);
    // The status is the code shifted by eight bits, cut to a word.
    assert_eq!(sys_waitpid(&mut k, 2, buf()), 2);
    assert_eq!(read(&k, buf(), 4), ((i32::MAX) << 8).to_le_bytes());
    assert_eq!(sys_waitpid(&mut k, -1, buf()), 1);
    assert_eq!(read(&k, buf(), 4), vec![0, 0, 0, 0]);
    exit_current_and_run_next(&mut k, 1);
    assert_eq!(k.current, None);
}

#[test]
fn the_return_skips_tasks_with_fatal_signals() {
    let mut k = boot();
    sys_fork(&mut k, 17, 0, 0, 0, 0);
    sys_fork(&mut k, 17, 0, 0, 0, 0);
    sys_fork(&mut k, 17, 0, 0, 0, 0);
    sys_kill(&mut k, 0, 4);
    sys_kill(&mut k, 1, 9);
    sys_kill(&mut k, 2, 17);
    sys_kill(&mut k, 3, 7);
    assert_eq!(trap_return(&mut k), TrapReturn::User { pid: 2, trap_cx_ptr: usize::MAX - 8191 });
    assert_eq!(k.stvec, TrapEntry::User);
    assert_eq!(k.tasks[0].as_ref().unwrap().exit_code, -4);
    assert_eq!(k.tasks[1].as_ref().unwrap().exit_code, -9);
    assert_eq!(k.tasks[2].as_ref().unwrap().status, TaskStatus::Running);
    assert_eq!(k.manager.ready_queue, vec![3]);
    sys_yield(&mut k);
    assert_eq!(k.current, Some(3));
    assert_eq!(trap_return(&mut k), TrapReturn::User { pid: 2, trap_cx_ptr: usize::MAX - 8191 });
    assert_eq!(k.tasks[3].as_ref().unwrap().exit_code, -7);
    sys_kill(&mut k, 2, 11);
    init(&mut k);
    assert_eq!(trap_return(&mut k), TrapReturn::Idle);
    assert_eq!(k.stvec, TrapEntry::Kernel);
    assert_eq!(trap_return(&mut k), TrapReturn::Idle);
}

#[test]
fn the_trap_entry_and_the_timer() {
    let mut k = boot();
    assert!(!k.timer_enabled);
    enable_timer_interrupt(&mut k);
    assert!(k.timer_enabled);
    k.stvec = TrapEntry::User;
    init(&mut k);
    assert_eq!(k.stvec, TrapEntry::Kernel);
}
