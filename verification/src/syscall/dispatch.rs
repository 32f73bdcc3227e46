//! The table of system calls.
use crate::mm::memory_set::fill_of;
use crate::mm::mmap::{MmapFlags, MmapProts};
use crate::syscall::process::{
    default_envs, sys_brk, sys_clock_gettime, sys_exec, sys_exit, sys_exit_group, sys_faccessat,
    sys_fork, sys_getegid, sys_geteuid, sys_getgid, sys_getpgid, sys_getpid, sys_getppid,
    sys_getrusage, sys_gettid, sys_gettimeofday, sys_getuid, sys_kill, sys_madvise, sys_mmap,
    sys_mprotect, sys_munmap, sys_nanosleep, sys_ppoll, sys_prlimit64, sys_sbrk,
    sys_set_tid_address, sys_setpgid, sys_sysinfo, sys_times, sys_uname, sys_waitpid, sys_yield,
    times_at, zero_usage,
};
use crate::task::kernel::{Kernel, KernelView};
use crate::timer::{ticks_to_nsec_part, ticks_to_sec, ticks_to_usec_part, TimeVal};
use vstd::prelude::*;

verus! {

pub const SYSCALL_FACCESSAT: usize = 48;

pub const SYSCALL_PPOLL: usize = 73;

pub const SYSCALL_EXIT: usize = 93;

pub const SYSCALL_EXIT_GROUP: usize = 94;

pub const SYSCALL_SET_TID_ADDRESS: usize = 96;

pub const SYSCALL_NANOSLEEP: usize = 101;

pub const SYSCALL_CLOCK_GETTIME: usize = 113;

pub const SYSCALL_YIELD: usize = 124;

pub const SYSCALL_KILL: usize = 129;

pub const SYSCALL_TIMES: usize = 153;

pub const SYSCALL_SETPGID: usize = 154;

pub const SYSCALL_GETPGID: usize = 155;

pub const SYSCALL_UNAME: usize = 160;

pub const SYSCALL_GETRUSAGE: usize = 165;

pub const SYSCALL_GETTIMEOFDAY: usize = 169;

pub const SYSCALL_GETPID: usize = 172;

pub const SYSCALL_GETPPID: usize = 173;

pub const SYSCALL_GETUID: usize = 174;

pub const SYSCALL_GETEUID: usize = 175;

pub const SYSCALL_GETGID: usize = 176;

pub const SYSCALL_GETEGID: usize = 177;

pub const SYSCALL_GETTID: usize = 178;

pub const SYSCALL_SYSINFO: usize = 179;

pub const SYSCALL_SBRK: usize = 213;

pub const SYSCALL_BRK: usize = 214;

pub const SYSCALL_MUNMAP: usize = 215;

pub const SYSCALL_FORK: usize = 220;

pub const SYSCALL_EXEC: usize = 221;

pub const SYSCALL_MMAP: usize = 222;

pub const SYSCALL_MPROTECT: usize = 226;

pub const SYSCALL_MADVISE: usize = 233;

pub const SYSCALL_WAIT4: usize = 260;

pub const SYSCALL_PRLIMIT64: usize = 261;

/// How a system call ended.
#[derive(Clone, Copy, Debug, PartialEq, Eq, Structural)]
pub enum SyscallOutcome {
    /// The call is done; the value goes to `a0` of the caller.
    Return(isize),
    /// The call cannot be served yet; the caller tries again later.
    Retry,
    /// The caller has exited.
    Exited,
}

/// The outcome of a call that returned `r`: the call is tried again where
/// `r` is the retry value, and is done with `r` else.
pub open spec fn outcome_of(r: int) -> SyscallOutcome {
    if r == -2 {
        SyscallOutcome::Retry
    } else {
        SyscallOutcome::Return(r as isize)
    }
}

impl KernelView {
    /// Whether `mmap` of the running task succeeds.
    pub open spec fn mmap_succeeds(self, length: usize, prot: usize, flags: usize, fd: isize, offset: usize) -> bool {
        prot <= 7 && MmapFlags::valid_bits(flags) && self.cur().mmap_ok(
            length,
            MmapFlags { bits: flags },
            fd,
            offset,
        )
    }

    /// The state after `mmap` of the running task has succeeded.
    pub open spec fn mmapped(self, length: usize, prot: usize, flags: usize, fd: isize, offset: usize) -> KernelView {
        self.with_cur(
            self.cur().mmapped(
                length,
                MmapProts { bits: prot },
                MmapFlags { bits: flags },
                fd,
                offset,
            ),
        )
    }

    /// The state after the system call `id` with the arguments `a`, made by
    /// the running task when the clock reads `now`; `image` is the contents
    /// of the file that `exec` is to run.  A number that names no system
    /// call changes nothing.
    #[verifier::opaque]
    pub open spec fn after_syscall(self, id: usize, a: Seq<usize>, now: usize, image: Option<Seq<u8>>) -> KernelView {
        if id == SYSCALL_EXIT || id == SYSCALL_EXIT_GROUP {
            self.exited(a[0] as i32)
        } else if id == SYSCALL_YIELD {
            self.suspended()
        } else if id == SYSCALL_NANOSLEEP {
            self.slept(a[0], now)
        } else if id == SYSCALL_GETTIMEOFDAY {
            self.wrote_if_ok(
                a[0],
                (TimeVal {
                    sec: ticks_to_sec(now as int) as usize,
                    usec: ticks_to_usec_part(now as int) as usize,
                }).bytes(),
            )
        } else if id == SYSCALL_TIMES {
            self.wrote_if_ok(a[0], times_at(now).bytes())
        } else if id == SYSCALL_UNAME {
            self.wrote_if_ok(a[0], self.uts)
        } else if id == SYSCALL_CLOCK_GETTIME {
            if a[1] == 0 {
                self
            } else {
                self.wrote_if_ok(
                    a[1],
                    vstd::bytes::spec_u64_to_le_bytes(ticks_to_sec(now as int) as u64)
                        + vstd::bytes::spec_u64_to_le_bytes(ticks_to_nsec_part(now as int) as u64),
                )
            }
        } else if id == SYSCALL_GETRUSAGE {
            if a[0] as isize == 0 {
                self.wrote_if_ok(a[1], zero_usage().bytes())
            } else {
                self
            }
        } else if id == SYSCALL_SET_TID_ADDRESS {
            self.wrote_if_ok(a[0], crate::codec::word_bytes(0))
        } else if id == SYSCALL_KILL {
            self.killed(a[0], a[1] as u32)
        } else if id == SYSCALL_MMAP {
            if self.mmap_succeeds(a[1], a[2], a[3], a[4] as isize, a[5]) {
                self.mmapped(a[1], a[2], a[3], a[4] as isize, a[5])
            } else {
                self
            }
        } else if id == SYSCALL_MUNMAP {
            if self.cur().munmap_ok(a[0], a[1]) {
                self.with_cur(self.cur().munmapped(a[0], a[1]))
            } else {
                self
            }
        } else if id == SYSCALL_SBRK {
            if self.cur().grow_ok(a[0] as isize) {
                self.with_cur(self.cur().grown(a[0] as isize))
            } else {
                self
            }
        } else if id == SYSCALL_BRK {
            match self.brk_distance(a[0]) {
                Some(d) => self.with_cur(self.cur().grown(d)),
                None => self,
            }
        } else if id == SYSCALL_PRLIMIT64 {
            if self.prlimit_ok(a[1], a[2], a[3]) {
                self.prlimited(a[1], a[2], a[3])
            } else {
                self
            }
        } else if id == SYSCALL_FORK {
            if a[0] <= 0xffff_ffff && self.fork_pid() is Some {
                self.forked(a[1])
            } else {
                self
            }
        } else if id == SYSCALL_WAIT4 {
            self.waited(a[0] as isize, a[1])
        } else if id == SYSCALL_EXEC {
            if self.exec_succeeds(a[0], a[1], image) {
                self.with_cur(
                    self.cur().execed(
                        image.unwrap(),
                        self.exec_args(a[0], a[1]).unwrap(),
                        default_envs(),
                        self.kernel_satp,
                        self.trap_handler,
                    ),
                )
            } else {
                self
            }
        } else {
            self
        }
    }

    /// What the system call `id` returns; see [`Self::after_syscall`].  A
    /// number that names no system call returns -1.
    #[verifier::opaque]
    pub open spec fn syscall_result(self, id: usize, a: Seq<usize>, now: usize, image: Option<Seq<u8>>) -> int {
        if id == SYSCALL_YIELD || id == SYSCALL_GETUID || id == SYSCALL_GETEUID || id
            == SYSCALL_GETGID || id == SYSCALL_GETEGID || id == SYSCALL_GETTID || id
            == SYSCALL_GETPGID || id == SYSCALL_SETPGID || id == SYSCALL_SYSINFO || id
            == SYSCALL_FACCESSAT || id == SYSCALL_MADVISE || id == SYSCALL_MPROTECT {
            0
        } else if id == SYSCALL_PPOLL {
            1
        } else if id == SYSCALL_NANOSLEEP {
            self.sleep_result(a[0], now)
        } else if id == SYSCALL_GETTIMEOFDAY {
            self.write_result(a[0], 16)
        } else if id == SYSCALL_TIMES {
            self.write_result(a[0], 32)
        } else if id == SYSCALL_UNAME {
            self.write_result(a[0], 390)
        } else if id == SYSCALL_CLOCK_GETTIME {
            if a[1] == 0 {
                0
            } else {
                self.write_result(a[1], 16)
            }
        } else if id == SYSCALL_GETRUSAGE {
            if a[0] as isize == 0 {
                self.write_result(a[1], 144)
            } else {
                -1
            }
        } else if id == SYSCALL_SET_TID_ADDRESS {
            self.write_result(a[0], 8)
        } else if id == SYSCALL_GETPID {
            self.cur().pid as int
        } else if id == SYSCALL_GETPPID {
            self.cur().tgid as int
        } else if id == SYSCALL_KILL {
            self.kill_result(a[0])
        } else if id == SYSCALL_MMAP {
            if self.mmap_succeeds(a[1], a[2], a[3], a[4] as isize, a[5]) {
                self.mmapped(a[1], a[2], a[3], a[4] as isize, a[5]).cur().mmap_top as int
            } else {
                -1
            }
        } else if id == SYSCALL_MUNMAP {
            if self.cur().munmap_ok(a[0], a[1]) {
                0
            } else {
                -1
            }
        } else if id == SYSCALL_SBRK {
            if self.cur().grow_ok(a[0] as isize) {
                self.cur().heap_end as int
            } else {
                -1
            }
        } else if id == SYSCALL_BRK {
            self.after_syscall(id, a, now, image).cur().heap_end as int
        } else if id == SYSCALL_PRLIMIT64 {
            if self.prlimit_ok(a[1], a[2], a[3]) {
                0
            } else {
                -1
            }
        } else if id == SYSCALL_FORK {
            if a[0] <= 0xffff_ffff && self.fork_pid() is Some {
                self.fork_pid().unwrap() as int
            } else {
                -1
            }
        } else if id == SYSCALL_WAIT4 {
            self.wait_result(a[0] as isize, a[1])
        } else if id == SYSCALL_EXEC {
            if self.exec_succeeds(a[0], a[1], image) {
                0
            } else {
                -1
            }
        } else {
            -1
        }
    }

    /// How the system call `id` ends.
    pub open spec fn syscall_outcome(self, id: usize, a: Seq<usize>, now: usize, image: Option<Seq<u8>>) -> SyscallOutcome {
        if id == SYSCALL_EXIT || id == SYSCALL_EXIT_GROUP {
            SyscallOutcome::Exited
        } else if id == SYSCALL_NANOSLEEP || id == SYSCALL_WAIT4 {
            outcome_of(self.syscall_result(id, a, now, image))
        } else {
            SyscallOutcome::Return(self.syscall_result(id, a, now, image) as isize)
        }
    }
}

/// The calls of processes: exit, yield, kill, fork, exec, wait and the
/// identifiers.
#[verifier::rlimit(100)]
#[verifier::spinoff_prover]
fn syscall_process(
    k: &mut Kernel,
    id: usize,
    args: [usize; 6],
    now: usize,
    image: Option<&[u8]>,
) -> (out: SyscallOutcome)
    requires
        old(k).wf(),
        old(k)@.current is Some,
        id == SYSCALL_EXIT || id == SYSCALL_EXIT_GROUP || id == SYSCALL_YIELD || id == SYSCALL_KILL
            || id == SYSCALL_FORK || id == SYSCALL_EXEC || id == SYSCALL_WAIT4 || id
            == SYSCALL_GETPID || id == SYSCALL_GETPPID,
    ensures
        final(k).wf(),
        final(k)@ == old(k)@.after_syscall(id, args@, now, fill_of(image)),
        out == old(k)@.syscall_outcome(id, args@, now, fill_of(image)),
        out != SyscallOutcome::Exited ==> final(k)@.current is Some && final(k)@.live(
            old(k)@.current.unwrap(),
        ),
{
    reveal(KernelView::after_syscall);
    reveal(KernelView::syscall_result);
    if id == SYSCALL_EXIT {
        sys_exit(
            k,
            #[verifier::truncate]
            (args[0] as i32),
        );
        SyscallOutcome::Exited
    } else if id == SYSCALL_EXIT_GROUP {
        sys_exit_group(
            k,
            #[verifier::truncate]
            (args[0] as i32),
        );
        SyscallOutcome::Exited
    } else if id == SYSCALL_YIELD {
        SyscallOutcome::Return(sys_yield(k))
    } else if id == SYSCALL_KILL {
        SyscallOutcome::Return(
            sys_kill(
                k,
                args[0],
                #[verifier::truncate]
                (args[1] as u32),
            ),
        )
    } else if id == SYSCALL_FORK {
        SyscallOutcome::Return(sys_fork(k, args[0], args[1], args[2], args[3], args[4]))
    } else if id == SYSCALL_EXEC {
        SyscallOutcome::Return(sys_exec(k, args[0], args[1], args[2], image))
    } else if id == SYSCALL_WAIT4 {
        let r = sys_waitpid(
            k,
            #[verifier::truncate]
            (args[0] as isize),
            args[1],
        );
        if r == -2 {
            SyscallOutcome::Retry
        } else {
            SyscallOutcome::Return(r)
        }
    } else if id == SYSCALL_GETPID {
        SyscallOutcome::Return(sys_getpid(k))
    } else {
        SyscallOutcome::Return(sys_getppid(k))
    }
}

/// The calls of memory: break, mappings, limits.
#[verifier::rlimit(100)]
#[verifier::spinoff_prover]
fn syscall_memory(
    k: &mut Kernel,
    id: usize,
    args: [usize; 6],
    now: usize,
    image: Option<&[u8]>,
) -> (out: SyscallOutcome)
    requires
        old(k).wf(),
        old(k)@.current is Some,
        id == SYSCALL_MMAP || id == SYSCALL_MUNMAP || id == SYSCALL_SBRK || id == SYSCALL_BRK || id
            == SYSCALL_PRLIMIT64 || id == SYSCALL_MADVISE || id == SYSCALL_MPROTECT,
    ensures
        final(k).wf(),
        final(k)@ == old(k)@.after_syscall(id, args@, now, fill_of(image)),
        out == old(k)@.syscall_outcome(id, args@, now, fill_of(image)),
        final(k)@.current == old(k)@.current,
{
    reveal(KernelView::after_syscall);
    reveal(KernelView::syscall_result);
    if id == SYSCALL_MMAP {
        SyscallOutcome::Return(
            sys_mmap(
                k,
                args[0],
                args[1],
                args[2],
                args[3],
                #[verifier::truncate]
                (args[4] as isize),
                args[5],
            ),
        )
    } else if id == SYSCALL_MUNMAP {
        SyscallOutcome::Return(sys_munmap(k, args[0], args[1]))
    } else if id == SYSCALL_SBRK {
        SyscallOutcome::Return(
            sys_sbrk(
                k,
                #[verifier::truncate]
                (args[0] as isize),
                args[1],
            ),
        )
    } else if id == SYSCALL_BRK {
        SyscallOutcome::Return(sys_brk(k, args[0]))
    } else if id == SYSCALL_PRLIMIT64 {
        SyscallOutcome::Return(sys_prlimit64(k, args[0], args[1], args[2], args[3]))
    } else if id == SYSCALL_MADVISE {
        SyscallOutcome::Return(sys_madvise(args[0], args[1], args[2]))
    } else {
        SyscallOutcome::Return(sys_mprotect(args[0], args[1], args[2]))
    }
}

/// The calls of time and of system information.
#[verifier::rlimit(100)]
#[verifier::spinoff_prover]
fn syscall_info(
    k: &mut Kernel,
    id: usize,
    args: [usize; 6],
    now: usize,
    image: Option<&[u8]>,
) -> (out: SyscallOutcome)
    requires
        old(k).wf(),
        old(k)@.current is Some,
        id == SYSCALL_NANOSLEEP || id == SYSCALL_GETTIMEOFDAY || id == SYSCALL_TIMES || id
            == SYSCALL_UNAME || id == SYSCALL_CLOCK_GETTIME || id == SYSCALL_GETRUSAGE || id
            == SYSCALL_SET_TID_ADDRESS,
    ensures
        final(k).wf(),
        final(k)@ == old(k)@.after_syscall(id, args@, now, fill_of(image)),
        out == old(k)@.syscall_outcome(id, args@, now, fill_of(image)),
        final(k)@.current == old(k)@.current,
{
    reveal(KernelView::after_syscall);
    reveal(KernelView::syscall_result);
    if id == SYSCALL_NANOSLEEP {
        let r = sys_nanosleep(k, args[0], now);
        if r == -2 {
            SyscallOutcome::Retry
        } else {
            SyscallOutcome::Return(r)
        }
    } else if id == SYSCALL_GETTIMEOFDAY {
        SyscallOutcome::Return(sys_gettimeofday(k, args[0], now))
    } else if id == SYSCALL_TIMES {
        SyscallOutcome::Return(sys_times(k, args[0], now))
    } else if id == SYSCALL_UNAME {
        SyscallOutcome::Return(sys_uname(k, args[0]))
    } else if id == SYSCALL_CLOCK_GETTIME {
        SyscallOutcome::Return(sys_clock_gettime(k, args[0], args[1], now))
    } else if id == SYSCALL_GETRUSAGE {
        SyscallOutcome::Return(
            sys_getrusage(
                k,
                #[verifier::truncate]
                (args[0] as isize),
                args[1],
            ),
        )
    } else {
        SyscallOutcome::Return(sys_set_tid_address(k, args[0]))
    }
}

/// Serves the system call `id` of the running task with the arguments
/// `args`.  `now` is the reading of the clock in ticks; `image` is the
/// contents of the file that `exec` is to run, where the call is `exec` and
/// the file is there.  A number that names no system call returns -1.
pub fn syscall(k: &mut Kernel, id: usize, args: [usize; 6], now: usize, image: Option<&[u8]>) -> (out:
    SyscallOutcome)
    requires
        old(k).wf(),
        old(k)@.current is Some,
    ensures
        final(k).wf(),
        final(k)@ == old(k)@.after_syscall(id, args@, now, fill_of(image)),
        out == old(k)@.syscall_outcome(id, args@, now, fill_of(image)),
        out != SyscallOutcome::Exited ==> final(k)@.current is Some && final(k)@.live(
            old(k)@.current.unwrap(),
        ),
{
    reveal(KernelView::after_syscall);
    reveal(KernelView::syscall_result);
    if id == SYSCALL_EXIT || id == SYSCALL_EXIT_GROUP || id == SYSCALL_YIELD || id == SYSCALL_KILL
        || id == SYSCALL_FORK || id == SYSCALL_EXEC || id == SYSCALL_WAIT4 || id == SYSCALL_GETPID
        || id == SYSCALL_GETPPID {
        syscall_process(k, id, args, now, image)
    } else if id == SYSCALL_MMAP || id == SYSCALL_MUNMAP || id == SYSCALL_SBRK || id == SYSCALL_BRK
        || id == SYSCALL_PRLIMIT64 || id == SYSCALL_MADVISE || id == SYSCALL_MPROTECT {
        syscall_memory(k, id, args, now, image)
    } else if id == SYSCALL_NANOSLEEP || id == SYSCALL_GETTIMEOFDAY || id == SYSCALL_TIMES || id
        == SYSCALL_UNAME || id == SYSCALL_CLOCK_GETTIME || id == SYSCALL_GETRUSAGE || id
        == SYSCALL_SET_TID_ADDRESS {
        syscall_info(k, id, args, now, image)
    } else if id == SYSCALL_GETUID {
        SyscallOutcome::Return(sys_getuid())
    } else if id == SYSCALL_GETEUID {
        SyscallOutcome::Return(sys_geteuid())
    } else if id == SYSCALL_GETGID {
        SyscallOutcome::Return(sys_getgid())
    } else if id == SYSCALL_GETEGID {
        SyscallOutcome::Return(sys_getegid())
    } else if id == SYSCALL_GETTID {
        SyscallOutcome::Return(sys_gettid())
    } else if id == SYSCALL_GETPGID {
        SyscallOutcome::Return(sys_getpgid())
    } else if id == SYSCALL_SETPGID {
        SyscallOutcome::Return(sys_setpgid())
    } else if id == SYSCALL_SYSINFO {
        SyscallOutcome::Return(sys_sysinfo())
    } else if id == SYSCALL_FACCESSAT {
        SyscallOutcome::Return(sys_faccessat())
    } else if id == SYSCALL_PPOLL {
        SyscallOutcome::Return(sys_ppoll())
    } else {
        SyscallOutcome::Return(-1)
    }
}

} // verus!
