//! The system calls of processes, memory, time and system information.
//!
//! Every call takes the kernel state and works on the running task.  A
//! pointer argument is an address of that task; the kernel reads and writes
//! behind it only where user mode could.  A call that cannot be served
//! returns -1 and changes nothing.
use crate::config::RETRY;
use crate::info::{CloneFlags, RLimit, RUsage};
use crate::mm::memory_set::MemorySet;
use crate::task::family::{wait_matches, wait_status};
use crate::task::manager::add_task;
use crate::task::pid::kernel_stack_position;
use crate::task::task::{FileDescriptor, TaskControlBlock, TaskStatus};
use crate::mm::memory_set::SpaceView;
use crate::mm::mmap::{MmapFlags, MmapProts};
use crate::signal::SignalFlags;
use crate::task::kernel::{Kernel, KernelView};
use crate::task::manager::pid2task;
use crate::task::schedule::{exit_current_and_run_next, suspend_current_and_run_next};
use crate::task::task::TaskView;
use crate::timer::{get_time_ms, get_timespec, get_timeval, ticks_to_ms, ticks_to_nsec_part, ticks_to_sec, ticks_to_usec_part, TimeVal, Tms};
use crate::mm::user_stack::views;
use crate::task::exec::exec_ok;
use vstd::prelude::*;
use vstd::slice::slice_to_vec;
use vstd::string::StringSliceAdditionalSpecFns;

verus! {

impl KernelView {
    /// The running task.
    pub open spec fn cur(self) -> TaskView {
        self.task(self.current.unwrap())
    }

    /// The state in which the running task is `t`.
    pub open spec fn with_cur(self, t: TaskView) -> KernelView {
        self.with_task(self.current.unwrap(), t)
    }

    /// Whether the kernel may write `len` bytes from `va` on for the running
    /// task.
    pub open spec fn can_write(self, va: usize, len: int) -> bool {
        self.cur().space.range_ok(va, len, true)
    }

    /// Whether the kernel may read `len` bytes from `va` on for the running
    /// task.
    pub open spec fn can_read(self, va: usize, len: int) -> bool {
        self.cur().space.range_ok(va, len, false)
    }

    /// The state after `data` has been stored from `va` on in the memory of
    /// the running task.
    pub open spec fn wrote(self, va: usize, data: Seq<u8>) -> KernelView {
        self.with_cur(
            TaskView {
                space: SpaceView {
                    regions: self.cur().space.regions,
                    pages: self.cur().space.written(va, data),
                },
                ..self.cur()
            },
        )
    }

    /// The state after a system call that stores `data` at `va`, and that
    /// changes nothing where it may not write there.
    pub open spec fn wrote_if_ok(self, va: usize, data: Seq<u8>) -> KernelView {
        if self.can_write(va, data.len() as int) {
            self.wrote(va, data)
        } else {
            self
        }
    }

    /// What a system call returns that stores `len` bytes at `va`.
    pub open spec fn write_result(self, va: usize, len: int) -> int {
        if self.can_write(va, len) {
            0
        } else {
            -1
        }
    }
}

/// Stores `data` from `va` on in the memory of the running task, where user
/// mode may write all of it.
pub fn copy_to_current(k: &mut Kernel, va: usize, data: &[u8]) -> (ok: bool)
    requires
        old(k).wf(),
        old(k)@.current is Some,
    ensures
        final(k).wf(),
        ok == old(k)@.can_write(va, data@.len() as int),
        final(k)@ == old(k)@.wrote_if_ok(va, data@),
{
    let pid = k.current.unwrap();
    let ghost pre = k@;
    let task = k.task_mut(pid);
    let ok = task.memory_set.copy_out(va, data);
    proof {
        if ok {
            pre.lemma_with_task_wf(pid, k@.task(pid));
        } else {
            assert(k@.task(pid) == pre.task(pid));
            assert(k@.tasks =~= pre.tasks);
        }
    }
    ok
}

/// Reads `len` bytes from `va` on from the memory of the running task,
/// where user mode may read all of them.
pub fn copy_from_current(k: &Kernel, va: usize, len: usize) -> (r: Option<Vec<u8>>)
    requires
        k.wf(),
        k@.current is Some,
    ensures
        r is Some <==> k@.can_read(va, len as int),
        r matches Some(data) ==> data@ == k@.cur().space.bytes(va, len as int),
{
    let pid = k.current.unwrap();
    k.task_ref(pid).memory_set.copy_in(va, len)
}

/// Ends the running task with code `exit_code` and runs the next one.
pub fn sys_exit(k: &mut Kernel, exit_code: i32)
    requires
        old(k).wf(),
        old(k)@.current is Some,
    ensures
        final(k).wf(),
        final(k)@ == old(k)@.exited(exit_code),
{
    exit_current_and_run_next(k, exit_code);
}

/// Ends the running task with code `exit_code` and runs the next one.
pub fn sys_exit_group(k: &mut Kernel, exit_code: i32)
    requires
        old(k).wf(),
        old(k)@.current is Some,
    ensures
        final(k).wf(),
        final(k)@ == old(k)@.exited(exit_code),
{
    exit_current_and_run_next(k, exit_code);
}

/// The running task gives up the processor.  Returns 0.
pub fn sys_yield(k: &mut Kernel) -> (r: isize)
    requires
        old(k).wf(),
        old(k)@.current is Some,
    ensures
        final(k).wf(),
        final(k)@ == old(k)@.suspended(),
        r == 0,
{
    suspend_current_and_run_next(k);
    0
}

/// The interval that user space stored at `va`.
pub open spec fn timeval_at(space: SpaceView, va: usize) -> TimeVal {
    TimeVal {
        sec: crate::codec::word_of(space.bytes(va, 16).subrange(0, 8)),
        usec: crate::codec::word_of(space.bytes(va, 16).subrange(8, 16)),
    }
}

/// The millisecond at which a sleep of the interval `tv` ends that starts
/// when the clock reads `now` ticks.
pub open spec fn wake_time(now: usize, tv: TimeVal) -> usize {
    if ticks_to_ms(now as int) + tv.millis() <= usize::MAX {
        (ticks_to_ms(now as int) + tv.millis()) as usize
    } else {
        usize::MAX
    }
}

impl KernelView {
    /// The millisecond at which the running task wants to wake: the one it
    /// noted when it went to sleep, or, for a sleep that starts now, the one
    /// that follows from the interval at `buf`.
    pub open spec fn sleep_deadline(self, buf: usize, now: usize) -> usize {
        match self.cur().sleep_until {
            Some(d) => d,
            None => wake_time(now, timeval_at(self.cur().space, buf)),
        }
    }

    /// The state after a call of `nanosleep` when the clock reads `now`.
    pub open spec fn slept(self, buf: usize, now: usize) -> KernelView {
        if self.cur().sleep_until is None && !self.can_read(buf, 16) {
            self
        } else if ticks_to_ms(now as int) >= self.sleep_deadline(buf, now) {
            self.with_cur(TaskView { sleep_until: None, ..self.cur() })
        } else {
            self.with_cur(TaskView { sleep_until: Some(self.sleep_deadline(buf, now)), ..self.cur() })
        }
    }

    /// What a call of `nanosleep` returns when the clock reads `now`.
    pub open spec fn sleep_result(self, buf: usize, now: usize) -> int {
        if self.cur().sleep_until is None && !self.can_read(buf, 16) {
            -1
        } else if ticks_to_ms(now as int) >= self.sleep_deadline(buf, now) {
            0
        } else {
            -2
        }
    }
}

/// Sleeps for the interval stored at `buf` as seconds and microseconds.
/// `now` is the reading of the clock in ticks.  The first call notes the
/// millisecond at which the sleep ends.  While that time has not come the
/// call returns `RETRY`, and the caller runs the task again later; once it
/// has come the call returns 0.  It returns -1 where the interval cannot be
/// read.
pub fn sys_nanosleep(k: &mut Kernel, buf: usize, now: usize) -> (r: isize)
    requires
        old(k).wf(),
        old(k)@.current is Some,
    ensures
        final(k).wf(),
        r == old(k)@.sleep_result(buf, now),
        final(k)@ == old(k)@.slept(buf, now),
{
    let pid = k.current.unwrap();
    let ghost pre = k@;
    let now_ms = get_time_ms(now);
    let deadline: usize = match k.task_ref(pid).sleep_until {
        Some(d) => d,
        None => {
            match copy_from_current(k, buf, 16) {
                None => {
                    return -1;
                },
                Some(data) => {
                    let tv = TimeVal::from_bytes(data.as_slice());
                    assert(tv == timeval_at(pre.cur().space, buf));
                    now_ms.saturating_add(tv.as_millis())
                },
            }
        },
    };
    let task = k.task_mut(pid);
    if now_ms >= deadline {
        task.sleep_until = None;
        proof {
            pre.lemma_with_task_wf(pid, k@.task(pid));
        }
        0
    } else {
        task.sleep_until = Some(deadline);
        proof {
            pre.lemma_with_task_wf(pid, k@.task(pid));
        }
        RETRY
    }
}

/// Stores the time since boot at `buf`, as seconds and microseconds.  `now`
/// is the reading of the clock in ticks.  Returns 0, or -1 where the time
/// cannot be stored.
pub fn sys_gettimeofday(k: &mut Kernel, buf: usize, now: usize) -> (r: isize)
    requires
        old(k).wf(),
        old(k)@.current is Some,
    ensures
        final(k).wf(),
        r == old(k)@.write_result(buf, 16),
        final(k)@ == old(k)@.wrote_if_ok(
            buf,
            (TimeVal {
                sec: ticks_to_sec(now as int) as usize,
                usec: ticks_to_usec_part(now as int) as usize,
            }).bytes(),
        ),
{
    let tv = get_timeval(now);
    let data = tv.as_bytes();
    if copy_to_current(k, buf, data.as_slice()) {
        0
    } else {
        -1
    }
}

/// The process times the kernel reports when the clock reads `now` ticks:
/// each of the four is the time since boot in microseconds, to the
/// millisecond.
pub open spec fn times_at(now: usize) -> Tms {
    Tms {
        tms_utime: (ticks_to_ms(now as int) * 1000) as isize,
        tms_stime: (ticks_to_ms(now as int) * 1000) as isize,
        tms_cutime: (ticks_to_ms(now as int) * 1000) as isize,
        tms_cstime: (ticks_to_ms(now as int) * 1000) as isize,
    }
}

/// Stores the process times at `buf`.  `now` is the reading of the clock in
/// ticks.  Returns 0, or -1 where the times cannot be stored.
pub fn sys_times(k: &mut Kernel, buf: usize, now: usize) -> (r: isize)
    requires
        old(k).wf(),
        old(k)@.current is Some,
    ensures
        final(k).wf(),
        r == old(k)@.write_result(buf, 32),
        final(k)@ == old(k)@.wrote_if_ok(buf, times_at(now).bytes()),
{
    let ms: usize = get_time_ms(now);
    let sec: isize = (ms * 1000) as isize;
    let t = Tms { tms_stime: sec, tms_utime: sec, tms_cstime: sec, tms_cutime: sec };
    let data = t.as_bytes();
    if copy_to_current(k, buf, data.as_slice()) {
        0
    } else {
        -1
    }
}

/// Stores the names of the system at `buf`.  Returns 0, or -1 where they
/// cannot be stored.
pub fn sys_uname(k: &mut Kernel, buf: usize) -> (r: isize)
    requires
        old(k).wf(),
        old(k)@.current is Some,
    ensures
        final(k).wf(),
        r == old(k)@.write_result(buf, 390),
        final(k)@ == old(k)@.wrote_if_ok(buf, old(k)@.uts),
{
    let data = k.utsname.as_bytes();
    if copy_to_current(k, buf, data.as_slice()) {
        0
    } else {
        -1
    }
}

/// Stores the time since boot at `ts`, as seconds and nanoseconds, each a
/// 64-bit word.  `now` is the reading of the clock in ticks.  With `ts`
/// zero nothing is stored.  Returns 0, or -1 where the time cannot be
/// stored.
pub fn sys_clock_gettime(k: &mut Kernel, _clk_id: usize, ts: usize, now: usize) -> (r: isize)
    requires
        old(k).wf(),
        old(k)@.current is Some,
    ensures
        final(k).wf(),
        r == if ts == 0 {
            0
        } else {
            old(k)@.write_result(ts, 16)
        },
        final(k)@ == if ts == 0 {
            old(k)@
        } else {
            old(k)@.wrote_if_ok(
                ts,
                vstd::bytes::spec_u64_to_le_bytes(ticks_to_sec(now as int) as u64)
                    + vstd::bytes::spec_u64_to_le_bytes(ticks_to_nsec_part(now as int) as u64),
            )
        },
{
    if ts == 0 {
        return 0;
    }
    let (sec, nsec) = get_timespec(now);
    let mut data = vstd::bytes::u64_to_le_bytes(sec);
    let mut tail = vstd::bytes::u64_to_le_bytes(nsec);
    data.append(&mut tail);
    if copy_to_current(k, ts, data.as_slice()) {
        0
    } else {
        -1
    }
}

/// The identifier of the running task.
pub fn sys_getpid(k: &Kernel) -> (r: isize)
    requires
        k.wf(),
        k@.current is Some,
    ensures
        r == k@.current.unwrap(),
        r == k@.cur().pid,
{
    k.current.unwrap() as isize
}

/// The identifier of the process that forked the running task.
pub fn sys_getppid(k: &Kernel) -> (r: isize)
    requires
        k.wf(),
        k@.current is Some,
    ensures
        r == k@.cur().tgid,
{
    let pid = k.current.unwrap();
    k.task_ref(pid).tgid as isize
}

/// The effective user: always 0.
pub fn sys_geteuid() -> (r: isize)
    ensures
        r == 0,
{
    0
}

/// The effective group: always 0.
pub fn sys_getegid() -> (r: isize)
    ensures
        r == 0,
{
    0
}

/// The group: always 0.
pub fn sys_getgid() -> (r: isize)
    ensures
        r == 0,
{
    0
}

/// The thread identifier: always 0.
pub fn sys_gettid() -> (r: isize)
    ensures
        r == 0,
{
    0
}

/// The user: always 0.
pub fn sys_getuid() -> (r: isize)
    ensures
        r == 0,
{
    0
}

/// The process group: always 0.
pub fn sys_getpgid() -> (r: isize)
    ensures
        r == 0,
{
    0
}

/// Sets the process group; does nothing.  Returns 0.
pub fn sys_setpgid() -> (r: isize)
    ensures
        r == 0,
{
    0
}

/// Waits for events on file descriptors; reports one at once.  Returns 1.
pub fn sys_ppoll() -> (r: isize)
    ensures
        r == 1,
{
    1
}

/// System statistics; reports nothing.  Returns 0.
pub fn sys_sysinfo() -> (r: isize)
    ensures
        r == 0,
{
    0
}

/// Checks access to a file; grants it.  Returns 0.
pub fn sys_faccessat() -> (r: isize)
    ensures
        r == 0,
{
    0
}

/// Advice on the use of memory; ignored.  Returns 0.
pub fn sys_madvise(_addr: usize, _length: usize, _advice: usize) -> (r: isize)
    ensures
        r == 0,
{
    0
}

/// A change of the protection of memory; ignored.  Returns 0.
pub fn sys_mprotect(_addr: usize, _length: usize, _prot: usize) -> (r: isize)
    ensures
        r == 0,
{
    0
}

/// The only `who` that `getrusage` serves: the calling process.
pub const RUSAGE_SELF: isize = 0;

/// The record of resource usage that the kernel reports: all zero.
pub open spec fn zero_usage() -> RUsage {
    RUsage {
        ru_utime: TimeVal { sec: 0, usec: 0 },
        ru_stime: TimeVal { sec: 0, usec: 0 },
        ru_maxrss: 0,
        ru_ixrss: 0,
        ru_idrss: 0,
        ru_isrss: 0,
        ru_minflt: 0,
        ru_majflt: 0,
        ru_nswap: 0,
        ru_inblock: 0,
        ru_oublock: 0,
        ru_msgsnd: 0,
        ru_msgrcv: 0,
        ru_nsignals: 0,
        ru_nvcsw: 0,
        ru_nivcsw: 0,
    }
}

/// Stores the resource usage of the calling process at `usage`.  Returns 0,
/// or -1 where `who` is not the calling process or the record cannot be
/// stored.
pub fn sys_getrusage(k: &mut Kernel, who: isize, usage: usize) -> (r: isize)
    requires
        old(k).wf(),
        old(k)@.current is Some,
    ensures
        final(k).wf(),
        r == if who == 0 {
            old(k)@.write_result(usage, 144)
        } else {
            -1int
        },
        final(k)@ == if who == 0 {
            old(k)@.wrote_if_ok(usage, zero_usage().bytes())
        } else {
            old(k)@
        },
{
    if who != RUSAGE_SELF {
        return -1;
    }
    let rusage = RUsage::new();
    assert(rusage.counters() =~= zero_usage().counters());
    assert(rusage == zero_usage());
    let data = rusage.as_bytes();
    if copy_to_current(k, usage, data.as_slice()) {
        0
    } else {
        -1
    }
}

/// Notes where the thread identifier is to be cleared: stores a zero word at
/// `tidptr`.  Returns 0, or -1 where the word cannot be stored.
pub fn sys_set_tid_address(k: &mut Kernel, tidptr: usize) -> (r: isize)
    requires
        old(k).wf(),
        old(k)@.current is Some,
    ensures
        final(k).wf(),
        r == old(k)@.write_result(tidptr, 8),
        final(k)@ == old(k)@.wrote_if_ok(tidptr, crate::codec::word_bytes(0)),
{
    let mut data: Vec<u8> = Vec::new();
    crate::codec::put_word(&mut data, 0);
    assert(data@ =~= crate::codec::word_bytes(0));
    if copy_to_current(k, tidptr, data.as_slice()) {
        0
    } else {
        -1
    }
}

impl KernelView {
    /// The state after signal number `signal` has been posted to process
    /// `pid`.
    pub open spec fn signalled(self, pid: usize, signal: u32) -> KernelView {
        self.with_task(
            pid,
            TaskView {
                signals: SignalFlags { bits: self.task(pid).signals.bits | (1u32 << signal) },
                ..self.task(pid)
            },
        )
    }

    /// What `kill` returns: 1 where no process is registered under `pid`,
    /// and 0 where one is.
    pub open spec fn kill_result(self, pid: usize) -> int {
        if self.registry.contains(pid) {
            0
        } else {
            1
        }
    }

    /// Whether `kill` posts a signal: a process is registered under `pid`,
    /// and `signal` is the number of a signal the kernel knows.
    pub open spec fn kill_posts(self, pid: usize, signal: u32) -> bool {
        self.registry.contains(pid) && crate::signal::is_known_signal(signal as int)
    }

    /// The state after `kill`: the signal is pending for the process where
    /// `kill` posts it, and nothing has changed else.
    pub open spec fn killed(self, pid: usize, signal: u32) -> KernelView {
        if self.kill_posts(pid, signal) {
            self.signalled(pid, signal)
        } else {
            self
        }
    }
}

/// Posts signal number `signal` to process `pid`.  Returns 1 where no
/// process is registered under `pid`, and 0 where one is.  Signal 0, and
/// any number that is not a signal the kernel knows, posts nothing: the call
/// only tells whether the process is there.
pub fn sys_kill(k: &mut Kernel, pid: usize, signal: u32) -> (r: isize)
    requires
        old(k).wf(),
    ensures
        final(k).wf(),
        r == old(k)@.kill_result(pid),
        final(k)@ == old(k)@.killed(pid, signal),
        old(k)@.kill_posts(pid, signal) ==> final(k)@.task(pid).signals.has(signal as int),
{
    let target = match pid2task(k, pid) {
        Some(t) => t,
        None => {
            return 1;
        },
    };
    match SignalFlags::from_signum(signal) {
        None => 0,
        Some(flag) => {
            let ghost pre = k@;
            assert(pre.live(target));
            let task = k.task_mut(target);
            task.signals.insert(flag);
            assert(flag.has(signal as int));
            assert(task.signals.has(signal as int));
            proof {
                pre.lemma_with_task_wf(target, k@.task(target));
            }
            0
        },
    }
}

/// Maps `length` bytes for the running task and returns the address of the
/// mapping, or -1.  `prot` holds the bits of read (1), write (2) and execute
/// (4); `flags` those of shared (1), private (2), fixed (16) and anonymous
/// (32).  Without the anonymous bit the mapping is backed by the file behind
/// descriptor `fd`, from `offset` on.  The mapping goes below the cursor of
/// the task, whatever `addr` says, and its pages get their frames when they
/// are first touched.
pub fn sys_mmap(
    k: &mut Kernel,
    addr: usize,
    length: usize,
    prot: usize,
    flags: usize,
    fd: isize,
    offset: usize,
) -> (r: isize)
    requires
        old(k).wf(),
        old(k)@.current is Some,
    ensures
        final(k).wf(),
        r != -1 <==> prot <= 7 && MmapFlags::valid_bits(flags) && old(k)@.cur().mmap_ok(
            length,
            MmapFlags { bits: flags },
            fd,
            offset,
        ),
        r != -1 ==> final(k)@ == old(k)@.with_cur(
            old(k)@.cur().mmapped(
                length,
                MmapProts { bits: prot },
                MmapFlags { bits: flags },
                fd,
                offset,
            ),
        ) && r == final(k)@.cur().mmap_top,
        r == -1 ==> final(k)@ == old(k)@,
{
    let prot = match MmapProts::from_bits(prot) {
        Some(p) => p,
        None => {
            return -1;
        },
    };
    let flags = match MmapFlags::from_bits(flags) {
        Some(f) => f,
        None => {
            return -1;
        },
    };
    let pid = k.current.unwrap();
    let ghost pre = k@;
    let task = k.task_mut(pid);
    match task.mmap(addr, length, prot, flags, fd, offset) {
        Some(va) => {
            proof {
                pre.lemma_with_task_wf(pid, k@.task(pid));
            }
            va as isize
        },
        None => {
            proof {
                assert(k@.tasks =~= pre.tasks);
            }
            -1
        },
    }
}

/// Unmaps the mapping of the running task that is exactly the pages of the
/// `length` bytes from `addr` on.  Returns 0, or -1 where there is no such
/// mapping.
pub fn sys_munmap(k: &mut Kernel, addr: usize, length: usize) -> (r: isize)
    requires
        old(k).wf(),
        old(k)@.current is Some,
    ensures
        final(k).wf(),
        r == 0 || r == -1,
        r == 0 <==> old(k)@.cur().munmap_ok(addr, length),
        r == 0 ==> final(k)@ == old(k)@.with_cur(old(k)@.cur().munmapped(addr, length)),
        r != 0 ==> final(k)@ == old(k)@,
{
    let pid = k.current.unwrap();
    let ghost pre = k@;
    let task = k.task_mut(pid);
    let ret = task.munmap(addr, length);
    proof {
        if ret == 0 {
            pre.lemma_with_task_wf(pid, k@.task(pid));
        } else {
            assert(k@.tasks =~= pre.tasks);
        }
    }
    ret
}

/// Moves the program break of the running task by `grow_size` bytes and
/// returns the break as it was before, or -1 where the break cannot move
/// that far.
pub fn sys_sbrk(k: &mut Kernel, grow_size: isize, _is_shrink: usize) -> (r: isize)
    requires
        old(k).wf(),
        old(k)@.current is Some,
    ensures
        final(k).wf(),
        r != -1 <==> old(k)@.cur().grow_ok(grow_size),
        r != -1 ==> r == old(k)@.cur().heap_end && final(k)@ == old(k)@.with_cur(
            old(k)@.cur().grown(grow_size),
        ),
        r == -1 ==> final(k)@ == old(k)@,
{
    let pid = k.current.unwrap();
    let ghost pre = k@;
    let task = k.task_mut(pid);
    let before: usize = task.heap_end;
    match task.grow_proc(grow_size) {
        Some(_) => {
            proof {
                pre.lemma_with_task_wf(pid, k@.task(pid));
            }
            before as isize
        },
        None => {
            proof {
                assert(k@.tasks =~= pre.tasks);
            }
            -1
        },
    }
}

impl KernelView {
    /// The distance that `brk` moves the program break of the running task
    /// to bring it to `brk_addr`, where that distance is a signed word.
    pub open spec fn brk_distance(self, brk_addr: usize) -> Option<isize> {
        let d = brk_addr - self.cur().heap_end;
        if brk_addr != 0 && isize::MIN <= d <= isize::MAX && self.cur().grow_ok(d as isize) {
            Some(d as isize)
        } else {
            None
        }
    }
}

/// Moves the program break of the running task to `brk_addr` and returns
/// the break as it is afterwards.  With `brk_addr` zero, or where the break
/// cannot go there, the break stays and is returned as it is.
pub fn sys_brk(k: &mut Kernel, brk_addr: usize) -> (r: isize)
    requires
        old(k).wf(),
        old(k)@.current is Some,
    ensures
        final(k).wf(),
        r == final(k)@.cur().heap_end,
        final(k)@ == match old(k)@.brk_distance(brk_addr) {
            Some(d) => old(k)@.with_cur(old(k)@.cur().grown(d)),
            None => old(k)@,
        },
        old(k)@.brk_distance(brk_addr) is Some ==> final(k)@.cur().heap_end == brk_addr,
{
    let pid = k.current.unwrap();
    let ghost pre = k@;
    let task = k.task_mut(pid);
    let former: usize = task.heap_end;
    if brk_addr != 0 {
        let grow: Option<isize> = if brk_addr >= former {
            if brk_addr - former <= isize::MAX as usize {
                Some((brk_addr - former) as isize)
            } else {
                None
            }
        } else {
            if former - brk_addr <= isize::MAX as usize {
                Some(-((former - brk_addr) as isize))
            } else {
                None
            }
        };
        match grow {
            Some(d) => {
                let _ = task.grow_proc(d);
            },
            None => {
                assert(brk_addr - former < isize::MIN || brk_addr - former > isize::MAX || !pre.cur().grow_ok(
                    (brk_addr - former) as isize,
                ));
            },
        }
    }
    let now: usize = task.heap_end;
    proof {
        if pre.brk_distance(brk_addr) is Some {
            pre.lemma_with_task_wf(pid, k@.task(pid));
        } else {
            assert(k@.task(pid) == pre.task(pid));
            assert(k@.tasks =~= pre.tasks);
        }
    }
    now as isize
}

impl KernelView {
    /// Whether `prlimit64` can do what it is asked: the resource is one of
    /// the sixteen, the old limits can be stored where they are wanted, and
    /// the new ones can be read where they are given.
    pub open spec fn prlimit_ok(self, resource: usize, new_limit: usize, old_limit: usize) -> bool {
        &&& resource < 16
        &&& old_limit != 0 ==> self.can_write(old_limit, 16)
        &&& new_limit != 0 ==> self.can_read(new_limit, 16)
    }

    /// The state after `prlimit64`: the limits of the resource as they were
    /// stand at `old_limit`, and the limits read at `new_limit` after that
    /// are the limits of the resource.
    pub open spec fn prlimited(self, resource: usize, new_limit: usize, old_limit: usize) -> KernelView {
        let mid = if old_limit != 0 {
            self.wrote(old_limit, self.cur().resource[resource as int].bytes())
        } else {
            self
        };
        if new_limit != 0 {
            mid.with_cur(
                TaskView {
                    resource: mid.cur().resource.update(
                        resource as int,
                        RLimit {
                            rlim_cur: crate::codec::word_of(
                                mid.cur().space.bytes(new_limit, 16).subrange(0, 8),
                            ),
                            rlim_max: crate::codec::word_of(
                                mid.cur().space.bytes(new_limit, 16).subrange(8, 16),
                            ),
                        },
                    ),
                    ..mid.cur()
                },
            )
        } else {
            mid
        }
    }
}

/// Reads and sets the limits of resource `resource` of the running task.
/// With `old_limit` not zero the limits as they are get stored there; with
/// `new_limit` not zero the limits stored there become the limits of the
/// resource.  Returns 0, or -1 where the resource is none of the sixteen or
/// one of the two addresses cannot be used; then nothing changes.
#[verifier::rlimit(40)]
pub fn sys_prlimit64(
    k: &mut Kernel,
    _pid: usize,
    resource: usize,
    new_limit: usize,
    old_limit: usize,
) -> (r: isize)
    requires
        old(k).wf(),
        old(k)@.current is Some,
    ensures
        final(k).wf(),
        r == 0 || r == -1,
        r == 0 <==> old(k)@.prlimit_ok(resource, new_limit, old_limit),
        final(k)@ == if r == 0 {
            old(k)@.prlimited(resource, new_limit, old_limit)
        } else {
            old(k)@
        },
{
    let pid = k.current.unwrap();
    let ghost pre = k@;
    if resource >= 16 {
        return -1;
    }
    if old_limit != 0 && !k.task_ref(pid).memory_set.can_access_range(old_limit, 16, true) {
        return -1;
    }
    if new_limit != 0 && !k.task_ref(pid).memory_set.can_access_range(new_limit, 16, false) {
        return -1;
    }
    if old_limit != 0 {
        let old_resource = k.task_ref(pid).resource[resource];
        let data = old_resource.as_bytes();
        let ok = copy_to_current(k, old_limit, data.as_slice());
        assert(ok);
    }
    let ghost mid = k@;
    if new_limit != 0 {
        proof {
            assert(mid.cur().space.regions == pre.cur().space.regions);
            assert(mid.can_read(new_limit, 16)) by {
                assert forall|i: int| 0 <= i < 16 implies #[trigger] mid.cur().space.accessible(
                    (new_limit + i) as usize,
                    false,
                ) by {
                    assert(pre.cur().space.accessible((new_limit + i) as usize, false));
                }
            }
        }
        let data = copy_from_current(k, new_limit, 16).unwrap();
        let rlimit = RLimit::from_bytes(data.as_slice());
        let task = k.task_mut(pid);
        task.resource[resource] = rlimit;
        proof {
            mid.lemma_with_task_wf(pid, k@.task(pid));
        }
    }
    0
}

/// A copy of `v`.
fn copy_bytes(v: &Vec<u8>) -> (r: Vec<u8>)
    ensures
        r@ == v@,
{
    let mut r: Vec<u8> = Vec::new();
    let mut i: usize = 0;
    while i < v.len()
        invariant
            i <= v@.len(),
            r@ == v@.subrange(0, i as int),
        decreases v@.len() - i,
    {
        r.push(v[i]);
        assert(r@ =~= v@.subrange(0, i + 1));
        i += 1;
    }
    assert(v@.subrange(0, v@.len() as int) =~= v@);
    r
}

/// A copy of a table of open files: each open file is shared by both
/// tables.
fn copy_fd_table(v: &Vec<Option<FileDescriptor>>) -> (r: Vec<Option<FileDescriptor>>)
    ensures
        r@ == v@,
{
    let mut r: Vec<Option<FileDescriptor>> = Vec::new();
    let mut i: usize = 0;
    while i < v.len()
        invariant
            i <= v@.len(),
            r@ == v@.subrange(0, i as int),
        decreases v@.len() - i,
    {
        r.push(v[i]);
        assert(r@ =~= v@.subrange(0, i + 1));
        i += 1;
    }
    assert(v@.subrange(0, v@.len() as int) =~= v@);
    r
}

/// The running task forks.  The child is a copy of the parent: it has a
/// copy of the address space, frame by frame, and of the table of open
/// files; it has no children and no pending signals; its `fork` returns 0;
/// with `stack_ptr` not zero it runs on that stack.  The child goes to the
/// back of the ready queue.  Returns the identifier of the child, or -1
/// where `flags` holds a bit above bit 31 or no identifier is free; then
/// nothing changes.
pub fn sys_fork(
    k: &mut Kernel,
    flags: usize,
    stack_ptr: usize,
    _ptid: usize,
    _ctid: usize,
    _newtls: usize,
) -> (r: isize)
    requires
        old(k).wf(),
        old(k)@.current is Some,
    ensures
        final(k).wf(),
        r != -1 <==> flags <= 0xffff_ffff && old(k)@.fork_pid() is Some,
        r != -1 ==> r == old(k)@.fork_pid().unwrap() && final(k)@ == old(k)@.forked(stack_ptr),
        r == -1 ==> final(k)@ == old(k)@,
{
    if CloneFlags::from_bits(flags).is_none() {
        return -1;
    }
    let ghost pre = k@;
    let parent_pid = k.current.unwrap();
    let pid = match k.pid_allocator.allocate() {
        Some(p) => p,
        None => {
            return -1;
        },
    };
    proof {
        pre.lemma_fork_pid_fresh();
        pre.lemma_forked_wf(stack_ptr);
    }
    assert(k@.live(parent_pid));
    let parent = k.task_ref(parent_pid);
    let mut trap_cx = parent.trap_cx;
    trap_cx.set_reg(10, 0);
    trap_cx.kernel_sp = kernel_stack_position(pid).1;
    if stack_ptr != 0 {
        trap_cx.set_sp(stack_ptr);
    }
    let child = TaskControlBlock {
        pid,
        tgid: parent_pid,
        memory_set: MemorySet::from_existed_user(&parent.memory_set),
        trap_cx,
        status: TaskStatus::Ready,
        parent: Some(parent_pid),
        children: Vec::new(),
        exit_code: 0,
        fd_table: copy_fd_table(&parent.fd_table),
        current_path: copy_bytes(&parent.current_path),
        signals: SignalFlags::empty(),
        resource: parent.resource,
        heap_base: parent.heap_base,
        heap_end: parent.heap_end,
        mmap_top: parent.mmap_top,
        sleep_until: None,
    };
    assert(child@ == pre.child_of(parent_pid, pid, stack_ptr));
    if pid == k.tasks.len() {
        k.tasks.push(Some(child));
    } else {
        k.tasks.set(pid, Some(child));
    }
    let ghost mid = k@;
    assert(mid.live(parent_pid));
    let parent = k.task_mut(parent_pid);
    parent.children.push(pid);
    add_task(k, pid);
    proof {
        assert(k@.tasks =~= pre.forked(stack_ptr).tasks);
        assert(k@ == pre.forked(stack_ptr));
    }
    pid as isize
}

/// Waits for a child of the running task: for any child with `pid` -1, for
/// the child with identifier `pid` else.  Returns -1 where the task has no
/// such child.  Where the first such child that is a zombie is found, the
/// call takes it out of the list of children, stores its exit code, shifted
/// left by eight bits, at `exit_code_ptr` unless that is zero, frees the
/// process control block and the identifier, and returns the identifier;
/// where the status cannot be stored it returns -1 and the child stays.
/// While no such child is a zombie the call returns `RETRY`, and the caller
/// runs the task again later.
#[verifier::rlimit(40)]
pub fn sys_waitpid(k: &mut Kernel, pid: isize, exit_code_ptr: usize) -> (r: isize)
    requires
        old(k).wf(),
        old(k)@.current is Some,
    ensures
        final(k).wf(),
        r == old(k)@.wait_result(pid, exit_code_ptr),
        final(k)@ == old(k)@.waited(pid, exit_code_ptr),
        r >= 0 ==> !final(k)@.live(r as usize) && !final(k)@.registry.contains(r as usize),
{
    let ghost pre = k@;
    let me = k.current.unwrap();
    let task = k.task_ref(me);
    let n = task.children.len();
    let mut any: bool = false;
    let mut i: usize = 0;
    while i < n
        invariant
            i <= n,
            n == task.children@.len(),
            task@ == pre.task(me),
            !any ==> forall|j: int| 0 <= j < i ==> !wait_matches(pid, #[trigger] task.children@[j]),
            any ==> pre.has_wait_match(pid),
            pre.current == Some(me),
        decreases n - i,
    {
        let child = task.children[i];
        if pid == -1 || (pid >= 0 && pid as usize == child) {
            any = true;
            assert(wait_matches(pid, pre.task(me).children[i as int]));
        }
        i += 1;
    }
    if !any {
        return -1;
    }
    let mut found: Option<usize> = None;
    let mut i: usize = 0;
    while i < n && found.is_none()
        invariant
            i <= n,
            n == task.children@.len(),
            task@ == pre.task(me),
            pre.wf(),
            k@ == pre,
            pre.current == Some(me),
            forall|j: int|
                0 <= j < (if found is Some {
                    found.unwrap() as int
                } else {
                    i as int
                }) ==> !#[trigger] pre.zombie_child_at(pid, j),
            found matches Some(f) ==> pre.zombie_child_at(pid, f as int),
        decreases n - i + (if found is None { 1int } else { 0int }),
    {
        let child = task.children[i];
        assert(pre.live(pre.task(me).children[i as int]));
        if (pid == -1 || (pid >= 0 && pid as usize == child)) && k.task_ref(child).is_zombie() {
            found = Some(i);
        } else {
            i += 1;
        }
    }
    let idx = match found {
        Some(f) => f,
        None => {
            proof {
                pre.lemma_no_zombie(pid);
            }
            return RETRY;
        },
    };
    proof {
        pre.lemma_first_zombie(pid, idx as int);
    }
    let child = task.children[idx];
    assert(pre.live(pre.task(me).children[idx as int]));
    if exit_code_ptr != 0 && !task.memory_set.can_access_range(exit_code_ptr, 4, true) {
        return -1;
    }
    proof {
        pre.lemma_reaped_wf(idx as int, exit_code_ptr);
    }
    let exit_code: i32 = k.task_ref(child).exit_code;
    if exit_code_ptr != 0 {
        let mut data: Vec<u8> = Vec::new();
        crate::codec::put_int(&mut data, exit_code.wrapping_mul(256));
        assert(data@ =~= crate::codec::int_bytes(wait_status(exit_code)));
        let ok = copy_to_current(k, exit_code_ptr, data.as_slice());
        assert(ok);
    }
    let parent = k.task_mut(me);
    parent.children.remove(idx);
    k.tasks.set(child, None);
    k.pid_allocator.release(child);
    proof {
        assert(k@.tasks =~= pre.reaped(idx as int, exit_code_ptr).tasks);
        assert(k@ == pre.reaped(idx as int, exit_code_ptr));
    }
    child as isize
}

/// Whether `path` names a shell script: it ends with `.sh`.
pub open spec fn ends_with_sh(path: Seq<u8>) -> bool {
    path.len() >= 3 && path[path.len() - 3] == 0x2e && path[path.len() - 2] == 0x73 && path[path.len()
        - 1] == 0x68
}

/// The arguments that run a shell script: the shell, then what follows.
pub open spec fn shell_args() -> Seq<Seq<u8>> {
    seq!["./busybox".spec_bytes(), "sh".spec_bytes()]
}

/// The environment every program starts with.
pub open spec fn default_envs() -> Seq<Seq<u8>> {
    seq!["LD_LIBRARY_PATH=/".spec_bytes(), "PATH=/".spec_bytes(), "ENOUGH=2500".spec_bytes()]
}

impl KernelView {
    /// The directory and the name of the file that `exec` of the string at
    /// `path` runs: the file named, sought from the working directory of the
    /// running task, or, for a shell script, the shell `busybox` in the root
    /// directory.  Nothing where the string cannot be read.
    pub open spec fn exec_file(self, path: usize) -> Option<(Seq<u8>, Seq<u8>)> {
        match self.cur().space.cstr(path) {
            None => None,
            Some(p) => if ends_with_sh(p) {
                Some(("/".spec_bytes(), "busybox".spec_bytes()))
            } else {
                Some((self.cur().current_path, p))
            },
        }
    }

    /// The arguments that `exec` hands to the program: the strings of the
    /// array at `args`, and before them, for a shell script, the name of the
    /// shell and `sh`.  Nothing where the path or the arguments cannot be
    /// read.
    pub open spec fn exec_args(self, path: usize, args: usize) -> Option<Seq<Seq<u8>>> {
        match (self.cur().space.cstr(path), self.cur().space.argv(args)) {
            (Some(p), Some(a)) => Some(
                if ends_with_sh(p) {
                    shell_args() + a
                } else {
                    a
                },
            ),
            _ => None,
        }
    }

    /// Whether `exec` succeeds: the path and the arguments can be read, the
    /// file was found, and its image can be started with the arguments.
    pub open spec fn exec_succeeds(self, path: usize, args: usize, image: Option<Seq<u8>>) -> bool {
        &&& self.exec_args(path, args) is Some
        &&& image is Some
        &&& exec_ok(image.unwrap(), self.exec_args(path, args).unwrap(), default_envs())
    }
}

/// The bytes of `s`.
fn str_bytes(s: &str) -> (r: Vec<u8>)
    ensures
        r@ == s.spec_bytes(),
{
    slice_to_vec(s.as_bytes())
}

/// Whether `path` ends with `.sh`.
fn is_shell_script(path: &Vec<u8>) -> (r: bool)
    ensures
        r == ends_with_sh(path@),
{
    let n = path.len();
    n >= 3 && path[n - 3] == 0x2e && path[n - 2] == 0x73 && path[n - 1] == 0x68
}

/// The directory and the name of the file that `exec` of the string at
/// `path` runs.  The caller opens that file and hands its contents to
/// [`sys_exec`].
pub fn exec_path(k: &Kernel, path: usize) -> (r: Option<(Vec<u8>, Vec<u8>)>)
    requires
        k.wf(),
        k@.current is Some,
    ensures
        match r {
            Some(f) => k@.exec_file(path) == Some((f.0@, f.1@)),
            None => k@.exec_file(path) is None,
        },
{
    let me = k.current.unwrap();
    let task = k.task_ref(me);
    match task.memory_set.translated_str(path) {
        None => None,
        Some(p) => {
            if is_shell_script(&p) {
                Some((str_bytes("/"), str_bytes("busybox")))
            } else {
                Some((copy_bytes(&task.current_path), p))
            }
        },
    }
}

/// The arguments that `exec` hands to the program; see
/// [`KernelView::exec_args`].
pub fn read_exec_args(k: &Kernel, path: usize, args: usize) -> (r: Option<Vec<Vec<u8>>>)
    requires
        k.wf(),
        k@.current is Some,
    ensures
        match r {
            Some(v) => k@.exec_args(path, args) == Some(views(v@)),
            None => k@.exec_args(path, args) is None,
        },
{
    let me = k.current.unwrap();
    let task = k.task_ref(me);
    let p = match task.memory_set.translated_str(path) {
        Some(p) => p,
        None => {
            return None;
        },
    };
    let given = match task.memory_set.read_argv(args) {
        Some(a) => a,
        None => {
            return None;
        },
    };
    let mut args_vec: Vec<Vec<u8>> = Vec::new();
    if is_shell_script(&p) {
        args_vec.push(str_bytes("./busybox"));
        args_vec.push(str_bytes("sh"));
    }
    let ghost lead = args_vec@;
    let ghost rest = given@;
    let mut given = given;
    args_vec.append(&mut given);
    proof {
        assert(views(args_vec@) =~= views(lead) + views(rest));
        if ends_with_sh(p@) {
            assert(views(lead) =~= shell_args());
        } else {
            assert(views(lead) =~= Seq::<Seq<u8>>::empty());
            assert(views(lead) + views(rest) =~= views(rest));
        }
    }
    Some(args_vec)
}

/// The environment every program starts with.
fn default_env_vec() -> (r: Vec<Vec<u8>>)
    ensures
        views(r@) == default_envs(),
{
    let mut envs_vec: Vec<Vec<u8>> = Vec::new();
    envs_vec.push(str_bytes("LD_LIBRARY_PATH=/"));
    envs_vec.push(str_bytes("PATH=/"));
    envs_vec.push(str_bytes("ENOUGH=2500"));
    assert(views(envs_vec@) =~= default_envs());
    envs_vec
}

/// The running task replaces its program.  `path` is the address of the
/// name of the file, `args` that of the array of arguments, which a null
/// word ends; the environment is not taken from the caller but is the
/// default one.  `image` is the contents of the file that [`exec_path`]
/// names, or nothing where there is no such file.  A name that ends with
/// `.sh` is run by the shell.  Returns 0 where the program has been
/// replaced, and -1 where the file is missing, the strings cannot be read,
/// or the image cannot be started; then nothing changes.
pub fn sys_exec(k: &mut Kernel, path: usize, args: usize, _envs: usize, image: Option<&[u8]>) -> (r:
    isize)
    requires
        old(k).wf(),
        old(k)@.current is Some,
    ensures
        final(k).wf(),
        r == 0 || r == -1,
        r == 0 <==> old(k)@.exec_succeeds(path, args, crate::mm::memory_set::fill_of(image)),
        r == 0 ==> final(k)@ == old(k)@.with_cur(
            old(k)@.cur().execed(
                image.unwrap()@,
                old(k)@.exec_args(path, args).unwrap(),
                default_envs(),
                old(k)@.kernel_satp,
                old(k)@.trap_handler,
            ),
        ),
        r == 0 ==> final(k)@.cur().space.holds_image(
            crate::task::exec::exec_sp(
                image.unwrap()@,
                old(k)@.exec_args(path, args).unwrap(),
                default_envs(),
            ),
            old(k)@.exec_args(path, args).unwrap(),
            default_envs(),
        ),
        r != 0 ==> final(k)@ == old(k)@,
{
    let me = k.current.unwrap();
    let ghost pre = k@;
    let args_vec = match read_exec_args(k, path, args) {
        Some(a) => a,
        None => {
            return -1;
        },
    };
    let envs_vec = default_env_vec();
    let data = match image {
        Some(d) => d,
        None => {
            return -1;
        },
    };
    let kernel_satp = k.kernel_satp;
    let trap_handler = k.trap_handler;
    let task = k.task_mut(me);
    if task.exec(data, &args_vec, &envs_vec, kernel_satp, trap_handler) {
        proof {
            pre.lemma_with_task_wf(me, k@.task(me));
        }
        0
    } else {
        proof {
            assert(k@.tasks =~= pre.tasks);
        }
        -1
    }
}

} // verus!
