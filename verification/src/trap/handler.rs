//! The trap handler and the return to user mode.
use crate::config::TRAP_CONTEXT;
use crate::mm::memory_set::{fill_of, SpaceView};
use crate::signal::{SignalFlags, SIGILL, SIGSEGV};
use crate::syscall::dispatch::{syscall, SyscallOutcome};
use crate::task::kernel::{Kernel, KernelView, TrapEntry};
use crate::task::schedule::{check_signals_of_current, current_add_signal, exit_current_and_run_next, suspend_current_and_run_next};
use crate::task::task::TaskView;
use crate::timer::{next_trigger, next_trigger_after};
use crate::trap::cause::{decode_scause, is_supported, trap_of, Exception, Interrupt, Trap};
use crate::trap::context::TrapView;
use vstd::prelude::*;

verus! {

/// Where the processor goes when the kernel is done with a trap.
#[derive(Clone, Copy, Debug, PartialEq, Eq, Structural)]
pub enum TrapReturn {
    /// To user mode, into process `pid`, whose trap context stands at
    /// `trap_cx_ptr` in its address space.
    User { pid: usize, trap_cx_ptr: usize },
    /// Nowhere: no task is ready.
    Idle,
}

/// Where the processor goes in state `k`.
pub open spec fn return_target(k: KernelView) -> TrapReturn {
    match k.current {
        Some(pid) => TrapReturn::User { pid, trap_cx_ptr: (usize::MAX - 8191) as usize },
        None => TrapReturn::Idle,
    }
}

/// `sepc` after an `ecall` at `sepc`: the address of the next instruction.
pub open spec fn next_pc(sepc: usize) -> usize {
    sepc.wrapping_add(4)
}

impl KernelView {
    /// The state in which the running task has the signal with number
    /// `signum` pending, too.
    pub open spec fn with_signal(self, signum: u32) -> KernelView {
        self.with_cur(
            TaskView {
                signals: SignalFlags { bits: self.cur().signals.bits | (1u32 << signum) },
                ..self.cur()
            },
        )
    }

    /// The state after a fault of the running task at address `stval`, a
    /// load if `is_load` and a store else: the page has its frame where the
    /// fault resolves, and the task has a segmentation fault pending where
    /// it does not.
    pub open spec fn after_fault(self, stval: usize, is_load: bool, fill: Option<Seq<u8>>) -> KernelView {
        let vpn = (stval / 4096) as usize;
        if self.cur().space.fault_resolves(vpn, is_load, fill) {
            self.with_cur(
                TaskView {
                    space: SpaceView {
                        regions: self.cur().space.regions,
                        pages: self.cur().space.after_fault(vpn, is_load, fill),
                    },
                    ..self.cur()
                },
            )
        } else {
            self.with_signal(SIGSEGV)
        }
    }

    /// The state when the kernel starts to serve the `ecall` of the running
    /// task: `sepc` points behind the `ecall`.
    pub open spec fn entered(self) -> KernelView {
        self.with_cur(
            TaskView {
                trap_cx: TrapView { sepc: next_pc(self.cur().trap_cx.sepc), ..self.cur().trap_cx },
                ..self.cur()
            },
        )
    }

    /// The state after the system call of task `me`, whose `ecall` stood at
    /// `sepc`, has ended with `out`: `a0` of the task holds what the call
    /// returned; or, where the call has to be tried again, `sepc` points at
    /// the `ecall` again and the task has given up the processor; or the
    /// task has exited, and nothing is left to do.
    pub open spec fn finished(self, me: usize, sepc: usize, out: SyscallOutcome) -> KernelView {
        match out {
            SyscallOutcome::Return(r) => self.with_task(
                me,
                TaskView { trap_cx: self.task(me).trap_cx.with_reg(10, r as usize), ..self.task(me) },
            ),
            SyscallOutcome::Retry => self.with_task(
                me,
                TaskView { trap_cx: TrapView { sepc, ..self.task(me).trap_cx }, ..self.task(me) },
            ).suspended(),
            SyscallOutcome::Exited => self,
        }
    }

    /// The state after the `ecall` of the running task has been served: the
    /// system call that `a7` names has been made with the arguments in `a0`
    /// to `a5`, and its outcome has been dealt with.
    pub open spec fn after_ecall(self, now: usize, image: Option<Seq<u8>>) -> KernelView {
        let cx = self.cur().trap_cx;
        self.entered().after_syscall(cx.x[17], cx.args(), now, image).finished(
            self.current.unwrap(),
            cx.sepc,
            self.entered().syscall_outcome(cx.x[17], cx.args(), now, image),
        )
    }

    /// The state after the kernel has handled a trap of the running task
    /// with cause `scause` and value `stval`, before it returns to user
    /// mode.
    pub open spec fn after_trap(self, scause: usize, stval: usize, now: usize, payload: Option<Seq<u8>>) -> KernelView {
        let k = KernelView { stvec: TrapEntry::Kernel, ..self };
        match trap_of(scause) {
            Trap::Exception(Exception::UserEnvCall) => k.after_ecall(now, payload),
            Trap::Exception(Exception::StoreFault) => k.after_fault(stval, false, payload),
            Trap::Exception(Exception::StorePageFault) => k.after_fault(stval, false, payload),
            Trap::Exception(Exception::LoadFault) => k.after_fault(stval, true, payload),
            Trap::Exception(Exception::LoadPageFault) => k.after_fault(stval, true, payload),
            Trap::Exception(Exception::InstructionFault) => k.with_signal(SIGSEGV),
            Trap::Exception(Exception::InstructionPageFault) => k.with_signal(SIGSEGV),
            Trap::Exception(Exception::IllegalInstruction) => k.with_signal(SIGILL),
            Trap::Interrupt(Interrupt::SupervisorTimer) => (KernelView {
                next_trigger: next_trigger_after(now),
                ..k
            }).suspended(),
            _ => k,
        }
    }

    /// How many tasks can still come to run: those in the ready queue and
    /// the running one.
    pub open spec fn runnable(self) -> nat {
        self.queue.len() + if self.current is Some {
            1nat
        } else {
            0nat
        }
    }

    /// The state in which the kernel returns to user mode: every task that
    /// came to run with a fatal signal pending has exited with the negated
    /// number of its lowest fatal signal, and either a task without one
    /// runs and `stvec` points at the trampoline, or no task is left to run.
    pub open spec fn settled(self) -> KernelView
        decreases self.runnable(),
    {
        match self.current {
            None => self,
            Some(c) => match self.task(c).signals.first_fatal() {
                Some(s) => if self.exited((-s) as i32).runnable() < self.runnable() {
                    self.exited((-s) as i32).settled()
                } else {
                    self
                },
                None => KernelView { stvec: TrapEntry::User, ..self },
            },
        }
    }

    /// An exit takes one task away from those that can still come to run.
    pub proof fn lemma_exit_runnable(self, code: i32)
        requires
            self.current is Some,
        ensures
            self.exited(code).runnable() < self.runnable(),
    {
    }
}

impl KernelView {
    /// Whether the system call `id` replaces the program of the caller.
    pub open spec fn is_exec(self, id: usize, a: Seq<usize>, image: Option<Seq<u8>>) -> bool {
        id == crate::syscall::dispatch::SYSCALL_EXEC && self.exec_succeeds(a[0], a[1], image)
    }

    /// Whether the system call `id`, once it has returned, has left the
    /// registers of its caller as they were, or, where it has replaced the
    /// program of the caller, has set `sepc` to the entry point of the new
    /// program.
    pub open spec fn keeps_registers(self, id: usize, a: Seq<usize>, now: usize, image: Option<Seq<u8>>) -> bool {
        let me = self.current.unwrap();
        let after = self.after_syscall(id, a, now, image);
        &&& after.live(me)
        &&& after.task(me).trap_cx.x.len() == 32
        &&& if self.is_exec(id, a, image) {
            after.task(me).trap_cx.sepc == crate::mm::elf::elf_entry(image.unwrap())
        } else {
            after.task(me).trap_cx == self.task(me).trap_cx
        }
    }

    /// Whether the system call `id` has left every process that is still
    /// there its identifier and the identifier of the process that forked it,
    /// has left the queue and the slot of the running task with processes that
    /// are there, and, unless it is an exit or a yield, has left the running
    /// task running.
    pub open spec fn keeps_identity(self, id: usize, a: Seq<usize>, now: usize, image: Option<Seq<u8>>) -> bool {
        let after = self.after_syscall(id, a, now, image);
        &&& self.same_identity(after)
        &&& after.anchored()
        &&& id != crate::syscall::dispatch::SYSCALL_EXIT && id
            != crate::syscall::dispatch::SYSCALL_EXIT_GROUP && id
            != crate::syscall::dispatch::SYSCALL_YIELD ==> after.current == self.current
    }

    proof fn lemma_keeps_info(self, id: usize, a: Seq<usize>, now: usize, image: Option<Seq<u8>>)
        requires
            self.wf(),
            self.current is Some,
            id == crate::syscall::dispatch::SYSCALL_NANOSLEEP || id
                == crate::syscall::dispatch::SYSCALL_GETTIMEOFDAY || id
                == crate::syscall::dispatch::SYSCALL_TIMES || id
                == crate::syscall::dispatch::SYSCALL_UNAME || id
                == crate::syscall::dispatch::SYSCALL_CLOCK_GETTIME || id
                == crate::syscall::dispatch::SYSCALL_GETRUSAGE || id
                == crate::syscall::dispatch::SYSCALL_SET_TID_ADDRESS,
        ensures
            self.keeps_registers(id, a, now, image),
    {
        reveal(KernelView::after_syscall);
        assert(self.live(self.current.unwrap()));
        assert(self.task(self.current.unwrap()).wf());
    }

    proof fn lemma_keeps_memory(self, id: usize, a: Seq<usize>, now: usize, image: Option<Seq<u8>>)
        requires
            self.wf(),
            self.current is Some,
            id == crate::syscall::dispatch::SYSCALL_MMAP || id
                == crate::syscall::dispatch::SYSCALL_MUNMAP || id
                == crate::syscall::dispatch::SYSCALL_SBRK || id
                == crate::syscall::dispatch::SYSCALL_BRK || id
                == crate::syscall::dispatch::SYSCALL_PRLIMIT64,
        ensures
            self.keeps_registers(id, a, now, image),
    {
        reveal(KernelView::after_syscall);
        assert(self.live(self.current.unwrap()));
        assert(self.task(self.current.unwrap()).wf());
    }

    proof fn lemma_keeps_yield(self, a: Seq<usize>, now: usize, image: Option<Seq<u8>>)
        requires
            self.wf(),
            self.current is Some,
        ensures
            self.keeps_registers(crate::syscall::dispatch::SYSCALL_YIELD, a, now, image),
    {
        reveal(KernelView::after_syscall);
        assert(self.live(self.current.unwrap()));
        assert(self.task(self.current.unwrap()).wf());
        self.lemma_parked_wf();
    }

    proof fn lemma_keeps_kill(self, a: Seq<usize>, now: usize, image: Option<Seq<u8>>)
        requires
            self.wf(),
            self.current is Some,
        ensures
            self.keeps_registers(crate::syscall::dispatch::SYSCALL_KILL, a, now, image),
    {
        reveal(KernelView::after_syscall);
        assert(self.live(self.current.unwrap()));
        assert(self.task(self.current.unwrap()).wf());
    }

    proof fn lemma_keeps_fork(self, a: Seq<usize>, now: usize, image: Option<Seq<u8>>)
        requires
            self.wf(),
            self.current is Some,
        ensures
            self.keeps_registers(crate::syscall::dispatch::SYSCALL_FORK, a, now, image),
    {
        reveal(KernelView::after_syscall);
        assert(self.live(self.current.unwrap()));
        assert(self.task(self.current.unwrap()).wf());
        if a[0] <= 0xffff_ffff && self.fork_pid() is Some {
            self.lemma_fork_pid_fresh();
        }
    }

    proof fn lemma_keeps_wait(self, a: Seq<usize>, now: usize, image: Option<Seq<u8>>)
        requires
            self.wf(),
            self.current is Some,
        ensures
            self.keeps_registers(crate::syscall::dispatch::SYSCALL_WAIT4, a, now, image),
    {
        reveal(KernelView::after_syscall);
        let me = self.current.unwrap();
        assert(self.live(me));
        assert(self.task(me).wf());
        if self.wait_result(a[0] as isize, a[1]) >= 0 {
            let idx = self.first_zombie(a[0] as isize).unwrap();
            assert(self.is_first_zombie(a[0] as isize, idx));
            let child = self.task(me).children[idx];
            assert(self.live(child) && child != me);
        }
    }

    #[verifier::rlimit(40)]
    proof fn lemma_keeps_exec(self, a: Seq<usize>, now: usize, image: Option<Seq<u8>>)
        requires
            self.wf(),
            self.current is Some,
        ensures
            self.keeps_registers(crate::syscall::dispatch::SYSCALL_EXEC, a, now, image),
    {
        reveal(KernelView::after_syscall);
        assert(self.live(self.current.unwrap()));
        assert(self.task(self.current.unwrap()).wf());
    }

    proof fn lemma_keeps_plain(self, id: usize, a: Seq<usize>, now: usize, image: Option<Seq<u8>>)
        requires
            self.wf(),
            self.current is Some,
            id != crate::syscall::dispatch::SYSCALL_EXIT,
            id != crate::syscall::dispatch::SYSCALL_EXIT_GROUP,
            id != crate::syscall::dispatch::SYSCALL_YIELD,
            id != crate::syscall::dispatch::SYSCALL_NANOSLEEP,
            id != crate::syscall::dispatch::SYSCALL_GETTIMEOFDAY,
            id != crate::syscall::dispatch::SYSCALL_TIMES,
            id != crate::syscall::dispatch::SYSCALL_UNAME,
            id != crate::syscall::dispatch::SYSCALL_CLOCK_GETTIME,
            id != crate::syscall::dispatch::SYSCALL_GETRUSAGE,
            id != crate::syscall::dispatch::SYSCALL_SET_TID_ADDRESS,
            id != crate::syscall::dispatch::SYSCALL_KILL,
            id != crate::syscall::dispatch::SYSCALL_MMAP,
            id != crate::syscall::dispatch::SYSCALL_MUNMAP,
            id != crate::syscall::dispatch::SYSCALL_SBRK,
            id != crate::syscall::dispatch::SYSCALL_BRK,
            id != crate::syscall::dispatch::SYSCALL_PRLIMIT64,
            id != crate::syscall::dispatch::SYSCALL_FORK,
            id != crate::syscall::dispatch::SYSCALL_WAIT4,
            id != crate::syscall::dispatch::SYSCALL_EXEC,
        ensures
            self.keeps_registers(id, a, now, image),
    {
        reveal(KernelView::after_syscall);
        assert(self.live(self.current.unwrap()));
        assert(self.task(self.current.unwrap()).wf());
    }

    /// A state that differs from `self` in the process `pid` alone, and not
    /// in the two identifiers of that process, has the processes of `self`.
    proof fn lemma_one_task_same(self, k: KernelView, pid: usize)
        requires
            self.anchored(),
            self.live(pid),
            k == self.with_task(pid, k.task(pid)),
            k.task(pid).pid == self.task(pid).pid,
            k.task(pid).tgid == self.task(pid).tgid,
        ensures
            self.same_processes(k),
            k.anchored(),
            k.current == self.current,
    {
        assert forall|p: usize| #[trigger] k.live(p) == self.live(p) by {}
        assert forall|i: int| 0 <= i < k.queue.len() implies k.live(#[trigger] k.queue[i]) by {
            assert(self.live(self.queue[i]));
        }
    }

    proof fn lemma_identity_exit(self, id: usize, a: Seq<usize>, now: usize, image: Option<Seq<u8>>)
        requires
            self.anchored(),
            self.current is Some,
            id == crate::syscall::dispatch::SYSCALL_EXIT || id
                == crate::syscall::dispatch::SYSCALL_EXIT_GROUP,
        ensures
            self.keeps_identity(id, a, now, image),
    {
        reveal(KernelView::after_syscall);
        self.lemma_exited_same(a[0] as i32);
    }

    proof fn lemma_identity_yield(self, a: Seq<usize>, now: usize, image: Option<Seq<u8>>)
        requires
            self.anchored(),
            self.current is Some,
        ensures
            self.keeps_identity(crate::syscall::dispatch::SYSCALL_YIELD, a, now, image),
    {
        reveal(KernelView::after_syscall);
        self.lemma_suspended_same();
    }

    proof fn lemma_identity_time(self, id: usize, a: Seq<usize>, now: usize, image: Option<Seq<u8>>)
        requires
            self.anchored(),
            self.current is Some,
            id == crate::syscall::dispatch::SYSCALL_NANOSLEEP || id
                == crate::syscall::dispatch::SYSCALL_GETTIMEOFDAY || id
                == crate::syscall::dispatch::SYSCALL_TIMES || id
                == crate::syscall::dispatch::SYSCALL_CLOCK_GETTIME,
        ensures
            self.keeps_identity(id, a, now, image),
    {
        reveal(KernelView::after_syscall);
        let me = self.current.unwrap();
        let after = self.after_syscall(id, a, now, image);
        if after != self {
            self.lemma_one_task_same(after, me);
        }
    }

    proof fn lemma_identity_info(self, id: usize, a: Seq<usize>, now: usize, image: Option<Seq<u8>>)
        requires
            self.anchored(),
            self.current is Some,
            id == crate::syscall::dispatch::SYSCALL_UNAME || id
                == crate::syscall::dispatch::SYSCALL_GETRUSAGE || id
                == crate::syscall::dispatch::SYSCALL_SET_TID_ADDRESS || id
                == crate::syscall::dispatch::SYSCALL_PRLIMIT64,
        ensures
            self.keeps_identity(id, a, now, image),
    {
        reveal(KernelView::after_syscall);
        let me = self.current.unwrap();
        let after = self.after_syscall(id, a, now, image);
        if id == crate::syscall::dispatch::SYSCALL_PRLIMIT64 {
            if self.prlimit_ok(a[1], a[2], a[3]) {
                let mid = if a[3] != 0 {
                    self.wrote(a[3], self.cur().resource[a[1] as int].bytes())
                } else {
                    self
                };
                if mid != self {
                    self.lemma_one_task_same(mid, me);
                }
                if after != mid {
                    mid.lemma_one_task_same(after, me);
                }
                assert forall|p: usize| #[trigger] after.live(p) == self.live(p) by {
                    assert(mid.live(p) == self.live(p));
                }
            }
        } else if after != self {
            self.lemma_one_task_same(after, me);
        }
    }

    proof fn lemma_identity_memory(self, id: usize, a: Seq<usize>, now: usize, image: Option<Seq<u8>>)
        requires
            self.anchored(),
            self.current is Some,
            id == crate::syscall::dispatch::SYSCALL_MMAP || id
                == crate::syscall::dispatch::SYSCALL_MUNMAP || id
                == crate::syscall::dispatch::SYSCALL_SBRK || id
                == crate::syscall::dispatch::SYSCALL_BRK || id
                == crate::syscall::dispatch::SYSCALL_EXEC,
        ensures
            self.keeps_identity(id, a, now, image),
    {
        reveal(KernelView::after_syscall);
        let me = self.current.unwrap();
        let after = self.after_syscall(id, a, now, image);
        if after != self {
            self.lemma_one_task_same(after, me);
        }
    }

    proof fn lemma_identity_kill(self, a: Seq<usize>, now: usize, image: Option<Seq<u8>>)
        requires
            self.wf(),
            self.current is Some,
        ensures
            self.keeps_identity(crate::syscall::dispatch::SYSCALL_KILL, a, now, image),
    {
        reveal(KernelView::after_syscall);
        let after = self.after_syscall(crate::syscall::dispatch::SYSCALL_KILL, a, now, image);
        if self.kill_posts(a[0], a[1] as u32) {
            assert(self.live(a[0]));
            self.lemma_one_task_same(after, a[0]);
        }
    }

    #[verifier::rlimit(40)]
    proof fn lemma_identity_fork(self, a: Seq<usize>, now: usize, image: Option<Seq<u8>>)
        requires
            self.wf(),
            self.current is Some,
        ensures
            self.keeps_identity(crate::syscall::dispatch::SYSCALL_FORK, a, now, image),
    {
        reveal(KernelView::after_syscall);
        let me = self.current.unwrap();
        let after = self.after_syscall(crate::syscall::dispatch::SYSCALL_FORK, a, now, image);
        if a[0] <= 0xffff_ffff && self.fork_pid() is Some {
            let pid = self.fork_pid().unwrap();
            self.lemma_fork_pid_fresh();
            assert(self.live(me));
            assert(pid != me);
            assert forall|p: usize| #[trigger] after.live(p) == (self.live(p) || p == pid) by {}
            assert forall|p: usize| self.live(p) && #[trigger] after.live(p) implies after.task(p).pid
                == self.task(p).pid && after.task(p).tgid == self.task(p).tgid by {}
            assert forall|i: int| 0 <= i < after.queue.len() implies after.live(
                #[trigger] after.queue[i],
            ) by {
                if i < self.queue.len() {
                    assert(self.live(self.queue[i]));
                }
            }
        }
    }

    proof fn lemma_identity_wait(self, a: Seq<usize>, now: usize, image: Option<Seq<u8>>)
        requires
            self.wf(),
            self.current is Some,
        ensures
            self.keeps_identity(crate::syscall::dispatch::SYSCALL_WAIT4, a, now, image),
    {
        reveal(KernelView::after_syscall);
        let after = self.after_syscall(crate::syscall::dispatch::SYSCALL_WAIT4, a, now, image);
        if self.wait_result(a[0] as isize, a[1]) >= 0 {
            let idx = self.first_zombie(a[0] as isize).unwrap();
            assert(self.is_first_zombie(a[0] as isize, idx));
            self.lemma_reaped_wf(idx, a[1]);
            assert(after == self.reaped(idx, a[1]));
            assert(after.anchored()) by {
                assert forall|i: int| 0 <= i < after.queue.len() implies after.live(
                    #[trigger] after.queue[i],
                ) by {}
            }
        } else {
            assert(after == self);
            assert(self.anchored()) by {
                assert forall|i: int| 0 <= i < self.queue.len() implies self.live(
                    #[trigger] self.queue[i],
                ) by {}
            }
        }
    }

    proof fn lemma_identity_plain(self, id: usize, a: Seq<usize>, now: usize, image: Option<Seq<u8>>)
        requires
            self.anchored(),
            self.current is Some,
            id != crate::syscall::dispatch::SYSCALL_EXIT,
            id != crate::syscall::dispatch::SYSCALL_EXIT_GROUP,
            id != crate::syscall::dispatch::SYSCALL_YIELD,
            id != crate::syscall::dispatch::SYSCALL_NANOSLEEP,
            id != crate::syscall::dispatch::SYSCALL_GETTIMEOFDAY,
            id != crate::syscall::dispatch::SYSCALL_TIMES,
            id != crate::syscall::dispatch::SYSCALL_UNAME,
            id != crate::syscall::dispatch::SYSCALL_CLOCK_GETTIME,
            id != crate::syscall::dispatch::SYSCALL_GETRUSAGE,
            id != crate::syscall::dispatch::SYSCALL_SET_TID_ADDRESS,
            id != crate::syscall::dispatch::SYSCALL_KILL,
            id != crate::syscall::dispatch::SYSCALL_MMAP,
            id != crate::syscall::dispatch::SYSCALL_MUNMAP,
            id != crate::syscall::dispatch::SYSCALL_SBRK,
            id != crate::syscall::dispatch::SYSCALL_BRK,
            id != crate::syscall::dispatch::SYSCALL_PRLIMIT64,
            id != crate::syscall::dispatch::SYSCALL_FORK,
            id != crate::syscall::dispatch::SYSCALL_WAIT4,
            id != crate::syscall::dispatch::SYSCALL_EXEC,
        ensures
            self.keeps_identity(id, a, now, image),
    {
        reveal(KernelView::after_syscall);
    }

    /// No system call changes the identifier of a process or the identifier
    /// of the process that forked it.
    pub proof fn lemma_syscall_keeps_identity(
        self,
        id: usize,
        a: Seq<usize>,
        now: usize,
        image: Option<Seq<u8>>,
    )
        requires
            self.wf(),
            self.current is Some,
        ensures
            self.keeps_identity(id, a, now, image),
    {
        assert(self.anchored()) by {
            assert forall|i: int| 0 <= i < self.queue.len() implies self.live(#[trigger] self.queue[i]) by {}
        }
        if id == crate::syscall::dispatch::SYSCALL_NANOSLEEP || id
            == crate::syscall::dispatch::SYSCALL_GETTIMEOFDAY || id
            == crate::syscall::dispatch::SYSCALL_TIMES || id
            == crate::syscall::dispatch::SYSCALL_CLOCK_GETTIME {
            self.lemma_identity_time(id, a, now, image);
        } else if id == crate::syscall::dispatch::SYSCALL_UNAME || id
            == crate::syscall::dispatch::SYSCALL_GETRUSAGE || id
            == crate::syscall::dispatch::SYSCALL_SET_TID_ADDRESS || id
            == crate::syscall::dispatch::SYSCALL_PRLIMIT64 {
            self.lemma_identity_info(id, a, now, image);
        } else if id == crate::syscall::dispatch::SYSCALL_MMAP || id
            == crate::syscall::dispatch::SYSCALL_MUNMAP || id
            == crate::syscall::dispatch::SYSCALL_SBRK || id == crate::syscall::dispatch::SYSCALL_BRK
            || id == crate::syscall::dispatch::SYSCALL_EXEC {
            self.lemma_identity_memory(id, a, now, image);
        } else if id == crate::syscall::dispatch::SYSCALL_YIELD {
            self.lemma_identity_yield(a, now, image);
        } else if id == crate::syscall::dispatch::SYSCALL_KILL {
            self.lemma_identity_kill(a, now, image);
        } else if id == crate::syscall::dispatch::SYSCALL_FORK {
            self.lemma_identity_fork(a, now, image);
        } else if id == crate::syscall::dispatch::SYSCALL_WAIT4 {
            self.lemma_identity_wait(a, now, image);
        } else if id == crate::syscall::dispatch::SYSCALL_EXIT || id
            == crate::syscall::dispatch::SYSCALL_EXIT_GROUP {
            self.lemma_identity_exit(id, a, now, image);
        } else {
            self.lemma_identity_plain(id, a, now, image);
        }
    }

    /// A system call that returns leaves the registers of its caller as
    /// they are, unless it replaces the program of the caller; then the
    /// caller starts at the entry point of the new program.
    pub proof fn lemma_syscall_keeps_registers(
        self,
        id: usize,
        a: Seq<usize>,
        now: usize,
        image: Option<Seq<u8>>,
    )
        requires
            self.wf(),
            self.current is Some,
            self.syscall_outcome(id, a, now, image) is Return,
        ensures
            self.keeps_registers(id, a, now, image),
    {
        if id == crate::syscall::dispatch::SYSCALL_NANOSLEEP || id
            == crate::syscall::dispatch::SYSCALL_GETTIMEOFDAY || id
            == crate::syscall::dispatch::SYSCALL_TIMES || id
            == crate::syscall::dispatch::SYSCALL_UNAME || id
            == crate::syscall::dispatch::SYSCALL_CLOCK_GETTIME || id
            == crate::syscall::dispatch::SYSCALL_GETRUSAGE || id
            == crate::syscall::dispatch::SYSCALL_SET_TID_ADDRESS {
            self.lemma_keeps_info(id, a, now, image);
        } else if id == crate::syscall::dispatch::SYSCALL_MMAP || id
            == crate::syscall::dispatch::SYSCALL_MUNMAP || id
            == crate::syscall::dispatch::SYSCALL_SBRK || id == crate::syscall::dispatch::SYSCALL_BRK
            || id == crate::syscall::dispatch::SYSCALL_PRLIMIT64 {
            self.lemma_keeps_memory(id, a, now, image);
        } else if id == crate::syscall::dispatch::SYSCALL_YIELD {
            self.lemma_keeps_yield(a, now, image);
        } else if id == crate::syscall::dispatch::SYSCALL_KILL {
            self.lemma_keeps_kill(a, now, image);
        } else if id == crate::syscall::dispatch::SYSCALL_FORK {
            self.lemma_keeps_fork(a, now, image);
        } else if id == crate::syscall::dispatch::SYSCALL_WAIT4 {
            self.lemma_keeps_wait(a, now, image);
        } else if id == crate::syscall::dispatch::SYSCALL_EXEC {
            self.lemma_keeps_exec(a, now, image);
        } else if id == crate::syscall::dispatch::SYSCALL_EXIT || id
            == crate::syscall::dispatch::SYSCALL_EXIT_GROUP {
        } else {
            self.lemma_keeps_plain(id, a, now, image);
        }
    }

    /// Every system call that returns to its caller returns behind the
    /// `ecall`: `sepc` is the address of the `ecall` plus 4, and `a0` holds
    /// what the call returned.  The one exception is a call that replaces the
    /// program of the caller: then `sepc` is the entry point of the new
    /// program.
    pub proof fn lemma_ecall_returns_behind(self, now: usize, image: Option<Seq<u8>>)
        requires
            self.wf(),
            self.current is Some,
            self.entered().syscall_outcome(
                self.cur().trap_cx.x[17],
                self.cur().trap_cx.args(),
                now,
                image,
            ) matches SyscallOutcome::Return(_),
        ensures
            ({
                let me = self.current.unwrap();
                let cx = self.cur().trap_cx;
                let after = self.after_ecall(now, image);
                let ret = self.entered().syscall_outcome(cx.x[17], cx.args(), now, image)->Return_0;
                &&& after.live(me)
                &&& after.task(me).trap_cx.x[10] == ret as usize
                &&& after.task(me).trap_cx.sepc == if self.entered().is_exec(
                    cx.x[17],
                    cx.args(),
                    image,
                ) {
                    crate::mm::elf::elf_entry(image.unwrap())
                } else {
                    next_pc(cx.sepc)
                }
            }),
    {
        let me = self.current.unwrap();
        let cx = self.cur().trap_cx;
        let entered = self.entered();
        assert(self.live(me));
        assert(self.task(me).wf());
        self.lemma_with_task_wf(me, entered.task(me));
        assert(entered.wf());
        entered.lemma_syscall_keeps_registers(cx.x[17], cx.args(), now, image);
        let served = entered.after_syscall(cx.x[17], cx.args(), now, image);
        assert(entered.keeps_registers(cx.x[17], cx.args(), now, image));
        assert(served.live(me));
        assert(entered.task(me).trap_cx.sepc == next_pc(cx.sepc));
    }
}

impl KernelView {
    /// The return to user mode takes no process out of the table and adds
    /// none, and leaves each its identifier and the identifier of the process
    /// that forked it.
    pub proof fn lemma_settled_same(self)
        requires
            self.anchored(),
        ensures
            self.same_processes(self.settled()),
        decreases self.runnable(),
    {
        match self.current {
            None => {},
            Some(c) => match self.task(c).signals.first_fatal() {
                Some(s) => {
                    let code = (-s) as i32;
                    let e = self.exited(code);
                    self.lemma_exit_runnable(code);
                    self.lemma_exited_same(code);
                    e.lemma_settled_same();
                    let k = self.settled();
                    assert(k == e.settled());
                    assert forall|p: usize| #[trigger] k.live(p) == self.live(p) by {
                        assert(e.live(p) == self.live(p));
                    }
                    assert forall|p: usize| self.live(p) && #[trigger] k.live(p) implies k.task(p).pid
                        == self.task(p).pid && k.task(p).tgid == self.task(p).tgid by {
                        assert(e.live(p));
                    }
                },
                None => {
                    let k = self.settled();
                    assert forall|p: usize| #[trigger] k.live(p) == self.live(p) by {}
                },
            },
        }
    }

    /// Serving an `ecall` leaves every process that is still there its
    /// identifier and the identifier of the process that forked it.
    proof fn lemma_ecall_identity(self, now: usize, image: Option<Seq<u8>>)
        requires
            self.wf(),
            self.current is Some,
        ensures
            self.same_identity(self.after_ecall(now, image)),
            self.after_ecall(now, image).anchored(),
    {
        let me = self.current.unwrap();
        let cx = self.cur().trap_cx;
        let id = cx.x[17];
        let a = cx.args();
        let entered = self.entered();
        assert(self.live(me));
        assert(self.task(me).wf());
        self.lemma_with_task_wf(me, entered.task(me));
        self.lemma_one_task_same(entered, me);
        entered.lemma_syscall_keeps_identity(id, a, now, image);
        let served = entered.after_syscall(id, a, now, image);
        let out = entered.syscall_outcome(id, a, now, image);
        let done = self.after_ecall(now, image);
        assert(done == served.finished(me, cx.sepc, out));
        match out {
            SyscallOutcome::Return(r) => {
                entered.lemma_syscall_keeps_registers(id, a, now, image);
                served.lemma_one_task_same(done, me);
            },
            SyscallOutcome::Retry => {
                assert(id == crate::syscall::dispatch::SYSCALL_NANOSLEEP || id
                    == crate::syscall::dispatch::SYSCALL_WAIT4);
                assert(served.current == Some(me));
                let t = TaskView {
                    trap_cx: TrapView { sepc: cx.sepc, ..served.task(me).trap_cx },
                    ..served.task(me)
                };
                served.lemma_one_task_same(served.with_task(me, t), me);
                served.with_task(me, t).lemma_suspended_same();
            },
            SyscallOutcome::Exited => {},
        }
        assert forall|p: usize| self.live(p) && #[trigger] done.live(p) implies done.task(p).pid
            == self.task(p).pid && done.task(p).tgid == self.task(p).tgid by {
            assert(served.live(p));
            assert(entered.live(p));
        }
    }

    /// A process keeps its identifier, and the identifier of the process
    /// that forked it, for as long as it is there, whatever trap the kernel
    /// handles: so what `getppid` returns in a forked child is in every later
    /// state what `getpid` returned in its parent.
    pub proof fn lemma_trap_keeps_identity(
        self,
        scause: usize,
        stval: usize,
        now: usize,
        payload: Option<Seq<u8>>,
    )
        requires
            self.wf(),
            self.current is Some,
        ensures
            self.same_identity(self.after_trap(scause, stval, now, payload).settled()),
    {
        let me = self.current.unwrap();
        let k = KernelView { stvec: TrapEntry::Kernel, ..self };
        self.lemma_wf_frame(k);
        assert(self.live(me));
        let handled = self.after_trap(scause, stval, now, payload);
        assert(self.same_identity(handled) && handled.anchored()) by {
            match trap_of(scause) {
                Trap::Exception(Exception::UserEnvCall) => {
                    k.lemma_ecall_identity(now, payload);
                },
                Trap::Exception(Exception::StoreFault)
                | Trap::Exception(Exception::StorePageFault)
                | Trap::Exception(Exception::LoadFault)
                | Trap::Exception(Exception::LoadPageFault)
                | Trap::Exception(Exception::InstructionFault)
                | Trap::Exception(Exception::InstructionPageFault)
                | Trap::Exception(Exception::IllegalInstruction) => {
                    k.lemma_one_task_same(handled, me);
                },
                Trap::Interrupt(Interrupt::SupervisorTimer) => {
                    let t = KernelView { next_trigger: next_trigger_after(now), ..k };
                    k.lemma_wf_frame(t);
                    t.lemma_suspended_same();
                },
                _ => {},
            }
        }
        handled.lemma_settled_same();
        let last = handled.settled();
        assert forall|p: usize| self.live(p) && #[trigger] last.live(p) implies last.task(p).pid
            == self.task(p).pid && last.task(p).tgid == self.task(p).tgid by {
            assert(handled.live(p));
        }
    }
}

/// A trap, as the kernel is told of it: the cause, the value, the reading of
/// the clock, and what was read from the file system for it.
pub struct TrapEvent {
    pub scause: usize,
    pub stval: usize,
    pub now: usize,
    pub payload: Option<Seq<u8>>,
}

impl KernelView {
    /// The state after the kernel has handled the traps `events`, one after
    /// the other, and has returned to user mode after each.
    pub open spec fn after_traps(self, events: Seq<TrapEvent>) -> KernelView
        decreases events.len(),
    {
        if events.len() == 0 {
            self
        } else {
            let e = events.last();
            self.after_traps(events.drop_last()).after_trap(e.scause, e.stval, e.now, e.payload).settled()
        }
    }

    /// Whether process `p` is there before, between and after the traps
    /// `events`, and each trap finds the kernel in order with a task that
    /// runs.
    pub open spec fn stays(self, events: Seq<TrapEvent>, p: usize) -> bool {
        &&& forall|i: int|
            0 <= i <= events.len() ==> (#[trigger] self.after_traps(events.subrange(0, i))).live(p)
        &&& forall|i: int|
            0 <= i < events.len() ==> (#[trigger] self.after_traps(events.subrange(0, i))).wf()
                && self.after_traps(events.subrange(0, i)).current is Some
    }

    /// A process keeps its identifier, and the identifier of the process
    /// that forked it, through every run of traps for as long as it is there.
    pub proof fn lemma_identity_stays(self, events: Seq<TrapEvent>, p: usize)
        requires
            self.stays(events, p),
        ensures
            self.after_traps(events).task(p).pid == self.task(p).pid,
            self.after_traps(events).task(p).tgid == self.task(p).tgid,
        decreases events.len(),
    {
        if events.len() > 0 {
            let n = events.len() as int;
            let before = events.drop_last();
            let e = events.last();
            assert forall|i: int| 0 <= i <= before.len() implies before.subrange(0, i)
                == events.subrange(0, i) by {
                assert(before.subrange(0, i) =~= events.subrange(0, i));
            }
            assert(self.stays(before, p)) by {
                assert forall|i: int| 0 <= i <= before.len() implies (#[trigger] self.after_traps(
                    before.subrange(0, i),
                )).live(p) by {
                    assert(self.after_traps(events.subrange(0, i)).live(p));
                }
                assert forall|i: int| 0 <= i < before.len() implies (#[trigger] self.after_traps(
                    before.subrange(0, i),
                )).wf() && self.after_traps(before.subrange(0, i)).current is Some by {
                    assert(self.after_traps(events.subrange(0, i)).wf());
                }
            }
            self.lemma_identity_stays(before, p);
            let mid = self.after_traps(before);
            assert(events.subrange(0, n - 1) =~= before);
            assert(events.subrange(0, n) =~= events);
            assert(self.after_traps(events.subrange(0, n - 1)).wf());
            assert(self.after_traps(events.subrange(0, n)).live(p));
            assert(self.after_traps(events.subrange(0, n - 1)).live(p));
            mid.lemma_trap_keeps_identity(e.scause, e.stval, e.now, e.payload);
        } else {
            assert(events.subrange(0, 0) =~= events);
        }
    }
}

/// What the kernel needs from the file system before it can handle a trap.
#[derive(Debug, PartialEq, Eq)]
pub enum FsRequest {
    /// Nothing.
    Nothing,
    /// The contents of the file `name`, sought from the directory `dir`.
    File { dir: Vec<u8>, name: Vec<u8> },
    /// Up to `len` bytes of file `file` from `offset` on.
    Page { file: usize, offset: usize, len: usize },
}

/// What a request is, as the contracts see it.
pub enum FsRequestView {
    Nothing,
    File { dir: Seq<u8>, name: Seq<u8> },
    Page { file: usize, offset: usize, len: usize },
}

impl View for FsRequest {
    type V = FsRequestView;

    open spec fn view(&self) -> FsRequestView {
        match self {
            FsRequest::Nothing => FsRequestView::Nothing,
            FsRequest::File { dir, name } => FsRequestView::File { dir: dir@, name: name@ },
            FsRequest::Page { file, offset, len } => FsRequestView::Page {
                file: *file,
                offset: *offset,
                len: *len,
            },
        }
    }
}

impl KernelView {
    /// What a fault of the running task at address `stval` needs from the
    /// file system: where the page lies in a mapping of a file, the bytes of
    /// the file that belong to the page: page `i` of the mapping holds the
    /// bytes from `offset + i * 4096` on, as far as the mapping goes.
    pub open spec fn fault_needs(self, stval: usize) -> FsRequestView {
        let vpn = (stval / 4096) as usize;
        let space = self.cur().space;
        if !space.covers(vpn) {
            FsRequestView::Nothing
        } else {
            match space.area_of(vpn).map_type {
                crate::mm::area::MapType::FileBacked { file, offset, len, flags } => {
                    let skip = (vpn - space.area_of(vpn).start_vpn) * 4096;
                    if offset + skip > usize::MAX {
                        FsRequestView::Nothing
                    } else if skip >= len {
                        FsRequestView::Page { file, offset: (offset + skip) as usize, len: 0 }
                    } else if len - skip < 4096 {
                        FsRequestView::Page {
                            file,
                            offset: (offset + skip) as usize,
                            len: (len - skip) as usize,
                        }
                    } else {
                        FsRequestView::Page { file, offset: (offset + skip) as usize, len: 4096 }
                    }
                },
                _ => FsRequestView::Nothing,
            }
        }
    }

    /// What the kernel needs from the file system to handle a trap of the
    /// running task: for the system call `exec`, the file to run; for a load
    /// or store fault in a mapping of a file, the bytes of the page; nothing
    /// else.
    pub open spec fn trap_needs(self, scause: usize, stval: usize) -> FsRequestView {
        match trap_of(scause) {
            Trap::Exception(Exception::UserEnvCall) => if self.cur().trap_cx.x[17]
                == crate::syscall::dispatch::SYSCALL_EXEC {
                match self.exec_file(self.cur().trap_cx.x[10]) {
                    Some(f) => FsRequestView::File { dir: f.0, name: f.1 },
                    None => FsRequestView::Nothing,
                }
            } else {
                FsRequestView::Nothing
            },
            Trap::Exception(Exception::StoreFault) => self.fault_needs(stval),
            Trap::Exception(Exception::StorePageFault) => self.fault_needs(stval),
            Trap::Exception(Exception::LoadFault) => self.fault_needs(stval),
            Trap::Exception(Exception::LoadPageFault) => self.fault_needs(stval),
            _ => FsRequestView::Nothing,
        }
    }
}

/// What a fault of the running task at address `stval` needs from the file
/// system.
fn fault_request(k: &Kernel, stval: usize) -> (r: FsRequest)
    requires
        k.wf(),
        k@.current is Some,
    ensures
        r@ == k@.fault_needs(stval),
{
    let me = k.current.unwrap();
    let task = k.task_ref(me);
    let vpn: usize = stval / 4096;
    let idx = match task.memory_set.find_area(vpn) {
        Some(i) => i,
        None => {
            return FsRequest::Nothing;
        },
    };
    let area = task.memory_set.areas[idx];
    match area.map_type {
        crate::mm::area::MapType::FileBacked { file, offset, len, flags } => {
            let pages: usize = vpn - area.start_vpn;
            assert(pages < usize::MAX / 4096 + 1);
            if pages > (usize::MAX - offset) / 4096 {
                return FsRequest::Nothing;
            }
            let skip: usize = pages * 4096;
            if skip >= len {
                FsRequest::Page { file, offset: offset + skip, len: 0 }
            } else if len - skip < 4096 {
                FsRequest::Page { file, offset: offset + skip, len: len - skip }
            } else {
                FsRequest::Page { file, offset: offset + skip, len: 4096 }
            }
        },
        _ => FsRequest::Nothing,
    }
}

/// What the caller has to read from the file system before it hands the trap
/// with cause `scause` and value `stval` to [`trap_handler`].
pub fn trap_request(k: &Kernel, scause: usize, stval: usize) -> (r: FsRequest)
    requires
        k.wf(),
        k@.current is Some,
    ensures
        r@ == k@.trap_needs(scause, stval),
{
    match decode_scause(scause) {
        Trap::Exception(Exception::UserEnvCall) => {
            let me = k.current.unwrap();
            let task = k.task_ref(me);
            if task.trap_cx.x[17] != crate::syscall::dispatch::SYSCALL_EXEC {
                return FsRequest::Nothing;
            }
            match crate::syscall::process::exec_path(k, task.trap_cx.x[10]) {
                Some(f) => FsRequest::File { dir: f.0, name: f.1 },
                None => FsRequest::Nothing,
            }
        },
        Trap::Exception(Exception::StoreFault)
        | Trap::Exception(Exception::StorePageFault)
        | Trap::Exception(Exception::LoadFault)
        | Trap::Exception(Exception::LoadPageFault) => fault_request(k, stval),
        _ => FsRequest::Nothing,
    }
}

/// Points `stvec` at the kernel's own trap entry.
pub fn init(k: &mut Kernel)
    ensures
        final(k)@ == (KernelView { stvec: TrapEntry::Kernel, ..old(k)@ }),
{
    k.stvec = TrapEntry::Kernel;
}

/// Lets the timer interrupt the processor.
pub fn enable_timer_interrupt(k: &mut Kernel)
    ensures
        final(k)@ == (KernelView { timer_enabled: true, ..old(k)@ }),
{
    k.timer_enabled = true;
}

/// Returns to user mode.  While the task that is to run has a fatal signal
/// pending, that task exits with the negated number of its lowest fatal
/// signal and the next task comes to run.  Then `stvec` points at the
/// trampoline and the processor goes to the running task; or, with no task
/// left to run, it goes nowhere.
pub fn trap_return(k: &mut Kernel) -> (r: TrapReturn)
    requires
        old(k).wf(),
    ensures
        final(k).wf(),
        final(k)@ == old(k)@.settled(),
        r == return_target(final(k)@),
        final(k)@.current matches Some(c) ==> final(k)@.task(c).signals.first_fatal() is None
            && final(k)@.stvec == TrapEntry::User,
{
    let ghost pre = k@;
    loop
        invariant
            k.wf(),
            pre == old(k)@,
            k@.settled() == pre.settled(),
        decreases k@.runnable(),
    {
        let pid = match k.current {
            None => {
                assert(k@.settled() == k@);
                return TrapReturn::Idle;
            },
            Some(pid) => pid,
        };
        match check_signals_of_current(k) {
            Some((errno, _msg)) => {
                proof {
                    k@.lemma_exit_runnable(errno);
                }
                exit_current_and_run_next(k, errno);
            },
            None => {
                let ghost before = k@;
                assert(before.settled() == (KernelView { stvec: TrapEntry::User, ..before }));
                k.stvec = TrapEntry::User;
                proof {
                    before.lemma_wf_frame(k@);
                }
                return TrapReturn::User { pid, trap_cx_ptr: TRAP_CONTEXT };
            },
        }
    }
}

/// Posts the signal with number `signum`, which the kernel knows, to the
/// running task.
fn post_signal(k: &mut Kernel, signum: u32)
    requires
        old(k).wf(),
        old(k)@.current is Some,
        crate::signal::is_known_signal(signum as int),
    ensures
        final(k).wf(),
        final(k)@ == old(k)@.with_signal(signum),
{
    let flag = SignalFlags::from_signum(signum).unwrap();
    current_add_signal(k, flag);
}

/// Handles a fault of the running task at address `stval`.
fn handle_fault(k: &mut Kernel, stval: usize, is_load: bool, payload: Option<&[u8]>)
    requires
        old(k).wf(),
        old(k)@.current is Some,
    ensures
        final(k).wf(),
        final(k)@ == old(k)@.after_fault(stval, is_load, fill_of(payload)),
{
    let me = k.current.unwrap();
    let ghost pre = k@;
    let task = k.task_mut(me);
    let lazy = task.check_lazy(stval, is_load, payload);
    proof {
        pre.lemma_with_task_wf(me, k@.task(me));
    }
    if lazy != 0 {
        proof {
            assert(k@.task(me) == pre.task(me));
            assert(k@.tasks =~= pre.tasks);
        }
        post_signal(k, SIGSEGV);
    }
}

/// Starts to serve the `ecall` of the running task: moves `sepc` behind
/// the `ecall` and gives the number of the call, its arguments, and where
/// the `ecall` stood.
fn enter_ecall(k: &mut Kernel) -> (r: (usize, [usize; 6], usize))
    requires
        old(k).wf(),
        old(k)@.current is Some,
    ensures
        final(k).wf(),
        final(k)@ == old(k)@.entered(),
        r.0 == old(k)@.cur().trap_cx.x[17],
        r.1@ == old(k)@.cur().trap_cx.args(),
        r.2 == old(k)@.cur().trap_cx.sepc,
{
    let me = k.current.unwrap();
    let ghost pre = k@;
    let task = k.task_mut(me);
    let sepc: usize = task.trap_cx.sepc;
    task.trap_cx.sepc = sepc.wrapping_add(4);
    let id: usize = task.trap_cx.x[17];
    let args: [usize; 6] = [
        task.trap_cx.x[10],
        task.trap_cx.x[11],
        task.trap_cx.x[12],
        task.trap_cx.x[13],
        task.trap_cx.x[14],
        task.trap_cx.x[15],
    ];
    proof {
        assert(args@ =~= pre.cur().trap_cx.args());
        pre.lemma_with_task_wf(me, k@.task(me));
    }
    (id, args, sepc)
}

/// Deals with the outcome of the system call of task `me`; see
/// [`KernelView::finished`].
fn finish_ecall(k: &mut Kernel, me: usize, sepc: usize, out: SyscallOutcome)
    requires
        old(k).wf(),
        out != SyscallOutcome::Exited ==> old(k)@.live(me),
        out == SyscallOutcome::Retry ==> old(k)@.current is Some,
    ensures
        final(k).wf(),
        final(k)@ == old(k)@.finished(me, sepc, out),
{
    let ghost served = k@;
    match out {
        SyscallOutcome::Return(r) => {
            let task = k.task_mut(me);
            task.trap_cx.set_reg(
                10,
                #[verifier::truncate]
                (r as usize),
            );
            proof {
                served.lemma_with_task_wf(me, k@.task(me));
            }
        },
        SyscallOutcome::Retry => {
            let task = k.task_mut(me);
            task.trap_cx.sepc = sepc;
            proof {
                served.lemma_with_task_wf(me, k@.task(me));
            }
            suspend_current_and_run_next(k);
        },
        SyscallOutcome::Exited => {},
    }
}

/// Serves the `ecall` of the running task.
fn handle_ecall(k: &mut Kernel, now: usize, image: Option<&[u8]>)
    requires
        old(k).wf(),
        old(k)@.current is Some,
    ensures
        final(k).wf(),
        final(k)@ == old(k)@.after_ecall(now, fill_of(image)),
{
    let me = k.current.unwrap();
    let (id, args, sepc) = enter_ecall(k);
    let out = syscall(k, id, args, now, image);
    finish_ecall(k, me, sepc, out);
}

/// Handles a trap of the running task, up to the return to user mode.
fn handle_trap(k: &mut Kernel, scause: usize, stval: usize, now: usize, payload: Option<&[u8]>)
    requires
        old(k).wf(),
        old(k)@.current is Some,
        is_supported(trap_of(scause)),
    ensures
        final(k).wf(),
        final(k)@ == old(k)@.after_trap(scause, stval, now, fill_of(payload)),
{
    let ghost pre = k@;
    k.stvec = TrapEntry::Kernel;
    proof {
        pre.lemma_wf_frame(k@);
    }
    match decode_scause(scause) {
        Trap::Exception(Exception::UserEnvCall) => {
            handle_ecall(k, now, payload);
        },
        Trap::Exception(Exception::StoreFault) | Trap::Exception(Exception::StorePageFault) => {
            handle_fault(k, stval, false, payload);
        },
        Trap::Exception(Exception::LoadFault) | Trap::Exception(Exception::LoadPageFault) => {
            handle_fault(k, stval, true, payload);
        },
        Trap::Exception(Exception::InstructionFault)
        | Trap::Exception(Exception::InstructionPageFault) => {
            post_signal(k, SIGSEGV);
        },
        Trap::Exception(Exception::IllegalInstruction) => {
            post_signal(k, SIGILL);
        },
        _ => {
            let ghost before = k@;
            k.next_trigger = next_trigger(now);
            proof {
                before.lemma_wf_frame(k@);
            }
            suspend_current_and_run_next(k);
        },
    }
}

/// Handles a trap of the running task and returns to user mode.  `scause`
/// and `stval` are the registers of that name as they were at the trap;
/// `now` is the reading of the clock in ticks; `payload` is what the caller
/// read from the file system for this trap, where the trap needs it: the
/// contents of the file to run for `exec`, the bytes of the page for a fault
/// in a mapping of a file.
///
/// An `ecall` is served as a system call.  A load or store fault gives the
/// page its frame where the page is mapped for that access, and posts a
/// segmentation fault else.  A fault of an instruction fetch posts a
/// segmentation fault, an illegal instruction posts `SIGILL`.  A timer
/// interrupt sets the next one and takes the processor from the task.
pub fn trap_handler(k: &mut Kernel, scause: usize, stval: usize, now: usize, payload: Option<&[u8]>) -> (r:
    TrapReturn)
    requires
        old(k).wf(),
        old(k)@.current is Some,
        is_supported(trap_of(scause)),
    ensures
        final(k).wf(),
        final(k)@ == old(k)@.after_trap(scause, stval, now, fill_of(payload)).settled(),
        r == return_target(final(k)@),
{
    handle_trap(k, scause, stval, now, payload);
    trap_return(k)
}

} // verus!
