//! The registers of a user task, saved across a trap.
use vstd::prelude::*;

verus! {

/// The contents of the trap-context page of a process: the thirty-two
/// general-purpose registers, `sstatus`, `sepc`, and the three words the
/// trampoline needs to enter the kernel.
#[derive(Clone, Copy, Debug)]
pub struct TrapContext {
    pub x: [usize; 32],
    pub sstatus: usize,
    pub sepc: usize,
    pub kernel_satp: usize,
    pub kernel_sp: usize,
    pub trap_handler: usize,
}

/// What a trap context is, as the contracts see it: `x[i]` is register `xi`.
pub struct TrapView {
    pub x: Seq<usize>,
    pub sstatus: usize,
    pub sepc: usize,
    pub kernel_satp: usize,
    pub kernel_sp: usize,
    pub trap_handler: usize,
}

impl View for TrapContext {
    type V = TrapView;

    open spec fn view(&self) -> TrapView {
        TrapView {
            x: self.x@,
            sstatus: self.sstatus,
            sepc: self.sepc,
            kernel_satp: self.kernel_satp,
            kernel_sp: self.kernel_sp,
            trap_handler: self.trap_handler,
        }
    }
}

impl TrapView {
    /// The context with register `xi` set to `v`.
    pub open spec fn with_reg(self, i: int, v: usize) -> TrapView {
        TrapView { x: self.x.update(i, v), ..self }
    }

    /// The six argument registers `a0` to `a5`.
    pub open spec fn args(self) -> Seq<usize> {
        self.x.subrange(10, 16)
    }
}

impl TrapContext {
    /// Sets the user stack pointer and leaves everything else alone.
    pub fn set_sp(&mut self, sp: usize)
        ensures
            final(self)@ == old(self)@.with_reg(2, sp),
    {
        self.x[2] = sp;
    }

    /// Sets register `xi` and leaves everything else alone.
    pub fn set_reg(&mut self, i: usize, v: usize)
        requires
            i < 32,
        ensures
            final(self)@ == old(self)@.with_reg(i as int, v),
    {
        self.x[i] = v;
    }

    /// The context of a task that starts at `entry` in user mode with stack
    /// pointer `sp`: every other register is zero, and `sstatus` is zero, so
    /// that the return from the trap lands in user mode.
    pub fn app_init_context(
        entry: usize,
        sp: usize,
        kernel_satp: usize,
        kernel_sp: usize,
        trap_handler: usize,
    ) -> (cx: Self)
        ensures
            cx@ == (TrapView {
                x: Seq::new(32, |i: int| 0usize).update(2, sp),
                sstatus: 0,
                sepc: entry,
                kernel_satp,
                kernel_sp,
                trap_handler,
            }),
    {
        let mut cx = TrapContext {
            x: [0;32],
            sstatus: 0,
            sepc: entry,
            kernel_satp,
            kernel_sp,
            trap_handler,
        };
        cx.set_sp(sp);
        assert(cx.x@ =~= Seq::new(32, |i: int| 0usize).update(2, sp));
        cx
    }
}

} // verus!
