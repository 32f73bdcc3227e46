//! Allocation of process identifiers.
use crate::config::{KERNEL_STACK_SIZE, MAX_PID, PAGE_SIZE, TRAMPOLINE};
use vstd::prelude::*;

verus! {

/// Hands out process identifiers: the ones given back first, then ever
/// higher ones.
pub struct PidAllocator {
    pub current: usize,
    pub recycled: Vec<usize>,
}

impl PidAllocator {
    /// Every identifier that was given back lies below `current`, and none
    /// was given back twice.
    pub open spec fn wf(&self) -> bool {
        &&& self.current <= MAX_PID
        &&& forall|i: int| 0 <= i < self.recycled@.len() ==> #[trigger] self.recycled@[i] < self.current
        &&& self.recycled@.no_duplicates()
    }

    /// Whether `pid` is in use.
    pub open spec fn is_allocated(&self, pid: usize) -> bool {
        pid < self.current && !self.recycled@.contains(pid)
    }

    /// An allocator that has handed out nothing.
    pub fn new() -> (a: Self)
        ensures
            a.wf(),
            a.current == 0,
            a.recycled@ == Seq::<usize>::empty(),
    {
        PidAllocator { current: 0, recycled: Vec::new() }
    }

    /// Hands out an identifier: the one given back last, or, where none is
    /// waiting, the next one that was never used.  Nothing is handed out
    /// once `MAX_PID` identifiers are in use.
    pub fn allocate(&mut self) -> (r: Option<usize>)
        requires
            old(self).wf(),
        ensures
            final(self).wf(),
            r is None <==> old(self).recycled@.len() == 0 && old(self).current == MAX_PID,
            r is None ==> *final(self) == *old(self),
            r matches Some(pid) ==> {
                &&& !old(self).is_allocated(pid)
                &&& final(self).is_allocated(pid)
                &&& pid < MAX_PID
                &&& forall|q: usize| q != pid ==> final(self).is_allocated(q) == old(self).is_allocated(q)
                &&& if old(self).recycled@.len() > 0 {
                    pid == old(self).recycled@.last() && final(self).current == old(self).current
                        && final(self).recycled@ == old(self).recycled@.drop_last()
                } else {
                    pid == old(self).current && final(self).current == old(self).current + 1
                        && final(self).recycled@ == old(self).recycled@
                }
            },
    {
        if self.recycled.len() > 0 {
            let pid = self.recycled.pop().unwrap();
            proof {
                let before = old(self).recycled@;
                let after = self.recycled@;
                assert(after =~= before.drop_last());
                assert(before[before.len() - 1] == pid);
                assert forall|q: usize| q != pid implies self.is_allocated(q) == old(self).is_allocated(
                    q,
                ) by {
                    if before.contains(q) {
                        let i = choose|i: int| 0 <= i < before.len() && before[i] == q;
                        assert(after[i] == q);
                    }
                    if after.contains(q) {
                        let i = choose|i: int| 0 <= i < after.len() && after[i] == q;
                        assert(before[i] == q);
                    }
                }
                if after.contains(pid) {
                    let i = choose|i: int| 0 <= i < after.len() && after[i] == pid;
                    assert(before[i] == pid);
                }
            }
            Some(pid)
        } else if self.current < MAX_PID {
            self.current = self.current + 1;
            Some(self.current - 1)
        } else {
            None
        }
    }

    /// Takes `pid` back.
    pub fn release(&mut self, pid: usize)
        requires
            old(self).wf(),
            old(self).is_allocated(pid),
        ensures
            final(self).wf(),
            !final(self).is_allocated(pid),
            forall|q: usize| q != pid ==> final(self).is_allocated(q) == old(self).is_allocated(q),
            final(self).current == old(self).current,
            final(self).recycled@ == old(self).recycled@.push(pid),
    {
        self.recycled.push(pid);
        proof {
            let before = old(self).recycled@;
            let after = self.recycled@;
            assert(after[before.len() as int] == pid);
            assert forall|q: usize| q != pid implies self.is_allocated(q) == old(self).is_allocated(
                q,
            ) by {
                if before.contains(q) {
                    let i = choose|i: int| 0 <= i < before.len() && before[i] == q;
                    assert(after[i] == q);
                }
                if after.contains(q) {
                    let i = choose|i: int| 0 <= i < after.len() && after[i] == q;
                    assert(before[i] == q);
                }
            }
        }
    }
}

/// The top of the kernel stack of process `pid`: stacks lie below the
/// trampoline, one after the other, each followed by a guard page.
pub open spec fn kernel_stack_top_of(pid: usize) -> int {
    usize::MAX - 4095 - pid * (8192 + 4096)
}

/// The bottom and the top of the kernel stack of process `pid`.
pub fn kernel_stack_position(pid: usize) -> (r: (usize, usize))
    requires
        pid < MAX_PID,
    ensures
        r.1 == kernel_stack_top_of(pid),
        r.0 == r.1 - 8192,
{
    assert(usize::MAX >= 0xffff_ffff);
    let stride: usize = KERNEL_STACK_SIZE + PAGE_SIZE;
    assert(stride == 12288);
    let below: usize = pid * stride;
    let top: usize = TRAMPOLINE - below;
    (top - KERNEL_STACK_SIZE, top)
}

} // verus!
