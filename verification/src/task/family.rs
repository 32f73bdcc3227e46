//! Birth and burial: what `fork` adds to the kernel state and what reaping a
//! zombie takes away, with the proofs that the invariant holds on.
use crate::codec::int_bytes;
use crate::config::MAX_PID;
use crate::signal::SignalFlags;
use crate::task::kernel::KernelView;
use crate::task::pid::kernel_stack_top_of;
use crate::task::task::{TaskStatus, TaskView};
use crate::trap::context::TrapView;
use vstd::prelude::*;

verus! {

/// What `waitpid` stores for a child that exited with `code`: the code in
/// the second byte.
pub open spec fn wait_status(code: i32) -> i32 {
    code.wrapping_mul(256)
}

/// Whether `waitpid` with first argument `pid_arg` waits for `child`.
pub open spec fn wait_matches(pid_arg: isize, child: usize) -> bool {
    pid_arg == -1 || pid_arg == child
}

impl KernelView {
    /// The identifier the next child gets: the one given back last, or the
    /// next one never used; none once `MAX_PID` are in use.
    pub open spec fn fork_pid(self) -> Option<usize> {
        if self.recycled.len() > 0 {
            Some(self.recycled.last())
        } else if self.next_pid < MAX_PID {
            Some(self.next_pid)
        } else {
            None
        }
    }

    /// The child that the running task gets by `fork`: a copy of the parent
    /// with its own identifier and kernel stack, ready to run, without
    /// children or pending signals, whose `fork` returns 0.  With
    /// `stack_ptr` not zero the child runs on that stack.
    pub open spec fn child_of(self, c: usize, pid: usize, stack_ptr: usize) -> TaskView {
        let p = self.task(c);
        let cx = TrapView { kernel_sp: kernel_stack_top_of(pid) as usize, ..p.trap_cx.with_reg(10, 0) };
        TaskView {
            pid,
            tgid: c,
            trap_cx: if stack_ptr != 0 {
                cx.with_reg(2, stack_ptr)
            } else {
                cx
            },
            status: TaskStatus::Ready,
            parent: Some(c),
            children: Seq::<usize>::empty(),
            exit_code: 0,
            signals: SignalFlags { bits: 0 },
            sleep_until: None,
            ..p
        }
    }

    /// The state after the running task has forked: the child is in the
    /// table, in the registry, at the back of the ready queue and in the
    /// list of children of its parent.
    pub open spec fn forked(self, stack_ptr: usize) -> KernelView {
        let c = self.current.unwrap();
        let pid = self.fork_pid().unwrap();
        let slots = if pid < self.tasks.len() {
            self.tasks
        } else {
            self.tasks.push(None)
        };
        KernelView {
            tasks: slots.update(pid as int, Some(self.child_of(c, pid, stack_ptr))).update(
                c as int,
                Some(TaskView { children: self.task(c).children.push(pid), ..self.task(c) }),
            ),
            queue: self.queue.push(pid),
            registry: self.registry.insert(pid),
            next_pid: if self.recycled.len() > 0 {
                self.next_pid
            } else {
                (self.next_pid + 1) as usize
            },
            recycled: if self.recycled.len() > 0 {
                self.recycled.drop_last()
            } else {
                self.recycled
            },
            ..self
        }
    }

    /// Whether child number `i` of the running task is a zombie that
    /// `waitpid` with first argument `pid_arg` waits for.
    pub open spec fn zombie_child_at(self, pid_arg: isize, i: int) -> bool {
        let kids = self.task(self.current.unwrap()).children;
        0 <= i < kids.len() && wait_matches(pid_arg, kids[i]) && self.task(kids[i]).status
            == TaskStatus::Zombie
    }

    /// Whether the running task has a child that `waitpid` with first
    /// argument `pid_arg` waits for.
    pub open spec fn has_wait_match(self, pid_arg: isize) -> bool {
        let kids = self.task(self.current.unwrap()).children;
        exists|i: int| 0 <= i < kids.len() && wait_matches(pid_arg, #[trigger] kids[i])
    }

    /// Whether `i` is the first child of the running task that is a zombie
    /// `waitpid` waits for.
    pub open spec fn is_first_zombie(self, pid_arg: isize, i: int) -> bool {
        self.zombie_child_at(pid_arg, i) && forall|j: int|
            0 <= j < i ==> !#[trigger] self.zombie_child_at(pid_arg, j)
    }

    /// The first child of the running task that is a zombie `waitpid` waits
    /// for, if there is one.
    pub open spec fn first_zombie(self, pid_arg: isize) -> Option<int> {
        if exists|i: int| self.is_first_zombie(pid_arg, i) {
            Some(choose|i: int| self.is_first_zombie(pid_arg, i))
        } else {
            None
        }
    }

    /// The state after the running task has reaped its child number `idx`:
    /// the status of the child stands at `exit_code_ptr`, unless that is
    /// zero; the child is out of the list of children and out of the table,
    /// and its identifier is free again.
    pub open spec fn reaped(self, idx: int, exit_code_ptr: usize) -> KernelView {
        let c = self.current.unwrap();
        let child = self.task(c).children[idx];
        let code = self.task(child).exit_code;
        let base = if exit_code_ptr != 0 {
            self.wrote(exit_code_ptr, int_bytes(wait_status(code)))
        } else {
            self
        };
        KernelView {
            tasks: base.tasks.update(
                c as int,
                Some(TaskView { children: self.task(c).children.remove(idx), ..base.task(c) }),
            ).update(child as int, None),
            recycled: self.recycled.push(child),
            ..base
        }
    }

    /// What `waitpid` returns: -1 without a child it waits for, -2 while no
    /// such child is a zombie, -1 where the status cannot be stored, and
    /// else the identifier of the first such zombie.
    pub open spec fn wait_result(self, pid_arg: isize, exit_code_ptr: usize) -> int {
        if !self.has_wait_match(pid_arg) {
            -1
        } else {
            match self.first_zombie(pid_arg) {
                None => -2,
                Some(i) => if exit_code_ptr != 0 && !self.can_write(exit_code_ptr, 4) {
                    -1
                } else {
                    self.task(self.current.unwrap()).children[i] as int
                },
            }
        }
    }

    /// The state after `waitpid`: where it returns the identifier of a
    /// child, that child is reaped; else nothing has changed.
    pub open spec fn waited(self, pid_arg: isize, exit_code_ptr: usize) -> KernelView {
        if self.wait_result(pid_arg, exit_code_ptr) >= 0 {
            self.reaped(self.first_zombie(pid_arg).unwrap(), exit_code_ptr)
        } else {
            self
        }
    }

    /// The first zombie is the one before which there is none.
    pub proof fn lemma_first_zombie(self, pid_arg: isize, i: int)
        requires
            self.is_first_zombie(pid_arg, i),
        ensures
            self.first_zombie(pid_arg) == Some(i),
    {
        let j = choose|j: int| self.is_first_zombie(pid_arg, j);
        if j < i {
            assert(!self.zombie_child_at(pid_arg, j));
        } else if i < j {
            assert(!self.zombie_child_at(pid_arg, i));
        }
    }

    /// Without a zombie there is no first zombie.
    pub proof fn lemma_no_zombie(self, pid_arg: isize)
        requires
            forall|j: int| !#[trigger] self.zombie_child_at(pid_arg, j),
        ensures
            self.first_zombie(pid_arg) is None,
    {
    }

    /// The identifier of the child to come is not in use.
    pub proof fn lemma_fork_pid_fresh(self)
        requires
            self.wf(),
            self.fork_pid() is Some,
        ensures
            !self.live(self.fork_pid().unwrap()),
            self.fork_pid().unwrap() <= self.tasks.len(),
            self.fork_pid().unwrap() < MAX_PID,
            self.recycled.len() == 0 ==> self.fork_pid().unwrap() == self.tasks.len(),
            self.recycled.len() > 0 ==> self.fork_pid().unwrap() < self.tasks.len(),
    {
        let pid = self.fork_pid().unwrap();
        if self.recycled.len() > 0 {
            assert(self.recycled[self.recycled.len() - 1] == pid);
            assert(self.recycled.contains(pid));
        }
    }

    /// Forking keeps the invariant.
    #[verifier::rlimit(80)]
    pub proof fn lemma_forked_wf(self, stack_ptr: usize)
        requires
            self.wf(),
            self.current is Some,
            self.fork_pid() is Some,
        ensures
            self.forked(stack_ptr).wf(),
    {
        let c = self.current.unwrap();
        let pid = self.fork_pid().unwrap();
        let k = self.forked(stack_ptr);
        let child = self.child_of(c, pid, stack_ptr);
        self.lemma_fork_pid_fresh();
        assert(pid != c);
        assert forall|p: usize| #[trigger] k.live(p) == (self.live(p) || p == pid) by {}
        assert forall|p: usize| #[trigger] self.live(p) && p != c implies k.task(p) == self.task(p) by {}
        assert(k.task(pid) == child);
        assert(k.task(c) == TaskView { children: self.task(c).children.push(pid), ..self.task(c) });
        assert(child.wf()) by {
            assert(self.task(c).wf());
            assert(self.task(c).status == TaskStatus::Running);
            assert(0u32 & !0x000A_8BD6u32 == 0) by (bit_vector);
        }
        assert(k.table_wf()) by {
            assert forall|p: usize| #[trigger] k.live(p) <==> p < k.next_pid && !k.recycled.contains(
                p,
            ) by {
                if self.recycled.len() > 0 {
                    let n = self.recycled.len() - 1;
                    if self.recycled.contains(p) && p != pid {
                        let i = choose|i: int| 0 <= i < self.recycled.len() && self.recycled[i] == p;
                        assert(k.recycled[i] == p);
                    }
                    if k.recycled.contains(p) {
                        let i = choose|i: int| 0 <= i < k.recycled.len() && k.recycled[i] == p;
                        assert(self.recycled[i] == p);
                        assert(self.recycled[n] == pid);
                    }
                }
            }
            assert forall|p: usize| #[trigger] k.live(p) implies k.task(p).pid == p && k.task(p).wf() by {
                if p != pid {
                    assert(self.live(p));
                }
            }
            assert(self.live(0));
        }
        assert(!self.queue.contains(pid)) by {
            if self.queue.contains(pid) {
                let i = choose|i: int| 0 <= i < self.queue.len() && self.queue[i] == pid;
                assert(self.live(self.queue[i]));
            }
        }
        assert(k.sched_wf()) by {
            assert forall|i: int| 0 <= i < k.queue.len() implies k.live(#[trigger] k.queue[i])
                && k.task(k.queue[i]).status == TaskStatus::Ready by {
                if i < self.queue.len() {
                    assert(self.live(self.queue[i]));
                    assert(self.queue[i] != c);
                }
            }
            assert forall|i: int, j: int| 0 <= i < k.queue.len() && 0 <= j < k.queue.len() && i
                != j implies k.queue[i] != k.queue[j] by {
                if i < self.queue.len() && j < self.queue.len() {
                } else if i < self.queue.len() {
                    assert(self.queue.contains(self.queue[i]));
                } else {
                    assert(self.queue.contains(self.queue[j]));
                }
            }
            assert forall|p: usize| #[trigger] k.live(p) && k.task(p).status
                == TaskStatus::Ready implies k.queue.contains(p) by {
                if p == pid {
                    assert(k.queue[self.queue.len() as int] == pid);
                } else {
                    assert(self.live(p));
                    assert(self.queue.contains(p));
                    let i = choose|i: int| 0 <= i < self.queue.len() && self.queue[i] == p;
                    assert(k.queue[i] == p);
                }
            }
            assert forall|p: usize| #[trigger] k.live(p) && k.task(p).status
                == TaskStatus::Running implies k.current == Some(p) by {
                if p != pid {
                    assert(self.live(p));
                }
            }
        }
        assert(k.registry_wf()) by {
            assert forall|p: usize| #[trigger] k.registry.contains(p) <==> k.live(p) && k.task(
                p,
            ).status != TaskStatus::Zombie by {
                if p != pid {
                    assert(self.live(p) == k.live(p));
                    assert(self.registry.contains(p) == k.registry.contains(p));
                }
            }
        }
        assert(k.family_wf()) by {
            let kids = self.task(c).children;
            assert(!kids.contains(pid)) by {
                if kids.contains(pid) {
                    let i = choose|i: int| 0 <= i < kids.len() && kids[i] == pid;
                    assert(self.live(self.task(c).children[i]));
                }
            }
            assert forall|p: usize, i: int| k.live(p) && 0 <= i < k.task(p).children.len() implies k.live(
                #[trigger] k.task(p).children[i],
            ) && k.task(k.task(p).children[i]).parent == Some(p) && k.task(p).children[i] != p by {
                if p == pid {
                } else if p == c && i == kids.len() {
                } else {
                    assert(self.live(p));
                    let x = self.task(p).children[i];
                    assert(self.live(x));
                    assert(x != pid);
                    assert(k.task(x).parent == self.task(x).parent);
                }
            }
            assert forall|p: usize| #[trigger] k.live(p) implies k.task(p).children.no_duplicates() by {
                if p == pid {
                } else {
                    assert(self.live(p));
                    if p == c {
                        let s = kids.push(pid);
                        assert forall|i: int, j: int| 0 <= i < s.len() && 0 <= j < s.len() && i
                            != j implies s[i] != s[j] by {
                            if i < kids.len() && j < kids.len() {
                            } else if i < kids.len() {
                                assert(kids.contains(kids[i]));
                            } else {
                                assert(kids.contains(kids[j]));
                            }
                        }
                    }
                }
            }
            assert forall|x: usize| #[trigger] k.live(x) implies match k.task(x).parent {
                Some(p) => k.live(p) && k.task(p).children.contains(x),
                None => x == 0,
            } by {
                if x == pid {
                    assert(k.task(c).children[kids.len() as int] == pid);
                } else {
                    assert(self.live(x));
                    match self.task(x).parent {
                        Some(p) => {
                            assert(self.live(p));
                            assert(self.task(p).children.contains(x));
                            let j = choose|j: int|
                                0 <= j < self.task(p).children.len() && self.task(p).children[j]
                                    == x;
                            assert(k.task(p).children[j] == x);
                        },
                        None => {},
                    }
                }
            }
            assert forall|p: usize| #[trigger] k.live(p) && k.task(p).status == TaskStatus::Zombie
                && p != 0 implies k.task(p).children.len() == 0 by {
                if p != pid {
                    assert(self.live(p));
                }
            }
        }
    }

    /// What `fork` hands out: the child knows the identifier that the parent
    /// got from `fork`, it knows the identifier of its parent, and its own
    /// `fork` returns 0.
    pub proof fn lemma_fork_round_trip(self, stack_ptr: usize)
        requires
            self.wf(),
            self.current is Some,
            self.fork_pid() is Some,
        ensures
            ({
                let parent = self.current.unwrap();
                let child = self.fork_pid().unwrap();
                let after = self.forked(stack_ptr);
                &&& after.live(child)
                &&& after.task(child).pid == child
                &&& after.task(child).tgid == self.task(parent).pid
                &&& after.task(child).parent == Some(parent)
                &&& after.task(child).trap_cx.x[10] == 0
                &&& after.task(child).space == self.task(parent).space
                &&& after.task(parent).children.last() == child
            }),
    {
        self.lemma_fork_pid_fresh();
        let parent = self.current.unwrap();
        let child = self.fork_pid().unwrap();
        assert(self.task(parent).wf());
    }

    /// After `waitpid` has returned the identifier of a child, there is no
    /// process with that identifier: `kill` finds none, the slot of the child
    /// in the table is empty, and the identifier is the next one that `fork`
    /// hands out.
    pub proof fn lemma_wait_reclaims(self, pid_arg: isize, exit_code_ptr: usize)
        requires
            self.wf(),
            self.current is Some,
            self.wait_result(pid_arg, exit_code_ptr) >= 0,
        ensures
            ({
                let child = self.wait_result(pid_arg, exit_code_ptr) as usize;
                let after = self.waited(pid_arg, exit_code_ptr);
                &&& after.wf()
                &&& !after.live(child)
                &&& after.kill_result(child) == 1
                &&& after.fork_pid() == Some(child)
            }),
    {
        let idx = self.first_zombie(pid_arg).unwrap();
        assert(self.is_first_zombie(pid_arg, idx));
        self.lemma_reaped_wf(idx, exit_code_ptr);
        let after = self.waited(pid_arg, exit_code_ptr);
        assert(after.recycled.last() == self.task(self.current.unwrap()).children[idx]);
    }

    /// Reaping a zombie child keeps the invariant.
    #[verifier::rlimit(80)]
    pub proof fn lemma_reaped_wf(self, idx: int, exit_code_ptr: usize)
        requires
            self.wf(),
            self.current is Some,
            0 <= idx < self.task(self.current.unwrap()).children.len(),
            self.task(self.task(self.current.unwrap()).children[idx]).status == TaskStatus::Zombie,
            exit_code_ptr != 0 ==> self.can_write(exit_code_ptr, 4),
        ensures
            self.reaped(idx, exit_code_ptr).wf(),
            !self.reaped(idx, exit_code_ptr).live(self.task(self.current.unwrap()).children[idx]),
            !self.reaped(idx, exit_code_ptr).registry.contains(
                self.task(self.current.unwrap()).children[idx],
            ),
            self.same_identity(self.reaped(idx, exit_code_ptr)),
            self.reaped(idx, exit_code_ptr).current == self.current,
    {
        let c = self.current.unwrap();
        let kids = self.task(c).children;
        let child = kids[idx];
        let code = self.task(child).exit_code;
        let base = if exit_code_ptr != 0 {
            self.wrote(exit_code_ptr, int_bytes(wait_status(code)))
        } else {
            self
        };
        let k = self.reaped(idx, exit_code_ptr);
        assert(self.live(child) && self.task(child).parent == Some(c) && child != c);
        assert(child != 0);
        let new_cur = TaskView { children: kids.remove(idx), ..base.task(c) };
        assert(base.task(c).wf()) by {
            if exit_code_ptr != 0 {
                let t = base.task(c);
                self.task(c).space.lemma_wf_same_regions(t.space);
            }
        }
        assert forall|p: usize| #[trigger] k.live(p) == (self.live(p) && p != child) by {}
        assert forall|p: usize| #[trigger] self.live(p) && p != c && p != child implies k.task(p)
            == self.task(p) by {}
        assert(k.task(c) == new_cur);
        assert(self.same_identity(k)) by {
            assert(new_cur.pid == self.task(c).pid && new_cur.tgid == self.task(c).tgid);
            assert forall|p: usize| self.live(p) && #[trigger] k.live(p) implies k.task(p).pid
                == self.task(p).pid && k.task(p).tgid == self.task(p).tgid by {
                if p != c {
                    assert(k.task(p) == self.task(p));
                }
            }
        }
        assert(k.table_wf()) by {
            assert forall|i: int, j: int| 0 <= i < k.recycled.len() && 0 <= j < k.recycled.len()
                && i != j implies k.recycled[i] != k.recycled[j] by {
                if i < self.recycled.len() && j < self.recycled.len() {
                } else if i < self.recycled.len() {
                    assert(self.recycled.contains(self.recycled[i]));
                } else {
                    assert(self.recycled.contains(self.recycled[j]));
                }
            }
            assert forall|p: usize| #[trigger] k.live(p) <==> p < k.next_pid && !k.recycled.contains(
                p,
            ) by {
                if p == child {
                    assert(k.recycled[self.recycled.len() as int] == child);
                } else {
                    if self.recycled.contains(p) {
                        let i = choose|i: int| 0 <= i < self.recycled.len() && self.recycled[i] == p;
                        assert(k.recycled[i] == p);
                    }
                    if k.recycled.contains(p) {
                        let i = choose|i: int| 0 <= i < k.recycled.len() && k.recycled[i] == p;
                        assert(self.recycled[i] == p);
                    }
                }
            }
            assert forall|p: usize| #[trigger] k.live(p) implies k.task(p).pid == p && k.task(p).wf() by {
                assert(self.live(p));
            }
            assert(self.live(0));
        }
        assert(k.sched_wf()) by {
            assert forall|i: int| 0 <= i < k.queue.len() implies k.live(#[trigger] k.queue[i])
                && k.task(k.queue[i]).status == TaskStatus::Ready by {
                assert(self.live(self.queue[i]));
            }
            assert forall|p: usize| #[trigger] k.live(p) && k.task(p).status
                == TaskStatus::Ready implies k.queue.contains(p) by {
                assert(self.live(p));
            }
            assert forall|p: usize| #[trigger] k.live(p) && k.task(p).status
                == TaskStatus::Running implies k.current == Some(p) by {
                assert(self.live(p));
            }
        }
        assert(k.registry_wf()) by {
            assert forall|p: usize| #[trigger] k.registry.contains(p) <==> k.live(p) && k.task(
                p,
            ).status != TaskStatus::Zombie by {
                assert(self.registry.contains(p) <==> self.live(p) && self.task(p).status
                    != TaskStatus::Zombie);
            }
        }
        assert(k.family_wf()) by {
            let rest = kids.remove(idx);
            assert forall|i: int| 0 <= i < rest.len() implies #[trigger] rest[i] == kids[if i < idx {
                i
            } else {
                i + 1
            }] by {}
            assert forall|p: usize, i: int| k.live(p) && 0 <= i < k.task(p).children.len() implies k.live(
                #[trigger] k.task(p).children[i],
            ) && k.task(k.task(p).children[i]).parent == Some(p) && k.task(p).children[i] != p by {
                assert(self.live(p));
                if p == c {
                    let i0 = if i < idx {
                        i
                    } else {
                        i + 1
                    };
                    let x = self.task(c).children[i0];
                    assert(rest[i] == x);
                    assert(self.live(x));
                    assert(kids[i0] != kids[idx]);
                } else {
                    let x = self.task(p).children[i];
                    assert(self.live(x));
                    assert(self.task(x).parent == Some(p));
                    assert(x != child);
                }
            }
            assert forall|p: usize| #[trigger] k.live(p) implies k.task(p).children.no_duplicates() by {
                assert(self.live(p));
                if p == c {
                    assert forall|i: int, j: int| 0 <= i < rest.len() && 0 <= j < rest.len() && i
                        != j implies rest[i] != rest[j] by {
                        let i0 = if i < idx {
                            i
                        } else {
                            i + 1
                        };
                        let j0 = if j < idx {
                            j
                        } else {
                            j + 1
                        };
                        assert(kids[i0] != kids[j0]);
                    }
                }
            }
            assert forall|x: usize| #[trigger] k.live(x) implies match k.task(x).parent {
                Some(p) => k.live(p) && k.task(p).children.contains(x),
                None => x == 0,
            } by {
                assert(self.live(x));
                match self.task(x).parent {
                    Some(p) => {
                        assert(self.live(p));
                        assert(self.task(p).children.contains(x));
                        let j = choose|j: int|
                            0 <= j < self.task(p).children.len() && self.task(p).children[j] == x;
                        if p == child {
                            assert(self.task(child).children.len() == 0);
                        }
                        if p == c {
                            assert(j != idx);
                            let j1 = if j < idx {
                                j
                            } else {
                                j - 1
                            };
                            assert(rest[j1] == x);
                        } else {
                            assert(k.task(p).children[j] == x);
                        }
                    },
                    None => {},
                }
            }
            assert forall|p: usize| #[trigger] k.live(p) && k.task(p).status == TaskStatus::Zombie
                && p != 0 implies k.task(p).children.len() == 0 by {
                assert(self.live(p));
            }
        }
    }
}

} // verus!
