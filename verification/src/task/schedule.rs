//! Scheduling: giving up the processor, leaving for good, and picking the
//! task that runs next.
use crate::mm::area::MapArea;
use crate::mm::memory_set::{MemorySet, SpaceView};
use crate::signal::SignalFlags;
use crate::task::kernel::{Kernel, KernelView};
use crate::task::manager::{add_task, fetch_task, remove_from_pid2task, rest_of};
use crate::task::task::{TaskStatus, TaskView};
use vstd::prelude::*;

verus! {

/// The address space of a process that has exited: the trampoline and the
/// trap context, and no frame of user memory.
pub open spec fn husk() -> SpaceView {
    SpaceView {
        regions: seq![MapArea::trampoline(), MapArea::trap_context()],
        pages: Map::<usize, Seq<u8>>::empty(),
    }
}

impl KernelView {
    /// The state in which process `pid` has status `s`.
    pub open spec fn with_status(self, pid: usize, s: TaskStatus) -> KernelView {
        self.with_task(pid, TaskView { status: s, ..self.task(pid) })
    }

    /// The state after the processor, which runs no task, has taken the
    /// first task of the ready queue; with an empty queue it stays idle.
    pub open spec fn run_next(self) -> KernelView {
        if self.queue.len() > 0 {
            KernelView {
                queue: rest_of(self.queue),
                current: Some(self.queue[0]),
                ..self.with_status(self.queue[0], TaskStatus::Running)
            }
        } else {
            self
        }
    }

    /// The state after the running task has gone to the back of the ready
    /// queue and the processor runs no task.
    pub open spec fn parked(self) -> KernelView {
        let c = self.current.unwrap();
        KernelView {
            queue: self.queue.push(c),
            current: None,
            ..self.with_status(c, TaskStatus::Ready)
        }
    }

    /// The state after the running task has given up the processor: it is
    /// at the back of the ready queue, and the task that was first in the
    /// queue runs (the same task, if no other was ready).
    pub open spec fn suspended(self) -> KernelView {
        self.parked().run_next()
    }

    /// The children that a process hands over to the initial process when
    /// it exits.
    pub open spec fn orphans(self, pid: usize) -> Seq<usize> {
        if pid == 0 {
            Seq::<usize>::empty()
        } else {
            self.task(pid).children
        }
    }

    /// The state while the running task exits with code `code`, when the
    /// first `n` of its children have been handed over to the initial
    /// process: the task is a zombie out of the registry, it keeps of its
    /// address space the trampoline and the trap context alone, and the
    /// processor runs no task.
    pub open spec fn retiring(self, code: i32, n: int) -> KernelView {
        let c = self.current.unwrap();
        let kids = self.orphans(c);
        KernelView {
            tasks: Seq::new(
                self.tasks.len(),
                |i: int|
                    if self.tasks[i] is None {
                        None
                    } else if i == c {
                        Some(
                            TaskView {
                                status: TaskStatus::Zombie,
                                exit_code: code,
                                children: if c == 0 {
                                    self.task(c).children
                                } else {
                                    Seq::<usize>::empty()
                                },
                                space: husk(),
                                ..self.task(c)
                            },
                        )
                    } else if i == 0 {
                        Some(
                            TaskView {
                                children: self.task(0).children + kids.subrange(0, n),
                                ..self.task(0)
                            },
                        )
                    } else if kids.subrange(0, n).contains(i as usize) {
                        Some(TaskView { parent: Some(0usize), ..self.task(i as usize) })
                    } else {
                        self.tasks[i]
                    },
            ),
            registry: self.registry.remove(c),
            current: None,
            ..self
        }
    }

    /// The state after the running task has exited with code `code` and
    /// before the processor picks its next task.
    pub open spec fn retired(self, code: i32) -> KernelView {
        self.retiring(code, self.orphans(self.current.unwrap()).len() as int)
    }

    /// The state after the running task has exited with code `code`: it is
    /// a zombie that holds its exit code, its children are children of the
    /// initial process, it is out of the registry, and the first task of the
    /// ready queue runs.
    pub open spec fn exited(self, code: i32) -> KernelView {
        self.retired(code).run_next()
    }

    /// Picking the next task keeps the invariant.
    pub proof fn lemma_run_next_wf(self)
        requires
            self.wf(),
            self.current is None,
        ensures
            self.run_next().wf(),
    {
        if self.queue.len() > 0 {
            let n = self.queue[0];
            let k = self.run_next();
            let rest = rest_of(self.queue);
            assert(self.live(n) && self.task(n).status == TaskStatus::Ready);
            assert forall|p: usize| k.live(p) == self.live(p) by {}
            assert(forall|i: int| 0 <= i < rest.len() ==> rest[i] == self.queue[i + 1]);
            assert(k.table_wf());
            assert(k.sched_wf()) by {
                assert forall|i: int| 0 <= i < k.queue.len() implies k.live(#[trigger] k.queue[i])
                    && k.task(k.queue[i]).status == TaskStatus::Ready by {
                    assert(self.live(self.queue[i + 1]));
                    assert(self.queue[i + 1] != self.queue[0]);
                }
                assert forall|p: usize| #[trigger] k.live(p) && k.task(p).status
                    == TaskStatus::Ready implies k.queue.contains(p) by {
                    assert(self.live(p));
                    assert(self.queue.contains(p));
                    let i = choose|i: int| 0 <= i < self.queue.len() && self.queue[i] == p;
                    assert(rest[i - 1] == p);
                }
                assert forall|p: usize| #[trigger] k.live(p) && k.task(p).status
                    == TaskStatus::Running implies k.current == Some(p) by {
                    assert(self.live(p));
                }
            }
            assert(k.registry_wf()) by {
                assert forall|p: usize| #[trigger] k.registry.contains(p) <==> k.live(p) && k.task(
                    p,
                ).status != TaskStatus::Zombie by {
                    assert(self.live(p) == k.live(p));
                }
            }
            self.lemma_links_kept(k);
        }
    }

    /// Sending the running task to the back of the queue keeps the
    /// invariant.
    pub proof fn lemma_parked_wf(self)
        requires
            self.wf(),
            self.current is Some,
        ensures
            self.parked().wf(),
            self.parked().current is None,
            self.parked().queue.len() > 0,
    {
        let c = self.current.unwrap();
        let k = self.parked();
        assert forall|p: usize| k.live(p) == self.live(p) by {}
        assert(!self.queue.contains(c)) by {
            if self.queue.contains(c) {
                let i = choose|i: int| 0 <= i < self.queue.len() && self.queue[i] == c;
                assert(self.task(self.queue[i]).status == TaskStatus::Ready);
            }
        }
        assert(k.table_wf());
        assert(k.sched_wf()) by {
            assert forall|i: int| 0 <= i < k.queue.len() implies k.live(#[trigger] k.queue[i])
                && k.task(k.queue[i]).status == TaskStatus::Ready by {
                if i < self.queue.len() {
                    assert(self.live(self.queue[i]));
                }
            }
            assert forall|i: int, j: int| 0 <= i < k.queue.len() && 0 <= j < k.queue.len() && i
                != j implies k.queue[i] != k.queue[j] by {
                if i < self.queue.len() && j < self.queue.len() {
                } else if i < self.queue.len() {
                    assert(self.queue.contains(self.queue[i]));
                } else {
                    assert(self.queue.contains(self.queue[j]));
                }
            }
            assert forall|p: usize| #[trigger] k.live(p) && k.task(p).status
                == TaskStatus::Ready implies k.queue.contains(p) by {
                assert(self.live(p));
                if p == c {
                    assert(k.queue[self.queue.len() as int] == c);
                } else {
                    assert(self.queue.contains(p));
                    let i = choose|i: int| 0 <= i < self.queue.len() && self.queue[i] == p;
                    assert(k.queue[i] == p);
                }
            }
            assert forall|p: usize| #[trigger] k.live(p) && k.task(p).status
                == TaskStatus::Running implies k.current == Some(p) by {
                assert(self.live(p));
            }
        }
        assert(k.registry_wf()) by {
            assert forall|p: usize| #[trigger] k.registry.contains(p) <==> k.live(p) && k.task(
                p,
            ).status != TaskStatus::Zombie by {
                assert(self.live(p) == k.live(p));
            }
        }
        self.lemma_links_kept(k);
    }

    /// What each process is after the running task has exited.
    pub proof fn lemma_retired_tasks(self, code: i32)
        requires
            self.wf(),
            self.current is Some,
        ensures
            self.retired(code).tasks.len() == self.tasks.len(),
            forall|p: usize| #[trigger] self.retired(code).live(p) == self.live(p),
            forall|p: usize| #[trigger]
                self.live(p) ==> {
                    let c = self.current.unwrap();
                    let t = self.retired(code).task(p);
                    &&& t.pid == p
                    &&& t.wf()
                    &&& t.status == if p == c {
                        TaskStatus::Zombie
                    } else {
                        self.task(p).status
                    }
                    &&& t.parent == if c != 0 && self.task(p).parent == Some(c) {
                        Some(0usize)
                    } else {
                        self.task(p).parent
                    }
                    &&& t.children == if p == c && c != 0 {
                        Seq::<usize>::empty()
                    } else if p == 0 && c != 0 {
                        self.task(0).children + self.task(c).children
                    } else {
                        self.task(p).children
                    }
                },
    {
        let c = self.current.unwrap();
        let kids = self.orphans(c);
        let k = self.retired(code);
        assert(kids.subrange(0, kids.len() as int) =~= kids);
        assert forall|p: usize| k.live(p) == self.live(p) by {}
        assert(husk().user_wf()) by {
            assert(husk().regions[0] == MapArea::trampoline());
            assert(husk().regions[1] == MapArea::trap_context());
        }
        assert forall|p: usize| #[trigger] self.live(p) implies {
            let t = k.task(p);
            &&& t.pid == p
            &&& t.wf()
            &&& t.status == if p == c {
                TaskStatus::Zombie
            } else {
                self.task(p).status
            }
            &&& t.parent == if c != 0 && self.task(p).parent == Some(c) {
                Some(0usize)
            } else {
                self.task(p).parent
            }
            &&& t.children == if p == c && c != 0 {
                Seq::<usize>::empty()
            } else if p == 0 && c != 0 {
                self.task(0).children + self.task(c).children
            } else {
                self.task(p).children
            }
        } by {
            if kids.contains(p) {
                let j = choose|j: int| 0 <= j < kids.len() && kids[j] == p;
                assert(self.task(c).children[j] == p);
                assert(self.task(p).parent == Some(c));
                assert(p != c);
                assert(p != 0);
            }
            if c != 0 && self.task(p).parent == Some(c) {
                assert(self.task(c).children.contains(p));
                assert(p != 0);
            }
        }
    }

    /// The family invariant holds on when a process that is not the initial
    /// one hands all its children over to the initial process.
    #[verifier::rlimit(60)]
    pub proof fn lemma_handover_family(self, k: KernelView, c: usize)
        requires
            self.wf(),
            self.live(c),
            c != 0,
            k.tasks.len() == self.tasks.len(),
            forall|p: usize| #[trigger] k.live(p) == self.live(p),
            forall|p: usize| #[trigger]
                self.live(p) ==> {
                    &&& k.task(p).parent == if self.task(p).parent == Some(c) {
                        Some(0usize)
                    } else {
                        self.task(p).parent
                    }
                    &&& k.task(p).children == if p == c {
                        Seq::<usize>::empty()
                    } else if p == 0 {
                        self.task(0).children + self.task(c).children
                    } else {
                        self.task(p).children
                    }
                    &&& (p != c && k.task(p).status == TaskStatus::Zombie ==> self.task(p).status
                        == TaskStatus::Zombie)
                },
        ensures
            k.family_wf(),
    {
        let init_kids = self.task(0).children;
        let kids = self.task(c).children;
        assert forall|p: usize, i: int| k.live(p) && 0 <= i < k.task(p).children.len() implies k.live(
            #[trigger] k.task(p).children[i],
        ) && k.task(k.task(p).children[i]).parent == Some(p) && k.task(p).children[i] != p by {
            assert(self.live(p));
            let x = k.task(p).children[i];
            if p == 0 && i >= init_kids.len() {
                let j = i - init_kids.len();
                assert(x == self.task(c).children[j]);
                assert(self.live(x));
                assert(self.task(x).parent == Some(c));
            } else {
                assert(x == self.task(p).children[i]);
                assert(self.live(x));
                assert(self.task(x).parent == Some(p));
            }
        }
        assert forall|p: usize| #[trigger] k.live(p) implies k.task(p).children.no_duplicates() by {
            assert(self.live(p));
            if p == 0 {
                let s = init_kids + kids;
                assert forall|i: int, j: int| 0 <= i < s.len() && 0 <= j < s.len() && i
                    != j implies s[i] != s[j] by {
                    if i < init_kids.len() && j < init_kids.len() {
                    } else if i >= init_kids.len() && j >= init_kids.len() {
                        assert(kids[i - init_kids.len()] != kids[j - init_kids.len()]);
                    } else {
                        let a = if i < init_kids.len() {
                            i
                        } else {
                            j
                        };
                        let b = if i < init_kids.len() {
                            j
                        } else {
                            i
                        };
                        assert(self.task(self.task(0).children[a]).parent == Some(0usize));
                        assert(self.task(self.task(c).children[b - init_kids.len()]).parent == Some(
                            c,
                        ));
                    }
                }
            }
        }
        assert forall|x: usize| #[trigger] k.live(x) implies match k.task(x).parent {
            Some(p) => k.live(p) && k.task(p).children.contains(x),
            None => x == 0,
        } by {
            assert(self.live(x));
            match self.task(x).parent {
                Some(p) => {
                    assert(self.live(p));
                    assert(self.task(p).children.contains(x));
                    let j = choose|j: int|
                        0 <= j < self.task(p).children.len() && self.task(p).children[j] == x;
                    if p == c {
                        assert((init_kids + kids)[init_kids.len() + j] == x);
                    } else if p == 0 {
                        assert((init_kids + kids)[j] == x);
                    } else {
                        assert(k.task(p).children[j] == x);
                    }
                },
                None => {},
            }
        }
        assert forall|p: usize| #[trigger] k.live(p) && k.task(p).status == TaskStatus::Zombie && p
            != 0 implies k.task(p).children.len() == 0 by {
            assert(self.live(p));
        }
    }

    /// Exiting keeps the invariant.
    pub proof fn lemma_retired_wf(self, code: i32)
        requires
            self.wf(),
            self.current is Some,
        ensures
            self.retired(code).wf(),
            self.retired(code).current is None,
    {
        let c = self.current.unwrap();
        let k = self.retired(code);
        self.lemma_retired_tasks(code);
        assert(k.table_wf());
        assert(k.sched_wf()) by {
            assert forall|i: int| 0 <= i < k.queue.len() implies k.live(#[trigger] k.queue[i])
                && k.task(k.queue[i]).status == TaskStatus::Ready by {
                assert(self.live(self.queue[i]));
            }
            assert forall|p: usize| #[trigger] k.live(p) && k.task(p).status
                == TaskStatus::Ready implies k.queue.contains(p) by {
                assert(self.live(p));
            }
            assert forall|p: usize| #[trigger] k.live(p) && k.task(p).status
                == TaskStatus::Running implies k.current == Some(p) by {
                assert(self.live(p));
            }
        }
        assert(k.registry_wf()) by {
            assert forall|p: usize| #[trigger] k.registry.contains(p) <==> k.live(p) && k.task(
                p,
            ).status != TaskStatus::Zombie by {
                assert(self.live(p) == k.live(p));
            }
        }
        if c == 0 {
            self.lemma_links_kept(k);
        } else {
            self.lemma_handover_family(k, c);
        }
    }

    /// The first step of an exit: the task is a zombie out of the registry,
    /// and no child has been handed over yet.
    pub proof fn lemma_retiring_start(self, code: i32)
        requires
            self.wf(),
            self.current is Some,
        ensures
            ({
                let c = self.current.unwrap();
                (KernelView { registry: self.registry.remove(c), current: None, ..self }).with_task(
                    c,
                    TaskView {
                        status: TaskStatus::Zombie,
                        exit_code: code,
                        space: husk(),
                        children: if c == 0 {
                            self.task(c).children
                        } else {
                            Seq::<usize>::empty()
                        },
                        ..self.task(c)
                    },
                ) == self.retiring(code, 0)
            }),
    {
        let c = self.current.unwrap();
        let a = (KernelView { registry: self.registry.remove(c), current: None, ..self }).with_task(
            c,
            TaskView {
                status: TaskStatus::Zombie,
                exit_code: code,
                space: husk(),
                children: if c == 0 {
                    self.task(c).children
                } else {
                    Seq::<usize>::empty()
                },
                ..self.task(c)
            },
        );
        let b = self.retiring(code, 0);
        assert(self.orphans(c).subrange(0, 0) =~= Seq::<usize>::empty());
        assert(self.task(0).children + Seq::<usize>::empty() =~= self.task(0).children);
        assert forall|j: int| 0 <= j < b.tasks.len() implies a.tasks[j] == b.tasks[j] by {
            if j == 0 && j != c {
                assert(self.live(0));
            }
        }
        assert(a.tasks =~= b.tasks);
    }

    /// Handing one more child over leads from one step of an exit to the
    /// next.
    pub proof fn lemma_retiring_step(self, code: i32, i: int)
        requires
            self.wf(),
            self.current is Some,
            0 <= i < self.orphans(self.current.unwrap()).len(),
        ensures
            ({
                let kid = self.orphans(self.current.unwrap())[i];
                let a = self.retiring(code, i);
                let b = a.with_task(kid, TaskView { parent: Some(0usize), ..a.task(kid) });
                &&& a.live(kid)
                &&& b.live(0)
                &&& b.with_task(0, TaskView { children: b.task(0).children.push(kid), ..b.task(0) })
                    == self.retiring(code, i + 1)
            }),
    {
        let pid = self.current.unwrap();
        let kids = self.orphans(pid);
        let kid = kids[i];
        let a = self.retiring(code, i);
        let b = a.with_task(kid, TaskView { parent: Some(0usize), ..a.task(kid) });
        let r = b.with_task(0, TaskView { children: b.task(0).children.push(kid), ..b.task(0) });
        let target = self.retiring(code, i + 1);
        assert(pid != 0);
        assert(self.task(pid).children[i] == kid);
        assert(self.live(kid) && self.task(kid).parent == Some(pid) && kid != pid);
        assert(kid != 0);
        let done = kids.subrange(0, i);
        let more = kids.subrange(0, i + 1);
        assert(more =~= done.push(kid));
        assert(!done.contains(kid)) by {
            if done.contains(kid) {
                let j = choose|j: int| 0 <= j < i && done[j] == kid;
                assert(kids[j] == kids[i]);
            }
        }
        assert(self.task(0).children + more =~= (self.task(0).children + done).push(kid));
        assert forall|j: int| 0 <= j < target.tasks.len() implies r.tasks[j] == target.tasks[j] by {
            if self.tasks[j] is None {
            } else if j == pid {
            } else if j == 0 {
            } else if j == kid {
                assert(more[i] == kid);
            } else {
                if more.contains(j as usize) {
                    let x = choose|x: int| 0 <= x < more.len() && more[x] == j as usize;
                    assert(x < i);
                    assert(done[x] == j as usize);
                }
                if done.contains(j as usize) {
                    let x = choose|x: int| 0 <= x < done.len() && done[x] == j as usize;
                    assert(more[x] == j as usize);
                }
            }
        }
        assert(r.tasks =~= target.tasks);
    }
}

impl KernelView {
    /// Whether every process of `self` that is there in `k`, too, has in `k`
    /// the identifier it had and the identifier of the process that forked
    /// it.
    pub open spec fn same_identity(self, k: KernelView) -> bool {
        forall|p: usize|
            self.live(p) && #[trigger] k.live(p) ==> k.task(p).pid == self.task(p).pid && k.task(
                p,
            ).tgid == self.task(p).tgid
    }

    /// Whether `k` has the processes of `self` and no others, each with the
    /// identifier it had and the identifier of the process that forked it.
    pub open spec fn same_processes(self, k: KernelView) -> bool {
        &&& k.tasks.len() == self.tasks.len()
        &&& forall|p: usize| #[trigger] k.live(p) == self.live(p)
        &&& self.same_identity(k)
    }

    /// Whether the ready queue and the slot of the running task hold
    /// processes that are there.
    pub open spec fn anchored(self) -> bool {
        &&& forall|i: int| 0 <= i < self.queue.len() ==> self.live(#[trigger] self.queue[i])
        &&& self.current matches Some(c) ==> self.live(c)
    }

    /// Picking the next task takes no process away and adds none.
    pub proof fn lemma_run_next_same(self)
        requires
            self.anchored(),
        ensures
            self.same_processes(self.run_next()),
            self.current is None ==> self.run_next().anchored(),
    {
        if self.queue.len() > 0 {
            let k = self.run_next();
            let n = self.queue[0];
            assert(self.live(n));
            assert forall|p: usize| #[trigger] k.live(p) == self.live(p) by {}
            assert forall|i: int| 0 <= i < k.queue.len() implies k.live(#[trigger] k.queue[i]) by {
                assert(k.queue[i] == self.queue[i + 1]);
                assert(self.live(self.queue[i + 1]));
            }
        }
    }

    /// Giving up the processor takes no process away and adds none.
    pub proof fn lemma_suspended_same(self)
        requires
            self.anchored(),
            self.current is Some,
        ensures
            self.same_processes(self.suspended()),
            self.suspended().anchored(),
    {
        let c = self.current.unwrap();
        let parked = self.parked();
        assert forall|p: usize| #[trigger] parked.live(p) == self.live(p) by {}
        assert forall|i: int| 0 <= i < parked.queue.len() implies parked.live(
            #[trigger] parked.queue[i],
        ) by {
            if i < self.queue.len() {
                assert(self.live(self.queue[i]));
            }
        }
        parked.lemma_run_next_same();
        let k = self.suspended();
        assert forall|p: usize| #[trigger] k.live(p) == self.live(p) by {
            assert(parked.live(p) == self.live(p));
        }
    }

    /// An exit takes no process out of the table and adds none: the zombie
    /// stays until it is reaped.
    pub proof fn lemma_exited_same(self, code: i32)
        requires
            self.anchored(),
            self.current is Some,
        ensures
            self.same_processes(self.exited(code)),
            self.exited(code).anchored(),
    {
        let retired = self.retired(code);
        assert forall|p: usize| #[trigger] retired.live(p) == self.live(p) by {}
        assert forall|p: usize| self.live(p) && #[trigger] retired.live(p) implies retired.task(p).pid
            == self.task(p).pid && retired.task(p).tgid == self.task(p).tgid by {}
        assert forall|i: int| 0 <= i < retired.queue.len() implies retired.live(
            #[trigger] retired.queue[i],
        ) by {
            assert(self.live(self.queue[i]));
        }
        retired.lemma_run_next_same();
        let k = self.exited(code);
        assert forall|p: usize| #[trigger] k.live(p) == self.live(p) by {
            assert(retired.live(p) == self.live(p));
        }
    }
}

impl KernelView {
    /// The state after the running task, and after it each task that came to
    /// run, has given up the processor, `n` times in all.
    pub open spec fn suspended_times(self, n: nat) -> KernelView
        decreases n,
    {
        if n == 0 {
            self
        } else {
            self.suspended_times((n - 1) as nat).suspended()
        }
    }

    /// The tasks that take turns: the running one, then the ready ones in
    /// the order of the queue.
    pub open spec fn ring(self) -> Seq<usize> {
        seq![self.current.unwrap()] + self.queue
    }

    /// The state in which task number `j` of the ring runs and the tasks
    /// behind it in the ring, then those before it, wait in the queue.
    pub open spec fn turned(self, j: int) -> KernelView {
        let ring = self.ring();
        KernelView {
            tasks: Seq::new(
                self.tasks.len(),
                |i: int|
                    if self.tasks[i] is None {
                        None
                    } else if i == ring[j] {
                        Some(TaskView { status: TaskStatus::Running, ..self.task(i as usize) })
                    } else if i == ring[0] {
                        Some(TaskView { status: TaskStatus::Ready, ..self.task(i as usize) })
                    } else {
                        self.tasks[i]
                    },
            ),
            queue: ring.subrange(j + 1, ring.len() as int) + ring.subrange(0, j),
            current: Some(ring[j]),
            ..self
        }
    }

    /// The tasks of the ring are processes, each of them once in the ring;
    /// the first runs and the others are ready.
    proof fn lemma_ring(self)
        requires
            self.wf(),
            self.current is Some,
        ensures
            self.ring().len() == self.queue.len() + 1,
            self.ring().no_duplicates(),
            forall|i: int| 0 <= i < self.ring().len() ==> self.live(#[trigger] self.ring()[i]),
            forall|i: int|
                1 <= i < self.ring().len() ==> self.task(#[trigger] self.ring()[i]).status
                    == TaskStatus::Ready,
            self.task(self.ring()[0]).status == TaskStatus::Running,
            self.turned(0) == self,
            self.ring_ok(),
    {
        let ring = self.ring();
        let c = self.current.unwrap();
        assert forall|i: int| 0 <= i < ring.len() implies self.live(#[trigger] ring[i]) by {
            if i > 0 {
                assert(ring[i] == self.queue[i - 1]);
                assert(self.live(self.queue[i - 1]));
            }
        }
        assert forall|i: int| 1 <= i < ring.len() implies self.task(#[trigger] ring[i]).status
            == TaskStatus::Ready by {
            assert(ring[i] == self.queue[i - 1]);
            assert(self.live(self.queue[i - 1]));
        }
        assert forall|i: int, j: int| 0 <= i < ring.len() && 0 <= j < ring.len() && i != j implies ring[i]
            != ring[j] by {
            if i > 0 && j > 0 {
                assert(self.queue[i - 1] != self.queue[j - 1]);
            }
        }
        let t = self.turned(0);
        assert(t.tasks =~= self.tasks);
        assert(t.queue =~= self.queue);
    }

    /// Whether the tasks of the ring are processes, each of them once in
    /// the ring, and all but the first are ready.
    pub open spec fn ring_ok(self) -> bool {
        &&& self.current is Some
        &&& self.ring().no_duplicates()
        &&& forall|i: int| 0 <= i < self.ring().len() ==> self.live(#[trigger] self.ring()[i])
        &&& forall|i: int|
            1 <= i < self.ring().len() ==> self.task(#[trigger] self.ring()[i]).status
                == TaskStatus::Ready
    }

    /// One task gives up the processor, and the next task of the ring runs.
    proof fn lemma_turn(self, j: int)
        requires
            self.ring_ok(),
            0 <= j < self.queue.len(),
        ensures
            self.turned(j).suspended() == self.turned(j + 1),
    {
        let ring = self.ring();
        let n = self.queue.len() as int;
        let a = self.turned(j);
        let parked = a.parked();
        let b = a.suspended();
        let want = self.turned(j + 1);
        assert(ring.len() == n + 1);
        assert(self.live(ring[j]) && self.live(ring[j + 1]) && self.live(ring[0]));
        assert(ring[j] != ring[j + 1]);
        assert(a.queue.len() == n);
        assert(a.queue[0] == ring[j + 1]);
        assert(parked.queue =~= a.queue.push(ring[j]));
        assert(parked.queue[0] == ring[j + 1]);
        assert(b.queue =~= want.queue);
        assert(b.current == want.current);
        assert forall|i: int| 0 <= i < want.tasks.len() implies b.tasks[i] == want.tasks[i] by {
            if self.tasks[i] is Some {
                if i == ring[j + 1] {
                } else if i == ring[j] {
                    if j > 0 {
                        assert(self.task(ring[j]).status == TaskStatus::Ready);
                    }
                } else if i == ring[0] {
                }
            }
        }
        assert(b.tasks =~= want.tasks);
    }

    /// The last task of the ring gives up the processor, and the first runs
    /// again.
    proof fn lemma_turn_last(self)
        requires
            self.ring_ok(),
            self.task(self.ring()[0]).status == TaskStatus::Running,
        ensures
            self.turned(self.queue.len() as int).suspended() == self,
    {
        let ring = self.ring();
        let n = self.queue.len() as int;
        let a = self.turned(n);
        let parked = a.parked();
        let b = a.suspended();
        assert(ring.len() == n + 1);
        assert(self.live(ring[n]) && self.live(ring[0]));
        assert(a.queue =~= ring.subrange(0, n));
        assert(parked.queue =~= ring);
        assert(b.queue =~= self.queue);
        assert(b.current == self.current);
        assert forall|i: int| 0 <= i < self.tasks.len() implies b.tasks[i] == self.tasks[i] by {
            if self.tasks[i] is Some {
                if i == ring[0] {
                } else if i == ring[n] {
                    assert(self.task(ring[n]).status == TaskStatus::Ready);
                }
            }
        }
        assert(b.tasks =~= self.tasks);
    }

    /// The processor goes round: when the running task and the tasks after
    /// it give up the processor one after the other, the ready tasks come to
    /// run in the order of the queue, each once, and then the first task runs
    /// again, with the queue as it was.
    pub proof fn lemma_round_robin(self, j: nat)
        requires
            self.wf(),
            self.current is Some,
            j <= self.queue.len(),
        ensures
            self.suspended_times(j) == self.turned(j as int),
            self.suspended_times(j).current == Some(self.ring()[j as int]),
            self.suspended_times((self.queue.len() + 1) as nat) == self,
    {
        self.lemma_ring();
        self.lemma_rounds(j);
        self.lemma_rounds(self.queue.len());
        self.lemma_turn_last();
    }

    proof fn lemma_rounds(self, j: nat)
        requires
            self.wf(),
            self.current is Some,
            j <= self.queue.len(),
        ensures
            self.suspended_times(j) == self.turned(j as int),
        decreases j,
    {
        self.lemma_ring();
        if j > 0 {
            self.lemma_rounds((j - 1) as nat);
            self.lemma_turn(j - 1);
        }
    }
}

/// Makes the first task of the ready queue the running task.  With an empty
/// queue the processor stays idle.
pub fn run_next(k: &mut Kernel)
    requires
        old(k).wf(),
        old(k)@.current is None,
    ensures
        final(k).wf(),
        final(k)@ == old(k)@.run_next(),
{
    let ghost pre = k@;
    proof {
        pre.lemma_run_next_wf();
    }
    match fetch_task(k) {
        Some(next) => {
            assert(pre.live(next));
            let task = k.task_mut(next);
            task.status = TaskStatus::Running;
            k.current = Some(next);
            assert(k@ == pre.run_next());
        },
        None => {
            assert(k@ == pre.run_next());
        },
    }
}

/// The running task gives up the processor: it goes to the back of the
/// ready queue with status `Ready`, and the task at the front of the queue
/// runs.
pub fn suspend_current_and_run_next(k: &mut Kernel)
    requires
        old(k).wf(),
        old(k)@.current is Some,
    ensures
        final(k).wf(),
        final(k)@ == old(k)@.suspended(),
        final(k)@.current is Some,
{
    let ghost pre = k@;
    proof {
        pre.lemma_parked_wf();
    }
    let pid = k.current.unwrap();
    let task = k.task_mut(pid);
    task.status = TaskStatus::Ready;
    k.manager.add(pid);
    k.current = None;
    assert(k@ == pre.parked());
    run_next(k);
}

/// The first step of an exit: makes the running task a zombie out of the
/// registry and gives the children it has to hand over.
fn retire_current(k: &mut Kernel, exit_code: i32) -> (kids: Vec<usize>)
    requires
        old(k).wf(),
        old(k)@.current is Some,
    ensures
        kids@ == old(k)@.orphans(old(k)@.current.unwrap()),
        final(k)@ == old(k)@.retiring(exit_code, 0),
{
    let ghost pre = k@;
    proof {
        pre.lemma_retiring_start(exit_code);
    }
    let pid = k.current.unwrap();
    k.current = None;
    remove_from_pid2task(k, pid);
    let task = k.task_mut(pid);
    task.status = TaskStatus::Zombie;
    task.exit_code = exit_code;
    task.memory_set = MemorySet::new_user();
    let mut kids: Vec<usize> = Vec::new();
    if pid != 0 {
        core::mem::swap(&mut kids, &mut task.children);
    }
    kids
}

/// The running task exits with code `exit_code`: it becomes a zombie, its
/// children become children of the initial process, it gives its user memory
/// back and leaves the registry.  Then the task at the front of the ready
/// queue runs.  The zombie stays in the table until its parent reaps it.
pub fn exit_current_and_run_next(k: &mut Kernel, exit_code: i32)
    requires
        old(k).wf(),
        old(k)@.current is Some,
    ensures
        final(k).wf(),
        final(k)@ == old(k)@.exited(exit_code),
{
    let ghost pre = k@;
    proof {
        pre.lemma_retired_wf(exit_code);
    }
    let kids = retire_current(k, exit_code);
    let mut i: usize = 0;
    while i < kids.len()
        invariant
            i <= kids@.len(),
            pre.wf(),
            pre.current is Some,
            kids@ == pre.orphans(pre.current.unwrap()),
            k@ == pre.retiring(exit_code, i as int),
        decreases kids@.len() - i,
    {
        let kid = kids[i];
        proof {
            pre.lemma_retiring_step(exit_code, i as int);
        }
        let child = k.task_mut(kid);
        child.parent = Some(0);
        let init = k.task_mut(0);
        init.children.push(kid);
        i += 1;
    }
    run_next(k);
}

/// Posts the signals of `signal` to the running task.
pub fn current_add_signal(k: &mut Kernel, signal: SignalFlags)
    requires
        old(k).wf(),
        old(k)@.current is Some,
        signal.wf(),
    ensures
        final(k).wf(),
        final(k)@ == old(k)@.with_task(
            old(k)@.current.unwrap(),
            TaskView {
                signals: SignalFlags {
                    bits: old(k)@.task(old(k)@.current.unwrap()).signals.bits | signal.bits,
                },
                ..old(k)@.task(old(k)@.current.unwrap())
            },
        ),
{
    let pid = k.current.unwrap();
    let ghost pre = k@;
    let task = k.task_mut(pid);
    task.signals.insert(signal);
    proof {
        pre.lemma_with_task_wf(pid, k@.task(pid));
    }
}

/// The exit code and the message of the lowest fatal signal that is pending
/// for the running task.
pub fn check_signals_of_current(k: &Kernel) -> (r: Option<(i32, &'static str)>)
    requires
        k.wf(),
        k@.current is Some,
    ensures
        r is Some <==> k@.task(k@.current.unwrap()).signals.first_fatal() is Some,
        r matches Some(e) ==> e.0 == -k@.task(k@.current.unwrap()).signals.first_fatal().unwrap()
            && e.1@ == crate::signal::fatal_message(
            k@.task(k@.current.unwrap()).signals.first_fatal().unwrap(),
        ),
{
    let pid = k.current.unwrap();
    k.task_ref(pid).signals.check_error()
}

} // verus!
