//! The state of the kernel: the table of processes, the ready queue, the
//! registry of process identifiers and the running task.
use crate::config::MAX_PID;
use crate::info::{default_uts, Utsname};
use crate::task::exec::{exec_ok, initproc_view};
use crate::task::manager::add_task;
use crate::task::manager::TaskManager;
use crate::task::pid::PidAllocator;
use crate::task::task::{TaskControlBlock, TaskStatus, TaskView};
use std::collections::BTreeSet;
use vstd::prelude::*;

verus! {

broadcast use {vstd::std_specs::btree::group_btree_axioms, vstd::laws_cmp::group_laws_cmp};

/// Where `stvec` points: at the kernel's own trap entry, which stops the
/// machine, or at the trampoline, through which user mode enters the kernel.
#[derive(Clone, Copy, Debug, PartialEq, Eq, Structural)]
pub enum TrapEntry {
    Kernel,
    User,
}

/// A place that holds a handle to a process.
pub enum Holder {
    /// The registry of process identifiers.
    Registry,
    /// The slot of the running task.
    Current,
    /// The ready queue, at this position.
    ReadyQueue(int),
    /// The list of children of this process, at this position.
    Child(usize, int),
}

/// What the kernel state is, as the contracts see it.  `tasks[pid]` is the
/// process with identifier `pid`, where there is one.
pub struct KernelView {
    pub tasks: Seq<Option<TaskView>>,
    pub queue: Seq<usize>,
    pub registry: Set<usize>,
    pub current: Option<usize>,
    pub next_pid: usize,
    pub recycled: Seq<usize>,
    pub stvec: TrapEntry,
    pub timer_enabled: bool,
    pub next_trigger: usize,
    pub kernel_satp: usize,
    pub trap_handler: usize,
    pub uts: Seq<u8>,
}

impl KernelView {
    /// Whether there is a process with identifier `pid`, running, ready or
    /// zombie.
    pub open spec fn live(self, pid: usize) -> bool {
        pid < self.tasks.len() && self.tasks[pid as int] is Some
    }

    /// The process with identifier `pid`.
    pub open spec fn task(self, pid: usize) -> TaskView {
        self.tasks[pid as int].unwrap()
    }

    /// The state in which process `pid` is `t` and all else is as in `self`.
    pub open spec fn with_task(self, pid: usize, t: TaskView) -> KernelView {
        KernelView { tasks: self.tasks.update(pid as int, Some(t)), ..self }
    }

    /// Slot `pid` of the table holds a process exactly when `pid` is handed
    /// out; that process knows its identifier and is well formed; the
    /// initial process is there.
    pub open spec fn table_wf(self) -> bool {
        &&& self.next_pid == self.tasks.len()
        &&& self.next_pid <= MAX_PID
        &&& self.recycled.no_duplicates()
        &&& forall|i: int| 0 <= i < self.recycled.len() ==> #[trigger] self.recycled[i] < self.next_pid
        &&& forall|p: usize| #[trigger] self.live(p) <==> p < self.next_pid && !self.recycled.contains(p)
        &&& forall|p: usize| #[trigger] self.live(p) ==> self.task(p).pid == p && self.task(p).wf()
        &&& self.live(0)
    }

    /// The ready queue holds each ready task once and nothing else; the
    /// running task, and no other, has status `Running`.
    pub open spec fn sched_wf(self) -> bool {
        &&& forall|i: int|
            0 <= i < self.queue.len() ==> self.live(#[trigger] self.queue[i]) && self.task(
                self.queue[i],
            ).status == TaskStatus::Ready
        &&& self.queue.no_duplicates()
        &&& forall|p: usize| #[trigger]
            self.live(p) && self.task(p).status == TaskStatus::Ready ==> self.queue.contains(p)
        &&& self.current matches Some(c) ==> self.live(c) && self.task(c).status == TaskStatus::Running
        &&& forall|p: usize| #[trigger]
            self.live(p) && self.task(p).status == TaskStatus::Running ==> self.current == Some(p)
    }

    /// The registry holds the processes that have not exited.
    pub open spec fn registry_wf(self) -> bool {
        forall|p: usize| #[trigger]
            self.registry.contains(p) <==> self.live(p) && self.task(p).status != TaskStatus::Zombie
    }

    /// Every child in a list of children is a process whose parent is the
    /// owner of the list, no list holds a process twice, every process but
    /// the initial one is in the list of its parent, and a zombie has handed
    /// its children over.
    pub open spec fn family_wf(self) -> bool {
        &&& forall|p: usize, i: int|
            self.live(p) && 0 <= i < self.task(p).children.len() ==> self.live(
                #[trigger] self.task(p).children[i],
            ) && self.task(self.task(p).children[i]).parent == Some(p) && self.task(p).children[i]
                != p
        &&& forall|p: usize| #[trigger] self.live(p) ==> self.task(p).children.no_duplicates()
        &&& forall|c: usize| #[trigger]
            self.live(c) ==> match self.task(c).parent {
                Some(p) => self.live(p) && self.task(p).children.contains(c),
                None => c == 0,
            }
        &&& self.task(0).parent is None
        &&& forall|p: usize| #[trigger]
            self.live(p) && self.task(p).status == TaskStatus::Zombie && p != 0 ==> self.task(
                p,
            ).children.len() == 0
    }

    /// The invariant of the kernel state.
    pub open spec fn wf(self) -> bool {
        &&& self.table_wf()
        &&& self.sched_wf()
        &&& self.registry_wf()
        &&& self.family_wf()
    }

    /// The places that hold a handle to process `pid`.
    pub open spec fn holders(self, pid: usize) -> Set<Holder> {
        Set::new(
            |h: Holder|
                match h {
                    Holder::Registry => self.registry.contains(pid),
                    Holder::Current => self.current == Some(pid),
                    Holder::ReadyQueue(i) => 0 <= i < self.queue.len() && self.queue[i] == pid,
                    Holder::Child(p, i) => self.live(p) && 0 <= i < self.task(p).children.len()
                        && self.task(p).children[i] == pid,
                },
        )
    }

    /// The number of handles to process `pid`.
    pub open spec fn strong_count(self, pid: usize) -> nat {
        self.holders(pid).len()
    }

    /// Whether `t` differs from process `pid` only in what belongs to the
    /// process alone: not in its identifier, its status, its parent or its
    /// children.
    pub open spec fn same_links(self, pid: usize, t: TaskView) -> bool {
        &&& t.pid == self.task(pid).pid
        &&& t.status == self.task(pid).status
        &&& t.parent == self.task(pid).parent
        &&& t.children == self.task(pid).children
    }

    /// The family invariant depends on the parents and the children alone.
    pub proof fn lemma_links_kept(self, k: KernelView)
        requires
            self.family_wf(),
            self.live(0),
            self.tasks.len() == k.tasks.len(),
            forall|p: usize| #[trigger] k.live(p) == self.live(p),
            forall|p: usize| #[trigger]
                self.live(p) ==> k.task(p).parent == self.task(p).parent && k.task(p).children
                    == self.task(p).children && (p != 0 && k.task(p).status == TaskStatus::Zombie
                    ==> self.task(p).status == TaskStatus::Zombie),
        ensures
            k.family_wf(),
    {
        assert forall|p: usize, i: int| k.live(p) && 0 <= i < k.task(p).children.len() implies k.live(
            #[trigger] k.task(p).children[i],
        ) && k.task(k.task(p).children[i]).parent == Some(p) && k.task(p).children[i] != p by {
            assert(self.live(p));
            let c = self.task(p).children[i];
            assert(self.live(c));
            assert(k.live(c));
        }
        assert forall|p: usize| #[trigger] k.live(p) implies k.task(p).children.no_duplicates() by {
            assert(self.live(p));
        }
        assert forall|c: usize| #[trigger] k.live(c) implies match k.task(c).parent {
            Some(p) => k.live(p) && k.task(p).children.contains(c),
            None => c == 0,
        } by {
            assert(self.live(c));
            if let Some(p) = self.task(c).parent {
                assert(self.live(p));
                assert(k.live(p));
            }
        }
        assert forall|p: usize| #[trigger] k.live(p) && k.task(p).status == TaskStatus::Zombie && p
            != 0 implies k.task(p).children.len() == 0 by {
            assert(self.live(p));
        }
    }

    /// The invariant holds on when the queue, the registry, the running task
    /// and the identifiers stay, and every process stays well formed and
    /// keeps its identifier, its status, its parent and its children.
    pub proof fn lemma_same_links_wf(self, k: KernelView)
        requires
            self.wf(),
            k.tasks.len() == self.tasks.len(),
            k.queue == self.queue,
            k.registry == self.registry,
            k.current == self.current,
            k.next_pid == self.next_pid,
            k.recycled == self.recycled,
            forall|p: usize| #[trigger] k.live(p) == self.live(p),
            forall|p: usize| #[trigger] self.live(p) ==> k.task(p).wf() && self.same_links(p, k.task(p)),
        ensures
            k.wf(),
    {
        assert(k.table_wf()) by {
            assert forall|p: usize| #[trigger] k.live(p) implies k.task(p).pid == p && k.task(p).wf() by {
                assert(self.live(p));
            }
        }
        assert(k.sched_wf()) by {
            assert forall|i: int| 0 <= i < k.queue.len() implies k.live(#[trigger] k.queue[i])
                && k.task(k.queue[i]).status == TaskStatus::Ready by {
                assert(self.live(self.queue[i]));
            }
            assert forall|p: usize| #[trigger] k.live(p) && k.task(p).status
                == TaskStatus::Ready implies k.queue.contains(p) by {
                assert(self.live(p));
            }
            assert forall|p: usize| #[trigger] k.live(p) && k.task(p).status
                == TaskStatus::Running implies k.current == Some(p) by {
                assert(self.live(p));
            }
        }
        assert(k.registry_wf()) by {
            assert forall|p: usize| #[trigger] k.registry.contains(p) <==> k.live(p) && k.task(
                p,
            ).status != TaskStatus::Zombie by {
                assert(self.live(p) == k.live(p));
            }
        }
        self.lemma_links_kept(k);
    }

    /// The invariant holds on when a process changes in what belongs to it
    /// alone.
    pub proof fn lemma_with_task_wf(self, pid: usize, t: TaskView)
        requires
            self.wf(),
            self.live(pid),
            t.wf(),
            self.same_links(pid, t),
        ensures
            self.with_task(pid, t).wf(),
            forall|p: usize| self.with_task(pid, t).live(p) == self.live(p),
    {
        let k = self.with_task(pid, t);
        assert forall|p: usize| k.live(p) == self.live(p) by {}
        assert forall|p: usize| #[trigger] self.live(p) implies k.task(p).wf() && self.same_links(
            p,
            k.task(p),
        ) by {}
        self.lemma_same_links_wf(k);
    }

    /// The invariant speaks of the processes, the queue, the registry, the
    /// running task and the identifiers, and of nothing else.
    pub proof fn lemma_wf_frame(self, k: KernelView)
        requires
            self.wf(),
            k.tasks == self.tasks,
            k.queue == self.queue,
            k.registry == self.registry,
            k.current == self.current,
            k.next_pid == self.next_pid,
            k.recycled == self.recycled,
        ensures
            k.wf(),
    {
        assert forall|p: usize| k.live(p) == self.live(p) by {}
        assert forall|p: usize| #[trigger] self.live(p) implies k.task(p).wf() && self.same_links(
            p,
            k.task(p),
        ) by {}
        self.lemma_same_links_wf(k);
    }

    /// The address space of every process holds the trampoline, for the
    /// kernel to read and execute, and the trap context, for the kernel to
    /// read and write; user mode can touch neither.
    pub proof fn lemma_trampoline_everywhere(self, pid: usize)
        requires
            self.wf(),
            self.live(pid),
        ensures
            self.task(pid).space.covers((usize::MAX / 4096) as usize),
            self.task(pid).space.area_of((usize::MAX / 4096) as usize)
                == crate::mm::area::MapArea::trampoline(),
            self.task(pid).space.covers((usize::MAX / 4096 - 1) as usize),
            self.task(pid).space.area_of((usize::MAX / 4096 - 1) as usize)
                == crate::mm::area::MapArea::trap_context(),
            !self.task(pid).space.user_page((usize::MAX / 4096) as usize, false),
            !self.task(pid).space.user_page((usize::MAX / 4096) as usize, true),
            !self.task(pid).space.user_page((usize::MAX / 4096 - 1) as usize, false),
            !self.task(pid).space.user_page((usize::MAX / 4096 - 1) as usize, true),
    {
        assert(self.task(pid).wf());
        self.task(pid).space.lemma_trampoline_and_trap_context();
    }

    /// Every task in the ready queue is ready to run and is not the running
    /// task.
    pub proof fn lemma_ready_queue(self, i: int)
        requires
            self.wf(),
            0 <= i < self.queue.len(),
        ensures
            self.live(self.queue[i]),
            self.task(self.queue[i]).status == TaskStatus::Ready,
            self.current != Some(self.queue[i]),
    {
    }

    /// A process that has exited is held by the list of children of its
    /// parent and by nothing else: not by the registry, not by the ready
    /// queue, not as the running task.  So the handle that the parent takes
    /// out of its list when it reaps the child is the only one, and the
    /// strong count is 1 when that handle is dropped.
    pub proof fn lemma_zombie_single_holder(self, pid: usize)
        requires
            self.wf(),
            self.live(pid),
            self.task(pid).status == TaskStatus::Zombie,
            pid != 0,
        ensures
            self.task(pid).parent is Some,
            self.live(self.task(pid).parent.unwrap()),
            self.task(self.task(pid).parent.unwrap()).children.contains(pid),
            self.holders(pid) == set![
                Holder::Child(
                    self.task(pid).parent.unwrap(),
                    self.task(self.task(pid).parent.unwrap()).children.index_of(pid),
                ),
            ],
            self.strong_count(pid) == 1,
            ({
                let parent = self.task(pid).parent.unwrap();
                let kids = self.task(parent).children;
                self.with_task(
                    parent,
                    TaskView { children: kids.remove(kids.index_of(pid)), ..self.task(parent) },
                ).strong_count(pid) == 0
            }),
    {
        let parent = self.task(pid).parent.unwrap();
        let kids = self.task(parent).children;
        let idx = kids.index_of(pid);
        let only = Holder::Child(parent, idx);
        assert(kids.contains(pid));
        assert(0 <= idx < kids.len() && kids[idx] == pid);
        assert forall|h: Holder| self.holders(pid).contains(h) <==> h == only by {
            match h {
                Holder::Registry => {},
                Holder::Current => {},
                Holder::ReadyQueue(i) => {
                    if 0 <= i < self.queue.len() && self.queue[i] == pid {
                        self.lemma_ready_queue(i);
                    }
                },
                Holder::Child(p, i) => {
                    if self.live(p) && 0 <= i < self.task(p).children.len() && self.task(
                        p,
                    ).children[i] == pid {
                        assert(self.task(self.task(p).children[i]).parent == Some(p));
                        assert(p == parent);
                        assert(self.task(p).children.no_duplicates());
                        assert(i == idx);
                    }
                },
            }
        }
        assert(self.holders(pid) =~= set![only]);
        let rest = kids.remove(idx);
        let k = self.with_task(parent, TaskView { children: rest, ..self.task(parent) });
        assert forall|h: Holder| !k.holders(pid).contains(h) by {
            match h {
                Holder::Registry => {},
                Holder::Current => {},
                Holder::ReadyQueue(i) => {
                    if 0 <= i < self.queue.len() && self.queue[i] == pid {
                        self.lemma_ready_queue(i);
                    }
                },
                Holder::Child(p, i) => {
                    if k.live(p) && 0 <= i < k.task(p).children.len() && k.task(p).children[i] == pid {
                        assert(self.live(p));
                        if p == parent {
                            let i0 = if i < idx {
                                i
                            } else {
                                i + 1
                            };
                            assert(rest[i] == kids[i0]);
                            assert(kids[i0] != kids[idx]);
                        } else {
                            assert(self.task(self.task(p).children[i]).parent == Some(p));
                        }
                    }
                },
            }
        }
        assert(k.holders(pid) =~= Set::<Holder>::empty());
    }
}

/// The views of the slots of the table.
pub open spec fn task_views(tasks: Seq<Option<TaskControlBlock>>) -> Seq<Option<TaskView>> {
    Seq::new(
        tasks.len(),
        |i: int|
            match tasks[i] {
                Some(t) => Some(t@),
                None => None,
            },
    )
}

/// The state of the kernel.  The table owns every process control block;
/// slot `pid` holds the block of process `pid`.  The ready queue, the
/// registry and the slot of the running task hold process identifiers.
pub struct Kernel {
    pub tasks: Vec<Option<TaskControlBlock>>,
    pub pid_allocator: PidAllocator,
    pub manager: TaskManager,
    pub pid2tcb: BTreeSet<usize>,
    pub current: Option<usize>,
    pub stvec: TrapEntry,
    pub timer_enabled: bool,
    pub next_trigger: usize,
    pub kernel_satp: usize,
    pub trap_handler: usize,
    pub utsname: Utsname,
}

impl View for Kernel {
    type V = KernelView;

    open spec fn view(&self) -> KernelView {
        KernelView {
            tasks: task_views(self.tasks@),
            queue: self.manager@,
            registry: self.pid2tcb@,
            current: self.current,
            next_pid: self.pid_allocator.current,
            recycled: self.pid_allocator.recycled@,
            stvec: self.stvec,
            timer_enabled: self.timer_enabled,
            next_trigger: self.next_trigger,
            kernel_satp: self.kernel_satp,
            trap_handler: self.trap_handler,
            uts: self.utsname.bytes(),
        }
    }
}

/// The state of the kernel after boot: the initial process of image `data`
/// is in the table, in the registry and in the ready queue, and no task
/// runs yet.
pub open spec fn boot_view(data: Seq<u8>, kernel_satp: usize, trap_handler: usize) -> KernelView {
    KernelView {
        tasks: seq![Some(initproc_view(data, kernel_satp, trap_handler))],
        queue: seq![0usize],
        registry: set![0usize],
        current: None,
        next_pid: 1,
        recycled: Seq::<usize>::empty(),
        stvec: TrapEntry::Kernel,
        timer_enabled: false,
        next_trigger: 0,
        kernel_satp,
        trap_handler,
        uts: default_uts(),
    }
}

/// The state after boot satisfies the invariant.
pub proof fn lemma_boot_wf(data: Seq<u8>, kernel_satp: usize, trap_handler: usize)
    requires
        initproc_view(data, kernel_satp, trap_handler).wf(),
    ensures
        boot_view(data, kernel_satp, trap_handler).wf(),
{
    let k = boot_view(data, kernel_satp, trap_handler);
    assert forall|p: usize| #[trigger] k.live(p) <==> p == 0 by {}
    assert(k.task(0) == initproc_view(data, kernel_satp, trap_handler));
    assert(k.table_wf());
    assert(k.sched_wf()) by {
        assert(k.queue[0] == 0);
    }
    assert(k.registry_wf());
    assert(k.family_wf());
}

impl Kernel {
    /// The kernel after boot, with the initial process made from the image
    /// `initproc_elf`.  `kernel_satp` and `trap_handler` are the two words
    /// that every trap context carries for the trampoline.  Nothing where the
    /// image cannot be started.
    pub fn new(initproc_elf: &[u8], kernel_satp: usize, trap_handler: usize) -> (r: Option<Kernel>)
        ensures
            r is Some <==> exec_ok(initproc_elf@, Seq::<Seq<u8>>::empty(), Seq::<Seq<u8>>::empty()),
            r matches Some(k) ==> k.wf() && k@ == boot_view(initproc_elf@, kernel_satp, trap_handler),
    {
        let init = match TaskControlBlock::new_initproc(initproc_elf, kernel_satp, trap_handler) {
            Some(t) => t,
            None => {
                return None;
            },
        };
        let mut k = Kernel {
            tasks: Vec::new(),
            pid_allocator: PidAllocator::new(),
            manager: TaskManager::new(),
            pid2tcb: BTreeSet::new(),
            current: None,
            stvec: TrapEntry::Kernel,
            timer_enabled: false,
            next_trigger: 0,
            kernel_satp,
            trap_handler,
            utsname: Utsname::new(),
        };
        let pid = k.pid_allocator.allocate();
        assert(pid == Some(0usize));
        k.tasks.push(Some(init));
        add_task(&mut k, 0);
        proof {
            let want = boot_view(initproc_elf@, kernel_satp, trap_handler);
            assert(k@.tasks =~= want.tasks);
            assert(k@.queue =~= want.queue);
            assert(k@.registry =~= want.registry);
            lemma_boot_wf(initproc_elf@, kernel_satp, trap_handler);
        }
        Some(k)
    }

    /// See [`KernelView::wf`].
    pub open spec fn wf(&self) -> bool {
        self@.wf()
    }

    /// The process control block of process `pid`.
    pub fn task_ref(&self, pid: usize) -> (t: &TaskControlBlock)
        requires
            self@.live(pid),
        ensures
            t@ == self@.task(pid),
    {
        self.tasks[pid].as_ref().unwrap()
    }

    /// The process control block of process `pid`, to change it.
    pub fn task_mut(&mut self, pid: usize) -> (t: &mut TaskControlBlock)
        requires
            old(self)@.live(pid),
        ensures
            t@ == old(self)@.task(pid),
            final(self)@ == old(self)@.with_task(pid, final(t)@),
    {
        let ghost pre = self.tasks@;
        let t = self.tasks[pid].as_mut().unwrap();
        proof {
            assert(task_views(pre.update(pid as int, Some(*final(t)))) =~= task_views(pre).update(
                pid as int,
                Some(final(t)@),
            ));
        }
        t
    }

    /// The identifier of the running task.
    pub fn current_task(&self) -> (r: Option<usize>)
        ensures
            r == self@.current,
    {
        self.current
    }
}

} // verus!
