//! The ready queue and the registry of process identifiers.
use crate::signal::SignalFlags;
use crate::task::kernel::{Kernel, KernelView};
use std::collections::VecDeque;
use vstd::prelude::*;

verus! {

broadcast use {vstd::std_specs::btree::group_btree_axioms, vstd::laws_cmp::group_laws_cmp};

/// The tasks that are ready to run, first come first served.
pub struct TaskManager {
    pub ready_queue: VecDeque<usize>,
}

impl View for TaskManager {
    type V = Seq<usize>;

    open spec fn view(&self) -> Seq<usize> {
        self.ready_queue@
    }
}

impl TaskManager {
    /// An empty queue.
    pub fn new() -> (m: Self)
        ensures
            m@ == Seq::<usize>::empty(),
    {
        Self { ready_queue: VecDeque::new() }
    }

    /// Puts `task` at the back of the queue.
    pub fn add(&mut self, task: usize)
        ensures
            final(self)@ == old(self)@.push(task),
    {
        self.ready_queue.push_back(task);
    }

    /// Takes the task at the front of the queue.
    pub fn fetch(&mut self) -> (r: Option<usize>)
        ensures
            old(self)@.len() == 0 ==> r is None && final(self)@ == old(self)@,
            old(self)@.len() > 0 ==> r == Some(old(self)@[0]) && final(self)@ == old(self)@.subrange(
                1,
                old(self)@.len() as int,
            ),
    {
        self.ready_queue.pop_front()
    }
}

/// Enters `task` in the registry and puts it at the back of the ready queue.
pub fn add_task(k: &mut Kernel, task: usize)
    ensures
        final(k)@ == (KernelView {
            registry: old(k)@.registry.insert(task),
            queue: old(k)@.queue.push(task),
            ..old(k)@
        }),
{
    k.pid2tcb.insert(task);
    k.manager.add(task);
}

/// The queue without its first task.
pub open spec fn rest_of(queue: Seq<usize>) -> Seq<usize> {
    if queue.len() > 0 {
        queue.subrange(1, queue.len() as int)
    } else {
        queue
    }
}

/// Takes the task at the front of the ready queue.
pub fn fetch_task(k: &mut Kernel) -> (r: Option<usize>)
    ensures
        r == if old(k)@.queue.len() > 0 {
            Some(old(k)@.queue[0])
        } else {
            None
        },
        final(k)@ == (KernelView { queue: rest_of(old(k)@.queue), ..old(k)@ }),
{
    k.manager.fetch()
}

/// The handle of the process that the registry holds under `pid`.
pub fn pid2task(k: &Kernel, pid: usize) -> (r: Option<usize>)
    ensures
        r == if k@.registry.contains(pid) {
            Some(pid)
        } else {
            None
        },
{
    if k.pid2tcb.contains(&pid) {
        Some(pid)
    } else {
        None
    }
}

/// Takes `pid` out of the registry.
pub fn remove_from_pid2task(k: &mut Kernel, pid: usize)
    requires
        old(k)@.registry.contains(pid),
    ensures
        final(k)@ == (KernelView { registry: old(k)@.registry.remove(pid), ..old(k)@ }),
{
    k.pid2tcb.remove(&pid);
}

/// The identifier and the pending signals of each task in the ready queue,
/// from the front of the queue to the back, for a dump of the queue.
pub fn debug_show_ready_queue(k: &Kernel) -> (lines: Vec<(usize, SignalFlags)>)
    requires
        k.wf(),
    ensures
        lines@.len() == k@.queue.len(),
        forall|i: int|
            0 <= i < lines@.len() ==> (#[trigger] lines@[i]).0 == k@.queue[i] && lines@[i].1 == k@.task(
                k@.queue[i],
            ).signals,
{
    let mut lines: Vec<(usize, SignalFlags)> = Vec::new();
    let n = k.manager.ready_queue.len();
    let mut i: usize = 0;
    while i < n
        invariant
            i <= n,
            n == k@.queue.len(),
            k.wf(),
            lines@.len() == i,
            forall|j: int|
                0 <= j < i ==> (#[trigger] lines@[j]).0 == k@.queue[j] && lines@[j].1 == k@.task(
                    k@.queue[j],
                ).signals,
        decreases n - i,
    {
        let pid = k.manager.ready_queue[i];
        assert(k@.live(k@.queue[i as int]));
        let task = k.task_ref(pid);
        lines.push((pid, task.signals));
        i += 1;
    }
    lines
}

} // verus!
