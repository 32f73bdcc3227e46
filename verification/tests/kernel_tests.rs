use kernel_core::config::{PAGE_SIZE, TRAP_CONTEXT, USER_STACK_SIZE};
use kernel_core::mm::area::{MapArea, MapPermission, MapType};
use kernel_core::signal::SignalFlags;
use kernel_core::syscall::dispatch::{
    SYSCALL_BRK, SYSCALL_EXEC, SYSCALL_EXIT, SYSCALL_FORK, SYSCALL_GETPID, SYSCALL_GETPPID,
    SYSCALL_KILL, SYSCALL_MMAP, SYSCALL_MUNMAP, SYSCALL_NANOSLEEP, SYSCALL_SBRK, SYSCALL_WAIT4,
    SYSCALL_YIELD,
};
use kernel_core::task::kernel::{Kernel, TrapEntry};
use kernel_core::task::manager::debug_show_ready_queue;
use kernel_core::task::schedule::run_next;
use kernel_core::task::task::{FileDescriptor, FileKind, TaskControlBlock, TaskStatus};
use kernel_core::trap::handler::{trap_handler, trap_request, FsRequest, TrapReturn};

const ECALL: usize = 8;
const ILLEGAL: usize = 2;
const LOAD_PAGE_FAULT: usize = 13;
const STORE_PAGE_FAULT: usize = 15;
const TIMER: usize = (1usize << 63) | 5;

const ENTRY: usize = 0x1_0000;
// The image below ends at page 0x22: a free page, the stack, a free page, the heap.
const STACK_TOP: usize = 0x22 * 4096 + 4096 + USER_STACK_SIZE;
const HEAP_BASE: usize = STACK_TOP + 4096;

fn put16(out: &mut Vec<u8>, v: u16) {
    out.extend_from_slice(&v.to_le_bytes());
}

fn put32(out: &mut Vec<u8>, v: u32) {
    out.extend_from_slice(&v.to_le_bytes());
}

fn put64(out: &mut Vec<u8>, v: u64) {
    out.extend_from_slice(&v.to_le_bytes());
}

/// A 64-bit little-endian image with one program header per segment:
/// (address, flags, bytes in the file, bytes in memory).
fn build_elf(entry: u64, segments: &[(u64, u32, Vec<u8>, u64)]) -> Vec<u8> {
    let mut out: Vec<u8> = vec![0x7f, 0x45, 0x4c, 0x46, 2, 1, 1, 0];
    out.extend_from_slice(&[0u8; 8]);
    put16(&mut out, 2);
    put16(&mut out, 243);
    put32(&mut out, 1);
    put64(&mut out, entry);
    put64(&mut out, 64);
    put64(&mut out, 0);
    put32(&mut out, 0);
    put16(&mut out, 64);
    put16(&mut out, 56);
    put16(&mut out, segments.len() as u16);
    put16(&mut out, 0);
    put16(&mut out, 0);
    put16(&mut out, 0);
    assert_eq!(out.len(), 64);
    let mut offset = 64 + 56 * segments.len() as u64;
    for (vaddr, flags, data, memsz) in segments {
        put32(&mut out, 1);
        put32(&mut out, *flags);
        put64(&mut out, offset);
        put64(&mut out, *vaddr);
        put64(&mut out, *vaddr);
        put64(&mut out, data.len() as u64);
        put64(&mut out, *memsz);
        put64(&mut out, 4096);
        offset += data.len() as u64;
    }
    for (_, _, data, _) in segments {
        out.extend_from_slice(data);
    }
    out
}

/// A program with a page of code at 0x10000 and two pages of data at 0x20000.
fn program(tag: u8) -> Vec<u8> {
    build_elf(
        ENTRY as u64,
        &[
            (0x1_0000, 5, vec![0x73, 0, 0, 0, tag], 0x1000),
            (0x2_0000, 6, vec![1, 2, 3, 4], 0x2000),
        ],
    )
}

fn boot() -> Kernel {
    let mut k = Kernel::new(&program(0), 0x8000_0000, 0x8020_0000).unwrap();
    run_next(&mut k);
    k
}

fn task(k: &Kernel, pid: usize) -> &TaskControlBlock {
    k.tasks[pid].as_ref().unwrap()
}

fn task_mut(k: &mut Kernel, pid: usize) -> &mut TaskControlBlock {
    k.tasks[pid].as_mut().unwrap()
}

/// The running task makes system call `id`.
fn ecall_with(k: &mut Kernel, id: usize, args: [usize; 6], now: usize, image: Option<&[u8]>) -> TrapReturn {
    let me = k.current.unwrap();
    let cx = &mut task_mut(k, me).trap_cx;
    cx.x[17] = id;
    for i in 0..6 {
        cx.x[10 + i] = args[i];
    }
    trap_handler(k, ECALL, 0, now, image)
}

fn ecall(k: &mut Kernel, id: usize, args: [usize; 6]) -> TrapReturn {
    ecall_with(k, id, args, 0, None)
}

fn a0(k: &Kernel, pid: usize) -> isize {
    task(k, pid).trap_cx.x[10] as isize
}

fn user(pid: usize) -> TrapReturn {
    TrapReturn::User { pid, trap_cx_ptr: TRAP_CONTEXT }
}

/// Stores `data` in the memory of task `pid` as user mode would.
fn user_store(k: &mut Kernel, pid: usize, va: usize, data: &[u8]) {
    for (i, b) in data.iter().enumerate() {
        assert!(task_mut(k, pid).memory_set.store_byte(va + i, *b));
    }
}

fn user_load(k: &Kernel, pid: usize, va: usize) -> Option<u8> {
    task(k, pid).memory_set.load_byte(va)
}

fn user_load_i32(k: &Kernel, pid: usize, va: usize) -> i32 {
    let mut b = [0u8; 4];
    for i in 0..4 {
        b[i] = user_load(k, pid, va + i).unwrap();
    }
    i32::from_le_bytes(b)
}

fn user_load_word(k: &Kernel, pid: usize, va: usize) -> usize {
    let mut b = [0u8; 8];
    for i in 0..8 {
        b[i] = user_load(k, pid, va + i).unwrap();
    }
    u64::from_le_bytes(b) as usize
}

fn user_load_cstr(k: &Kernel, pid: usize, va: usize) -> Vec<u8> {
    let mut out = Vec::new();
    let mut a = va;
    loop {
        let b = user_load(k, pid, a).unwrap();
        if b == 0 {
            return out;
        }
        out.push(b);
        a += 1;
    }
}

/// A scratch address on the stack of a task, far below the initial stack.
fn scratch() -> usize {
    STACK_TOP - 0x4000
}

/// How many places hold a handle to `pid`.
fn strong_count(k: &Kernel, pid: usize) -> usize {
    let mut n = 0;
    if k.pid2tcb.contains(&pid) {
        n += 1;
    }
    if k.current == Some(pid) {
        n += 1;
    }
    n += k.manager.ready_queue.iter().filter(|p| **p == pid).count();
    for t in k.tasks.iter().flatten() {
        n += t.children.iter().filter(|p| **p == pid).count();
    }
    n
}

/// The invariants of the ready queue and of the address spaces.
fn check_invariants(k: &Kernel) {
    for pid in k.manager.ready_queue.iter() {
        assert_eq!(task(k, *pid).status, TaskStatus::Ready);
        assert_ne!(k.current, Some(*pid));
    }
    for (pid, slot) in k.tasks.iter().enumerate() {
        if let Some(t) = slot {
            assert_eq!(t.pid, pid);
            if t.status == TaskStatus::Ready {
                assert_eq!(k.manager.ready_queue.iter().filter(|p| **p == pid).count(), 1);
            }
            if t.status == TaskStatus::Running {
                assert_eq!(k.current, Some(pid));
            }
            assert_eq!(k.pid2tcb.contains(&pid), t.status != TaskStatus::Zombie);
            let areas = &t.memory_set.areas;
            assert_eq!(
                areas[0],
                MapArea {
                    start_vpn: usize::MAX / PAGE_SIZE,
                    end_vpn: usize::MAX / PAGE_SIZE + 1,
                    map_type: MapType::Identical,
                    map_perm: MapPermission { r: true, w: false, x: true, u: false },
                }
            );
            assert_eq!(
                areas[1],
                MapArea {
                    start_vpn: TRAP_CONTEXT / PAGE_SIZE,
                    end_vpn: TRAP_CONTEXT / PAGE_SIZE + 1,
                    map_type: MapType::Framed,
                    map_perm: MapPermission { r: true, w: true, x: false, u: false },
                }
            );
        }
    }
}

#[test]
fn boot_runs_the_initial_process() {
    let mut k = Kernel::new(&program(0), 0x8000_0000, 0x8020_0000).unwrap();
    assert_eq!(k.current, None);
    assert_eq!(debug_show_ready_queue(&k), vec![(0, SignalFlags::empty())]);
    assert!(k.pid2tcb.contains(&0));
    assert_eq!(k.stvec, TrapEntry::Kernel);
    run_next(&mut k);
    assert_eq!(k.current, Some(0));
    assert!(k.manager.ready_queue.is_empty());
    let t = task(&k, 0);
    assert_eq!(t.status, TaskStatus::Running);
    assert_eq!(t.parent, None);
    assert_eq!(t.trap_cx.sepc, ENTRY);
    assert_eq!(t.trap_cx.kernel_satp, 0x8000_0000);
    assert_eq!(t.trap_cx.trap_handler, 0x8020_0000);
    assert_eq!(t.trap_cx.kernel_sp, usize::MAX - 4095);
    assert_eq!(t.heap_base, HEAP_BASE);
    assert_eq!(t.heap_end, HEAP_BASE);
    assert_eq!(t.current_path, vec![b'/']);
    assert_eq!(t.fd_table.len(), 3);
    // No arguments: the count, two null words, rounded down to sixteen bytes.
    assert_eq!(t.trap_cx.x[2], STACK_TOP - 32);
    assert_eq!(t.trap_cx.x[10], 0);
    assert_eq!(user_load(&k, 0, 0x1_0000), Some(0x73));
    assert_eq!(user_load(&k, 0, 0x2_0003), Some(4));
    assert_eq!(user_load(&k, 0, 0x2_1fff), Some(0));
    check_invariants(&k);
}

#[test]
fn boot_refuses_a_file_that_is_no_image() {
    assert!(Kernel::new(&[0u8; 64], 0, 0).is_none());
    assert!(Kernel::new(&[], 0, 0).is_none());
}

#[test]
fn a_system_call_returns_behind_the_ecall() {
    let mut k = boot();
    task_mut(&mut k, 0).trap_cx.sepc = 0x1_0040;
    assert_eq!(ecall(&mut k, SYSCALL_GETPID, [0; 6]), user(0));
    assert_eq!(task(&k, 0).trap_cx.sepc, 0x1_0044);
    assert_eq!(a0(&k, 0), 0);
    assert_eq!(k.stvec, TrapEntry::User);
}

#[test]
fn an_unknown_system_call_returns_minus_one() {
    let mut k = boot();
    assert_eq!(ecall(&mut k, 9999, [0; 6]), user(0));
    assert_eq!(a0(&k, 0), -1);
    check_invariants(&k);
}

#[test]
fn fork_round_trip() {
    let mut k = boot();
    assert_eq!(ecall(&mut k, SYSCALL_FORK, [17, 0, 0, 0, 0, 0]), user(0));
    let pid = a0(&k, 0);
    assert_eq!(pid, 1);
    assert_eq!(task(&k, 0).children, vec![1]);
    assert_eq!(task(&k, 1).status, TaskStatus::Ready);
    assert_eq!(task(&k, 1).trap_cx.x[10], 0);
    assert_eq!(task(&k, 1).trap_cx.sepc, task(&k, 0).trap_cx.sepc);
    assert_eq!(task(&k, 1).trap_cx.kernel_sp, usize::MAX - 4095 - 12288);
    check_invariants(&k);
    // The parent yields, and the child asks who it is.
    assert_eq!(ecall(&mut k, SYSCALL_YIELD, [0; 6]), user(1));
    assert_eq!(a0(&k, 0), 0);
    assert_eq!(ecall(&mut k, SYSCALL_GETPID, [0; 6]), user(1));
    assert_eq!(a0(&k, 1), pid);
    assert_eq!(ecall(&mut k, SYSCALL_GETPPID, [0; 6]), user(1));
    assert_eq!(a0(&k, 1), 0);
    check_invariants(&k);
}

#[test]
fn fork_with_a_stack_pointer_sets_the_stack_of_the_child() {
    let mut k = boot();
    let parent_sp = task(&k, 0).trap_cx.x[2];
    ecall(&mut k, SYSCALL_FORK, [17, 0x2_1000, 0, 0, 0, 0]);
    assert_eq!(task(&k, 1).trap_cx.x[2], 0x2_1000);
    assert_eq!(task(&k, 0).trap_cx.x[2], parent_sp);
}

#[test]
fn fork_refuses_flags_above_bit_31() {
    let mut k = boot();
    ecall(&mut k, SYSCALL_FORK, [1usize << 32, 0, 0, 0, 0, 0]);
    assert_eq!(a0(&k, 0), -1);
    assert_eq!(k.tasks.len(), 1);
    assert!(task(&k, 0).children.is_empty());
}

#[test]
fn child_runs_hello_and_parent_waits() {
    let mut k = boot();
    ecall(&mut k, SYSCALL_FORK, [17, 0, 0, 0, 0, 0]);
    let child = a0(&k, 0) as usize;
    // The parent waits; no child has exited, so the child comes to run.
    let status = scratch();
    assert_eq!(ecall(&mut k, SYSCALL_WAIT4, [usize::MAX, status, 0, 0, 0, 0]), user(child));
    // The child replaces its program.
    let path = scratch();
    user_store(&mut k, child, path, b"hello\0");
    let hello = program(7);
    assert_eq!(ecall_with(&mut k, SYSCALL_EXEC, [path, 0, 0, 0, 0, 0], 0, Some(&hello)), user(child));
    assert_eq!(a0(&k, child), 0);
    assert_eq!(task(&k, child).trap_cx.sepc, ENTRY);
    assert_eq!(user_load(&k, child, 0x1_0004), Some(7));
    check_invariants(&k);
    // The child exits; the parent runs its wait again and gets the child.
    assert_eq!(ecall(&mut k, SYSCALL_EXIT, [0; 6]), user(0));
    assert_eq!(task(&k, child).status, TaskStatus::Zombie);
    assert_eq!(trap_handler(&mut k, ECALL, 0, 0, None), user(0));
    assert_eq!(a0(&k, 0), child as isize);
    assert_eq!(user_load_i32(&k, 0, status), 0);
    assert!(k.tasks[child].is_none());
    check_invariants(&k);
}

#[test]
fn two_children_exit_and_parent_waits_twice() {
    let mut k = boot();
    ecall(&mut k, SYSCALL_FORK, [17, 0, 0, 0, 0, 0]);
    let a = a0(&k, 0) as usize;
    ecall(&mut k, SYSCALL_FORK, [17, 0, 0, 0, 0, 0]);
    let b = a0(&k, 0) as usize;
    assert_eq!((a, b), (1, 2));
    // The parent gives way; A sleeps fifty milliseconds, B is busy for a hundred.
    assert_eq!(ecall(&mut k, SYSCALL_YIELD, [0; 6]), user(a));
    let tv = scratch();
    let mut interval = Vec::new();
    interval.extend_from_slice(&0u64.to_le_bytes());
    interval.extend_from_slice(&50_000u64.to_le_bytes());
    user_store(&mut k, a, tv, &interval);
    let ms = 12_500;
    assert_eq!(ecall_with(&mut k, SYSCALL_NANOSLEEP, [tv, 0, 0, 0, 0, 0], 0, None), user(b));
    assert_eq!(task(&k, a).sleep_until, Some(50));
    // B runs until the timer takes the processor away.
    assert_eq!(trap_handler(&mut k, TIMER, 0, 10 * ms, None), user(0));
    assert_eq!(k.next_trigger, 10 * ms + 125_000);
    let status = scratch();
    // The parent waits, A is still asleep, B runs on.
    assert_eq!(ecall_with(&mut k, SYSCALL_WAIT4, [usize::MAX, status, 0, 0, 0, 0], 20 * ms, None), user(a));
    assert_eq!(trap_handler(&mut k, ECALL, 0, 30 * ms, None), user(b));
    assert_eq!(trap_handler(&mut k, TIMER, 0, 40 * ms, None), user(0));
    assert_eq!(trap_handler(&mut k, ECALL, 0, 45 * ms, None), user(a));
    // Fifty milliseconds have passed: A wakes and exits with 11.
    assert_eq!(trap_handler(&mut k, ECALL, 0, 50 * ms, None), user(a));
    assert_eq!(a0(&k, a), 0);
    assert_eq!(task(&k, a).sleep_until, None);
    assert_eq!(ecall_with(&mut k, SYSCALL_EXIT, [11, 0, 0, 0, 0, 0], 51 * ms, None), user(b));
    assert_eq!(trap_handler(&mut k, TIMER, 0, 60 * ms, None), user(0));
    // The parent finds A.
    assert_eq!(trap_handler(&mut k, ECALL, 0, 61 * ms, None), user(0));
    assert_eq!(a0(&k, 0), a as isize);
    assert_eq!(user_load_i32(&k, 0, status), 11 << 8);
    // B exits with 22 after its hundred milliseconds.
    assert_eq!(ecall_with(&mut k, SYSCALL_WAIT4, [usize::MAX, status, 0, 0, 0, 0], 62 * ms, None), user(b));
    assert_eq!(ecall_with(&mut k, SYSCALL_EXIT, [22, 0, 0, 0, 0, 0], 100 * ms, None), user(0));
    assert_eq!(trap_handler(&mut k, ECALL, 0, 101 * ms, None), user(0));
    assert_eq!(a0(&k, 0), b as isize);
    assert_eq!(user_load_i32(&k, 0, status), 22 << 8);
    assert!(k.manager.ready_queue.is_empty());
    assert!(task(&k, 0).children.is_empty());
    // No child is left to wait for.
    ecall(&mut k, SYSCALL_WAIT4, [usize::MAX, status, 0, 0, 0, 0]);
    assert_eq!(a0(&k, 0), -1);
    check_invariants(&k);
}

#[test]
fn heap_is_copied_by_fork() {
    let mut k = boot();
    ecall(&mut k, SYSCALL_BRK, [0; 6]);
    let x = a0(&k, 0) as usize;
    assert_eq!(x, HEAP_BASE);
    ecall(&mut k, SYSCALL_BRK, [x + 4096, 0, 0, 0, 0, 0]);
    assert_eq!(a0(&k, 0) as usize, x + 4096);
    // The page gets its frame at the first store.
    assert_eq!(user_load(&k, 0, x + 100), None);
    assert_eq!(trap_handler(&mut k, STORE_PAGE_FAULT, x + 100, 0, None), user(0));
    assert!(task(&k, 0).signals.is_empty());
    user_store(&mut k, 0, x + 100, &[0xAB]);
    ecall(&mut k, SYSCALL_FORK, [17, 0, 0, 0, 0, 0]);
    let child = a0(&k, 0) as usize;
    assert_eq!(user_load(&k, child, x + 100), Some(0xAB));
    user_store(&mut k, child, x + 100, &[0xCD]);
    assert_eq!(user_load(&k, child, x + 100), Some(0xCD));
    assert_eq!(user_load(&k, 0, x + 100), Some(0xAB));
    check_invariants(&k);
}

#[test]
fn anonymous_mapping_is_lazy_and_unmapping_it_is_fatal() {
    let mut k = boot();
    ecall(&mut k, SYSCALL_FORK, [17, 0, 0, 0, 0, 0]);
    let child = a0(&k, 0) as usize;
    assert_eq!(ecall(&mut k, SYSCALL_YIELD, [0; 6]), user(child));
    // mmap(NULL, 8192, read | write, anonymous | private, -1, 0)
    ecall(&mut k, SYSCALL_MMAP, [0, 8192, 3, 0x22, usize::MAX, 0]);
    let v = a0(&k, child) as usize;
    assert_eq!(v, 0x6000_0000 - 8192);
    assert_eq!(task(&k, child).mmap_top, v);
    assert!(task(&k, child).memory_set.frames.get(&(v / 4096)).is_none());
    assert_eq!(trap_handler(&mut k, LOAD_PAGE_FAULT, v, 0, None), user(child));
    assert_eq!(user_load(&k, child, v), Some(0));
    assert_eq!(user_load(&k, child, v + 4096), None);
    assert_eq!(trap_handler(&mut k, LOAD_PAGE_FAULT, v + 4096, 0, None), user(child));
    assert_eq!(user_load(&k, child, v + 4096), Some(0));
    assert!(task(&k, child).signals.is_empty());
    ecall(&mut k, SYSCALL_MUNMAP, [v, 8192, 0, 0, 0, 0]);
    assert_eq!(a0(&k, child), 0);
    assert_eq!(user_load(&k, child, v), None);
    // The next access is a segmentation fault: the child exits with -11.
    assert_eq!(trap_handler(&mut k, LOAD_PAGE_FAULT, v, 0, None), user(0));
    assert_eq!(task(&k, child).status, TaskStatus::Zombie);
    assert_eq!(task(&k, child).exit_code, -11);
    let status = scratch();
    ecall(&mut k, SYSCALL_WAIT4, [child, status, 0, 0, 0, 0]);
    assert_eq!(a0(&k, 0), child as isize);
    assert_eq!(user_load_i32(&k, 0, status), -11 * 256);
    check_invariants(&k);
}

#[test]
fn illegal_instruction_ends_the_process() {
    let mut k = boot();
    ecall(&mut k, SYSCALL_FORK, [17, 0, 0, 0, 0, 0]);
    let child = a0(&k, 0) as usize;
    assert_eq!(ecall(&mut k, SYSCALL_YIELD, [0; 6]), user(child));
    assert_eq!(trap_handler(&mut k, ILLEGAL, 0, 0, None), user(0));
    assert_eq!(task(&k, child).status, TaskStatus::Zombie);
    assert_eq!(task(&k, child).exit_code, -4);
    let status = scratch();
    ecall(&mut k, SYSCALL_WAIT4, [usize::MAX, status, 0, 0, 0, 0]);
    assert_eq!(a0(&k, 0), child as isize);
    assert_eq!(user_load_i32(&k, 0, status), -4 * 256);
}

#[test]
fn timer_shares_the_processor_among_two_children() {
    let mut k = boot();
    ecall(&mut k, SYSCALL_FORK, [17, 0, 0, 0, 0, 0]);
    ecall(&mut k, SYSCALL_FORK, [17, 0, 0, 0, 0, 0]);
    // The parent waits for its children and only ever runs to try again.
    let mut at = ecall(&mut k, SYSCALL_WAIT4, [usize::MAX, 0, 0, 0, 0, 0]);
    let mut ticks = [0usize; 3];
    let mut now = 0;
    // One second of hundred timer ticks.
    while ticks[1] + ticks[2] < 100 {
        match at {
            TrapReturn::User { pid: 0, .. } => {
                // The parent runs its wait again at once.
                at = trap_handler(&mut k, ECALL, 0, now, None);
            },
            TrapReturn::User { pid, .. } => {
                now += 125_000;
                ticks[pid] += 1;
                at = trap_handler(&mut k, TIMER, 0, now, None);
            },
            TrapReturn::Idle => panic!("a task is always ready"),
        }
        check_invariants(&k);
    }
    assert!(ticks[1] >= 40, "{:?}", ticks);
    assert!(ticks[2] >= 40, "{:?}", ticks);
    assert_eq!(k.next_trigger, now + 125_000);
}

#[test]
fn a_reaped_child_is_gone_and_its_identifier_is_used_again() {
    let mut k = boot();
    ecall(&mut k, SYSCALL_FORK, [17, 0, 0, 0, 0, 0]);
    let child = a0(&k, 0) as usize;
    ecall(&mut k, SYSCALL_KILL, [child, 0, 0, 0, 0, 0]);
    assert_eq!(a0(&k, 0), 0);
    ecall(&mut k, SYSCALL_YIELD, [0; 6]);
    ecall(&mut k, SYSCALL_EXIT, [3, 0, 0, 0, 0, 0]);
    // A zombie is out of the registry already.
    ecall(&mut k, SYSCALL_KILL, [child, 0, 0, 0, 0, 0]);
    assert_eq!(a0(&k, 0), 1);
    ecall(&mut k, SYSCALL_WAIT4, [child, 0, 0, 0, 0, 0]);
    assert_eq!(a0(&k, 0), child as isize);
    ecall(&mut k, SYSCALL_KILL, [child, 0, 0, 0, 0, 0]);
    assert_eq!(a0(&k, 0), 1);
    ecall(&mut k, SYSCALL_KILL, [child, 9, 0, 0, 0, 0]);
    assert_eq!(a0(&k, 0), 1);
    assert!(k.tasks[child].is_none());
    assert_eq!(k.pid_allocator.recycled, vec![child]);
    ecall(&mut k, SYSCALL_FORK, [17, 0, 0, 0, 0, 0]);
    assert_eq!(a0(&k, 0), child as isize);
    check_invariants(&k);
}

#[test]
fn a_zombie_is_held_by_its_parent_alone() {
    let mut k = boot();
    ecall(&mut k, SYSCALL_FORK, [17, 0, 0, 0, 0, 0]);
    let child = a0(&k, 0) as usize;
    assert_eq!(strong_count(&k, child), 3);
    ecall(&mut k, SYSCALL_YIELD, [0; 6]);
    assert_eq!(strong_count(&k, child), 3);
    ecall(&mut k, SYSCALL_EXIT, [0; 6]);
    assert_eq!(task(&k, child).status, TaskStatus::Zombie);
    assert_eq!(strong_count(&k, child), 1);
    assert_eq!(task(&k, 0).children, vec![child]);
    // Its user memory is gone, the trampoline and the trap context are left.
    assert_eq!(task(&k, child).memory_set.areas.len(), 2);
    assert!(task(&k, child).memory_set.frames.is_empty());
    check_invariants(&k);
}

#[test]
fn orphans_go_to_the_initial_process() {
    let mut k = boot();
    ecall(&mut k, SYSCALL_FORK, [17, 0, 0, 0, 0, 0]);
    assert_eq!(ecall(&mut k, SYSCALL_YIELD, [0; 6]), user(1));
    ecall(&mut k, SYSCALL_FORK, [17, 0, 0, 0, 0, 0]);
    ecall(&mut k, SYSCALL_FORK, [17, 0, 0, 0, 0, 0]);
    assert_eq!(task(&k, 1).children, vec![2, 3]);
    assert_eq!(task(&k, 2).parent, Some(1));
    ecall(&mut k, SYSCALL_EXIT, [5, 0, 0, 0, 0, 0]);
    assert_eq!(task(&k, 0).children, vec![1, 2, 3]);
    assert!(task(&k, 1).children.is_empty());
    assert_eq!(task(&k, 2).parent, Some(0));
    assert_eq!(task(&k, 3).parent, Some(0));
    assert_eq!(task(&k, 2).tgid, 1);
    assert_eq!(task(&k, 1).exit_code, 5);
    check_invariants(&k);
}

#[test]
fn the_last_task_to_exit_leaves_the_processor_idle() {
    let mut k = boot();
    assert_eq!(ecall(&mut k, SYSCALL_EXIT, [1, 0, 0, 0, 0, 0]), TrapReturn::Idle);
    assert_eq!(k.current, None);
    assert_eq!(task(&k, 0).status, TaskStatus::Zombie);
    assert_eq!(k.stvec, TrapEntry::Kernel);
    check_invariants(&k);
}

#[test]
fn exec_hands_over_the_arguments() {
    let mut k = boot();
    let path = scratch();
    let argv = scratch() + 0x100;
    user_store(&mut k, 0, path, b"/bin/foo\0");
    user_store(&mut k, 0, path + 0x20, b"foo\0");
    user_store(&mut k, 0, path + 0x30, b"a\0");
    user_store(&mut k, 0, path + 0x40, b"b\0");
    let mut array = Vec::new();
    for p in [path + 0x20, path + 0x30, path + 0x40, 0] {
        array.extend_from_slice(&(p as u64).to_le_bytes());
    }
    user_store(&mut k, 0, argv, &array);
    let foo = program(9);
    assert_eq!(ecall_with(&mut k, SYSCALL_EXEC, [path, argv, 0, 0, 0, 0], 0, Some(&foo)), user(0));
    let cx = task(&k, 0).trap_cx;
    assert_eq!(cx.x[10], 0);
    assert_eq!(cx.sepc, ENTRY);
    let sp = cx.x[2];
    assert_eq!(sp % 16, 0);
    assert_eq!(cx.x[11], sp + 8);
    assert_eq!(cx.x[12], sp + 8 + 8 * 4);
    assert_eq!(user_load_word(&k, 0, sp), 3);
    let arg = |i: usize| user_load_cstr(&k, 0, user_load_word(&k, 0, sp + 8 + 8 * i));
    assert_eq!(arg(0), b"foo");
    assert_eq!(arg(1), b"a");
    assert_eq!(arg(2), b"b");
    assert_eq!(user_load_word(&k, 0, sp + 8 + 8 * 3), 0);
    let env = |i: usize| user_load_cstr(&k, 0, user_load_word(&k, 0, cx.x[12] + 8 * i));
    assert_eq!(env(0), b"LD_LIBRARY_PATH=/");
    assert_eq!(env(1), b"PATH=/");
    assert_eq!(env(2), b"ENOUGH=2500");
    assert_eq!(user_load_word(&k, 0, cx.x[12] + 8 * 3), 0);
    // 8 + 32 + 32 bytes of words, 10 bytes of arguments, 37 of environment.
    assert_eq!(sp, (STACK_TOP - 119) / 16 * 16);
    // The old program is gone.
    assert_eq!(user_load(&k, 0, 0x1_0004), Some(9));
    assert_eq!(user_load(&k, 0, path), Some(0));
    check_invariants(&k);
}

#[test]
fn exec_of_a_script_runs_the_shell() {
    let mut k = boot();
    let path = scratch();
    let argv = scratch() + 0x100;
    user_store(&mut k, 0, path, b"run.sh\0");
    user_store(&mut k, 0, path + 0x20, b"run.sh\0");
    let mut array = Vec::new();
    for p in [path + 0x20, 0] {
        array.extend_from_slice(&(p as u64).to_le_bytes());
    }
    user_store(&mut k, 0, argv, &array);
    let file = kernel_core::syscall::process::exec_path(&k, path).unwrap();
    assert_eq!(file, (b"/".to_vec(), b"busybox".to_vec()));
    let args = kernel_core::syscall::process::read_exec_args(&k, path, argv).unwrap();
    assert_eq!(args, vec![b"./busybox".to_vec(), b"sh".to_vec(), b"run.sh".to_vec()]);
    let shell = program(1);
    ecall_with(&mut k, SYSCALL_EXEC, [path, argv, 0, 0, 0, 0], 0, Some(&shell));
    assert_eq!(a0(&k, 0), 0);
    let sp = task(&k, 0).trap_cx.x[2];
    assert_eq!(user_load_word(&k, 0, sp), 3);
    assert_eq!(user_load_cstr(&k, 0, user_load_word(&k, 0, sp + 8)), b"./busybox");
    assert_eq!(user_load_cstr(&k, 0, user_load_word(&k, 0, sp + 24)), b"run.sh");
}

#[test]
fn exec_names_the_file_to_open() {
    let mut k = boot();
    let path = scratch();
    user_store(&mut k, 0, path, b"bin/ls\0");
    let file = kernel_core::syscall::process::exec_path(&k, path).unwrap();
    assert_eq!(file, (b"/".to_vec(), b"bin/ls".to_vec()));
    assert!(kernel_core::syscall::process::exec_path(&k, 0).is_none());
}

#[test]
fn exec_fails_without_a_file_or_with_a_bad_one() {
    let mut k = boot();
    let path = scratch();
    user_store(&mut k, 0, path, b"nothing\0");
    let sepc = task(&k, 0).trap_cx.sepc;
    ecall_with(&mut k, SYSCALL_EXEC, [path, 0, 0, 0, 0, 0], 0, None);
    assert_eq!(a0(&k, 0), -1);
    assert_eq!(task(&k, 0).trap_cx.sepc, sepc + 4);
    ecall_with(&mut k, SYSCALL_EXEC, [path, 0, 0, 0, 0, 0], 0, Some(&[1, 2, 3]));
    assert_eq!(a0(&k, 0), -1);
    // The path cannot be read.
    let good = program(2);
    ecall_with(&mut k, SYSCALL_EXEC, [8, 0, 0, 0, 0, 0], 0, Some(&good));
    assert_eq!(a0(&k, 0), -1);
    // The array of arguments cannot be read.
    ecall_with(&mut k, SYSCALL_EXEC, [path, 8, 0, 0, 0, 0], 0, Some(&good));
    assert_eq!(a0(&k, 0), -1);
    assert_eq!(user_load(&k, 0, path), Some(b'n'));
    check_invariants(&k);
}

#[test]
fn exec_refuses_arguments_larger_than_the_stack() {
    let mut k = boot();
    let path = scratch();
    user_store(&mut k, 0, path, b"big\0");
    // Two pages of heap hold one long argument.
    ecall(&mut k, SYSCALL_SBRK, [3 * 4096, 0, 0, 0, 0, 0]);
    for page in 0..3 {
        trap_handler(&mut k, STORE_PAGE_FAULT, HEAP_BASE + page * 4096, 0, None);
    }
    user_store(&mut k, 0, HEAP_BASE, &vec![b'x'; 3 * 4096 - 1]);
    let argv = scratch() + 0x100;
    let mut array = Vec::new();
    for p in [HEAP_BASE, HEAP_BASE, HEAP_BASE, 0] {
        array.extend_from_slice(&(p as u64).to_le_bytes());
    }
    user_store(&mut k, 0, argv, &array);
    let good = program(2);
    ecall_with(&mut k, SYSCALL_EXEC, [path, argv, 0, 0, 0, 0], 0, Some(&good));
    assert_eq!(a0(&k, 0), -1);
    assert_eq!(user_load(&k, 0, HEAP_BASE), Some(b'x'));
}

#[test]
fn wait_without_children_fails() {
    let mut k = boot();
    ecall(&mut k, SYSCALL_WAIT4, [usize::MAX, 0, 0, 0, 0, 0]);
    assert_eq!(a0(&k, 0), -1);
    ecall(&mut k, SYSCALL_FORK, [17, 0, 0, 0, 0, 0]);
    // Process 7 is no child of the caller.
    ecall(&mut k, SYSCALL_WAIT4, [7, 0, 0, 0, 0, 0]);
    assert_eq!(a0(&k, 0), -1);
    // Minus two is no process at all.
    ecall(&mut k, SYSCALL_WAIT4, [(-2isize) as usize, 0, 0, 0, 0, 0]);
    assert_eq!(a0(&k, 0), -1);
}

#[test]
fn wait_blocks_until_a_child_exits() {
    let mut k = boot();
    ecall(&mut k, SYSCALL_FORK, [17, 0, 0, 0, 0, 0]);
    let sepc = task(&k, 0).trap_cx.sepc;
    assert_eq!(ecall(&mut k, SYSCALL_WAIT4, [1, 0, 0, 0, 0, 0]), user(1));
    // The parent stands at its ecall still, with its arguments in place.
    assert_eq!(task(&k, 0).trap_cx.sepc, sepc);
    assert_eq!(task(&k, 0).trap_cx.x[10], 1);
    assert_eq!(task(&k, 0).status, TaskStatus::Ready);
    assert_eq!(ecall(&mut k, SYSCALL_YIELD, [0; 6]), user(0));
    assert_eq!(trap_handler(&mut k, ECALL, 0, 0, None), user(1));
    assert_eq!(ecall(&mut k, SYSCALL_EXIT, [9, 0, 0, 0, 0, 0]), user(0));
    assert_eq!(trap_handler(&mut k, ECALL, 0, 0, None), user(0));
    assert_eq!(a0(&k, 0), 1);
    assert_eq!(task(&k, 0).trap_cx.sepc, sepc + 4);
}

#[test]
fn wait_takes_the_first_zombie_in_the_list() {
    let mut k = boot();
    ecall(&mut k, SYSCALL_FORK, [17, 0, 0, 0, 0, 0]);
    ecall(&mut k, SYSCALL_FORK, [17, 0, 0, 0, 0, 0]);
    ecall(&mut k, SYSCALL_FORK, [17, 0, 0, 0, 0, 0]);
    assert_eq!(ecall(&mut k, SYSCALL_YIELD, [0; 6]), user(1));
    assert_eq!(ecall(&mut k, SYSCALL_YIELD, [0; 6]), user(2));
    assert_eq!(ecall(&mut k, SYSCALL_EXIT, [2, 0, 0, 0, 0, 0]), user(3));
    assert_eq!(ecall(&mut k, SYSCALL_EXIT, [3, 0, 0, 0, 0, 0]), user(0));
    // Child 3 is asked for by name, though child 2 is the first zombie.
    ecall(&mut k, SYSCALL_WAIT4, [3, 0, 0, 0, 0, 0]);
    assert_eq!(a0(&k, 0), 3);
    assert_eq!(task(&k, 0).children, vec![1, 2]);
    ecall(&mut k, SYSCALL_WAIT4, [usize::MAX, 0, 0, 0, 0, 0]);
    assert_eq!(a0(&k, 0), 2);
    assert_eq!(task(&k, 0).children, vec![1]);
    assert_eq!(k.pid_allocator.recycled, vec![3, 2]);
    check_invariants(&k);
}

#[test]
fn wait_with_a_bad_status_pointer_leaves_the_child() {
    let mut k = boot();
    ecall(&mut k, SYSCALL_FORK, [17, 0, 0, 0, 0, 0]);
    ecall(&mut k, SYSCALL_YIELD, [0; 6]);
    ecall(&mut k, SYSCALL_EXIT, [0; 6]);
    // The code of the program cannot be written.
    ecall(&mut k, SYSCALL_WAIT4, [usize::MAX, 0x1_0000, 0, 0, 0, 0]);
    assert_eq!(a0(&k, 0), -1);
    assert_eq!(task(&k, 0).children, vec![1]);
    assert_eq!(task(&k, 1).status, TaskStatus::Zombie);
    check_invariants(&k);
}

#[test]
fn kill_posts_a_signal_that_ends_the_target() {
    let mut k = boot();
    ecall(&mut k, SYSCALL_FORK, [17, 0, 0, 0, 0, 0]);
    ecall(&mut k, SYSCALL_KILL, [1, 9, 0, 0, 0, 0]);
    assert_eq!(a0(&k, 0), 0);
    assert_eq!(task(&k, 1).signals.bits, 1 << 9);
    // A signal that does not end a process stays pending.
    ecall(&mut k, SYSCALL_KILL, [0, 17, 0, 0, 0, 0]);
    assert_eq!(a0(&k, 0), 0);
    assert_eq!(task(&k, 0).signals.bits, 1 << 17);
    // The child comes to run and is gone before it reaches user mode.
    assert_eq!(ecall(&mut k, SYSCALL_YIELD, [0; 6]), user(0));
    assert_eq!(task(&k, 1).status, TaskStatus::Zombie);
    assert_eq!(task(&k, 1).exit_code, -9);
    check_invariants(&k);
}

#[test]
fn kill_posts_nothing_it_does_not_know() {
    let mut k = boot();
    // The process is there, and the number names no signal.
    ecall(&mut k, SYSCALL_KILL, [0, 3, 0, 0, 0, 0]);
    assert_eq!(a0(&k, 0), 0);
    ecall(&mut k, SYSCALL_KILL, [0, 64, 0, 0, 0, 0]);
    assert_eq!(a0(&k, 0), 0);
    ecall(&mut k, SYSCALL_KILL, [0, 0, 0, 0, 0, 0]);
    assert_eq!(a0(&k, 0), 0);
    assert!(task(&k, 0).signals.is_empty());
    // No process is there, whatever the signal.
    ecall(&mut k, SYSCALL_KILL, [5, 9, 0, 0, 0, 0]);
    assert_eq!(a0(&k, 0), 1);
    ecall(&mut k, SYSCALL_KILL, [5, 3, 0, 0, 0, 0]);
    assert_eq!(a0(&k, 0), 1);
    assert!(task(&k, 0).signals.is_empty());
    check_invariants(&k);
}

#[test]
fn a_segmentation_fault_of_the_only_task_idles_the_processor() {
    let mut k = boot();
    // Above the trampoline there is nothing to map.
    assert_eq!(trap_handler(&mut k, STORE_PAGE_FAULT, usize::MAX, 0, None), TrapReturn::Idle);
    assert_eq!(task(&k, 0).exit_code, -11);
}

#[test]
fn a_store_to_the_code_is_a_segmentation_fault() {
    let mut k = boot();
    ecall(&mut k, SYSCALL_FORK, [17, 0, 0, 0, 0, 0]);
    ecall(&mut k, SYSCALL_YIELD, [0; 6]);
    // A load is fine, a store is not.
    assert_eq!(trap_handler(&mut k, LOAD_PAGE_FAULT, 0x1_0000, 0, None), user(1));
    assert_eq!(trap_handler(&mut k, STORE_PAGE_FAULT, 0x1_0000, 0, None), user(0));
    assert_eq!(task(&k, 1).exit_code, -11);
    // So is a fault of an instruction fetch.
    ecall(&mut k, SYSCALL_FORK, [17, 0, 0, 0, 0, 0]);
    ecall(&mut k, SYSCALL_YIELD, [0; 6]);
    assert_eq!(trap_handler(&mut k, 12, 0x5000, 0, None), user(0));
    assert_eq!(task(&k, 2).exit_code, -11);
}

#[test]
fn sbrk_returns_the_old_break() {
    let mut k = boot();
    ecall(&mut k, SYSCALL_SBRK, [100, 0, 0, 0, 0, 0]);
    assert_eq!(a0(&k, 0) as usize, HEAP_BASE);
    assert_eq!(task(&k, 0).heap_end, HEAP_BASE + 100);
    ecall(&mut k, SYSCALL_SBRK, [8192, 0, 0, 0, 0, 0]);
    assert_eq!(a0(&k, 0) as usize, HEAP_BASE + 100);
    assert_eq!(task(&k, 0).memory_set.areas[2].end_vpn, HEAP_BASE / 4096 + 3);
    trap_handler(&mut k, STORE_PAGE_FAULT, HEAP_BASE + 8192, 0, None);
    assert_eq!(user_load(&k, 0, HEAP_BASE + 8192), Some(0));
    // Shrinking gives the page back.
    ecall(&mut k, SYSCALL_SBRK, [(-8192isize) as usize, 0, 0, 0, 0, 0]);
    assert_eq!(a0(&k, 0) as usize, HEAP_BASE + 8292);
    assert_eq!(task(&k, 0).heap_end, HEAP_BASE + 100);
    assert_eq!(user_load(&k, 0, HEAP_BASE + 8192), None);
    assert_eq!(task(&k, 0).memory_set.areas[2].end_vpn, HEAP_BASE / 4096 + 1);
    // Below the base and above the window there is no heap.
    ecall(&mut k, SYSCALL_SBRK, [(-101isize) as usize, 0, 0, 0, 0, 0]);
    assert_eq!(a0(&k, 0), -1);
    ecall(&mut k, SYSCALL_SBRK, [256 * 4096, 0, 0, 0, 0, 0]);
    assert_eq!(a0(&k, 0), -1);
    assert_eq!(task(&k, 0).heap_end, HEAP_BASE + 100);
    ecall(&mut k, SYSCALL_SBRK, [256 * 4096 - 100, 0, 0, 0, 0, 0]);
    assert_eq!(a0(&k, 0) as usize, HEAP_BASE + 100);
    assert_eq!(task(&k, 0).heap_end, HEAP_BASE + 256 * 4096);
    check_invariants(&k);
}

#[test]
fn brk_out_of_the_window_leaves_the_break() {
    let mut k = boot();
    ecall(&mut k, SYSCALL_BRK, [HEAP_BASE - 1, 0, 0, 0, 0, 0]);
    assert_eq!(a0(&k, 0) as usize, HEAP_BASE);
    ecall(&mut k, SYSCALL_BRK, [HEAP_BASE + 256 * 4096 + 1, 0, 0, 0, 0, 0]);
    assert_eq!(a0(&k, 0) as usize, HEAP_BASE);
    ecall(&mut k, SYSCALL_BRK, [HEAP_BASE + 5000, 0, 0, 0, 0, 0]);
    assert_eq!(a0(&k, 0) as usize, HEAP_BASE + 5000);
    ecall(&mut k, SYSCALL_BRK, [HEAP_BASE + 10, 0, 0, 0, 0, 0]);
    assert_eq!(a0(&k, 0) as usize, HEAP_BASE + 10);
}

#[test]
fn mmap_refuses_bad_requests() {
    let mut k = boot();
    ecall(&mut k, SYSCALL_MMAP, [0, 0, 3, 0x22, usize::MAX, 0]);
    assert_eq!(a0(&k, 0), -1);
    ecall(&mut k, SYSCALL_MMAP, [0, 4096, 8, 0x22, usize::MAX, 0]);
    assert_eq!(a0(&k, 0), -1);
    ecall(&mut k, SYSCALL_MMAP, [0, 4096, 3, 0x4, usize::MAX, 0]);
    assert_eq!(a0(&k, 0), -1);
    // A file is asked for, and descriptor 1 is the console.
    ecall(&mut k, SYSCALL_MMAP, [0, 4096, 3, 0x02, 1, 0]);
    assert_eq!(a0(&k, 0), -1);
    ecall(&mut k, SYSCALL_MMAP, [0, 4096, 3, 0x02, 9, 0]);
    assert_eq!(a0(&k, 0), -1);
    // More than there is room for below the cursor.
    ecall(&mut k, SYSCALL_MMAP, [0, 0x6000_0001, 3, 0x22, usize::MAX, 0]);
    assert_eq!(a0(&k, 0), -1);
    assert_eq!(task(&k, 0).mmap_top, 0x6000_0000);
    assert_eq!(task(&k, 0).memory_set.areas.len(), 6);
}

#[test]
fn mappings_go_downwards() {
    let mut k = boot();
    ecall(&mut k, SYSCALL_MMAP, [0x1234_0000, 1, 1, 0x22, usize::MAX, 0]);
    assert_eq!(a0(&k, 0) as usize, 0x6000_0000 - 4096);
    ecall(&mut k, SYSCALL_MMAP, [0, 4097, 7, 0x21, usize::MAX, 0]);
    assert_eq!(a0(&k, 0) as usize, 0x6000_0000 - 3 * 4096);
    let areas = &task(&k, 0).memory_set.areas;
    assert_eq!(areas[6].map_perm, MapPermission { r: true, w: false, x: false, u: true });
    assert_eq!(areas[7].map_perm, MapPermission { r: true, w: true, x: true, u: true });
    assert_eq!((areas[7].start_vpn, areas[7].end_vpn), (0x6_0000 - 3, 0x6_0000 - 1));
    // A read-only page takes no store.
    assert_eq!(trap_handler(&mut k, LOAD_PAGE_FAULT, 0x6000_0000 - 1, 0, None), user(0));
    assert_eq!(trap_handler(&mut k, STORE_PAGE_FAULT, 0x6000_0000 - 1, 0, None), TrapReturn::Idle);
}

#[test]
fn munmap_takes_whole_mappings_only() {
    let mut k = boot();
    ecall(&mut k, SYSCALL_MMAP, [0, 8192, 3, 0x22, usize::MAX, 0]);
    let v = a0(&k, 0) as usize;
    ecall(&mut k, SYSCALL_MUNMAP, [v, 4096, 0, 0, 0, 0]);
    assert_eq!(a0(&k, 0), -1);
    ecall(&mut k, SYSCALL_MUNMAP, [v + 1, 8191, 0, 0, 0, 0]);
    assert_eq!(a0(&k, 0), -1);
    ecall(&mut k, SYSCALL_MUNMAP, [v, 0, 0, 0, 0, 0]);
    assert_eq!(a0(&k, 0), -1);
    // The heap is not for munmap.
    ecall(&mut k, SYSCALL_MUNMAP, [HEAP_BASE, 4096, 0, 0, 0, 0]);
    assert_eq!(a0(&k, 0), -1);
    // Nor is the trap context.
    ecall(&mut k, SYSCALL_MUNMAP, [TRAP_CONTEXT, 4096, 0, 0, 0, 0]);
    assert_eq!(a0(&k, 0), -1);
    assert_eq!(task(&k, 0).memory_set.areas.len(), 7);
    ecall(&mut k, SYSCALL_MUNMAP, [v, 8000, 0, 0, 0, 0]);
    assert_eq!(a0(&k, 0), 0);
    assert_eq!(task(&k, 0).memory_set.areas.len(), 6);
    // The stack is a mapping like any other.
    ecall(&mut k, SYSCALL_MUNMAP, [STACK_TOP - USER_STACK_SIZE, USER_STACK_SIZE, 0, 0, 0, 0]);
    assert_eq!(a0(&k, 0), 0);
    assert_eq!(user_load(&k, 0, STACK_TOP - 8), None);
    check_invariants(&k);
}

#[test]
fn a_mapping_of_a_file_is_filled_from_the_file() {
    let mut k = boot();
    task_mut(&mut k, 0).fd_table.push(Some(FileDescriptor {
        kind: FileKind::Inode(42),
        readable: true,
        writable: false,
    }));
    ecall(&mut k, SYSCALL_MMAP, [0, 5000, 1, 0x02, 3, 4096]);
    let v = a0(&k, 0) as usize;
    assert_eq!(v, 0x6000_0000 - 8192);
    assert_eq!(
        task(&k, 0).memory_set.areas[6].map_type,
        MapType::FileBacked { file: 42, offset: 4096, len: 5000, flags: 2 }
    );
    // The caller read the page from the file.
    assert_eq!(trap_handler(&mut k, LOAD_PAGE_FAULT, v + 4096, 0, Some(&[7, 8, 9])), user(0));
    assert_eq!(user_load(&k, 0, v + 4096), Some(7));
    assert_eq!(user_load(&k, 0, v + 4098), Some(9));
    assert_eq!(user_load(&k, 0, v + 4099), Some(0));
    // Without the bytes of the file the fault is not resolved.
    assert_eq!(trap_handler(&mut k, LOAD_PAGE_FAULT, v, 0, None), TrapReturn::Idle);
    assert_eq!(task(&k, 0).exit_code, -11);
}

#[test]
fn nanosleep_needs_an_interval_it_can_read() {
    let mut k = boot();
    ecall(&mut k, SYSCALL_NANOSLEEP, [8, 0, 0, 0, 0, 0]);
    assert_eq!(a0(&k, 0), -1);
    // An interval of zero is over at once.
    ecall_with(&mut k, SYSCALL_NANOSLEEP, [scratch(), 0, 0, 0, 0, 0], 777, None);
    assert_eq!(a0(&k, 0), 0);
    assert_eq!(task(&k, 0).sleep_until, None);
}

#[test]
fn nanosleep_alone_waits_for_the_clock() {
    let mut k = boot();
    let tv = scratch();
    let mut interval = Vec::new();
    interval.extend_from_slice(&2u64.to_le_bytes());
    interval.extend_from_slice(&3_999u64.to_le_bytes());
    user_store(&mut k, 0, tv, &interval);
    let sepc = task(&k, 0).trap_cx.sepc;
    let ms = 12_500;
    // The only task gives up the processor and gets it back.
    assert_eq!(ecall_with(&mut k, SYSCALL_NANOSLEEP, [tv, 0, 0, 0, 0, 0], 1000 * ms, None), user(0));
    assert_eq!(task(&k, 0).sleep_until, Some(3003));
    assert_eq!(task(&k, 0).trap_cx.sepc, sepc);
    assert_eq!(trap_handler(&mut k, ECALL, 0, 3002 * ms + 12_499, None), user(0));
    assert_eq!(task(&k, 0).trap_cx.sepc, sepc);
    assert_eq!(trap_handler(&mut k, ECALL, 0, 3003 * ms, None), user(0));
    assert_eq!(task(&k, 0).trap_cx.sepc, sepc + 4);
    assert_eq!(a0(&k, 0), 0);
    assert_eq!(task(&k, 0).sleep_until, None);
}

#[test]
fn the_core_asks_for_the_file_to_run() {
    let mut k = boot();
    let path = scratch();
    user_store(&mut k, 0, path, b"bin/ls\0");
    let cx = &mut task_mut(&mut k, 0).trap_cx;
    cx.x[17] = SYSCALL_EXEC;
    cx.x[10] = path;
    assert_eq!(
        trap_request(&k, ECALL, 0),
        FsRequest::File { dir: b"/".to_vec(), name: b"bin/ls".to_vec() }
    );
    user_store(&mut k, 0, path, b"a.sh\0");
    assert_eq!(
        trap_request(&k, ECALL, 0),
        FsRequest::File { dir: b"/".to_vec(), name: b"busybox".to_vec() }
    );
    // A path that cannot be read, another call, another trap.
    task_mut(&mut k, 0).trap_cx.x[10] = 8;
    assert_eq!(trap_request(&k, ECALL, 0), FsRequest::Nothing);
    task_mut(&mut k, 0).trap_cx.x[10] = path;
    task_mut(&mut k, 0).trap_cx.x[17] = SYSCALL_FORK;
    assert_eq!(trap_request(&k, ECALL, 0), FsRequest::Nothing);
    task_mut(&mut k, 0).trap_cx.x[17] = SYSCALL_EXEC;
    assert_eq!(trap_request(&k, TIMER, 0), FsRequest::Nothing);
    assert_eq!(trap_request(&k, ILLEGAL, 0), FsRequest::Nothing);
}

#[test]
fn the_core_asks_for_the_page_of_a_file() {
    let mut k = boot();
    task_mut(&mut k, 0).fd_table.push(Some(FileDescriptor {
        kind: FileKind::Inode(42),
        readable: true,
        writable: false,
    }));
    ecall(&mut k, SYSCALL_MMAP, [0, 3 * 4096 - 100, 1, 0x02, 3, 512]);
    let v = a0(&k, 0) as usize;
    assert_eq!(
        trap_request(&k, LOAD_PAGE_FAULT, v),
        FsRequest::Page { file: 42, offset: 512, len: 4096 }
    );
    assert_eq!(
        trap_request(&k, STORE_PAGE_FAULT, v + 4096 + 17),
        FsRequest::Page { file: 42, offset: 512 + 4096, len: 4096 }
    );
    assert_eq!(
        trap_request(&k, 5, v + 2 * 4096),
        FsRequest::Page { file: 42, offset: 512 + 8192, len: 4096 - 100 }
    );
    // Other memory needs no file.
    assert_eq!(trap_request(&k, LOAD_PAGE_FAULT, HEAP_BASE), FsRequest::Nothing);
    assert_eq!(trap_request(&k, LOAD_PAGE_FAULT, 8), FsRequest::Nothing);
    assert_eq!(trap_request(&k, 12, v), FsRequest::Nothing);
}

#[test]
fn getppid_stays_what_fork_gave() {
    let mut k = boot();
    ecall(&mut k, SYSCALL_FORK, [17, 0, 0, 0, 0, 0]);
    assert_eq!(ecall(&mut k, SYSCALL_YIELD, [0; 6]), user(1));
    ecall(&mut k, SYSCALL_GETPID, [0; 6]);
    let parent = a0(&k, 1);
    ecall(&mut k, SYSCALL_FORK, [17, 0, 0, 0, 0, 0]);
    let child = a0(&k, 1) as usize;
    assert_eq!(child, 2);
    // The child comes to run, replaces its program, maps memory, and is
    // preempted a few times.
    let mut at = trap_handler(&mut k, TIMER, 0, 1, None);
    while at != user(child) {
        at = trap_handler(&mut k, TIMER, 0, 2, None);
    }
    let path = scratch();
    user_store(&mut k, child, path, b"other\0");
    let other = program(3);
    assert_eq!(ecall_with(&mut k, SYSCALL_EXEC, [path, 0, 0, 0, 0, 0], 3, Some(&other)), user(child));
    ecall(&mut k, SYSCALL_MMAP, [0, 4096, 3, 0x22, usize::MAX, 0]);
    ecall(&mut k, SYSCALL_SBRK, [64, 0, 0, 0, 0, 0]);
    for round in 0..9 {
        at = trap_handler(&mut k, TIMER, 0, 4 + round, None);
        while at != user(child) {
            at = trap_handler(&mut k, TIMER, 0, 4 + round, None);
        }
        assert_eq!(ecall(&mut k, SYSCALL_GETPPID, [0; 6]), user(child));
        assert_eq!(a0(&k, child), parent);
        assert_eq!(ecall(&mut k, SYSCALL_GETPID, [0; 6]), user(child));
        assert_eq!(a0(&k, child), child as isize);
    }
    check_invariants(&k);
}
