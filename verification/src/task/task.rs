//! The process control block.
use crate::config::{MAX_PID, PAGE_SIZE, USER_HEAP_SIZE};
use crate::info::RLimit;
use crate::mm::area::{vpn_ceil, MapArea, MapPermission, MapType};
use crate::mm::memory_set::{MemorySet, SpaceView};
use crate::mm::mmap::{MmapFlags, MmapProts};
use crate::signal::SignalFlags;
use crate::trap::context::{TrapContext, TrapView};
use vstd::prelude::*;

verus! {

/// Where a task stands with the scheduler.
#[derive(Clone, Copy, Debug, PartialEq, Eq, Structural)]
pub enum TaskStatus {
    Ready,
    Running,
    Zombie,
}

/// What an open file descriptor refers to.
#[derive(Clone, Copy, Debug, PartialEq, Eq, Structural)]
pub enum FileKind {
    Stdin,
    Stdout,
    Stderr,
    /// A file of the file system, named by the number the file system gave it.
    Inode(usize),
}

/// An open file.
#[derive(Clone, Copy, Debug, PartialEq, Eq, Structural)]
pub struct FileDescriptor {
    pub kind: FileKind,
    pub readable: bool,
    pub writable: bool,
}

/// What a process is, as the contracts see it.
pub struct TaskView {
    pub pid: usize,
    pub tgid: usize,
    pub space: SpaceView,
    pub trap_cx: TrapView,
    pub status: TaskStatus,
    pub parent: Option<usize>,
    pub children: Seq<usize>,
    pub exit_code: i32,
    pub fd_table: Seq<Option<FileDescriptor>>,
    pub current_path: Seq<u8>,
    pub signals: SignalFlags,
    pub resource: Seq<RLimit>,
    pub heap_base: usize,
    pub heap_end: usize,
    pub mmap_top: usize,
    pub sleep_until: Option<usize>,
}

/// A process control block.  Handles to other processes (`parent`,
/// `children`) are their identifiers; the kernel's table owns the blocks.
pub struct TaskControlBlock {
    pub pid: usize,
    pub tgid: usize,
    pub memory_set: MemorySet,
    pub trap_cx: TrapContext,
    pub status: TaskStatus,
    pub parent: Option<usize>,
    pub children: Vec<usize>,
    pub exit_code: i32,
    pub fd_table: Vec<Option<FileDescriptor>>,
    pub current_path: Vec<u8>,
    pub signals: SignalFlags,
    pub resource: [RLimit; 16],
    pub heap_base: usize,
    pub heap_end: usize,
    pub mmap_top: usize,
    pub sleep_until: Option<usize>,
}

impl View for TaskControlBlock {
    type V = TaskView;

    open spec fn view(&self) -> TaskView {
        TaskView {
            pid: self.pid,
            tgid: self.tgid,
            space: self.memory_set@,
            trap_cx: self.trap_cx@,
            status: self.status,
            parent: self.parent,
            children: self.children@,
            exit_code: self.exit_code,
            fd_table: self.fd_table@,
            current_path: self.current_path@,
            signals: self.signals,
            resource: self.resource@,
            heap_base: self.heap_base,
            heap_end: self.heap_end,
            mmap_top: self.mmap_top,
            sleep_until: self.sleep_until,
        }
    }
}

/// The page at which the heap region of a process ends: the first page at or
/// after the program break, and at least one page after the base.
pub open spec fn heap_end_vpn(heap_base: usize, heap_end: usize) -> usize {
    if heap_end <= heap_base {
        (heap_base / 4096 + 1) as usize
    } else if heap_end % 4096 == 0 {
        (heap_end / 4096) as usize
    } else {
        (heap_end / 4096 + 1) as usize
    }
}

/// The heap region of a process with this base and this program break.
pub open spec fn heap_area(heap_base: usize, heap_end: usize) -> MapArea {
    MapArea {
        start_vpn: (heap_base / 4096) as usize,
        end_vpn: heap_end_vpn(heap_base, heap_end),
        map_type: MapType::Framed,
        map_perm: MapPermission::user_data(),
    }
}

/// The region a mapping of `length` bytes gets below the cursor `top`.
pub open spec fn mmap_area(top: usize, length: usize, perm: MapPermission, map_type: MapType) -> MapArea {
    MapArea {
        start_vpn: (top / 4096 - (length + 4095) / 4096) as usize,
        end_vpn: (top / 4096) as usize,
        map_type,
        map_perm: perm,
    }
}

impl TaskView {
    /// The heap region is the third region and matches the program break,
    /// which lies in its window.
    pub open spec fn heap_wf(self) -> bool {
        &&& self.heap_base % 4096 == 0
        &&& self.heap_base <= self.heap_end <= self.heap_base + USER_HEAP_SIZE
        &&& self.heap_base + USER_HEAP_SIZE + 4096 <= isize::MAX
        &&& self.space.regions.len() >= 3
        &&& self.space.regions[2] == heap_area(self.heap_base, self.heap_end)
    }

    /// The address space holds the trampoline and the trap context, the
    /// pending signals are known ones, the `mmap` cursor is aligned, and,
    /// unless the process is a zombie, the heap is in order.
    pub open spec fn wf(self) -> bool {
        &&& self.space.user_wf()
        &&& self.signals.wf()
        &&& self.pid < MAX_PID
        &&& self.tgid < MAX_PID
        &&& self.mmap_top % 4096 == 0
        &&& self.mmap_top <= 0x6000_0000
        &&& self.trap_cx.x.len() == 32
        &&& self.resource.len() == 16
        &&& self.status != TaskStatus::Zombie ==> self.heap_wf()
    }

    /// Whether the program break can move by `grow` bytes: the process has
    /// not exited, the break stays in the window of the heap, and the heap
    /// region does not run into another.
    pub open spec fn grow_ok(self, grow: isize) -> bool {
        &&& self.status != TaskStatus::Zombie
        &&& self.heap_base <= self.heap_end + grow <= self.heap_base + USER_HEAP_SIZE
        &&& !self.space.overlaps(
            self.space.regions[2].end_vpn,
            heap_end_vpn(self.heap_base, (self.heap_end + grow) as usize),
        )
    }

    /// The process after its program break has moved by `grow` bytes.
    pub open spec fn grown(self, grow: isize) -> TaskView {
        let new_end = (self.heap_end + grow) as usize;
        TaskView {
            heap_end: new_end,
            space: SpaceView {
                regions: self.space.regions.update(2, heap_area(self.heap_base, new_end)),
                pages: self.space.dropped(
                    heap_end_vpn(self.heap_base, new_end),
                    self.space.regions[2].end_vpn,
                ),
            },
            ..self
        }
    }

    /// What stands behind a mapping that `mmap` is asked for: anonymous
    /// frames, or the file behind descriptor `fd`.  Nothing where a file is
    /// asked for and `fd` is not an open, readable file of the file system.
    pub open spec fn mmap_backing(self, flags: MmapFlags, fd: isize, offset: usize, length: usize) -> Option<
        MapType,
    > {
        if flags.anonymous() {
            Some(MapType::Framed)
        } else if 0 <= fd < self.fd_table.len() {
            match self.fd_table[fd as int] {
                Some(FileDescriptor { kind: FileKind::Inode(file), readable: true, .. }) => Some(
                    MapType::FileBacked { file, offset, len: length, flags: flags.bits },
                ),
                _ => None,
            }
        } else {
            None
        }
    }

    /// Whether a mapping of `length` bytes can be placed below the cursor.
    pub open spec fn mmap_ok(self, length: usize, flags: MmapFlags, fd: isize, offset: usize) -> bool {
        &&& length > 0
        &&& length <= usize::MAX - 4095
        &&& (length + 4095) / 4096 <= self.mmap_top / 4096
        &&& self.mmap_top / 4096 <= usize::MAX / 4096 - 1
        &&& self.mmap_backing(flags, fd, offset, length) is Some
        &&& !self.space.overlaps(
            (self.mmap_top / 4096 - (length + 4095) / 4096) as usize,
            (self.mmap_top / 4096) as usize,
        )
    }

    /// The process after a mapping of `length` bytes has been placed below
    /// the cursor: the region is there, without frames, and the cursor points
    /// at its start.
    pub open spec fn mmapped(self, length: usize, prot: MmapProts, flags: MmapFlags, fd: isize, offset: usize) -> TaskView {
        let area = mmap_area(
            self.mmap_top,
            length,
            prot.permission(),
            self.mmap_backing(flags, fd, offset, length).unwrap(),
        );
        TaskView {
            mmap_top: (area.start_vpn * 4096) as usize,
            space: SpaceView { regions: self.space.regions.push(area), pages: self.space.pages },
            ..self
        }
    }

    /// Whether the pages of the `length` bytes from `addr` on are a region
    /// that `munmap` may take away: `addr` is page aligned, the range is not
    /// empty and ends below the trap context, and it is not the heap.
    pub open spec fn munmap_ok(self, addr: usize, length: usize) -> bool {
        &&& addr % 4096 == 0
        &&& length > 0
        &&& addr + length <= usize::MAX - 4095
        &&& (addr + length + 4095) / 4096 <= usize::MAX / 4096 - 1
        &&& addr / 4096 != self.heap_base / 4096
        &&& self.space.has_region((addr / 4096) as usize, ((addr + length + 4095) / 4096) as usize)
    }

    /// The process after the region of the `length` bytes from `addr` on has
    /// been taken away.
    pub open spec fn munmapped(self, addr: usize, length: usize) -> TaskView {
        let start = (addr / 4096) as usize;
        let end = ((addr + length + 4095) / 4096) as usize;
        TaskView {
            space: SpaceView {
                regions: self.space.regions.remove(self.space.region_index(start, end)),
                pages: self.space.dropped(start, end),
            },
            ..self
        }
    }
}

impl TaskControlBlock {
    /// See [`TaskView::wf`].
    pub open spec fn wf(&self) -> bool {
        self@.wf()
    }

    /// The process identifier.
    pub fn getpid(&self) -> (pid: usize)
        ensures
            pid == self@.pid,
    {
        self.pid
    }

    /// Whether the process has exited and waits to be reaped.
    pub fn is_zombie(&self) -> (r: bool)
        ensures
            r <==> self@.status == TaskStatus::Zombie,
    {
        self.status == TaskStatus::Zombie
    }

    /// Moves the program break by `grow_size` bytes and gives the new break.
    /// The heap region follows the break page by page; pages it gives up
    /// lose their frames, pages it gains get theirs at the first touch.
    /// Nothing changes, and nothing is given, where the break would leave the
    /// window of the heap or the region would run into another one.
    pub fn grow_proc(&mut self, grow_size: isize) -> (r: Option<usize>)
        requires
            old(self).wf(),
        ensures
            final(self).wf(),
            r is Some <==> old(self)@.grow_ok(grow_size),
            r matches Some(e) ==> e == old(self)@.heap_end + grow_size && final(self)@ == old(
                self,
            )@.grown(grow_size),
            r is None ==> final(self)@ == old(self)@,
    {
        if self.is_zombie() {
            return None;
        }
        let target: usize = if grow_size >= 0 {
            if grow_size as usize > self.heap_base + USER_HEAP_SIZE - self.heap_end {
                return None;
            }
            self.heap_end + grow_size as usize
        } else {
            let back: usize = if grow_size == isize::MIN {
                return None;
            } else {
                (-grow_size) as usize
            };
            if back > self.heap_end - self.heap_base {
                return None;
            }
            self.heap_end - back
        };
        if target > self.heap_base + USER_HEAP_SIZE {
            return None;
        }
        let base_vpn: usize = self.heap_base / PAGE_SIZE;
        let mut new_end_vpn: usize = vpn_ceil(target);
        if new_end_vpn <= base_vpn {
            new_end_vpn = base_vpn + 1;
        }
        assert(new_end_vpn == heap_end_vpn(self.heap_base, target));
        let ghost pre = self@;
        if !self.memory_set.resize_area(2, new_end_vpn) {
            assert(self@ == pre);
            return None;
        }
        self.heap_end = target;
        proof {
            assert(self@.space.regions[2] == heap_area(self.heap_base, target));
            assert(self@.space.regions =~= pre.grown(grow_size).space.regions);
            assert(self@ == pre.grown(grow_size));
        }
        Some(target)
    }

    /// Places a mapping of `length` bytes below the cursor and gives its
    /// address.  `addr` is a hint that is not followed.  The pages get their
    /// frames when they are first touched.  Gives nothing, and changes
    /// nothing, where the mapping cannot be placed.
    pub fn mmap(
        &mut self,
        addr: usize,
        length: usize,
        prot: MmapProts,
        flags: MmapFlags,
        fd: isize,
        offset: usize,
    ) -> (r: Option<usize>)
        requires
            old(self).wf(),
        ensures
            final(self).wf(),
            r is Some <==> old(self)@.mmap_ok(length, flags, fd, offset),
            r matches Some(va) ==> final(self)@ == old(self)@.mmapped(length, prot, flags, fd, offset)
                && va == final(self)@.mmap_top,
            r is None ==> final(self)@ == old(self)@,
    {
        if length == 0 || length > usize::MAX - 4095 {
            return None;
        }
        let npages: usize = (length + 4095) / PAGE_SIZE;
        let top_vpn: usize = self.mmap_top / PAGE_SIZE;
        if npages > top_vpn || top_vpn > usize::MAX / PAGE_SIZE - 1 {
            return None;
        }
        let map_type = if flags.is_anonymous() {
            MapType::Framed
        } else if fd >= 0 && (fd as usize) < self.fd_table.len() {
            match self.fd_table[fd as usize] {
                Some(FileDescriptor { kind: FileKind::Inode(file), readable: true, .. }) => {
                    MapType::FileBacked { file, offset, len: length, flags: flags.bits }
                },
                _ => {
                    return None;
                },
            }
        } else {
            return None;
        };
        let area = MapArea {
            start_vpn: top_vpn - npages,
            end_vpn: top_vpn,
            map_type,
            map_perm: prot.to_permission(),
        };
        let ghost pre = self@;
        if !self.memory_set.map_region(area, false) {
            assert(self@ == pre);
            return None;
        }
        self.mmap_top = area.start_vpn * PAGE_SIZE;
        proof {
            assert(area == mmap_area(
                pre.mmap_top,
                length,
                prot.permission(),
                pre.mmap_backing(flags, fd, offset, length).unwrap(),
            ));
            assert(self@ == pre.mmapped(length, prot, flags, fd, offset));
        }
        Some(self.mmap_top)
    }

    /// Takes away the region that is exactly the pages of the `length` bytes
    /// from `addr` on, with its frames.  Returns 0, or -1 where there is no
    /// such region or it may not be taken away; then nothing changes.
    pub fn munmap(&mut self, addr: usize, length: usize) -> (r: isize)
        requires
            old(self).wf(),
        ensures
            final(self).wf(),
            r == 0 || r == -1,
            r == 0 <==> old(self)@.munmap_ok(addr, length),
            r == 0 ==> final(self)@ == old(self)@.munmapped(addr, length),
            r != 0 ==> final(self)@ == old(self)@,
    {
        if addr % PAGE_SIZE != 0 || length == 0 || length > usize::MAX - 4095 - addr {
            return -1;
        }
        let start: usize = addr / PAGE_SIZE;
        let end: usize = (addr + length + 4095) / PAGE_SIZE;
        if end > usize::MAX / PAGE_SIZE - 1 || start == self.heap_base / PAGE_SIZE {
            return -1;
        }
        let ghost pre = self@;
        if !self.memory_set.unmap_region(start, end) {
            assert(self@ == pre);
            return -1;
        }
        proof {
            let idx = pre.space.region_index(start, end);
            assert(pre.space.has_region(start, end));
            assert(0 <= idx < pre.space.regions.len() && pre.space.regions[idx].start_vpn == start);
            if self@.status != TaskStatus::Zombie {
                assert(idx != 2);
                assert(idx > 2);
                assert(self@.space.regions[2] == pre.space.regions[2]);
            }
            assert(self@ == pre.munmapped(addr, length));
        }
        0
    }

    /// Handles a fault of the process at `va`; see
    /// [`MemorySet::check_lazy`].
    pub fn check_lazy(&mut self, va: usize, is_load: bool, fill: Option<&[u8]>) -> (r: isize)
        requires
            old(self).wf(),
        ensures
            final(self).wf(),
            r == 0 || r == -1,
            r == 0 <==> old(self)@.space.fault_resolves(
                (va / 4096) as usize,
                is_load,
                crate::mm::memory_set::fill_of(fill),
            ),
            final(self)@ == (TaskView {
                space: SpaceView {
                    regions: old(self)@.space.regions,
                    pages: old(self)@.space.after_fault(
                        (va / 4096) as usize,
                        is_load,
                        crate::mm::memory_set::fill_of(fill),
                    ),
                },
                ..old(self)@
            }),
    {
        self.memory_set.check_lazy(va, is_load, fill)
    }
}

} // verus!
