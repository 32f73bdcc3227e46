//! Building the address space of a program from its image.
use crate::config::{PAGE_SIZE, USER_HEAP_SIZE, USER_STACK_SIZE};
use crate::mm::area::{vpn_ceil, vpn_ceil_of, MapArea, MapPermission, MapType};
use crate::mm::elf::{elf_entry, elf_segments, parse_elf, Segment};
use crate::mm::memory_set::{MemorySet, SpaceView};
use vstd::prelude::*;
use vstd::slice::slice_subrange;

verus! {

/// A program ready to run: its address space, the top of its stack, its
/// entry point, and the base of its heap.
pub struct UserImage {
    pub memory_set: MemorySet,
    pub user_sp: usize,
    pub entry: usize,
    pub heap_base: usize,
}

/// The region of a segment: the pages it touches, for user mode, readable,
/// writable and executable as the flags of the segment say.
pub open spec fn segment_area(seg: Segment) -> MapArea {
    MapArea {
        start_vpn: (seg.vaddr / 4096) as usize,
        end_vpn: vpn_ceil_of((seg.vaddr + seg.memsz) as usize),
        map_type: MapType::Framed,
        map_perm: MapPermission {
            r: (seg.flags / 4) % 2 == 1,
            w: (seg.flags / 2) % 2 == 1,
            x: seg.flags % 2 == 1,
            u: true,
        },
    }
}

/// The address space after segment `seg` of the image `data` has been
/// loaded into `space`: its pages are mapped and hold the bytes of the file,
/// and zeros around them.  A segment without memory changes nothing.
/// Nothing where the segment reaches the trap context or shares a page with
/// a region that is there.
pub open spec fn load_step(space: SpaceView, data: Seq<u8>, seg: Segment) -> Option<SpaceView> {
    let area = segment_area(seg);
    if seg.memsz == 0 {
        Some(space)
    } else if area.end_vpn <= usize::MAX / 4096 - 1 && !space.overlaps(area.start_vpn, area.end_vpn) {
        let mapped = SpaceView {
            regions: space.regions.push(area),
            pages: space.zeroed(area.start_vpn, area.end_vpn),
        };
        Some(
            SpaceView {
                regions: mapped.regions,
                pages: mapped.written(
                    seg.vaddr,
                    data.subrange(seg.offset as int, seg.offset + seg.filesz),
                ),
            },
        )
    } else {
        None
    }
}

/// The address space after the first `n` of the segments `segs` have been
/// loaded into `start`, one after the other.
pub open spec fn load_steps(start: SpaceView, data: Seq<u8>, segs: Seq<Segment>, n: int) -> Option<
    SpaceView,
>
    decreases n,
{
    if n <= 0 {
        Some(start)
    } else {
        match load_steps(start, data, segs, n - 1) {
            None => None,
            Some(s) => load_step(s, data, segs[n - 1]),
        }
    }
}

/// The first page above the first `n` of the segments `segs`.
pub open spec fn top_vpn(segs: Seq<Segment>, n: int) -> usize
    decreases n,
{
    if n <= 0 {
        0
    } else {
        let below = top_vpn(segs, n - 1);
        let end = segment_area(segs[n - 1]).end_vpn;
        if segs[n - 1].memsz != 0 && end > below {
            end
        } else {
            below
        }
    }
}

/// The lowest address of the user stack of a program whose segments end
/// before page `top`: one page is left free above the segments.
pub open spec fn stack_bottom_of(top: usize) -> int {
    top * 4096 + 4096
}

/// The top of the user stack.
pub open spec fn stack_top_of(top: usize) -> int {
    stack_bottom_of(top) + USER_STACK_SIZE
}

/// The base of the heap: one page is left free above the stack.
pub open spec fn heap_base_of(top: usize) -> int {
    stack_top_of(top) + 4096
}

/// The first region of the heap: one page at its base, without a frame.
pub open spec fn first_heap_area(top: usize) -> MapArea {
    MapArea {
        start_vpn: (heap_base_of(top) / 4096) as usize,
        end_vpn: (heap_base_of(top) / 4096 + 1) as usize,
        map_type: MapType::Framed,
        map_perm: MapPermission::user_data(),
    }
}

/// The region of the user stack.
pub open spec fn stack_area(top: usize) -> MapArea {
    MapArea {
        start_vpn: (stack_bottom_of(top) / 4096) as usize,
        end_vpn: (stack_top_of(top) / 4096) as usize,
        map_type: MapType::Framed,
        map_perm: MapPermission::user_data(),
    }
}

/// The address space before the segments are loaded: the trampoline, the
/// trap context, and the first page of the heap.
pub open spec fn bare_space(top: usize) -> SpaceView {
    SpaceView {
        regions: seq![MapArea::trampoline(), MapArea::trap_context(), first_heap_area(top)],
        pages: Map::<usize, Seq<u8>>::empty(),
    }
}

/// The address space of the program of image `data`: the trampoline, the
/// trap context, the heap, the segments with their bytes, and a stack of
/// zeros.  Nothing where `data` is no image the kernel can load, the heap
/// would end above the lower half of the addresses, or two segments share a
/// page.
pub open spec fn load_space(data: Seq<u8>) -> Option<SpaceView> {
    match elf_segments(data) {
        None => None,
        Some(segs) => {
            let top = top_vpn(segs, segs.len() as int);
            if heap_base_of(top) + USER_HEAP_SIZE + 4096 > isize::MAX {
                None
            } else {
                match load_steps(bare_space(top), data, segs, segs.len() as int) {
                    None => None,
                    Some(s) => Some(
                        SpaceView {
                            regions: s.regions.push(stack_area(top)),
                            pages: s.zeroed(stack_area(top).start_vpn, stack_area(top).end_vpn),
                        },
                    ),
                }
            }
        },
    }
}

/// The first page above the segments of the image `data`.
pub open spec fn image_top(data: Seq<u8>) -> usize {
    top_vpn(elf_segments(data).unwrap(), elf_segments(data).unwrap().len() as int)
}

/// Once a segment cannot be loaded, more segments do not help.
pub proof fn lemma_load_fail(start: SpaceView, data: Seq<u8>, segs: Seq<Segment>, n: int, m: int)
    requires
        0 <= n <= m,
        load_steps(start, data, segs, n) is None,
    ensures
        load_steps(start, data, segs, m) is None,
    decreases m - n,
{
    if n < m {
        lemma_load_fail(start, data, segs, n, m - 1);
    }
}

/// No segment ends above the first page above the segments.
pub proof fn lemma_top_vpn(segs: Seq<Segment>, n: int, i: int)
    requires
        0 <= i < n <= segs.len(),
        segs[i].memsz != 0,
    ensures
        segment_area(segs[i]).end_vpn <= top_vpn(segs, n),
    decreases n,
{
    if i < n - 1 {
        lemma_top_vpn(segs, n - 1, i);
    }
}

impl MemorySet {
    /// Loads segment `seg` of the image `data`.  See [`load_step`].
    fn load_segment(&mut self, data: &[u8], seg: Segment) -> (ok: bool)
        requires
            old(self)@.user_wf(),
            seg.offset + seg.filesz <= data@.len(),
            seg.filesz <= seg.memsz,
            seg.vaddr + seg.memsz <= usize::MAX,
        ensures
            ok <==> load_step(old(self)@, data@, seg) is Some,
            ok ==> final(self)@ == load_step(old(self)@, data@, seg).unwrap(),
            ok ==> final(self)@.user_wf(),
    {
        if seg.memsz == 0 {
            return true;
        }
        let area = MapArea {
            start_vpn: seg.vaddr / PAGE_SIZE,
            end_vpn: vpn_ceil(seg.vaddr + seg.memsz),
            map_type: MapType::Framed,
            map_perm: MapPermission {
                r: (seg.flags / 4) % 2 == 1,
                w: (seg.flags / 2) % 2 == 1,
                x: seg.flags % 2 == 1,
                u: true,
            },
        };
        assert(area == segment_area(seg));
        assert(area.start_vpn < area.end_vpn);
        if area.end_vpn > usize::MAX / PAGE_SIZE - 1 {
            return false;
        }
        if !self.map_region(area, true) {
            return false;
        }
        let ghost mapped = self@;
        let len: usize = data.len();
        assert(seg.offset + seg.filesz <= len);
        let bytes = slice_subrange(data, seg.offset, seg.offset + seg.filesz);
        proof {
            assert forall|i: int| 0 <= i < bytes@.len() implies mapped.present(
                #[trigger] (((seg.vaddr + i) / 4096) as usize),
            ) by {
                let v = ((seg.vaddr + i) / 4096) as usize;
                assert(area.start_vpn <= v < area.end_vpn);
            }
        }
        self.fill(seg.vaddr, bytes);
        proof {
            mapped.lemma_wf_same_regions(self@);
        }
        true
    }

    /// The address space of the program of image `elf_data`, with the top of
    /// its stack, its entry point and the base of its heap.  See
    /// [`load_space`].
    pub fn from_elf(elf_data: &[u8]) -> (r: Option<UserImage>)
        ensures
            r is Some <==> load_space(elf_data@) is Some,
            r matches Some(img) ==> {
                &&& img.memory_set@ == load_space(elf_data@).unwrap()
                &&& img.memory_set@.user_wf()
                &&& img.user_sp == stack_top_of(image_top(elf_data@))
                &&& img.entry == elf_entry(elf_data@)
                &&& img.heap_base == heap_base_of(image_top(elf_data@))
                &&& img.heap_base + USER_HEAP_SIZE + 4096 <= isize::MAX
                &&& img.memory_set@.regions.len() >= 3
                &&& img.memory_set@.regions[2] == first_heap_area(image_top(elf_data@))
                &&& img.memory_set@.range_ok(
                    (img.user_sp - USER_STACK_SIZE) as usize,
                    USER_STACK_SIZE as int,
                    true,
                )
                &&& img.memory_set@.range_ok(
                    (img.user_sp - USER_STACK_SIZE) as usize,
                    USER_STACK_SIZE as int,
                    false,
                )
            },
    {
        let info = match parse_elf(elf_data) {
            Some(info) => info,
            None => {
                return None;
            },
        };
        let ghost segs = info.segments@;
        let n = info.segments.len();
        let mut top: usize = 0;
        let mut i: usize = 0;
        while i < n
            invariant
                i <= n,
                n == segs.len(),
                segs == info.segments@,
                top == top_vpn(segs, i as int),
                forall|j: int| 0 <= j < segs.len() ==> (#[trigger] segs[j]).fits(elf_data@.len() as int),
            decreases n - i,
        {
            let seg = info.segments[i];
            if seg.memsz != 0 {
                assert(segs[i as int].fits(elf_data@.len() as int));
                let end = vpn_ceil(seg.vaddr + seg.memsz);
                if end > top {
                    top = end;
                }
            }
            i += 1;
        }
        if top > (isize::MAX as usize - USER_HEAP_SIZE - 3 * PAGE_SIZE - USER_STACK_SIZE) / PAGE_SIZE {
            return None;
        }
        let stack_bottom: usize = top * PAGE_SIZE + PAGE_SIZE;
        let stack_top: usize = stack_bottom + USER_STACK_SIZE;
        let heap_base: usize = stack_top + PAGE_SIZE;
        let mut ms = MemorySet::new_user();
        let heap = MapArea {
            start_vpn: heap_base / PAGE_SIZE,
            end_vpn: heap_base / PAGE_SIZE + 1,
            map_type: MapType::Framed,
            map_perm: MapPermission { r: true, w: true, x: false, u: true },
        };
        let ghost skeleton = ms@;
        assert(!skeleton.overlaps(heap.start_vpn, heap.end_vpn)) by {
            assert forall|j: int| 0 <= j < skeleton.regions.len() implies !(
            #[trigger] skeleton.regions[j]).overlaps(heap.start_vpn, heap.end_vpn) by {
                assert(skeleton.regions[j].start_vpn >= usize::MAX / 4096 - 1);
            }
        }
        let ok = ms.map_region(heap, false);
        assert(ok);
        assert(ms@.regions =~= bare_space(top).regions);
        assert(ms@ == bare_space(top));
        let mut i: usize = 0;
        while i < n
            invariant
                i <= n,
                n == segs.len(),
                segs == info.segments@,
                Some(segs) == elf_segments(elf_data@),
                ms@.user_wf(),
                load_steps(bare_space(top), elf_data@, segs, i as int) == Some(ms@),
                ms@.regions.len() >= 3,
                ms@.regions[2] == first_heap_area(top),
                top == top_vpn(segs, n as int),
                forall|j: int| 0 <= j < segs.len() ==> (#[trigger] segs[j]).fits(elf_data@.len() as int),
                forall|j: int| 3 <= j < ms@.regions.len() ==> (#[trigger] ms@.regions[j]).end_vpn <= top,
            decreases n - i,
        {
            let seg = info.segments[i];
            assert(segs[i as int].fits(elf_data@.len() as int));
            proof {
                if seg.memsz != 0 {
                    lemma_top_vpn(segs, n as int, i as int);
                }
            }
            if !ms.load_segment(elf_data, seg) {
                proof {
                    lemma_load_fail(bare_space(top), elf_data@, segs, i + 1, n as int);
                }
                return None;
            }
            i += 1;
        }
        let stack = MapArea {
            start_vpn: stack_bottom / PAGE_SIZE,
            end_vpn: stack_top / PAGE_SIZE,
            map_type: MapType::Framed,
            map_perm: MapPermission { r: true, w: true, x: false, u: true },
        };
        assert(stack == stack_area(top));
        let ghost loaded = ms@;
        assert(!loaded.overlaps(stack.start_vpn, stack.end_vpn)) by {
            assert forall|j: int| 0 <= j < loaded.regions.len() implies !(
            #[trigger] loaded.regions[j]).overlaps(stack.start_vpn, stack.end_vpn) by {
                if j >= 3 {
                    assert(loaded.regions[j].end_vpn <= top);
                }
            }
        }
        let ok = ms.map_region(stack, true);
        assert(ok);
        proof {
            let sv = ms@;
            let idx = loaded.regions.len() as int;
            assert(sv.regions[idx] == stack);
            assert forall|j: int| 0 <= j < USER_STACK_SIZE implies #[trigger] sv.accessible(
                (stack_bottom + j) as usize,
                true,
            ) by {
                let v = ((stack_bottom + j) / 4096) as usize;
                assert(stack.contains(v));
                sv.lemma_unique_area(idx, v);
            }
            assert forall|j: int| 0 <= j < USER_STACK_SIZE implies #[trigger] sv.accessible(
                (stack_bottom + j) as usize,
                false,
            ) by {
                let v = ((stack_bottom + j) / 4096) as usize;
                assert(stack.contains(v));
                sv.lemma_unique_area(idx, v);
            }
        }
        Some(UserImage { memory_set: ms, user_sp: stack_top, entry: info.entry, heap_base })
    }
}

} // verus!
