//! An address space: its regions and the pages that have been given frames.
use crate::config::{PAGE_SIZE, TRAP_CONTEXT};
use crate::mm::area::{MapArea, MapType};
use std::collections::BTreeMap;
use vstd::prelude::*;

verus! {

broadcast use {vstd::std_specs::btree::group_btree_axioms, vstd::laws_cmp::group_laws_cmp};

/// A page of zeros.
pub open spec fn zero_page() -> Seq<u8> {
    Seq::new(4096, |i: int| 0u8)
}

/// The page that starts with `data` and is zero after it.
pub open spec fn page_from(data: Seq<u8>) -> Seq<u8> {
    Seq::new(
        4096,
        |i: int|
            if i < data.len() {
                data[i]
            } else {
                0u8
            },
    )
}

/// What an address space is: its regions, in the order in which they were
/// mapped, and the contents of every page that has a frame.
pub struct SpaceView {
    pub regions: Seq<MapArea>,
    pub pages: Map<usize, Seq<u8>>,
}

impl SpaceView {
    /// Whether some region holds page `vpn`.
    pub open spec fn covers(self, vpn: usize) -> bool {
        exists|i: int| 0 <= i < self.regions.len() && (#[trigger] self.regions[i]).contains(vpn)
    }

    /// The index of a region that holds page `vpn`.
    pub open spec fn index_of(self, vpn: usize) -> int {
        choose|i: int| 0 <= i < self.regions.len() && (#[trigger] self.regions[i]).contains(vpn)
    }

    /// A region that holds page `vpn`.
    pub open spec fn area_of(self, vpn: usize) -> MapArea {
        self.regions[self.index_of(vpn)]
    }

    /// Whether some region shares a page with the pages from `start` up to `end`.
    pub open spec fn overlaps(self, start: usize, end: usize) -> bool {
        exists|i: int| 0 <= i < self.regions.len() && (#[trigger] self.regions[i]).overlaps(start, end)
    }

    /// Whether some region is exactly the pages from `start` up to `end`.
    pub open spec fn has_region(self, start: usize, end: usize) -> bool {
        exists|i: int|
            0 <= i < self.regions.len() && (#[trigger] self.regions[i]).start_vpn == start
                && self.regions[i].end_vpn == end
    }

    /// The index of a region that is exactly the pages from `start` up to `end`.
    pub open spec fn region_index(self, start: usize, end: usize) -> int {
        choose|i: int|
            0 <= i < self.regions.len() && (#[trigger] self.regions[i]).start_vpn == start
                && self.regions[i].end_vpn == end
    }

    /// Whether page `vpn` has a frame.
    pub open spec fn present(self, vpn: usize) -> bool {
        self.pages.contains_key(vpn)
    }

    /// Regions are not empty and do not overlap; every frame belongs to a page
    /// of a region and holds a page of bytes.
    pub open spec fn wf(self) -> bool {
        &&& forall|i: int|
            0 <= i < self.regions.len() ==> (#[trigger] self.regions[i]).start_vpn
                < self.regions[i].end_vpn
        &&& forall|i: int, j: int|
            0 <= i < j < self.regions.len() ==> !(#[trigger] self.regions[i]).overlaps(
                (#[trigger] self.regions[j]).start_vpn,
                self.regions[j].end_vpn,
            )
        &&& forall|vpn: usize| #[trigger]
            self.pages.contains_key(vpn) ==> self.covers(vpn) && self.pages[vpn].len() == 4096
    }

    /// Whether user mode may read the page `vpn` (or write it, if `write`),
    /// once the page has a frame.
    pub open spec fn user_page(self, vpn: usize, write: bool) -> bool {
        &&& self.covers(vpn)
        &&& self.area_of(vpn).map_perm.u
        &&& self.area_of(vpn).map_type != MapType::Identical
        &&& if write {
            self.area_of(vpn).map_perm.w
        } else {
            self.area_of(vpn).map_perm.r
        }
    }

    /// Whether a load from `va` in user mode succeeds without a fault.
    pub open spec fn readable(self, va: usize) -> bool {
        self.user_page((va / 4096) as usize, false) && self.present((va / 4096) as usize)
    }

    /// Whether a store to `va` in user mode succeeds without a fault.
    pub open spec fn writable(self, va: usize) -> bool {
        self.user_page((va / 4096) as usize, true) && self.present((va / 4096) as usize)
    }

    /// Whether user mode may read (or write, if `write`) the byte at `va`
    /// without a fault.
    pub open spec fn accessible(self, va: usize, write: bool) -> bool {
        self.user_page((va / 4096) as usize, write) && self.present((va / 4096) as usize)
    }

    /// Whether user mode may read (or write, if `write`) every one of the
    /// `len` bytes from `va` on without a fault.
    pub open spec fn range_ok(self, va: usize, len: int, write: bool) -> bool {
        &&& va + len <= usize::MAX
        &&& forall|i: int| 0 <= i < len ==> #[trigger] self.accessible((va + i) as usize, write)
    }

    /// The byte at `va`, where its page has a frame.
    pub open spec fn byte(self, va: usize) -> u8 {
        self.pages[(va / 4096) as usize][(va % 4096) as int]
    }

    /// The `len` bytes from `va` on.
    pub open spec fn bytes(self, va: usize, len: int) -> Seq<u8> {
        Seq::new(len as nat, |i: int| self.byte((va + i) as usize))
    }

    /// The pages after `data` has been stored from `va` on.
    pub open spec fn written(self, va: usize, data: Seq<u8>) -> Map<usize, Seq<u8>> {
        Map::new(
            |v: usize| self.pages.contains_key(v),
            |v: usize|
                Seq::new(
                    4096,
                    |off: int|
                        if va <= v * 4096 + off < va + data.len() {
                            data[v * 4096 + off - va]
                        } else {
                            self.pages[v][off]
                        },
                ),
        )
    }

    /// The pages after each page from `start` up to `end` has been given a
    /// frame of zeros.
    pub open spec fn zeroed(self, start: usize, end: usize) -> Map<usize, Seq<u8>> {
        Map::new(
            |v: usize| self.pages.contains_key(v) || start <= v < end,
            |v: usize|
                if start <= v < end {
                    zero_page()
                } else {
                    self.pages[v]
                },
        )
    }

    /// The pages without the frames of the pages from `start` up to `end`.
    pub open spec fn dropped(self, start: usize, end: usize) -> Map<usize, Seq<u8>> {
        Map::new(
            |v: usize| self.pages.contains_key(v) && !(start <= v < end),
            |v: usize| self.pages[v],
        )
    }

    /// Whether a fault at page `vpn` is one the kernel resolves: user mode
    /// may make the access, and the page has a frame or can be given one.
    pub open spec fn fault_resolves(self, vpn: usize, is_load: bool, fill: Option<Seq<u8>>) -> bool {
        self.user_page(vpn, !is_load) && (self.present(vpn) || fresh_page(self.area_of(vpn), fill)
            is Some)
    }

    /// The pages after a fault at page `vpn`: where the fault resolves and
    /// the page had no frame, it has a fresh one.
    pub open spec fn after_fault(self, vpn: usize, is_load: bool, fill: Option<Seq<u8>>) -> Map<
        usize,
        Seq<u8>,
    > {
        if self.fault_resolves(vpn, is_load, fill) && !self.present(vpn) {
            self.pages.insert(vpn, fresh_page(self.area_of(vpn), fill).unwrap())
        } else {
            self.pages
        }
    }

    /// The space holds the trampoline and the trap context as its first two
    /// regions, and every other region lies below the trap context.
    pub open spec fn user_wf(self) -> bool {
        &&& self.wf()
        &&& self.regions.len() >= 2
        &&& self.regions[0] == MapArea::trampoline()
        &&& self.regions[1] == MapArea::trap_context()
        &&& forall|i: int|
            2 <= i < self.regions.len() ==> (#[trigger] self.regions[i]).end_vpn <= usize::MAX / 4096
                - 1
    }

    /// Whether a page lies in a region depends on the regions alone.
    pub proof fn lemma_covers_same_regions(self, other: SpaceView, vpn: usize)
        requires
            self.regions == other.regions,
            self.covers(vpn),
        ensures
            other.covers(vpn),
            other.index_of(vpn) == self.index_of(vpn),
    {
        let k = self.index_of(vpn);
        assert(other.regions[k].contains(vpn));
    }

    /// A space stays well formed when its regions stay and every frame it
    /// has afterwards is a page of bytes that it had before or that lies in
    /// a region.
    pub proof fn lemma_wf_same_regions(self, other: SpaceView)
        requires
            self.wf(),
            self.regions == other.regions,
            forall|v: usize| #[trigger]
                other.pages.contains_key(v) ==> (self.pages.contains_key(v) || self.covers(v))
                    && other.pages[v].len() == 4096,
        ensures
            other.wf(),
            self.user_wf() ==> other.user_wf(),
    {
        assert forall|v: usize| #[trigger] other.pages.contains_key(v) implies other.covers(v) by {
            self.lemma_covers_same_regions(other, v);
        }
    }

    /// In a well-formed address space a page lies in one region only.
    pub proof fn lemma_unique_area(self, i: int, vpn: usize)
        requires
            self.wf(),
            0 <= i < self.regions.len(),
            self.regions[i].contains(vpn),
        ensures
            self.covers(vpn),
            self.index_of(vpn) == i,
            self.area_of(vpn) == self.regions[i],
    {
        let j = self.index_of(vpn);
        assert(0 <= j < self.regions.len() && self.regions[j].contains(vpn));
        if i < j {
            assert(!self.regions[i].overlaps(self.regions[j].start_vpn, self.regions[j].end_vpn));
        } else if j < i {
            assert(!self.regions[j].overlaps(self.regions[i].start_vpn, self.regions[i].end_vpn));
        }
    }

    /// In a well-formed address space no two regions start at the same page.
    pub proof fn lemma_unique_region(self, i: int, start: usize, end: usize)
        requires
            self.wf(),
            0 <= i < self.regions.len(),
            self.regions[i].start_vpn == start,
            self.regions[i].end_vpn == end,
        ensures
            self.has_region(start, end),
            self.region_index(start, end) == i,
    {
        let j = self.region_index(start, end);
        assert(0 <= j < self.regions.len() && self.regions[j].start_vpn == start);
        self.lemma_unique_area(i, start);
        self.lemma_unique_area(j, start);
    }

    /// Every user address space maps the trampoline for reading and
    /// executing and the trap context for reading and writing, both for the
    /// kernel alone.
    pub proof fn lemma_trampoline_and_trap_context(self)
        requires
            self.user_wf(),
        ensures
            self.covers((usize::MAX / 4096) as usize),
            self.area_of((usize::MAX / 4096) as usize) == MapArea::trampoline(),
            self.covers((usize::MAX / 4096 - 1) as usize),
            self.area_of((usize::MAX / 4096 - 1) as usize) == MapArea::trap_context(),
            !self.user_page((usize::MAX / 4096) as usize, false),
            !self.user_page((usize::MAX / 4096 - 1) as usize, false),
            !self.user_page((usize::MAX / 4096) as usize, true),
            !self.user_page((usize::MAX / 4096 - 1) as usize, true),
    {
        self.lemma_unique_area(0, (usize::MAX / 4096) as usize);
        self.lemma_unique_area(1, (usize::MAX / 4096 - 1) as usize);
    }
}

/// An address space.  `areas` lists its regions; `frames` holds the contents
/// of every page that has a frame, keyed by page number.  A page of a region
/// without a frame is mapped lazily: it gets its frame at the first fault.
pub struct MemorySet {
    pub areas: Vec<MapArea>,
    pub frames: BTreeMap<usize, Vec<u8>>,
}

impl View for MemorySet {
    type V = SpaceView;

    open spec fn view(&self) -> SpaceView {
        SpaceView { regions: self.areas@, pages: pages_of(self.frames@) }
    }
}

/// The contents of the frames, page by page.
pub open spec fn pages_of(frames: Map<usize, Vec<u8>>) -> Map<usize, Seq<u8>> {
    Map::new(|k: usize| frames.contains_key(k), |k: usize| frames[k]@)
}

/// Giving page `k` a frame gives it that frame's contents.
pub proof fn lemma_pages_insert(frames: Map<usize, Vec<u8>>, k: usize, v: Vec<u8>)
    ensures
        pages_of(frames.insert(k, v)) == pages_of(frames).insert(k, v@),
{
    assert(pages_of(frames.insert(k, v)) =~= pages_of(frames).insert(k, v@));
}

/// Taking the frame of page `k` away takes its contents away.
pub proof fn lemma_pages_remove(frames: Map<usize, Vec<u8>>, k: usize)
    ensures
        pages_of(frames.remove(k)) == pages_of(frames).remove(k),
{
    assert(pages_of(frames.remove(k)) =~= pages_of(frames).remove(k));
}

/// The bytes a file read handed in for a fault, if any.
pub open spec fn fill_of(fill: Option<&[u8]>) -> Option<Seq<u8>> {
    match fill {
        Some(d) => Some(d@),
        None => None,
    }
}

/// What a page of region `area` holds when it gets its frame: zeros, or,
/// where the region is backed by a file, the bytes read from the file.
pub open spec fn fresh_page(area: MapArea, fill: Option<Seq<u8>>) -> Option<Seq<u8>> {
    match area.map_type {
        MapType::FileBacked { .. } => match fill {
            Some(d) => Some(page_from(d)),
            None => None,
        },
        _ => Some(zero_page()),
    }
}

impl MemorySet {
    /// See [`SpaceView::wf`].
    pub open spec fn wf(&self) -> bool {
        self@.wf()
    }

    /// An address space without regions.
    pub fn new_bare() -> (ms: Self)
        ensures
            ms.wf(),
            ms@.regions == Seq::<MapArea>::empty(),
            ms@.pages == Map::<usize, Seq<u8>>::empty(),
    {
        let ms = MemorySet { areas: Vec::new(), frames: BTreeMap::new() };
        assert(ms@.pages =~= Map::<usize, Seq<u8>>::empty());
        ms
    }

    /// An address space that holds the trampoline and the trap context and
    /// nothing else.
    pub fn new_user() -> (ms: Self)
        ensures
            ms@.user_wf(),
            ms@.regions == seq![MapArea::trampoline(), MapArea::trap_context()],
            ms@.pages == Map::<usize, Seq<u8>>::empty(),
    {
        let mut ms = MemorySet { areas: Vec::new(), frames: BTreeMap::new() };
        ms.areas.push(MapArea::new_trampoline());
        ms.areas.push(MapArea::new_trap_context());
        assert(ms@.pages =~= Map::<usize, Seq<u8>>::empty());
        assert(ms@.regions =~= seq![MapArea::trampoline(), MapArea::trap_context()]);
        ms
    }

    /// The index of the region that holds page `vpn`.
    pub fn find_area(&self, vpn: usize) -> (r: Option<usize>)
        requires
            self.wf(),
        ensures
            r is Some <==> self@.covers(vpn),
            r matches Some(i) ==> i < self@.regions.len() && i == self@.index_of(vpn)
                && self@.regions[i as int].contains(vpn),
    {
        let mut i: usize = 0;
        while i < self.areas.len()
            invariant
                i <= self.areas@.len(),
                self.wf(),
                forall|j: int| 0 <= j < i ==> !(#[trigger] self.areas@[j]).contains(vpn),
            decreases self.areas@.len() - i,
        {
            if self.areas[i].start_vpn <= vpn && vpn < self.areas[i].end_vpn {
                proof {
                    self@.lemma_unique_area(i as int, vpn);
                }
                return Some(i);
            }
            i += 1;
        }
        None
    }

    /// The index of the region that is exactly the pages from `start` up to `end`.
    pub fn find_region(&self, start: usize, end: usize) -> (r: Option<usize>)
        requires
            self.wf(),
        ensures
            r is Some <==> self@.has_region(start, end),
            r matches Some(i) ==> i < self@.regions.len() && i == self@.region_index(start, end)
                && self@.regions[i as int].start_vpn == start && self@.regions[i as int].end_vpn
                == end,
    {
        let mut i: usize = 0;
        while i < self.areas.len()
            invariant
                i <= self.areas@.len(),
                self.wf(),
                forall|j: int|
                    0 <= j < i ==> !((#[trigger] self.areas@[j]).start_vpn == start
                        && self.areas@[j].end_vpn == end),
            decreases self.areas@.len() - i,
        {
            if self.areas[i].start_vpn == start && self.areas[i].end_vpn == end {
                proof {
                    self@.lemma_unique_region(i as int, start, end);
                }
                return Some(i);
            }
            i += 1;
        }
        None
    }

    /// Whether some region shares a page with the pages from `start` up to `end`.
    pub fn range_overlaps(&self, start: usize, end: usize) -> (r: bool)
        ensures
            r == self@.overlaps(start, end),
    {
        let mut i: usize = 0;
        while i < self.areas.len()
            invariant
                i <= self.areas@.len(),
                forall|j: int| 0 <= j < i ==> !(#[trigger] self.areas@[j]).overlaps(start, end),
            decreases self.areas@.len() - i,
        {
            if self.areas[i].start_vpn < end && start < self.areas[i].end_vpn {
                assert(self@.regions[i as int].overlaps(start, end));
                return true;
            }
            i += 1;
        }
        false
    }

    /// Maps `area`, unless it is empty or shares a page with a region that is
    /// there.  With `eager` every page of it gets a frame of zeros at once;
    /// without, the pages get their frames when they are first touched.
    pub fn map_region(&mut self, area: MapArea, eager: bool) -> (ok: bool)
        requires
            old(self).wf(),
        ensures
            final(self).wf(),
            ok <==> area.start_vpn < area.end_vpn && !old(self)@.overlaps(
                area.start_vpn,
                area.end_vpn,
            ),
            ok ==> final(self)@.regions == old(self)@.regions.push(area),
            ok && eager ==> final(self)@.pages == old(self)@.zeroed(area.start_vpn, area.end_vpn),
            ok && !eager ==> final(self)@.pages == old(self)@.pages,
            !ok ==> final(self)@ == old(self)@,
            old(self)@.user_wf() && area.end_vpn <= usize::MAX / 4096 - 1 ==> final(self)@.user_wf(),
    {
        if area.start_vpn >= area.end_vpn || self.range_overlaps(area.start_vpn, area.end_vpn) {
            return false;
        }
        let ghost pre = self@;
        self.areas.push(area);
        proof {
            assert(self@.pages == pre.pages);
            assert forall|vpn: usize| #[trigger] self@.pages.contains_key(vpn) implies self@.covers(
                vpn,
            ) by {
                assert(pre.pages.contains_key(vpn));
                let k = pre.index_of(vpn);
                assert(pre.covers(vpn));
                assert(self@.regions[k].contains(vpn));
            }
        }
        if eager {
            let mut vpn: usize = area.start_vpn;
            while vpn < area.end_vpn
                invariant
                    area.start_vpn <= vpn <= area.end_vpn,
                    pre.wf(),
                    self.areas@ == pre.regions.push(area),
                    self@.pages =~= pre.zeroed(area.start_vpn, vpn),
                decreases area.end_vpn - vpn,
            {
                let page: Vec<u8> = vec![0u8; 4096];
                assert(page@ =~= zero_page());
                let ghost before = self.frames@;
                self.frames.insert(vpn, page);
                assert(self.frames@ == before.insert(vpn, page));
                proof {
                    lemma_pages_insert(before, vpn, page);
                }
                assert(self@.pages =~= pre.zeroed(area.start_vpn, (vpn + 1) as usize));
                vpn += 1;
            }
            proof {
                assert forall|v: usize| #[trigger] self@.pages.contains_key(v) implies self@.covers(
                    v,
                ) by {
                    if area.start_vpn <= v < area.end_vpn {
                        assert(self@.regions[pre.regions.len() as int].contains(v));
                    } else {
                        let k = pre.index_of(v);
                        assert(pre.covers(v));
                        assert(self@.regions[k].contains(v));
                    }
                }
            }
        }
        true
    }
}

impl MemorySet {
    /// Gives page `vpn` the frame `page`, in place of the one it may have.
    fn set_page(&mut self, vpn: usize, page: Vec<u8>)
        requires
            old(self).wf(),
            old(self)@.covers(vpn),
            page@.len() == 4096,
        ensures
            final(self).wf(),
            final(self)@.regions == old(self)@.regions,
            final(self)@.pages == old(self)@.pages.insert(vpn, page@),
    {
        proof {
            lemma_pages_insert(self.frames@, vpn, page);
        }
        self.frames.insert(vpn, page);
        proof {
            old(self)@.lemma_wf_same_regions(self@);
        }
    }

    /// Takes the frame of page `vpn` away, if it has one.
    fn drop_page(&mut self, vpn: usize)
        requires
            old(self).wf(),
        ensures
            final(self).wf(),
            final(self)@.regions == old(self)@.regions,
            final(self)@.pages == old(self)@.pages.remove(vpn),
    {
        proof {
            lemma_pages_remove(self.frames@, vpn);
        }
        self.frames.remove(&vpn);
        proof {
            old(self)@.lemma_wf_same_regions(self@);
        }
    }

    /// Takes the frames of the pages from `start` up to `end` away.
    fn drop_pages(&mut self, start: usize, end: usize)
        requires
            old(self).wf(),
        ensures
            final(self).wf(),
            final(self)@.regions == old(self)@.regions,
            final(self)@.pages == old(self)@.dropped(start, end),
    {
        let ghost pre = self@;
        if start >= end {
            assert(self@.pages =~= pre.dropped(start, end));
            return ;
        }
        let mut vpn: usize = start;
        assert(self@.pages =~= pre.dropped(start, start));
        while vpn < end
            invariant
                start <= vpn <= end,
                self.wf(),
                self@.regions == pre.regions,
                self@.pages == pre.dropped(start, vpn),
            decreases end - vpn,
        {
            self.drop_page(vpn);
            assert(self@.pages =~= pre.dropped(start, (vpn + 1) as usize));
            vpn += 1;
        }
    }

    /// Handles a fault of user mode at address `va`, a load if `is_load` and
    /// a store otherwise.  Returns 0 where user mode may make the access and
    /// the page has its frame afterwards, and -1 otherwise.  A page without a
    /// frame gets one: zeros, or, in a region backed by a file, the bytes
    /// `fill` that were read from the file for this page (without them the
    /// fault is not resolved).
    pub fn check_lazy(&mut self, va: usize, is_load: bool, fill: Option<&[u8]>) -> (r: isize)
        requires
            old(self).wf(),
        ensures
            final(self).wf(),
            final(self)@.regions == old(self)@.regions,
            r == 0 || r == -1,
            r == 0 <==> old(self)@.fault_resolves((va / 4096) as usize, is_load, fill_of(fill)),
            final(self)@.pages == old(self)@.after_fault(
                (va / 4096) as usize,
                is_load,
                fill_of(fill),
            ),
    {
        let vpn: usize = va / PAGE_SIZE;
        let idx = match self.find_area(vpn) {
            Some(i) => i,
            None => {
                return -1;
            },
        };
        let area = self.areas[idx];
        let allowed = if is_load {
            area.map_perm.r
        } else {
            area.map_perm.w
        };
        if !area.map_perm.u || !allowed {
            return -1;
        }
        if self.frames.contains_key(&vpn) {
            return match area.map_type {
                MapType::Identical => -1,
                _ => 0,
            };
        }
        match area.map_type {
            MapType::Identical => -1,
            MapType::Framed => {
                let page: Vec<u8> = vec![0u8; 4096];
                assert(page@ =~= zero_page());
                self.set_page(vpn, page);
                0
            },
            MapType::FileBacked { .. } => {
                match fill {
                    None => -1,
                    Some(data) => {
                        let mut page: Vec<u8> = Vec::new();
                        let mut i: usize = 0;
                        while i < 4096
                            invariant
                                i <= 4096,
                                page@.len() == i,
                                forall|j: int| 0 <= j < i ==> page@[j] == page_from(data@)[j],
                            decreases 4096 - i,
                        {
                            let b: u8 = if i < data.len() {
                                data[i]
                            } else {
                                0
                            };
                            page.push(b);
                            i += 1;
                        }
                        assert(page@ =~= page_from(data@));
                        self.set_page(vpn, page);
                        0
                    },
                }
            },
        }
    }

    /// Unmaps the region that is exactly the pages from `start` up to `end`
    /// and frees its frames.  Without such a region nothing changes.
    pub fn unmap_region(&mut self, start: usize, end: usize) -> (ok: bool)
        requires
            old(self).wf(),
        ensures
            final(self).wf(),
            ok <==> old(self)@.has_region(start, end),
            ok ==> final(self)@.regions == old(self)@.regions.remove(
                old(self)@.region_index(start, end),
            ),
            ok ==> final(self)@.pages == old(self)@.dropped(start, end),
            !ok ==> final(self)@ == old(self)@,
            old(self)@.user_wf() && end <= usize::MAX / 4096 - 1 ==> final(self)@.user_wf(),
    {
        let idx = match self.find_region(start, end) {
            Some(i) => i,
            None => {
                return false;
            },
        };
        let ghost pre = self@;
        self.drop_pages(start, end);
        let ghost mid = self@;
        self.areas.remove(idx);
        proof {
            let post = self@;
            assert(post.pages == mid.pages);
            assert forall|v: usize| #[trigger] post.pages.contains_key(v) implies post.covers(v) by {
                assert(pre.pages.contains_key(v));
                let k = pre.index_of(v);
                assert(pre.covers(v));
                assert(k != idx);
                if k < idx {
                    assert(post.regions[k].contains(v));
                } else {
                    assert(post.regions[k - 1].contains(v));
                }
            }
            assert forall|i: int, j: int| 0 <= i < j < post.regions.len() implies !(
            #[trigger] post.regions[i]).overlaps(
                (#[trigger] post.regions[j]).start_vpn,
                post.regions[j].end_vpn,
            ) by {
                let i0 = if i < idx {
                    i
                } else {
                    i + 1
                };
                let j0 = if j < idx {
                    j
                } else {
                    j + 1
                };
                assert(!pre.regions[i0].overlaps(pre.regions[j0].start_vpn, pre.regions[j0].end_vpn));
            }
            if pre.user_wf() && end <= usize::MAX / 4096 - 1 {
                assert(idx >= 2);
                assert forall|i: int| 2 <= i < post.regions.len() implies (
                #[trigger] post.regions[i]).end_vpn <= usize::MAX / 4096 - 1 by {
                    let i0 = if i < idx {
                        i
                    } else {
                        i + 1
                    };
                    assert(pre.regions[i0].end_vpn <= usize::MAX / 4096 - 1);
                }
            }
        }
        true
    }

    /// Moves the end of region `idx` to page `new_end`.  A region that grows
    /// must not run into another one; the new pages have no frames.  A region
    /// that shrinks loses the frames of the pages it gives up.
    pub fn resize_area(&mut self, idx: usize, new_end: usize) -> (ok: bool)
        requires
            old(self).wf(),
            idx < old(self)@.regions.len(),
        ensures
            final(self).wf(),
            ok <==> old(self)@.regions[idx as int].start_vpn < new_end && !old(self)@.overlaps(
                old(self)@.regions[idx as int].end_vpn,
                new_end,
            ),
            ok ==> final(self)@.regions == old(self)@.regions.update(
                idx as int,
                MapArea { end_vpn: new_end, ..old(self)@.regions[idx as int] },
            ),
            ok ==> final(self)@.pages == old(self)@.dropped(
                new_end,
                old(self)@.regions[idx as int].end_vpn,
            ),
            !ok ==> final(self)@ == old(self)@,
            old(self)@.user_wf() && idx >= 2 && new_end <= usize::MAX / 4096 - 1
                ==> final(self)@.user_wf(),
    {
        let area = self.areas[idx];
        if area.start_vpn >= new_end || self.range_overlaps(area.end_vpn, new_end) {
            return false;
        }
        let ghost pre = self@;
        self.drop_pages(new_end, area.end_vpn);
        let ghost mid = self@;
        self.areas.set(idx, MapArea { end_vpn: new_end, ..area });
        proof {
            let post = self@;
            assert(post.pages == mid.pages);
            assert forall|v: usize| #[trigger] post.pages.contains_key(v) implies post.covers(v) by {
                assert(pre.pages.contains_key(v));
                let k = pre.index_of(v);
                assert(pre.covers(v));
                assert(post.regions[k].contains(v));
            }
            assert forall|i: int, j: int| 0 <= i < j < post.regions.len() implies !(
            #[trigger] post.regions[i]).overlaps(
                (#[trigger] post.regions[j]).start_vpn,
                post.regions[j].end_vpn,
            ) by {
                assert(!pre.regions[i].overlaps(pre.regions[j].start_vpn, pre.regions[j].end_vpn));
                assert(!pre.regions[i].overlaps(area.end_vpn, new_end));
                assert(!pre.regions[j].overlaps(area.end_vpn, new_end));
            }
        }
        true
    }

    /// A copy of a whole address space: the same regions, and a frame of its
    /// own with the same bytes for every page that has a frame in `src`.
    pub fn from_existed_user(src: &MemorySet) -> (ms: Self)
        requires
            src.wf(),
        ensures
            ms@ == src@,
            ms.wf(),
    {
        let mut ms = MemorySet { areas: Vec::new(), frames: BTreeMap::new() };
        let mut i: usize = 0;
        while i < src.areas.len()
            invariant
                i <= src.areas@.len(),
                src.wf(),
                ms.areas@ == src.areas@.subrange(0, i as int),
                forall|v: usize| #[trigger]
                    ms.frames@.contains_key(v) ==> src.frames@.contains_key(v) && ms.frames@[v]@
                        == src.frames@[v]@,
                forall|v: usize, k: int|
                    0 <= k < i && (#[trigger] src.areas@[k]).contains(v) && #[trigger] src.frames@.contains_key(v)
                        ==> ms.frames@.contains_key(v),
            decreases src.areas@.len() - i,
        {
            let area = src.areas[i];
            ms.areas.push(area);
            assert(ms.areas@ =~= src.areas@.subrange(0, i + 1));
            let mut vpn: usize = area.start_vpn;
            while vpn < area.end_vpn
                invariant
                    i < src.areas@.len(),
                    area == src.areas@[i as int],
                    area.start_vpn <= vpn <= area.end_vpn,
                    src.wf(),
                    ms.areas@ == src.areas@.subrange(0, i + 1),
                    forall|v: usize| #[trigger]
                        ms.frames@.contains_key(v) ==> src.frames@.contains_key(v)
                            && ms.frames@[v]@ == src.frames@[v]@,
                    forall|v: usize, k: int|
                        0 <= k < i && (#[trigger] src.areas@[k]).contains(v) && #[trigger] src.frames@.contains_key(v)
                            ==> ms.frames@.contains_key(v),
                    forall|v: usize|
                        area.start_vpn <= v < vpn && #[trigger] src.frames@.contains_key(v)
                            ==> ms.frames@.contains_key(v),
                decreases area.end_vpn - vpn,
            {
                match src.frames.get(&vpn) {
                    Some(page) => {
                        let copy: Vec<u8> = page.clone();
                        assert(copy@ =~= page@);
                        ms.frames.insert(vpn, copy);
                    },
                    None => {},
                }
                vpn += 1;
            }
            i += 1;
        }
        proof {
            assert(ms.areas@ =~= src.areas@);
            assert forall|v: usize| #[trigger] src.frames@.contains_key(v) implies ms.frames@.contains_key(v) by {
                assert(src@.pages.contains_key(v));
                let k = src@.index_of(v);
                assert(src@.covers(v));
                assert(src.areas@[k].contains(v));
            }
            assert(ms@.pages =~= src@.pages);
        }
        ms
    }
}

} // verus!
