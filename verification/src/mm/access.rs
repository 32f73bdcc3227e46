//! Loads and stores of user mode, and the kernel's reads and writes of user
//! memory on behalf of a system call.
use crate::codec::{int_bytes, put_int, put_word, word_bytes, word_of};
use crate::config::PAGE_SIZE;
use crate::mm::memory_set::{lemma_pages_insert, lemma_pages_remove, MemorySet, SpaceView};
use vstd::prelude::*;

verus! {

broadcast use {vstd::std_specs::btree::group_btree_axioms, vstd::laws_cmp::group_laws_cmp};

impl SpaceView {
    /// Whether a string of `n` bytes that are not zero, followed by a zero
    /// byte, can be read from `va` on.
    pub open spec fn is_cstr(self, va: usize, n: int) -> bool {
        &&& 0 <= n
        &&& va + n <= usize::MAX
        &&& forall|i: int| 0 <= i < n ==> #[trigger] self.nonzero_at((va + i) as usize)
        &&& self.readable((va + n) as usize)
        &&& self.byte((va + n) as usize) == 0
    }

    /// Whether the byte at `va` can be read and is not zero.
    pub open spec fn nonzero_at(self, va: usize) -> bool {
        self.readable(va) && self.byte(va) != 0
    }

    /// A string ends at its first zero byte and nowhere else.
    pub proof fn lemma_cstr_unique(self, va: usize, n: int, m: int)
        requires
            self.is_cstr(va, n),
            self.is_cstr(va, m),
        ensures
            n == m,
    {
        if n < m {
            assert(self.nonzero_at((va + n) as usize));
        } else if m < n {
            assert(self.nonzero_at((va + m) as usize));
        }
    }

    /// The string that starts at `va` and ends before the first zero byte,
    /// where all of it and the zero byte can be read.
    pub open spec fn cstr(self, va: usize) -> Option<Seq<u8>> {
        if exists|n: int| self.is_cstr(va, n) {
            Some(self.bytes(va, choose|n: int| self.is_cstr(va, n)))
        } else {
            None
        }
    }

    /// The machine word at `va`, where it can be read.
    pub open spec fn word_at(self, va: usize) -> Option<usize> {
        if self.range_ok(va, 8, false) {
            Some(word_of(self.bytes(va, 8)))
        } else {
            None
        }
    }

    /// Whether the word at `slot` is the address of a string.
    pub open spec fn arg_ok(self, slot: usize) -> bool {
        self.word_at(slot) matches Some(p) && p != 0 && self.cstr(p) is Some
    }

    /// The string whose address stands at `slot`.
    pub open spec fn arg_at(self, slot: usize) -> Seq<u8> {
        self.cstr(self.word_at(slot).unwrap()).unwrap()
    }

    /// Whether `n` addresses of strings, followed by a null word, stand from
    /// `va` on.
    pub open spec fn is_argv(self, va: usize, n: int) -> bool {
        &&& 0 <= n
        &&& va + 8 * n + 8 <= usize::MAX
        &&& forall|i: int| 0 <= i < n ==> #[trigger] self.arg_ok((va + 8 * i) as usize)
        &&& self.word_at((va + 8 * n) as usize) == Some(0usize)
    }

    /// The `n` strings whose addresses stand from `va` on.
    pub open spec fn args_at(self, va: usize, n: int) -> Seq<Seq<u8>> {
        Seq::new(n as nat, |i: int| self.arg_at((va + 8 * i) as usize))
    }

    /// The strings of the array of addresses at `va`, which a null word
    /// ends; no strings where `va` is null; nothing where the array or one of
    /// the strings cannot be read.
    pub open spec fn argv(self, va: usize) -> Option<Seq<Seq<u8>>> {
        if va == 0 {
            Some(Seq::<Seq<u8>>::empty())
        } else if exists|n: int| self.is_argv(va, n) {
            Some(self.args_at(va, choose|n: int| self.is_argv(va, n)))
        } else {
            None
        }
    }

    /// An array of addresses ends at its first null word and nowhere else.
    pub proof fn lemma_argv_unique(self, va: usize, n: int, m: int)
        requires
            self.is_argv(va, n),
            self.is_argv(va, m),
        ensures
            n == m,
    {
        if n < m {
            assert(self.arg_ok((va + 8 * n) as usize));
        } else if m < n {
            assert(self.arg_ok((va + 8 * m) as usize));
        }
    }

    /// Storing one byte changes that byte of its page.
    pub proof fn lemma_written_one(self, va: usize, b: u8)
        requires
            self.wf(),
            self.present((va / 4096) as usize),
        ensures
            self.written(va, seq![b]) == self.pages.insert(
                (va / 4096) as usize,
                self.pages[(va / 4096) as usize].update((va % 4096) as int, b),
            ),
    {
        let vpn = (va / 4096) as usize;
        let off = va % 4096;
        let a = self.written(va, seq![b]);
        let t = self.pages.insert(vpn, self.pages[vpn].update(off as int, b));
        assert(va == vpn * 4096 + off);
        assert forall|v: usize| #[trigger] a.contains_key(v) implies a[v] =~= t[v] by {
            assert(self.pages.contains_key(v));
            assert(self.pages[v].len() == 4096);
            assert forall|o: int| 0 <= o < 4096 implies a[v][o] == t[v][o] by {
                if v == vpn {
                } else {
                    assert(v * 4096 + o != va);
                }
            }
        }
        assert(a =~= t);
    }

    /// Storing one byte after a prefix stores the longer prefix.
    pub proof fn lemma_written_step(self, va: usize, data: Seq<u8>, i: int)
        requires
            0 <= i < data.len(),
            va + data.len() <= usize::MAX,
        ensures
            (SpaceView { regions: self.regions, pages: self.written(va, data.subrange(0, i)) }).written(
                (va + i) as usize,
                seq![data[i]],
            ) == self.written(va, data.subrange(0, i + 1)),
    {
        let mid = SpaceView { regions: self.regions, pages: self.written(va, data.subrange(0, i)) };
        let a = mid.written((va + i) as usize, seq![data[i]]);
        let b = self.written(va, data.subrange(0, i + 1));
        assert forall|v: usize| #[trigger] a.contains_key(v) implies a[v] =~= b[v] by {
            assert forall|off: int| 0 <= off < 4096 implies a[v][off] == b[v][off] by {
                let addr = v * 4096 + off;
                if addr == va + i {
                } else if va <= addr < va + i {
                    assert(data.subrange(0, i)[addr - va] == data.subrange(0, i + 1)[addr - va]);
                } else {
                }
            }
        }
        assert(a =~= b);
    }

    /// Storing nothing changes nothing.
    pub proof fn lemma_written_nothing(self, va: usize)
        requires
            self.wf(),
        ensures
            self.written(va, Seq::<u8>::empty()) == self.pages,
    {
        let a = self.written(va, Seq::<u8>::empty());
        assert forall|v: usize| #[trigger] a.contains_key(v) implies a[v] =~= self.pages[v] by {
            assert(self.pages.contains_key(v));
        }
        assert(a =~= self.pages);
    }

    /// After a store the bytes stored can be read back, every other byte is
    /// as before, and what user mode may access is as before.
    pub proof fn lemma_written_bytes(self, va: usize, data: Seq<u8>, a: usize)
        requires
            self.wf(),
            va + data.len() <= usize::MAX,
            self.present((a / 4096) as usize),
        ensures
            (SpaceView { regions: self.regions, pages: self.written(va, data) }).byte(a) == if va <= a
                < va + data.len() {
                data[a - va]
            } else {
                self.byte(a)
            },
    {
    }
}

/// The bytes from `va` to the end of its page, or `len` of them where that
/// is less.
pub open spec fn piece_len(va: usize, len: int) -> int {
    if len < 4096 - va % 4096 {
        len
    } else {
        4096 - va % 4096
    }
}

/// The `len` bytes from `va` on, cut at every page boundary: the address and
/// the length of each piece, from low addresses to high.
pub open spec fn page_pieces(va: usize, len: int) -> Seq<(usize, usize)>
    decreases len,
{
    if len <= 0 {
        Seq::<(usize, usize)>::empty()
    } else {
        seq![(va, piece_len(va, len) as usize)] + page_pieces(
            (va + piece_len(va, len)) as usize,
            len - piece_len(va, len),
        )
    }
}

/// The pieces of a buffer lie one behind the other, each within one page,
/// and together they are the buffer.
pub proof fn lemma_page_pieces(va: usize, len: int, i: int)
    requires
        0 <= len,
        va + len <= usize::MAX,
        0 <= i < page_pieces(va, len).len(),
    ensures
        va <= page_pieces(va, len)[i].0,
        page_pieces(va, len)[i].1 > 0,
        page_pieces(va, len)[i].0 + page_pieces(va, len)[i].1 <= va + len,
        page_pieces(va, len)[i].0 / 4096 == (page_pieces(va, len)[i].0 + page_pieces(va, len)[i].1
            - 1) / 4096,
        i == 0 ==> page_pieces(va, len)[i].0 == va,
        i > 0 ==> page_pieces(va, len)[i].0 == page_pieces(va, len)[i - 1].0 + page_pieces(
            va,
            len,
        )[i - 1].1,
        i == page_pieces(va, len).len() - 1 ==> page_pieces(va, len)[i].0 + page_pieces(
            va,
            len,
        )[i].1 == va + len,
    decreases len,
{
    let n = piece_len(va, len);
    let rest = page_pieces((va + n) as usize, len - n);
    assert(page_pieces(va, len) == seq![(va, n as usize)] + rest);
    if i > 0 {
        lemma_page_pieces((va + n) as usize, len - n, i - 1);
        assert(page_pieces(va, len)[i] == rest[i - 1]);
        if i > 1 {
            assert(page_pieces(va, len)[i - 1] == rest[i - 2]);
        }
    } else {
        if len - n <= 0 {
            assert(rest.len() == 0);
        }
    }
}

impl MemorySet {
    /// The pieces, page by page, of the buffer of `len` bytes at `va` that a
    /// system call is to fill: the address and the length of each.  Nothing
    /// unless user mode may write every byte of the buffer.
    pub fn translated_byte_buffer(&self, va: usize, len: usize) -> (r: Option<Vec<(usize, usize)>>)
        requires
            self.wf(),
        ensures
            r is Some <==> self@.range_ok(va, len as int, true),
            r matches Some(v) ==> v@ == page_pieces(va, len as int),
    {
        if !self.can_access_range(va, len, true) {
            return None;
        }
        let mut out: Vec<(usize, usize)> = Vec::new();
        let mut at: usize = va;
        let mut left: usize = len;
        while left > 0
            invariant
                at + left == va + len,
                va + len <= usize::MAX,
                out@ + page_pieces(at, left as int) == page_pieces(va, len as int),
            decreases left,
        {
            let room: usize = 4096 - at % 4096;
            let n: usize = if left < room {
                left
            } else {
                room
            };
            assert(n == piece_len(at, left as int));
            let ghost before = out@;
            out.push((at, n));
            proof {
                let rest = page_pieces((at + n) as usize, left - n);
                assert(page_pieces(at, left as int) == seq![(at, n)] + rest);
                assert(before.push((at, n)) + rest =~= before + (seq![(at, n)] + rest));
            }
            at = at + n;
            left = left - n;
        }
        proof {
            assert(page_pieces(at, 0) =~= Seq::<(usize, usize)>::empty());
            assert(out@ + Seq::<(usize, usize)>::empty() =~= out@);
        }
        Some(out)
    }

    /// What a load of user mode from `va` gives: the byte, or nothing where
    /// the load faults.
    pub fn load_byte(&self, va: usize) -> (r: Option<u8>)
        requires
            self.wf(),
        ensures
            r is Some <==> self@.readable(va),
            r matches Some(b) ==> b == self@.byte(va),
    {
        let vpn: usize = va / PAGE_SIZE;
        match self.find_area(vpn) {
            None => None,
            Some(i) => {
                let area = self.areas[i];
                if !area.map_perm.u || !area.map_perm.r || area.map_type
                    == crate::mm::area::MapType::Identical {
                    return None;
                }
                match self.frames.get(&vpn) {
                    None => None,
                    Some(page) => {
                        assert(self@.pages.contains_key(vpn));
                        assert(self@.pages[vpn] == page@);
                        Some(page[va % PAGE_SIZE])
                    },
                }
            },
        }
    }

    /// Whether user mode may read (or write, if `write`) the byte at `va`
    /// without a fault.
    pub fn can_access(&self, va: usize, write: bool) -> (r: bool)
        requires
            self.wf(),
        ensures
            r == self@.accessible(va, write),
    {
        let vpn: usize = va / PAGE_SIZE;
        match self.find_area(vpn) {
            None => false,
            Some(i) => {
                let area = self.areas[i];
                let allowed = if write {
                    area.map_perm.w
                } else {
                    area.map_perm.r
                };
                area.map_perm.u && allowed && area.map_type != crate::mm::area::MapType::Identical
                    && self.frames.contains_key(&vpn)
            },
        }
    }

    /// Whether user mode may read (or write, if `write`) every one of the
    /// `len` bytes from `va` on without a fault.
    pub fn can_access_range(&self, va: usize, len: usize, write: bool) -> (r: bool)
        requires
            self.wf(),
        ensures
            r == self@.range_ok(va, len as int, write),
    {
        if len > usize::MAX - va {
            return false;
        }
        let mut i: usize = 0;
        while i < len
            invariant
                i <= len,
                va + len <= usize::MAX,
                self.wf(),
                forall|j: int| 0 <= j < i ==> #[trigger] self@.accessible((va + j) as usize, write),
            decreases len - i,
        {
            if !self.can_access(va + i, write) {
                assert(!self@.accessible((va + i) as usize, write));
                return false;
            }
            i += 1;
        }
        true
    }

    /// Stores `b` at `va` without a check of permissions: the page must
    /// have a frame.
    fn poke(&mut self, va: usize, b: u8)
        requires
            old(self).wf(),
            old(self)@.present((va / 4096) as usize),
        ensures
            final(self).wf(),
            final(self)@.regions == old(self)@.regions,
            final(self)@.pages == old(self)@.written(va, seq![b]),
    {
        let vpn: usize = va / PAGE_SIZE;
        let off: usize = va % PAGE_SIZE;
        let ghost pre = self@;
        let ghost pre_frames = self.frames@;
        assert(pre.pages.contains_key(vpn));
        assert(pre.pages[vpn] == pre_frames[vpn]@);
        let taken = self.frames.remove(&vpn);
        let mut page: Vec<u8> = taken.unwrap();
        page.set(off, b);
        proof {
            lemma_pages_remove(pre_frames, vpn);
            lemma_pages_insert(self.frames@, vpn, page);
        }
        self.frames.insert(vpn, page);
        proof {
            assert(self@.pages == pre.pages.remove(vpn).insert(vpn, page@));
            pre.lemma_written_one(va, b);
            assert(pre.pages.remove(vpn).insert(vpn, page@) =~= pre.pages.insert(vpn, page@));
            pre.lemma_wf_same_regions(self@);
        }
    }

    /// Stores `data` from `va` on, whatever the permissions of the pages:
    /// the kernel fills memory that it has just mapped.  Every page of the
    /// range must have a frame.
    pub fn fill(&mut self, va: usize, data: &[u8])
        requires
            old(self).wf(),
            va + data@.len() <= usize::MAX,
            forall|i: int|
                0 <= i < data@.len() ==> old(self)@.present(#[trigger] (((va + i) / 4096) as usize)),
        ensures
            final(self).wf(),
            final(self)@.regions == old(self)@.regions,
            final(self)@.pages == old(self)@.written(va, data@),
    {
        let len: usize = data.len();
        let ghost pre = self@;
        proof {
            pre.lemma_written_nothing(va);
            assert(data@.subrange(0, 0) =~= Seq::<u8>::empty());
        }
        let mut i: usize = 0;
        while i < len
            invariant
                i <= len,
                len == data@.len(),
                va + len <= usize::MAX,
                pre.wf(),
                forall|j: int| 0 <= j < len ==> pre.present(#[trigger] (((va + j) / 4096) as usize)),
                self.wf(),
                self@.regions == pre.regions,
                self@.pages == pre.written(va, data@.subrange(0, i as int)),
            decreases len - i,
        {
            proof {
                assert(pre.present((((va + i) / 4096) as usize)));
                pre.lemma_written_step(va, data@, i as int);
            }
            self.poke(va + i, data[i]);
            i += 1;
        }
        assert(data@.subrange(0, len as int) =~= data@);
    }

    /// A store of user mode to `va`: stores the byte and says `true`, or
    /// changes nothing and says `false` where the store faults.
    pub fn store_byte(&mut self, va: usize, b: u8) -> (ok: bool)
        requires
            old(self).wf(),
        ensures
            final(self).wf(),
            final(self)@.regions == old(self)@.regions,
            ok == old(self)@.writable(va),
            ok ==> final(self)@.pages == old(self)@.written(va, seq![b]),
            !ok ==> final(self)@ == old(self)@,
    {
        if self.can_access(va, true) {
            self.poke(va, b);
            true
        } else {
            false
        }
    }

    /// Copies `data` to user memory from `va` on, for a system call.  Says
    /// `false` and changes nothing unless user mode may write every byte of
    /// the range.
    pub fn copy_out(&mut self, va: usize, data: &[u8]) -> (ok: bool)
        requires
            old(self).wf(),
        ensures
            final(self).wf(),
            final(self)@.regions == old(self)@.regions,
            ok == old(self)@.range_ok(va, data@.len() as int, true),
            ok ==> final(self)@.pages == old(self)@.written(va, data@),
            !ok ==> final(self)@ == old(self)@,
    {
        let len: usize = data.len();
        if !self.can_access_range(va, len, true) {
            return false;
        }
        let ghost pre = self@;
        proof {
            pre.lemma_written_nothing(va);
            assert(data@.subrange(0, 0) =~= Seq::<u8>::empty());
        }
        let mut i: usize = 0;
        while i < len
            invariant
                i <= len,
                len == data@.len(),
                va + len <= usize::MAX,
                pre.wf(),
                pre.range_ok(va, len as int, true),
                self.wf(),
                self@.regions == pre.regions,
                self@.pages == pre.written(va, data@.subrange(0, i as int)),
            decreases len - i,
        {
            proof {
                assert(pre.accessible((va + i) as usize, true));
                pre.lemma_written_step(va, data@, i as int);
            }
            self.poke(va + i, data[i]);
            i += 1;
        }
        assert(data@.subrange(0, len as int) =~= data@);
        true
    }

    /// Copies `len` bytes of user memory from `va` on, for a system call.
    /// Gives nothing unless user mode may read every byte of the range.
    pub fn copy_in(&self, va: usize, len: usize) -> (r: Option<Vec<u8>>)
        requires
            self.wf(),
        ensures
            r is Some <==> self@.range_ok(va, len as int, false),
            r matches Some(data) ==> data@ == self@.bytes(va, len as int),
    {
        if !self.can_access_range(va, len, false) {
            return None;
        }
        let mut out: Vec<u8> = Vec::new();
        let mut i: usize = 0;
        while i < len
            invariant
                i <= len,
                va + len <= usize::MAX,
                self.wf(),
                self@.range_ok(va, len as int, false),
                out@ == self@.bytes(va, i as int),
            decreases len - i,
        {
            assert(self@.accessible((va + i) as usize, false));
            let b = self.load_byte(va + i);
            out.push(b.unwrap());
            assert(out@ =~= self@.bytes(va, i + 1));
            i += 1;
        }
        Some(out)
    }

    /// Reads the string that starts at `va` and ends before the first zero
    /// byte.  Gives nothing where a byte of it, or the zero byte, cannot be
    /// read.
    pub fn translated_str(&self, va: usize) -> (r: Option<Vec<u8>>)
        requires
            self.wf(),
        ensures
            r matches Some(s) ==> self@.is_cstr(va, s@.len() as int) && s@ == self@.bytes(
                va,
                s@.len() as int,
            ),
            r is None ==> forall|n: int| !self@.is_cstr(va, n),
            match r {
                Some(s) => self@.cstr(va) == Some(s@),
                None => self@.cstr(va) is None,
            },
    {
        let mut out: Vec<u8> = Vec::new();
        let mut a: usize = va;
        loop
            invariant
                va <= a,
                a == va + out@.len(),
                self.wf(),
                out@ == self@.bytes(va, out@.len() as int),
                forall|i: int| 0 <= i < out@.len() ==> #[trigger] self@.nonzero_at((va + i) as usize),
            decreases usize::MAX - a,
        {
            match self.load_byte(a) {
                None => {
                    proof {
                        assert forall|n: int| !self@.is_cstr(va, n) by {
                            if self@.is_cstr(va, n) {
                                if n < out@.len() {
                                    assert(self@.nonzero_at((va + n) as usize));
                                } else if n > out@.len() {
                                    assert(self@.nonzero_at((va + out@.len()) as usize));
                                }
                            }
                        }
                    }
                    return None;
                },
                Some(b) => {
                    if b == 0 {
                        assert(self@.readable((va + out@.len()) as usize));
                        assert(self@.byte((va + out@.len()) as usize) == 0);
                        proof {
                            assert(self@.is_cstr(va, out@.len() as int));
                            let n = choose|n: int| self@.is_cstr(va, n);
                            self@.lemma_cstr_unique(va, n, out@.len() as int);
                        }
                        return Some(out);
                    }
                    if a == usize::MAX {
                        proof {
                            assert forall|n: int| !self@.is_cstr(va, n) by {
                                if self@.is_cstr(va, n) {
                                    if n < out@.len() {
                                        assert(self@.nonzero_at((va + n) as usize));
                                    }
                                }
                            }
                        }
                        return None;
                    }
                    let ghost prev = out@;
                    assert(self@.nonzero_at((va + prev.len()) as usize));
                    out.push(b);
                    a += 1;
                    assert(out@ =~= self@.bytes(va, out@.len() as int));
                },
            }
        }
    }

    /// Reads the strings of the array of addresses at `va`, which a null
    /// word ends.  Gives no strings where `va` is null, and nothing where
    /// the array or one of the strings cannot be read.
    pub fn read_argv(&self, va: usize) -> (r: Option<Vec<Vec<u8>>>)
        requires
            self.wf(),
        ensures
            match r {
                Some(v) => self@.argv(va) == Some(crate::mm::user_stack::views(v@)),
                None => self@.argv(va) is None,
            },
    {
        let mut out: Vec<Vec<u8>> = Vec::new();
        if va == 0 {
            assert(crate::mm::user_stack::views(out@) =~= Seq::<Seq<u8>>::empty());
            return Some(out);
        }
        let mut slot: usize = va;
        loop
            invariant
                va != 0,
                self.wf(),
                slot == va + 8 * out@.len(),
                crate::mm::user_stack::views(out@) == self@.args_at(va, out@.len() as int),
                forall|i: int| 0 <= i < out@.len() ==> #[trigger] self@.arg_ok((va + 8 * i) as usize),
            decreases usize::MAX - slot,
        {
            let ghost n = out@.len() as int;
            let word = self.read_word(slot);
            let p = match word {
                Some(p) => p,
                None => {
                    proof {
                        assert forall|m: int| !self@.is_argv(va, m) by {
                            if self@.is_argv(va, m) {
                                if m > n {
                                    assert(self@.arg_ok((va + 8 * n) as usize));
                                } else if m < n {
                                    assert(self@.arg_ok((va + 8 * m) as usize));
                                }
                            }
                        }
                    }
                    return None;
                },
            };
            if p == 0 {
                proof {
                    assert(slot + 8 <= usize::MAX);
                    assert(self@.is_argv(va, n));
                    let m = choose|m: int| self@.is_argv(va, m);
                    self@.lemma_argv_unique(va, m, n);
                }
                return Some(out);
            }
            let s = match self.translated_str(p) {
                Some(s) => s,
                None => {
                    proof {
                        assert(!self@.arg_ok((va + 8 * n) as usize));
                        assert forall|m: int| !self@.is_argv(va, m) by {
                            if self@.is_argv(va, m) {
                                if m > n {
                                    assert(self@.arg_ok((va + 8 * n) as usize));
                                } else if m < n {
                                    assert(self@.arg_ok((va + 8 * m) as usize));
                                }
                            }
                        }
                    }
                    return None;
                },
            };
            if slot > usize::MAX - 16 {
                proof {
                    assert forall|m: int| !self@.is_argv(va, m) by {
                        if self@.is_argv(va, m) {
                            if m <= n {
                                assert(self@.arg_ok((va + 8 * n) as usize));
                                if m < n {
                                    assert(self@.arg_ok((va + 8 * m) as usize));
                                }
                            }
                        }
                    }
                }
                return None;
            }
            proof {
                assert(self@.arg_ok((va + 8 * n) as usize));
                assert(self@.arg_at((va + 8 * n) as usize) == s@);
            }
            let ghost prev = out@;
            out.push(s);
            slot = slot + 8;
            proof {
                let now = crate::mm::user_stack::views(out@);
                let want = self@.args_at(va, n + 1);
                assert(now.len() == want.len());
                assert forall|i: int| 0 <= i < n + 1 implies now[i] == want[i] by {
                    if i < n {
                        assert(out@[i] == prev[i]);
                        assert(crate::mm::user_stack::views(prev)[i] == self@.args_at(va, n)[i]);
                    }
                }
                assert(now =~= want);
            }
        }
    }

    /// Reads the machine word at `va`.
    pub fn read_word(&self, va: usize) -> (r: Option<usize>)
        requires
            self.wf(),
        ensures
            r is Some <==> self@.range_ok(va, 8, false),
            r matches Some(w) ==> w == word_of(self@.bytes(va, 8)),
            r == self@.word_at(va),
    {
        match self.copy_in(va, 8) {
            None => None,
            Some(data) => {
                assert(data@.subrange(0, 8) =~= data@);
                Some(crate::codec::get_u64(data.as_slice(), 0) as usize)
            },
        }
    }

    /// Stores the machine word `w` at `va`.
    pub fn write_word(&mut self, va: usize, w: usize) -> (ok: bool)
        requires
            old(self).wf(),
        ensures
            final(self).wf(),
            final(self)@.regions == old(self)@.regions,
            ok == old(self)@.range_ok(va, 8, true),
            ok ==> final(self)@.pages == old(self)@.written(va, word_bytes(w)),
            !ok ==> final(self)@ == old(self)@,
    {
        let mut data: Vec<u8> = Vec::new();
        put_word(&mut data, w);
        assert(data@ =~= word_bytes(w));
        self.copy_out(va, data.as_slice())
    }

    /// Stores the 32-bit integer `w` at `va`.
    pub fn write_int(&mut self, va: usize, w: i32) -> (ok: bool)
        requires
            old(self).wf(),
        ensures
            final(self).wf(),
            final(self)@.regions == old(self)@.regions,
            ok == old(self)@.range_ok(va, 4, true),
            ok ==> final(self)@.pages == old(self)@.written(va, int_bytes(w)),
            !ok ==> final(self)@ == old(self)@,
    {
        let mut data: Vec<u8> = Vec::new();
        put_int(&mut data, w);
        assert(data@ =~= int_bytes(w));
        self.copy_out(va, data.as_slice())
    }
}

} // verus!
