//! Reading of ELF program images: the header and the loadable segments.
use crate::codec::{get_u16, get_u32, get_u64};
use vstd::bytes::{spec_u16_from_le_bytes, spec_u32_from_le_bytes, spec_u64_from_le_bytes};
use vstd::prelude::*;

verus! {

/// Size of the file header of a 64-bit image.
pub const EHDR_SIZE: usize = 64;

/// The type of a program header that names a segment to load.
pub const PT_LOAD: u32 = 1;

/// The segment may be executed.
pub const PF_X: u32 = 1;

/// The segment may be written.
pub const PF_W: u32 = 2;

/// The segment may be read.
pub const PF_R: u32 = 4;

/// A segment to load: `filesz` bytes of the file from `offset` on go to
/// address `vaddr`, and the `memsz - filesz` bytes after them are zero.
#[derive(Clone, Copy, Debug, PartialEq, Eq, Structural)]
pub struct Segment {
    pub vaddr: usize,
    pub memsz: usize,
    pub filesz: usize,
    pub offset: usize,
    pub flags: u32,
}

impl Segment {
    /// Whether the segment takes its bytes from within a file of `len`
    /// bytes, has room for them, and ends at a machine word.
    pub open spec fn fits(self, len: int) -> bool {
        &&& self.offset + self.filesz <= len
        &&& self.filesz <= self.memsz
        &&& self.vaddr + self.memsz <= usize::MAX
    }
}

/// What the kernel takes from an image: the entry point and the segments to
/// load, in the order of their program headers.
pub struct ElfInfo {
    pub entry: usize,
    pub segments: Vec<Segment>,
}

/// The 16-bit value at `at` in `data`.
pub open spec fn u16_at(data: Seq<u8>, at: int) -> int {
    spec_u16_from_le_bytes(data.subrange(at, at + 2)) as int
}

/// The 32-bit value at `at` in `data`.
pub open spec fn u32_at(data: Seq<u8>, at: int) -> int {
    spec_u32_from_le_bytes(data.subrange(at, at + 4)) as int
}

/// The 64-bit value at `at` in `data`.
pub open spec fn u64_at(data: Seq<u8>, at: int) -> int {
    spec_u64_from_le_bytes(data.subrange(at, at + 8)) as int
}

/// Whether `data` starts with the header of a little-endian 64-bit image
/// whose table of program headers lies within `data`.
pub open spec fn elf_header_ok(data: Seq<u8>) -> bool {
    &&& data.len() >= 64
    &&& data[0] == 0x7f
    &&& data[1] == 0x45
    &&& data[2] == 0x4c
    &&& data[3] == 0x46
    &&& data[4] == 2
    &&& data[5] == 1
    &&& u64_at(data, 24) <= usize::MAX
    &&& u16_at(data, 54) >= 56
    &&& u64_at(data, 32) + u16_at(data, 56) * u16_at(data, 54) <= data.len()
}

/// Where program header `i` starts in `data`.
pub open spec fn ph_start(data: Seq<u8>, i: int) -> int {
    u64_at(data, 32) + i * u16_at(data, 54)
}

/// Whether program header `i` names a segment to load.
pub open spec fn ph_is_load(data: Seq<u8>, i: int) -> bool {
    u32_at(data, ph_start(data, i)) == 1
}

/// Whether the segment of program header `i` can be loaded: its sizes and
/// addresses are machine words, the bytes it takes from the file are in the
/// file, and it does not take more from the file than it has room for.
pub open spec fn ph_ok(data: Seq<u8>, i: int) -> bool {
    let at = ph_start(data, i);
    &&& u64_at(data, at + 8) + u64_at(data, at + 32) <= data.len()
    &&& u64_at(data, at + 32) <= u64_at(data, at + 40)
    &&& u64_at(data, at + 16) + u64_at(data, at + 40) <= usize::MAX
}

/// The segment of program header `i`.
pub open spec fn ph_segment(data: Seq<u8>, i: int) -> Segment {
    let at = ph_start(data, i);
    Segment {
        vaddr: u64_at(data, at + 16) as usize,
        memsz: u64_at(data, at + 40) as usize,
        filesz: u64_at(data, at + 32) as usize,
        offset: u64_at(data, at + 8) as usize,
        flags: u32_at(data, at + 4) as u32,
    }
}

/// The segments to load among the first `n` program headers, or nothing
/// where one of them cannot be loaded.
pub open spec fn segments_upto(data: Seq<u8>, n: int) -> Option<Seq<Segment>>
    decreases n,
{
    if n <= 0 {
        Some(Seq::<Segment>::empty())
    } else {
        match segments_upto(data, n - 1) {
            None => None,
            Some(prev) => if !ph_is_load(data, n - 1) {
                Some(prev)
            } else if ph_ok(data, n - 1) {
                Some(prev.push(ph_segment(data, n - 1)))
            } else {
                None
            },
        }
    }
}

/// The segments to load of the image `data`, or nothing where `data` is no
/// image the kernel can load.
pub open spec fn elf_segments(data: Seq<u8>) -> Option<Seq<Segment>> {
    if elf_header_ok(data) {
        segments_upto(data, u16_at(data, 56))
    } else {
        None
    }
}

/// The entry point of the image `data`.
pub open spec fn elf_entry(data: Seq<u8>) -> usize {
    u64_at(data, 24) as usize
}

/// Reads the header and the program headers of the image `data`.
pub fn parse_elf(data: &[u8]) -> (r: Option<ElfInfo>)
    ensures
        r is Some <==> elf_segments(data@) is Some,
        r matches Some(info) ==> info.entry == elf_entry(data@) && info.segments@ == elf_segments(
            data@,
        ).unwrap(),
        r matches Some(info) ==> forall|j: int|
            0 <= j < info.segments@.len() ==> (#[trigger] info.segments@[j]).fits(data@.len() as int),
{
    let len: usize = data.len();
    if len < EHDR_SIZE {
        return None;
    }
    if data[0] != 0x7f || data[1] != 0x45 || data[2] != 0x4c || data[3] != 0x46 || data[4] != 2
        || data[5] != 1 {
        return None;
    }
    let entry: u64 = get_u64(data, 24);
    let phoff: u64 = get_u64(data, 32);
    let phentsize: u16 = get_u16(data, 54);
    let phnum: u16 = get_u16(data, 56);
    if entry > usize::MAX as u64 || phentsize < 56 {
        return None;
    }
    assert(phnum * phentsize <= 0xffff * 0xffff) by (nonlinear_arith)
        requires
            phnum <= 0xffff,
            phentsize <= 0xffff,
    ;
    let table: u64 = phnum as u64 * phentsize as u64;
    if phoff > len as u64 || table > len as u64 - phoff {
        return None;
    }
    assert(elf_header_ok(data@));
    let mut segments: Vec<Segment> = Vec::new();
    let mut i: u16 = 0;
    while i < phnum
        invariant
            i <= phnum,
            len == data@.len(),
            elf_header_ok(data@),
            phoff == u64_at(data@, 32),
            phentsize == u16_at(data@, 54),
            phnum == u16_at(data@, 56),
            segments_upto(data@, i as int) == Some(segments@),
            forall|j: int| 0 <= j < segments@.len() ==> (#[trigger] segments@[j]).fits(len as int),
        decreases phnum - i,
    {
        assert(i * phentsize + 56 <= phnum * phentsize) by (nonlinear_arith)
            requires
                i < phnum,
                phentsize >= 56,
        ;
        assert(i * phentsize <= 0xffff * 0xffff) by (nonlinear_arith)
            requires
                i <= 0xffff,
                phentsize <= 0xffff,
        ;
        let at: usize = (phoff + i as u64 * phentsize as u64) as usize;
        assert(at == ph_start(data@, i as int));
        let p_type: u32 = get_u32(data, at);
        if p_type == PT_LOAD {
            let flags: u32 = get_u32(data, at + 4);
            let offset: u64 = get_u64(data, at + 8);
            let vaddr: u64 = get_u64(data, at + 16);
            let filesz: u64 = get_u64(data, at + 32);
            let memsz: u64 = get_u64(data, at + 40);
            if offset > len as u64 || filesz > len as u64 - offset || filesz > memsz || vaddr
                > usize::MAX as u64 || memsz > usize::MAX as u64 - vaddr {
                assert(!ph_ok(data@, i as int));
                assert(segments_upto(data@, i + 1) is None);
                proof {
                    lemma_segments_fail(data@, i + 1, phnum as int);
                }
                return None;
            }
            segments.push(
                Segment {
                    vaddr: vaddr as usize,
                    memsz: memsz as usize,
                    filesz: filesz as usize,
                    offset: offset as usize,
                    flags,
                },
            );
        }
        i += 1;
    }
    Some(ElfInfo { entry: entry as usize, segments })
}

/// Once a program header cannot be loaded, more headers do not help.
pub proof fn lemma_segments_fail(data: Seq<u8>, n: int, m: int)
    requires
        0 <= n <= m,
        segments_upto(data, n) is None,
    ensures
        segments_upto(data, m) is None,
    decreases m - n,
{
    if n < m {
        lemma_segments_fail(data, n, m - 1);
    }
}

} // verus!
