use kernel_core::mm::area::{vpn_ceil, vpn_floor, MapArea, MapPermission, MapType};
use kernel_core::mm::elf::{parse_elf, Segment};
use kernel_core::mm::memory_set::MemorySet;
use kernel_core::mm::mmap::{MmapFlags, MmapProts};
use kernel_core::mm::user_stack::build_stack_image;

const RW: MapPermission = MapPermission { r: true, w: true, x: false, u: true };
const RO: MapPermission = MapPermission { r: true, w: false, x: false, u: true };
const KERNEL: MapPermission = MapPermission { r: true, w: true, x: false, u: false };

fn area(start: usize, end: usize, perm: MapPermission) -> MapArea {
    MapArea { start_vpn: start, end_vpn: end, map_type: MapType::Framed, map_perm: perm }
}

fn put16(out: &mut Vec<u8>, v: u16) {
    out.extend_from_slice(&v.to_le_bytes());
}

fn put32(out: &mut Vec<u8>, v: u32) {
    out.extend_from_slice(&v.to_le_bytes());
}

fn put64(out: &mut Vec<u8>, v: u64) {
    out.extend_from_slice(&v.to_le_bytes());
}

/// The header of an image with `phnum` program headers of `phentsize` bytes
/// from byte 64 on.
fn header(entry: u64, phentsize: u16, phnum: u16) -> Vec<u8> {
    let mut out: Vec<u8> = vec![0x7f, 0x45, 0x4c, 0x46, 2, 1, 1, 0];
    out.extend_from_slice(&[0u8; 8]);
    put16(&mut out, 2);
    put16(&mut out, 243);
    put32(&mut out, 1);
    put64(&mut out, entry);
    put64(&mut out, 64);
    put64(&mut out, 0);
    put32(&mut out, 0);
    put16(&mut out, 64);
    put16(&mut out, phentsize);
    put16(&mut out, phnum);
    put16(&mut out, 0);
    put16(&mut out, 0);
    put16(&mut out, 0);
    out
}

fn phdr(out: &mut Vec<u8>, kind: u32, flags: u32, offset: u64, vaddr: u64, filesz: u64, memsz: u64) {
    put32(out, kind);
    put32(out, flags);
    put64(out, offset);
    put64(out, vaddr);
    put64(out, vaddr);
    put64(out, filesz);
    put64(out, memsz);
    put64(out, 4096);
}

#[test]
fn page_numbers() {
    assert_eq!(vpn_floor(0), 0);
    assert_eq!(vpn_floor(4095), 0);
    assert_eq!(vpn_floor(4096), 1);
    assert_eq!(vpn_ceil(0), 0);
    assert_eq!(vpn_ceil(1), 1);
    assert_eq!(vpn_ceil(4096), 1);
    assert_eq!(vpn_ceil(4097), 2);
    assert_eq!(vpn_ceil(usize::MAX), usize::MAX / 4096 + 1);
}

#[test]
fn regions_do_not_overlap() {
    let mut ms = MemorySet::new_bare();
    assert!(ms.map_region(area(10, 20, RW), false));
    assert!(!ms.map_region(area(19, 25, RW), false));
    assert!(!ms.map_region(area(5, 11, RW), false));
    assert!(!ms.map_region(area(12, 13, RW), false));
    assert!(!ms.map_region(area(30, 30, RW), false));
    assert!(!ms.map_region(area(31, 30, RW), false));
    assert!(ms.map_region(area(20, 25, RW), false));
    assert!(ms.map_region(area(5, 10, RW), true));
    assert_eq!(ms.areas.len(), 3);
    assert_eq!(ms.find_area(9), Some(2));
    assert_eq!(ms.find_area(10), Some(0));
    assert_eq!(ms.find_area(24), Some(1));
    assert_eq!(ms.find_area(25), None);
    assert!(ms.range_overlaps(0, 6));
    assert!(!ms.range_overlaps(0, 5));
    assert!(!ms.range_overlaps(25, 100));
    assert_eq!(ms.find_region(10, 20), Some(0));
    assert_eq!(ms.find_region(10, 19), None);
    // Only the eager region has frames.
    assert_eq!(ms.frames.len(), 5);
    assert_eq!(ms.frames.get(&7).unwrap().len(), 4096);
}

#[test]
fn user_memory_of_a_new_space() {
    let ms = MemorySet::new_user();
    assert_eq!(ms.areas.len(), 2);
    assert_eq!(ms.areas[0].start_vpn, usize::MAX / 4096);
    assert_eq!(ms.areas[1].start_vpn, usize::MAX / 4096 - 1);
    assert_eq!(ms.load_byte(usize::MAX), None);
    assert_eq!(ms.load_byte(usize::MAX - 8191), None);
    assert!(!ms.can_access(usize::MAX - 4095, false));
}

#[test]
fn faults_give_pages_their_frames() {
    let mut ms = MemorySet::new_bare();
    ms.map_region(area(1, 3, RW), false);
    ms.map_region(area(3, 4, RO), false);
    ms.map_region(area(4, 5, KERNEL), false);
    ms.map_region(
        MapArea { start_vpn: 5, end_vpn: 6, map_type: MapType::Identical, map_perm: RW },
        false,
    );
    assert_eq!(ms.load_byte(0x1000), None);
    assert_eq!(ms.check_lazy(0x1fff, true, None), 0);
    assert_eq!(ms.load_byte(0x1000), Some(0));
    assert_eq!(ms.load_byte(0x2000), None);
    // A second fault on the page changes nothing.
    assert!(ms.store_byte(0x1004, 9));
    assert_eq!(ms.check_lazy(0x1000, false, Some(&[1, 2, 3])), 0);
    assert_eq!(ms.load_byte(0x1004), Some(9));
    // Stores need the permission to write, and user mode its bit.
    assert_eq!(ms.check_lazy(0x3000, false, None), -1);
    assert_eq!(ms.check_lazy(0x3000, true, None), 0);
    assert!(!ms.store_byte(0x3000, 1));
    assert_eq!(ms.check_lazy(0x4000, true, None), -1);
    assert_eq!(ms.check_lazy(0x5000, true, None), -1);
    assert_eq!(ms.check_lazy(0x6000, true, None), -1);
    assert_eq!(ms.check_lazy(0, true, None), -1);
    assert_eq!(ms.frames.len(), 2);
}

#[test]
fn copies_cross_pages_or_do_nothing() {
    let mut ms = MemorySet::new_bare();
    ms.map_region(area(1, 3, RW), true);
    ms.map_region(area(3, 4, RW), false);
    let data: Vec<u8> = (0..100u8).collect();
    assert!(ms.copy_out(0x2000 - 50, &data));
    assert_eq!(ms.load_byte(0x2000 - 51), Some(0));
    assert_eq!(ms.load_byte(0x2000 - 50), Some(0));
    assert_eq!(ms.load_byte(0x2000 - 1), Some(49));
    assert_eq!(ms.load_byte(0x2000), Some(50));
    assert_eq!(ms.load_byte(0x2000 + 49), Some(99));
    assert_eq!(ms.load_byte(0x2000 + 50), Some(0));
    assert_eq!(ms.copy_in(0x2000 - 50, 100), Some(data.clone()));
    assert_eq!(ms.copy_in(0x2000 - 1, 2), Some(vec![49, 50]));
    assert_eq!(ms.copy_in(0x1000, 0), Some(vec![]));
    // The third page has no frame: nothing is written at all.
    assert!(!ms.copy_out(0x3000 - 10, &data));
    assert_eq!(ms.load_byte(0x3000 - 10), Some(0));
    assert_eq!(ms.copy_in(0x3000 - 10, 11), None);
    assert_eq!(ms.copy_in(0x3000 - 10, 10), Some(vec![0; 10]));
    assert!(!ms.copy_out(usize::MAX - 3, &[1, 2, 3, 4, 5]));
    assert!(!ms.can_access_range(0xfff, 2, true));
    assert!(ms.can_access_range(0x1000, 0x2000, false));
    assert!(!ms.can_access_range(0x1000, 0x2001, false));
}

#[test]
fn words_and_integers() {
    let mut ms = MemorySet::new_bare();
    ms.map_region(area(1, 2, RW), true);
    assert!(ms.write_word(0x1010, 0x0102_0304_0506_0708));
    assert_eq!(ms.load_byte(0x1010), Some(8));
    assert_eq!(ms.load_byte(0x1017), Some(1));
    assert_eq!(ms.read_word(0x1010), Some(0x0102_0304_0506_0708));
    assert_eq!(ms.read_word(0x1011), Some(0x0001_0203_0405_0607));
    assert!(ms.write_int(0x1020, -2));
    assert_eq!(ms.copy_in(0x1020, 4), Some(vec![0xfe, 0xff, 0xff, 0xff]));
    assert_eq!(ms.read_word(0x1ffc), None);
    assert!(!ms.write_word(0x1ffc, 1));
    assert!(!ms.write_int(0xffe, 1));
}

#[test]
fn strings_end_at_the_first_zero() {
    let mut ms = MemorySet::new_bare();
    ms.map_region(area(1, 2, RW), true);
    assert!(ms.copy_out(0x1000, b"hello\0world"));
    assert_eq!(ms.translated_str(0x1000), Some(b"hello".to_vec()));
    assert_eq!(ms.translated_str(0x1005), Some(vec![]));
    assert_eq!(ms.translated_str(0x1006), Some(b"world".to_vec()));
    // A string that runs into a page without a frame cannot be read.
    assert!(ms.copy_out(0x1ffd, b"abc"));
    assert_eq!(ms.translated_str(0x1ffd), None);
    assert_eq!(ms.translated_str(0), None);
}

#[test]
fn argument_arrays() {
    let mut ms = MemorySet::new_bare();
    ms.map_region(area(1, 2, RW), true);
    assert!(ms.copy_out(0x1100, b"one\0two\0"));
    assert!(ms.write_word(0x1000, 0x1100));
    assert!(ms.write_word(0x1008, 0x1104));
    assert!(ms.write_word(0x1010, 0));
    assert_eq!(ms.read_argv(0x1000), Some(vec![b"one".to_vec(), b"two".to_vec()]));
    assert_eq!(ms.read_argv(0x1008), Some(vec![b"two".to_vec()]));
    assert_eq!(ms.read_argv(0x1010), Some(vec![]));
    assert_eq!(ms.read_argv(0), Some(vec![]));
    // A pointer to nowhere, and an array that runs off its page.
    assert!(ms.write_word(0x1008, 0x9000));
    assert_eq!(ms.read_argv(0x1000), None);
    assert!(ms.write_word(0x1ff8, 0x1100));
    assert_eq!(ms.read_argv(0x1ff8), None);
    assert_eq!(ms.read_argv(0x5000), None);
}

#[test]
fn unmap_and_resize() {
    let mut ms = MemorySet::new_bare();
    ms.map_region(area(1, 4, RW), true);
    ms.map_region(area(6, 8, RW), true);
    assert!(!ms.unmap_region(1, 3));
    assert!(!ms.unmap_region(2, 4));
    assert_eq!(ms.frames.len(), 5);
    // Growing stops at the next region.
    assert!(!ms.resize_area(0, 7));
    assert!(ms.resize_area(0, 6));
    assert_eq!(ms.areas[0].end_vpn, 6);
    assert_eq!(ms.frames.len(), 5);
    assert_eq!(ms.load_byte(0x4000), None);
    // Shrinking frees the frames given up.
    assert!(ms.resize_area(0, 2));
    assert_eq!(ms.frames.len(), 3);
    assert_eq!(ms.load_byte(0x1000), Some(0));
    assert_eq!(ms.load_byte(0x2000), None);
    assert!(!ms.resize_area(0, 1));
    assert!(!ms.resize_area(0, 0));
    assert!(ms.unmap_region(6, 8));
    assert_eq!(ms.areas.len(), 1);
    assert_eq!(ms.frames.len(), 1);
    assert_eq!(ms.load_byte(0x6000), None);
}

#[test]
fn a_copy_of_a_space_is_its_own() {
    let mut ms = MemorySet::new_user();
    ms.map_region(area(1, 3, RW), false);
    ms.check_lazy(0x2000, false, None);
    ms.store_byte(0x2001, 0x5a);
    let mut twin = MemorySet::from_existed_user(&ms);
    assert_eq!(twin.areas, ms.areas);
    assert_eq!(twin.frames, ms.frames);
    assert_eq!(twin.load_byte(0x2001), Some(0x5a));
    assert_eq!(twin.load_byte(0x1000), None);
    twin.store_byte(0x2001, 1);
    ms.store_byte(0x2002, 2);
    assert_eq!(ms.load_byte(0x2001), Some(0x5a));
    assert_eq!(twin.load_byte(0x2002), Some(0));
}

#[test]
fn an_image_is_read() {
    let mut elf = header(0x1_0000, 56, 3);
    phdr(&mut elf, 1, 5, 232, 0x1_0000, 4, 0x100);
    phdr(&mut elf, 6, 4, 0, 0, 0, 0);
    phdr(&mut elf, 1, 6, 236, 0x2_0010, 2, 2);
    elf.extend_from_slice(&[1, 2, 3, 4, 5, 6]);
    let info = parse_elf(&elf).unwrap();
    assert_eq!(info.entry, 0x1_0000);
    assert_eq!(
        info.segments,
        vec![
            Segment { vaddr: 0x1_0000, memsz: 0x100, filesz: 4, offset: 232, flags: 5 },
            Segment { vaddr: 0x2_0010, memsz: 2, filesz: 2, offset: 236, flags: 6 },
        ]
    );
    let img = MemorySet::from_elf(&elf).unwrap();
    assert_eq!(img.entry, 0x1_0000);
    assert_eq!(img.user_sp, 0x21 * 4096 + 4096 + 8 * 4096);
    assert_eq!(img.heap_base, img.user_sp + 4096);
    let ms = &img.memory_set;
    assert_eq!(ms.areas.len(), 6);
    assert_eq!(ms.areas[2], area(img.heap_base / 4096, img.heap_base / 4096 + 1, RW));
    assert_eq!(
        ms.areas[3],
        area(0x10, 0x11, MapPermission { r: true, w: false, x: true, u: true })
    );
    assert_eq!(ms.areas[4], area(0x20, 0x21, RW));
    assert_eq!(ms.areas[5], area(0x22, 0x2a, RW));
    assert_eq!(ms.copy_in(0x1_0000, 5), Some(vec![1, 2, 3, 4, 0]));
    assert_eq!(ms.copy_in(0x2_000f, 4), Some(vec![0, 5, 6, 0]));
    assert_eq!(ms.load_byte(img.user_sp - 1), Some(0));
    assert_eq!(ms.load_byte(img.user_sp), None);
    assert_eq!(ms.load_byte(img.heap_base), None);
    assert_eq!(ms.frames.len(), 10);
}

#[test]
fn bad_images_are_refused() {
    let mut good = header(0x1_0000, 56, 1);
    phdr(&mut good, 1, 5, 120, 0x1_0000, 4, 4);
    good.extend_from_slice(&[1, 2, 3, 4]);
    assert!(parse_elf(&good).is_some());
    // The magic number, the class, the byte order.
    for (at, v) in [(0, 0), (1, 0x46), (4, 1), (5, 2)] {
        let mut bad = good.clone();
        bad[at] = v;
        assert!(parse_elf(&bad).is_none());
        assert!(MemorySet::from_elf(&bad).is_none());
    }
    assert!(parse_elf(&good[..63]).is_none());
    // The table of program headers ends behind the file.
    assert!(parse_elf(&good[..119]).is_none());
    assert!(parse_elf(&good[..120]).is_some_and(|i| i.segments.is_empty()) == false);
    // Program headers that are too short.
    let mut short = header(0x1_0000, 55, 1);
    short.extend_from_slice(&[0; 60]);
    assert!(parse_elf(&short).is_none());
    // More in the file than in memory; bytes behind the end of the file.
    let mut bad = header(0, 56, 1);
    phdr(&mut bad, 1, 5, 120, 0x1_0000, 5, 4);
    bad.extend_from_slice(&[0; 8]);
    assert!(parse_elf(&bad).is_none());
    let mut bad = header(0, 56, 1);
    phdr(&mut bad, 1, 5, 120, 0x1_0000, 5, 5);
    bad.extend_from_slice(&[0; 4]);
    assert!(parse_elf(&bad).is_none());
    // A segment that wraps around the address space.
    let mut bad = header(0, 56, 1);
    phdr(&mut bad, 1, 5, 120, u64::MAX - 1, 0, 2);
    assert!(parse_elf(&bad).is_none());
    // Other headers may hold anything.
    let mut odd = header(0, 64, 1);
    phdr(&mut odd, 2, 5, 9999, u64::MAX, 9999, 1);
    odd.extend_from_slice(&[0; 8]);
    assert_eq!(parse_elf(&odd).unwrap().segments, vec![]);
}

#[test]
fn images_that_do_not_fit_are_refused() {
    // Two segments in one page.
    let mut elf = header(0, 56, 2);
    phdr(&mut elf, 1, 5, 176, 0x1_0000, 0, 0x10);
    phdr(&mut elf, 1, 6, 176, 0x1_0800, 0, 0x10);
    assert!(parse_elf(&elf).is_some());
    assert!(MemorySet::from_elf(&elf).is_none());
    // A segment in the upper half of the addresses leaves no room for a heap.
    let mut elf = header(0, 56, 1);
    phdr(&mut elf, 1, 5, 120, (isize::MAX as u64) - 0x10_0000, 0, 0x10);
    assert!(MemorySet::from_elf(&elf).is_none());
    // A segment without memory is no segment.
    let mut elf = header(0, 56, 2);
    phdr(&mut elf, 1, 5, 176, 0x1_0000, 0, 0);
    phdr(&mut elf, 1, 6, 176, 0x1_0000, 0, 1);
    let img = MemorySet::from_elf(&elf).unwrap();
    assert_eq!(img.memory_set.areas.len(), 5);
    assert_eq!(img.user_sp, 0x11 * 4096 + 4096 + 8 * 4096);
}

#[test]
fn the_initial_stack() {
    let args = vec![b"ab".to_vec(), b"c".to_vec()];
    let envs = vec![b"E=1".to_vec()];
    let top = 0x10_0000;
    let img = build_stack_image(&args, &envs, top).unwrap();
    // 8 + 3 * 8 + 2 * 8 bytes of words, 5 of arguments, 4 of environment.
    assert_eq!(img.bytes.len(), 57);
    assert_eq!(img.sp, (top - 57) / 16 * 16);
    assert_eq!(img.argv, img.sp + 8);
    assert_eq!(img.envp, img.sp + 32);
    let strings = img.sp + 48;
    let mut want: Vec<u8> = Vec::new();
    for w in [2, strings, strings + 3, 0, strings + 5, 0] {
        want.extend_from_slice(&(w as u64).to_le_bytes());
    }
    want.extend_from_slice(b"ab\0c\0E=1\0");
    assert_eq!(img.bytes, want);
}

#[test]
fn the_initial_stack_without_arguments() {
    let img = build_stack_image(&vec![], &vec![], 0x8000).unwrap();
    assert_eq!(img.sp, 0x8000 - 32);
    assert_eq!(img.bytes, vec![0u8; 24]);
}

#[test]
fn the_initial_stack_must_fit() {
    // 24 bytes of words and a string of 32744 bytes with its zero fill a stack.
    let fits = vec![vec![b'x'; 32768 - 24 - 8 - 1]];
    let img = build_stack_image(&fits, &vec![], 0x10_0000).unwrap();
    assert_eq!(img.sp, 0x10_0000 - 32768);
    assert_eq!(img.bytes.len(), 32768);
    let too_long = vec![vec![b'x'; 32768 - 24 - 8]];
    assert!(build_stack_image(&too_long, &vec![], 0x10_0000).is_none());
    assert!(build_stack_image(&vec![], &too_long, 0x10_0000).is_none());
    let too_many = vec![vec![]; 4096];
    assert!(build_stack_image(&too_many, &vec![], 0x10_0000).is_none());
}

#[test]
fn protection_and_flags_of_mmap() {
    assert_eq!(MmapProts::from_bits(8), None);
    assert_eq!(
        MmapProts::from_bits(0).unwrap().to_permission(),
        MapPermission { r: false, w: false, x: false, u: true }
    );
    assert_eq!(
        MmapProts::from_bits(5).unwrap().to_permission(),
        MapPermission { r: true, w: false, x: true, u: true }
    );
    assert_eq!(
        MmapProts::from_bits(2).unwrap().to_permission(),
        MapPermission { r: false, w: true, x: false, u: true }
    );
    for bits in [0, 1, 2, 3, 0x10, 0x20, 0x22, 0x33] {
        assert_eq!(MmapFlags::from_bits(bits), Some(MmapFlags { bits }));
    }
    for bits in [4, 8, 0x40, 0x24, 0x100, usize::MAX] {
        assert_eq!(MmapFlags::from_bits(bits), None);
    }
    assert!(MmapFlags::from_bits(0x22).unwrap().is_anonymous());
    assert!(!MmapFlags::from_bits(0x12).unwrap().is_anonymous());
}

#[test]
fn buffers_are_cut_at_page_boundaries() {
    let mut ms = MemorySet::new_bare();
    ms.map_region(area(1, 4, RW), true);
    ms.map_region(area(4, 5, RO), true);
    assert_eq!(ms.translated_byte_buffer(0x1000, 0), Some(vec![]));
    assert_eq!(ms.translated_byte_buffer(0x1010, 16), Some(vec![(0x1010, 16)]));
    assert_eq!(ms.translated_byte_buffer(0x1000, 4096), Some(vec![(0x1000, 4096)]));
    assert_eq!(
        ms.translated_byte_buffer(0x1ff0, 0x2000 + 0x10),
        Some(vec![(0x1ff0, 0x10), (0x2000, 0x1000), (0x3000, 0x1000)])
    );
    assert_eq!(ms.translated_byte_buffer(0x1fff, 2), Some(vec![(0x1fff, 1), (0x2000, 1)]));
    // A page that is not to be written, and a page that is not there.
    assert_eq!(ms.translated_byte_buffer(0x3fff, 2), None);
    assert_eq!(ms.translated_byte_buffer(0xfff, 2), None);
}
