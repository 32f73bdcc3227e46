//! Little-endian encoding of machine words, as user space sees them in memory.
use vstd::bytes::*;
use vstd::slice::slice_subrange;
use vstd::prelude::*;

verus! {

/// The eight bytes of `v`, lowest first.
pub open spec fn word_bytes(v: usize) -> Seq<u8> {
    spec_u64_to_le_bytes(v as u64)
}

/// The eight bytes of the two's complement form of `v`, lowest first.
pub open spec fn signed_word_bytes(v: isize) -> Seq<u8> {
    spec_u64_to_le_bytes(v as i64 as u64)
}

/// The four bytes of the two's complement form of `v`, lowest first.
pub open spec fn int_bytes(v: i32) -> Seq<u8> {
    spec_u32_to_le_bytes(v as u32)
}

/// The word whose eight bytes, lowest first, are `s`.
pub open spec fn word_of(s: Seq<u8>) -> usize {
    spec_u64_from_le_bytes(s) as usize
}

/// Appends the eight bytes of `v` to `out`.
pub fn put_word(out: &mut Vec<u8>, v: usize)
    ensures
        final(out)@ == old(out)@ + word_bytes(v),
        word_bytes(v).len() == 8,
{
    let mut b = u64_to_le_bytes(v as u64);
    out.append(&mut b);
}

/// Appends the eight bytes of `v` to `out`.
pub fn put_signed_word(out: &mut Vec<u8>, v: isize)
    ensures
        final(out)@ == old(out)@ + signed_word_bytes(v),
        signed_word_bytes(v).len() == 8,
{
    let w: i64 = v as i64;
    let mut b = u64_to_le_bytes(
        #[verifier::truncate]
        (w as u64),
    );
    out.append(&mut b);
}

/// Appends the four bytes of `v` to `out`.
pub fn put_int(out: &mut Vec<u8>, v: i32)
    ensures
        final(out)@ == old(out)@ + int_bytes(v),
        int_bytes(v).len() == 4,
{
    let mut b = u32_to_le_bytes(
        #[verifier::truncate]
        (v as u32),
    );
    out.append(&mut b);
}

/// The 64-bit value stored at `at` in `data`, lowest byte first.
pub fn get_u64(data: &[u8], at: usize) -> (r: u64)
    requires
        at + 8 <= data@.len(),
    ensures
        r == spec_u64_from_le_bytes(data@.subrange(at as int, at + 8)),
{
    let len: usize = data.len();
    assert(at + 8 <= len);
    u64_from_le_bytes(slice_subrange(data, at, at + 8))
}

/// The 32-bit value stored at `at` in `data`, lowest byte first.
pub fn get_u32(data: &[u8], at: usize) -> (r: u32)
    requires
        at + 4 <= data@.len(),
    ensures
        r == spec_u32_from_le_bytes(data@.subrange(at as int, at + 4)),
{
    let len: usize = data.len();
    assert(at + 4 <= len);
    u32_from_le_bytes(slice_subrange(data, at, at + 4))
}

/// The 16-bit value stored at `at` in `data`, lowest byte first.
pub fn get_u16(data: &[u8], at: usize) -> (r: u16)
    requires
        at + 2 <= data@.len(),
    ensures
        r == spec_u16_from_le_bytes(data@.subrange(at as int, at + 2)),
{
    let len: usize = data.len();
    assert(at + 2 <= len);
    u16_from_le_bytes(slice_subrange(data, at, at + 2))
}

} // verus!
