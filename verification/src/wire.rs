//! Fixed-width integers as they lie in a byte buffer. Every field of the
//! archive index names its own byte order, so each reader here is for one
//! width and one order.

use byteorder::{BigEndian, ByteOrder, LittleEndian};
use vstd::prelude::*;
use vstd::slice::slice_subrange;

verus! {

/// The number that `s` spells with its most significant byte first.
pub open spec fn be_value(s: Seq<u8>) -> nat
    decreases s.len(),
{
    if s.len() == 0 {
        0
    } else {
        256 * be_value(s.drop_last()) + s.last() as nat
    }
}

/// The number that `s` spells with its least significant byte first.
pub open spec fn le_value(s: Seq<u8>) -> nat
    decreases s.len(),
{
    if s.len() == 0 {
        0
    } else {
        s.first() as nat + 256 * le_value(s.drop_first())
    }
}

/// The signed reading of a 32-bit pattern in two's complement.
pub open spec fn signed32(n: nat) -> int {
    if n < 0x8000_0000 {
        n as int
    } else {
        n - 0x1_0000_0000
    }
}

/// The big-endian `u32` that `s` holds at `at`.
pub open spec fn u32_be(s: Seq<u8>, at: int) -> u32 {
    be_value(s.subrange(at, at + 4)) as u32
}

/// The little-endian `u32` that `s` holds at `at`.
pub open spec fn u32_le(s: Seq<u8>, at: int) -> u32 {
    le_value(s.subrange(at, at + 4)) as u32
}

/// The big-endian `u64` that `s` holds at `at`.
pub open spec fn u64_be(s: Seq<u8>, at: int) -> u64 {
    be_value(s.subrange(at, at + 8)) as u64
}

/// The little-endian `u64` that `s` holds at `at`.
pub open spec fn u64_le(s: Seq<u8>, at: int) -> u64 {
    le_value(s.subrange(at, at + 8)) as u64
}

/// The big-endian `i32` that `s` holds at `at`.
pub open spec fn i32_be(s: Seq<u8>, at: int) -> i32 {
    signed32(be_value(s.subrange(at, at + 4))) as i32
}

/// `BigEndian::read_u32` of byteorder on exactly four bytes: the number
/// they spell, most significant byte first.
#[verifier::external_body]
fn be_u32(buf: &[u8]) -> (v: u32)
    requires
        buf@.len() == 4,
    ensures
        v as nat == be_value(buf@),
{
    BigEndian::read_u32(buf)
}

/// `LittleEndian::read_u32` of byteorder on exactly four bytes: the number
/// they spell, least significant byte first.
#[verifier::external_body]
fn le_u32(buf: &[u8]) -> (v: u32)
    requires
        buf@.len() == 4,
    ensures
        v as nat == le_value(buf@),
{
    LittleEndian::read_u32(buf)
}

/// `BigEndian::read_u64` of byteorder on exactly eight bytes: the number
/// they spell, most significant byte first.
#[verifier::external_body]
fn be_u64(buf: &[u8]) -> (v: u64)
    requires
        buf@.len() == 8,
    ensures
        v as nat == be_value(buf@),
{
    BigEndian::read_u64(buf)
}

/// `LittleEndian::read_u64` of byteorder on exactly eight bytes: the number
/// they spell, least significant byte first.
#[verifier::external_body]
fn le_u64(buf: &[u8]) -> (v: u64)
    requires
        buf@.len() == 8,
    ensures
        v as nat == le_value(buf@),
{
    LittleEndian::read_u64(buf)
}

/// `BigEndian::read_i32` of byteorder on exactly four bytes: the number
/// they spell, most significant byte first, read in two's complement.
#[verifier::external_body]
fn be_i32(buf: &[u8]) -> (v: i32)
    requires
        buf@.len() == 4,
    ensures
        v as int == signed32(be_value(buf@)),
{
    BigEndian::read_i32(buf)
}

/// Whether a buffer of `len` bytes holds `n` bytes from `pos` on.
pub fn has_bytes(len: usize, pos: usize, n: usize) -> (b: bool)
    ensures
        b == (pos + n <= len),
{
    n <= len && pos <= len - n
}

/// The byte at `pos`, where `data` holds it.
pub fn read_u8(data: &[u8], pos: usize) -> (r: Option<u8>)
    ensures
        r == if pos < data@.len() {
            Some(data@[pos as int])
        } else {
            None
        },
{
    if pos < data.len() {
        Some(data[pos])
    } else {
        None
    }
}

/// The big-endian `u32` at `pos`, where `data` holds all of it.
pub fn read_u32_be(data: &[u8], pos: usize) -> (r: Option<u32>)
    ensures
        r == if pos + 4 <= data@.len() {
            Some(u32_be(data@, pos as int))
        } else {
            None
        },
{
    if has_bytes(data.len(), pos, 4) {
        Some(be_u32(slice_subrange(data, pos, pos + 4)))
    } else {
        None
    }
}

/// The little-endian `u32` at `pos`, where `data` holds all of it.
pub fn read_u32_le(data: &[u8], pos: usize) -> (r: Option<u32>)
    ensures
        r == if pos + 4 <= data@.len() {
            Some(u32_le(data@, pos as int))
        } else {
            None
        },
{
    if has_bytes(data.len(), pos, 4) {
        Some(le_u32(slice_subrange(data, pos, pos + 4)))
    } else {
        None
    }
}

/// The big-endian `u64` at `pos`, where `data` holds all of it.
pub fn read_u64_be(data: &[u8], pos: usize) -> (r: Option<u64>)
    ensures
        r == if pos + 8 <= data@.len() {
            Some(u64_be(data@, pos as int))
        } else {
            None
        },
{
    if has_bytes(data.len(), pos, 8) {
        Some(be_u64(slice_subrange(data, pos, pos + 8)))
    } else {
        None
    }
}

/// The little-endian `u64` at `pos`, where `data` holds all of it.
pub fn read_u64_le(data: &[u8], pos: usize) -> (r: Option<u64>)
    ensures
        r == if pos + 8 <= data@.len() {
            Some(u64_le(data@, pos as int))
        } else {
            None
        },
{
    if has_bytes(data.len(), pos, 8) {
        Some(le_u64(slice_subrange(data, pos, pos + 8)))
    } else {
        None
    }
}

/// The big-endian `i32` at `pos`, where `data` holds all of it.
pub fn read_i32_be(data: &[u8], pos: usize) -> (r: Option<i32>)
    ensures
        r == if pos + 4 <= data@.len() {
            Some(i32_be(data@, pos as int))
        } else {
            None
        },
{
    if has_bytes(data.len(), pos, 4) {
        Some(be_i32(slice_subrange(data, pos, pos + 4)))
    } else {
        None
    }
}

/// What is left of `data` after its first `n` bytes; nothing where it has
/// fewer.
pub fn skip(data: &[u8], n: usize) -> (tail: &[u8])
    ensures
        tail@ == if n <= data@.len() {
            data@.skip(n as int)
        } else {
            Seq::empty()
        },
{
    let len = data.len();
    if n <= len {
        slice_subrange(data, n, len)
    } else {
        slice_subrange(data, len, len)
    }
}

/// Whether `a` and `b` hold the same bytes.
pub fn same_bytes(a: &[u8], b: &[u8]) -> (same: bool)
    ensures
        same == (a@ == b@),
{
    if a.len() != b.len() {
        return false;
    }
    let mut i: usize = 0;
    while i < a.len()
        invariant
            i <= a@.len() == b@.len(),
            forall|k: int| 0 <= k < i ==> a@[k] == b@[k],
        decreases a@.len() - i,
    {
        if a[i] != b[i] {
            return false;
        }
        i += 1;
    }
    assert(a@ =~= b@);
    true
}

} // verus!
