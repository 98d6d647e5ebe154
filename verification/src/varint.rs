//! The variable-length encoding of a signed byte that the row format uses for
//! its counts: the value in zigzag form, cut into groups of seven bits, low
//! group first, each group but the last marked by its high bit.

use crate::error::FormatError;
use varint_rs::{VarintReader, VarintWriter};
use vstd::prelude::*;
use vstd::slice::slice_subrange;

verus! {

/// The zigzag form of a signed byte: 0, -1, 1, -2, 2, ... become
/// 0, 1, 2, 3, 4, ...
pub open spec fn zigzag(n: i8) -> u8 {
    if n >= 0 {
        (2 * n) as u8
    } else {
        (-2 * n - 1) as u8
    }
}

/// The signed byte whose zigzag form is `z`.
pub open spec fn unzigzag(z: u8) -> i8 {
    if z % 2 == 0 {
        (z / 2) as i8
    } else {
        (-(z / 2) - 1) as i8
    }
}

/// The groups of an unsigned byte: itself where it fits in seven bits, else
/// its low seven bits under a continuation bit, followed by its eighth bit.
pub open spec fn groups(z: u8) -> Seq<u8> {
    if z < 128 {
        seq![z]
    } else {
        seq![z, 1u8]
    }
}

/// The bytes that stand for `n`.
pub open spec fn varint_bytes(n: i8) -> Seq<u8> {
    groups(zigzag(n))
}

/// Whether `s` is exactly one chain that an eight-bit value admits: one
/// byte without the continuation bit, or one with it and one without.
pub open spec fn is_chain(s: Seq<u8>) -> bool {
    ||| s.len() == 1 && s[0] < 128
    ||| s.len() == 2 && s[0] >= 128 && s[1] < 128
}

/// The unsigned byte that the chain `s` holds. Of a second group only the
/// lowest bit has room in eight bits; the others are dropped.
pub open spec fn chain_value(s: Seq<u8>) -> u8 {
    if s.len() == 1 {
        s[0]
    } else {
        ((s[0] - 128) + 128 * (s[1] % 2)) as u8
    }
}

/// The length of the chain that `s` starts with, if it starts with one.
pub open spec fn chain_len(s: Seq<u8>) -> Option<nat> {
    if s.len() >= 1 && s[0] < 128 {
        Some(1)
    } else if s.len() >= 2 && s[1] < 128 {
        Some(2)
    } else {
        None
    }
}

/// What reading one varint from the front of `s` gives: the value and the
/// number of bytes it took, or nothing where `s` ends inside the chain or
/// the chain goes on past its second group.
pub open spec fn varint_parse(s: Seq<u8>) -> Option<(i8, nat)> {
    match chain_len(s) {
        Some(k) => Some((unzigzag(chain_value(s.subrange(0, k as int))), k)),
        None => None,
    }
}

/// `VarintWriter::write_i8_varint` of varint_rs on a `Vec<u8>`: appends the
/// zigzag form of `value` in groups of seven bits, low group first. Writing
/// to a vector cannot fail.
#[verifier::external_body]
fn put_i8_varint(out: &mut Vec<u8>, value: i8)
    ensures
        final(out)@ == old(out)@ + varint_bytes(value),
{
    let _ = out.write_i8_varint(value);
}

/// `VarintReader::read_i8_varint` of varint_rs on a byte slice that holds
/// exactly one chain: gives the value whose zigzag form the groups spell.
/// The chain is required because the outside function shifts by seven bits
/// more for every group and overflows that shift on a third one.
#[verifier::external_body]
fn take_i8_varint(chain: &[u8]) -> (value: Option<i8>)
    requires
        is_chain(chain@),
    ensures
        value == Some(unzigzag(chain_value(chain@))),
{
    let mut source = chain;
    source.read_i8_varint().ok()
}

/// Appends the varint of `value` to `out`.
pub fn write_varint(out: &mut Vec<u8>, value: i8)
    ensures
        final(out)@ == old(out)@ + varint_bytes(value),
{
    put_i8_varint(out, value);
}

/// Reads the varint at the front of `data`, and says how many bytes it
/// took. Fails where the data end before the chain does, or where the chain
/// has a third group.
pub fn read_varint(data: &[u8]) -> (r: Result<(i8, usize), FormatError>)
    ensures
        r == match varint_parse(data@) {
            Some((value, k)) => Ok::<(i8, usize), FormatError>((value, k as usize)),
            None => Err::<(i8, usize), FormatError>(FormatError::MalformedVarint),
        },
        r matches Ok((_, k)) ==> 1 <= k <= 2 && k <= data@.len(),
{
    let len = data.len();
    if len < 1 {
        return Err(FormatError::MalformedVarint);
    }
    let first: u8 = data[0];
    let taken: usize;
    if first < 128 {
        taken = 1;
    } else {
        if len < 2 {
            return Err(FormatError::MalformedVarint);
        }
        let second: u8 = data[1];
        if second >= 128 {
            return Err(FormatError::MalformedVarint);
        }
        taken = 2;
    }
    match take_i8_varint(slice_subrange(data, 0, taken)) {
        Some(value) => Ok((value, taken)),
        None => Err(FormatError::MalformedVarint),
    }
}

/// Reading back what was written gives the value again, whatever follows.
pub proof fn lemma_varint_round_trip(value: i8, after: Seq<u8>)
    ensures
        varint_parse(varint_bytes(value) + after) == Some((value, varint_bytes(value).len())),
{
    let z = zigzag(value);
    let s = varint_bytes(value) + after;
    if z < 128 {
        assert(s[0] == z);
        assert(s.subrange(0, 1) =~= seq![z]);
    } else {
        assert(s[0] == z);
        assert(s[1] == 1u8);
        assert(s.subrange(0, 2) =~= seq![z, 1u8]);
    }
    assert(unzigzag(z) == value);
}

/// A chain whose second group still carries the continuation bit is longer
/// than eight bits allow, and is not read.
pub proof fn lemma_varint_overlong(s: Seq<u8>)
    requires
        s.len() >= 2,
        s[0] >= 128,
        s[1] >= 128,
    ensures
        varint_parse(s) is None,
{
}

} // verus!
