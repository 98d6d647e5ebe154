//! Writing a record back into its slot. A slot is the byte range that the
//! index gives a record; it is never resized, because every later offset of
//! the index would have to move with it. A payload that is shorter than its
//! slot is followed by zeros, so that nothing of the record it replaces
//! stays behind; one that is longer is refused before a byte is written.

use crate::error::CapacityError;
use vstd::prelude::*;

verus! {

/// `n` zero bytes.
pub open spec fn zeros(n: nat) -> Seq<u8> {
    Seq::new(n, |i: int| 0u8)
}

/// What fills a slot of `size` bytes: the payload, then zeros to the end of
/// the slot.
pub open spec fn slot_image(payload: Seq<u8>, size: nat) -> Seq<u8>
    recommends
        payload.len() <= size,
{
    payload + zeros((size - payload.len()) as nat)
}

/// The file with `image` in place of the bytes from `offset` on.
pub open spec fn patched(file: Seq<u8>, offset: int, image: Seq<u8>) -> Seq<u8>
    recommends
        0 <= offset,
        offset + image.len() <= file.len(),
{
    file.subrange(0, offset) + image + file.subrange(offset + image.len(), file.len() as int)
}

/// The bytes to write at a slot's offset: the payload and its padding.
/// Fails where the payload is longer than the slot.
pub fn slot_bytes(payload: &[u8], slot_size: usize) -> (r: Result<Vec<u8>, CapacityError>)
    ensures
        payload@.len() <= slot_size ==> r is Ok && r->Ok_0@ == slot_image(
            payload@,
            slot_size as nat,
        ),
        payload@.len() > slot_size ==> r == Err::<Vec<u8>, CapacityError>(
            CapacityError::PayloadTooLarge,
        ),
{
    if payload.len() > slot_size {
        return Err(CapacityError::PayloadTooLarge);
    }
    let mut image: Vec<u8> = Vec::new();
    image.extend_from_slice(payload);
    let mut n: usize = payload.len();
    while n < slot_size
        invariant
            payload@.len() <= n <= slot_size,
            image@ == payload@ + zeros((n - payload@.len()) as nat),
        decreases slot_size - n,
    {
        image.push(0u8);
        n += 1;
        assert(image@ =~= payload@ + zeros((n - payload@.len()) as nat));
    }
    Ok(image)
}

/// Writes `data` into the slot of `excel_size` bytes that starts at
/// `offset` of `file`, and zeros after it to the end of the slot. Where
/// `data` is longer than the slot, fails and leaves `file` as it was.
/// The slot lies within the file.
pub fn write_excel_data(file: &mut Vec<u8>, offset: usize, data: &[u8], excel_size: usize) -> (r:
    Result<(), CapacityError>)
    requires
        offset + excel_size <= old(file)@.len(),
    ensures
        data@.len() <= excel_size ==> r is Ok && final(file)@ == patched(
            old(file)@,
            offset as int,
            slot_image(data@, excel_size as nat),
        ),
        data@.len() > excel_size ==> r == Err::<(), CapacityError>(CapacityError::PayloadTooLarge)
            && final(file)@ == old(file)@,
{
    let image = match slot_bytes(data, excel_size) {
        Ok(image) => image,
        Err(e) => {
            return Err(e);
        },
    };
    let len: usize = file.len();
    let mut i: usize = 0;
    while i < excel_size
        invariant
            i <= excel_size == image@.len(),
            offset + excel_size <= len == file@.len(),
            file@.len() == old(file)@.len(),
            forall|k: int| 0 <= k < i ==> file@[offset + k] == image@[k],
            forall|k: int|
                0 <= k < file@.len() && !(offset <= k < offset + i) ==> file@[k] == old(file)@[k],
        decreases excel_size - i,
    {
        file.set(offset + i, image[i]);
        i += 1;
    }
    assert(file@ =~= patched(old(file)@, offset as int, image@));
    Ok(())
}

/// After a write the file is as long as before, every byte outside the
/// slot is as before, the slot starts with the payload, and the rest of the
/// slot is zero.
pub proof fn lemma_patched_slot(file: Seq<u8>, offset: int, payload: Seq<u8>, size: nat)
    requires
        0 <= offset,
        offset + size <= file.len(),
        payload.len() <= size,
    ensures
        ({
            let after = patched(file, offset, slot_image(payload, size));
            &&& after.len() == file.len()
            &&& forall|k: int| 0 <= k < offset ==> after[k] == file[k]
            &&& forall|k: int| offset + size <= k < file.len() ==> after[k] == file[k]
            &&& forall|k: int|
                offset <= k < offset + payload.len() ==> after[k] == payload[k - offset]
            &&& forall|k: int| offset + payload.len() <= k < offset + size ==> after[k] == 0
        }),
{
}

} // verus!

