//! The design data of an installation: the manifest that names the current
//! index, and the index itself.

use crate::design_index::{carries, find_entry, first_carrier, index_parse, DesignIndex};
use crate::error::{FormatError, LookupError};
use crate::hexstr::{hex_encode, hex_lower};
use crate::wire::has_bytes;
use vstd::prelude::*;
use vstd::string::StringExecFns;

pub use crate::design_index::{DataEntry, FileEntry};

verus! {

/// Where the manifest holds the hash of the current index.
pub const INDEX_HASH_OFFSET: usize = 0x1C;

/// Length of that hash in bytes.
pub const INDEX_HASH_LEN: usize = 16;

/// The header of the design data is its index.
pub type DesignDataHeader = DesignIndex;

/// The design data as read from the index file.
pub struct DesignData {
    header: DesignDataHeader,
}

/// The sixteen bytes of the index hash as the manifest `m` spells them:
/// four words, each stored with its bytes in reverse.
pub open spec fn index_hash_bytes(m: Seq<u8>) -> Seq<u8> {
    Seq::new(16, |i: int| m[0x1C + 4 * (i / 4) + (3 - i % 4)])
}

/// The name of the index file whose hash is `hash`.
pub open spec fn index_file_name_of(hash: Seq<char>) -> Seq<char> {
    "DesignV_"@ + hash + ".bytes"@
}

/// The hash of the current index, in lower-case hex, from the bytes of the
/// manifest. Fails where the manifest ends before the hash does.
pub fn index_hash(manifest: &[u8]) -> (r: Result<String, FormatError>)
    ensures
        manifest@.len() >= 0x1C + 16 ==> r is Ok && r->Ok_0@ == hex_lower(
            index_hash_bytes(manifest@),
        ),
        manifest@.len() < 0x1C + 16 ==> r is Err && r->Err_0 == FormatError::TruncatedInput,
{
    if !has_bytes(manifest.len(), INDEX_HASH_OFFSET, INDEX_HASH_LEN) {
        return Err(FormatError::TruncatedInput);
    }
    let mut hash: Vec<u8> = Vec::new();
    let mut i: usize = 0;
    while i < INDEX_HASH_LEN
        invariant
            i <= 16,
            manifest@.len() >= 0x1C + 16,
            hash@ == Seq::new(i as nat, |k: int| manifest@[0x1C + 4 * (k / 4) + (3 - k % 4)]),
        decreases 16 - i,
    {
        hash.push(manifest[INDEX_HASH_OFFSET + 4 * (i / 4) + (3 - i % 4)]);
        i += 1;
        assert(hash@ =~= Seq::new(
            i as nat,
            |k: int| manifest@[0x1C + 4 * (k / 4) + (3 - k % 4)],
        ));
    }
    Ok(hex_encode(hash.as_slice()))
}

/// The name of the index file whose hash is `hash`.
pub fn index_file_name(hash: &str) -> (name: String)
    ensures
        name@ == index_file_name_of(hash@),
{
    "DesignV_".to_owned().concat(hash).concat(".bytes")
}

impl DesignData {
    /// The index that was read.
    pub closed spec fn index(&self) -> DesignIndex {
        self.header
    }

    /// Reads the design data from the bytes of the index file. Fails where
    /// they end before a declared field or record does.
    pub fn parse(data: &[u8]) -> (r: Result<DesignData, FormatError>)
        ensures
            match index_parse(data@) {
                Some(index) => r is Ok && r->Ok_0.index()@ == index && r->Ok_0.index().wf(),
                None => r is Err && r->Err_0 == FormatError::TruncatedInput,
            },
    {
        match DesignIndex::parse(data) {
            Ok(header) => Ok(DesignData { header }),
            Err(e) => Err(e),
        }
    }

    /// The index that was read.
    pub fn header(&self) -> (header: &DesignDataHeader)
        ensures
            *header == self.index(),
    {
        &self.header
    }

    /// The first entry, in the order of the index, whose hash is
    /// `target_hash`, with the file that holds it; nothing where no entry
    /// carries it.
    pub fn find_excel_data_and_file(&self, target_hash: i32) -> (r: Option<
        (&DataEntry, &FileEntry),
    >)
        ensures
            match r {
                Some((entry, file)) => exists|i: int, j: int|
                    #[trigger] first_carrier(self.index().files@, i, j, target_hash) && *file
                        == self.index().files@[i] && *entry == self.index().files@[i].entries@[j],
                None => forall|i: int, j: int| !carries(self.index().files@, i, j, target_hash),
            },
    {
        let found = find_entry(&self.header.files, target_hash);
        proof {
            assert(self.index().files@ == self.header.files@);
            if let Some((entry, file)) = found {
                let (i, j) = choose|i: int, j: int|
                    #[trigger] first_carrier(self.header.files@, i, j, target_hash) && *file
                        == self.header.files@[i] && *entry == self.header.files@[i].entries@[j];
                assert(first_carrier(self.index().files@, i, j, target_hash));
            }
        }
        found
    }

    /// As `find_excel_data_and_file`, with the absence of the hash as an
    /// error.
    pub fn require_excel_data_and_file(&self, target_hash: i32) -> (r: Result<
        (&DataEntry, &FileEntry),
        LookupError,
    >)
        ensures
            match r {
                Ok((entry, file)) => exists|i: int, j: int|
                    #[trigger] first_carrier(self.index().files@, i, j, target_hash) && *file
                        == self.index().files@[i] && *entry == self.index().files@[i].entries@[j],
                Err(e) => e == LookupError::HashNotFound && forall|i: int, j: int|
                    !carries(self.index().files@, i, j, target_hash),
            },
    {
        match self.find_excel_data_and_file(target_hash) {
            Some(found) => Ok(found),
            None => Err(LookupError::HashNotFound),
        }
    }
}

} // verus!
