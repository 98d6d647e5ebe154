//! The archive index: a header, then for each data file its identity and
//! the records it holds. Byte order is a property of each field, not of the
//! structure.
//!
//! Layout, offsets in bytes:
//!
//! ```text
//! header   0  u64 little-endian   opaque
//!          8  u32 big-endian      number of files
//!         12  u32 little-endian   opaque
//! file     0  i32 big-endian      hash of the file's name
//!          4  16 bytes            identifier, kept as lower-case hex
//!         20  u64 big-endian      size
//!         28  u32 big-endian      number of entries
//!         32  entries, 12 bytes each
//!          .  one byte            opaque
//! entry    0  i32 big-endian      hash of the record's name
//!          4  i32 big-endian      size of the payload
//!          8  i32 big-endian      offset of the payload in the data file
//! ```

use crate::error::FormatError;
use crate::hexstr::{hex_encode, hex_lower};
use crate::wire::{
    has_bytes, i32_be, read_i32_be, read_u32_be, read_u32_le, read_u64_be, read_u64_le, read_u8,
    skip, u32_be, u32_le, u64_be, u64_le,
};
use vstd::prelude::*;
use vstd::slice::slice_subrange;
use vstd::string::StringExecFns;

verus! {

/// Length of the header in bytes.
pub const HEADER_LEN: usize = 16;

/// Length of what precedes a file's entries, in bytes.
pub const FILE_HEAD_LEN: usize = 32;

/// Length of one entry in bytes.
pub const ENTRY_LEN: usize = 12;

/// One addressable record inside a data file.
#[derive(Clone, Copy, Debug, Default, PartialEq, Eq, Structural)]
pub struct DataEntry {
    pub name_hash: i32,
    pub size: i32,
    pub offset: i32,
}

/// One data file that the index refers to.
#[derive(Clone, Debug, Default, PartialEq, Eq)]
pub struct FileEntry {
    pub name_hash: i32,
    pub file_hash: String,
    pub read_size: u64,
    pub entry_count: u32,
    pub entries: Vec<DataEntry>,
    pub unk_1: u8,
}

/// The root of the index.
#[derive(Clone, Debug, Default, PartialEq, Eq)]
pub struct DesignIndex {
    pub unk_1: u64,
    pub file_count: u32,
    pub unk_2: u32,
    pub files: Vec<FileEntry>,
}

/// What a `FileEntry` holds.
pub struct FileEntryView {
    pub name_hash: i32,
    pub file_hash: Seq<char>,
    pub read_size: u64,
    pub entry_count: u32,
    pub entries: Seq<DataEntry>,
    pub unk_1: u8,
}

/// What a `DesignIndex` holds.
pub struct DesignIndexView {
    pub unk_1: u64,
    pub file_count: u32,
    pub unk_2: u32,
    pub files: Seq<FileEntryView>,
}

impl View for FileEntry {
    type V = FileEntryView;

    open spec fn view(&self) -> FileEntryView {
        FileEntryView {
            name_hash: self.name_hash,
            file_hash: self.file_hash@,
            read_size: self.read_size,
            entry_count: self.entry_count,
            entries: self.entries@,
            unk_1: self.unk_1,
        }
    }
}

/// The views of a run of files, in order.
pub open spec fn file_views(files: Seq<FileEntry>) -> Seq<FileEntryView> {
    Seq::new(files.len(), |i: int| files[i]@)
}

impl View for DesignIndex {
    type V = DesignIndexView;

    open spec fn view(&self) -> DesignIndexView {
        DesignIndexView {
            unk_1: self.unk_1,
            file_count: self.file_count,
            unk_2: self.unk_2,
            files: file_views(self.files@),
        }
    }
}

/// The entry that `s` holds at `at`.
pub open spec fn entry_at(s: Seq<u8>, at: int) -> DataEntry {
    DataEntry { name_hash: i32_be(s, at), size: i32_be(s, at + 4), offset: i32_be(s, at + 8) }
}

/// Length in bytes of a file record with `n` entries.
pub open spec fn file_len(n: nat) -> nat {
    32 + 12 * n + 1
}

/// The file record at the front of `s` and its length, where `s` holds all
/// of it.
pub open spec fn file_parse(s: Seq<u8>) -> Option<(FileEntryView, nat)> {
    if s.len() < 32 {
        None
    } else {
        let n = u32_be(s, 28) as nat;
        if s.len() < file_len(n) {
            None
        } else {
            Some(
                (
                    FileEntryView {
                        name_hash: i32_be(s, 0),
                        file_hash: hex_lower(s.subrange(4, 20)),
                        read_size: u64_be(s, 20),
                        entry_count: n as u32,
                        entries: Seq::new(n, |i: int| entry_at(s, 32 + 12 * i)),
                        unk_1: s[32 + 12 * (n as int)],
                    },
                    file_len(n),
                ),
            )
        }
    }
}

/// The `n` file records that `s` starts with, where it holds all of them.
pub open spec fn files_parse(s: Seq<u8>, n: nat) -> Option<Seq<FileEntryView>>
    decreases n,
{
    if n == 0 {
        Some(Seq::empty())
    } else {
        match file_parse(s) {
            None => None,
            Some((file, k)) => match files_parse(s.skip(k as int), (n - 1) as nat) {
                None => None,
                Some(others) => Some(seq![file] + others),
            },
        }
    }
}

/// The index that `s` starts with, where it holds all of it. Bytes after
/// the last file are not looked at.
pub open spec fn index_parse(s: Seq<u8>) -> Option<DesignIndexView> {
    if s.len() < 16 {
        None
    } else {
        match files_parse(s.skip(16), u32_be(s, 8) as nat) {
            None => None,
            Some(files) => Some(
                DesignIndexView {
                    unk_1: u64_le(s, 0),
                    file_count: u32_be(s, 8),
                    unk_2: u32_le(s, 12),
                    files,
                },
            ),
        }
    }
}

/// Whether entry `j` of file `i` carries `hash`.
pub open spec fn carries(files: Seq<FileEntry>, i: int, j: int, hash: i32) -> bool {
    &&& 0 <= i < files.len()
    &&& 0 <= j < files[i].entries@.len()
    &&& files[i].entries@[j].name_hash == hash
}

/// Whether entry `j` of file `i` is the first, in the order of the index,
/// to carry `hash`.
pub open spec fn first_carrier(files: Seq<FileEntry>, i: int, j: int, hash: i32) -> bool {
    &&& carries(files, i, j, hash)
    &&& forall|a: int, b: int| a < i || (a == i && b < j) ==> !carries(files, a, b, hash)
}

/// The entry at `pos`, where `data` holds all of it.
fn read_entry(data: &[u8], pos: usize) -> (r: Option<DataEntry>)
    ensures
        r == if pos + 12 <= data@.len() {
            Some(entry_at(data@, pos as int))
        } else {
            None
        },
{
    if !has_bytes(data.len(), pos, ENTRY_LEN) {
        return None;
    }
    match (read_i32_be(data, pos), read_i32_be(data, pos + 4), read_i32_be(data, pos + 8)) {
        (Some(name_hash), Some(size), Some(offset)) => Some(DataEntry { name_hash, size, offset }),
        _ => None,
    }
}

/// The first entry of `entries` that carries `hash`, by its place.
fn position_of(entries: &Vec<DataEntry>, hash: i32) -> (r: Option<usize>)
    ensures
        match r {
            Some(j) => j < entries@.len() && entries@[j as int].name_hash == hash && forall|b: int|
                0 <= b < j ==> entries@[b].name_hash != hash,
            None => forall|b: int| 0 <= b < entries@.len() ==> entries@[b].name_hash != hash,
        },
{
    let mut j: usize = 0;
    while j < entries.len()
        invariant
            j <= entries@.len(),
            forall|b: int| 0 <= b < j ==> entries@[b].name_hash != hash,
        decreases entries@.len() - j,
    {
        if entries[j].name_hash == hash {
            return Some(j);
        }
        j += 1;
    }
    None
}

/// The first entry among `files` that carries `hash`, with its file.
pub fn find_entry(files: &Vec<FileEntry>, hash: i32) -> (r: Option<(&DataEntry, &FileEntry)>)
    ensures
        match r {
            Some((entry, file)) => exists|i: int, j: int|
                #[trigger] first_carrier(files@, i, j, hash) && *file == files@[i] && *entry
                    == files@[i].entries@[j],
            None => forall|i: int, j: int| !carries(files@, i, j, hash),
        },
{
    let mut i: usize = 0;
    while i < files.len()
        invariant
            i <= files@.len(),
            forall|a: int, b: int| a < i ==> !carries(files@, a, b, hash),
        decreases files@.len() - i,
    {
        let file = &files[i];
        match position_of(&file.entries, hash) {
            Some(j) => {
                assert(first_carrier(files@, i as int, j as int, hash));
                return Some((&file.entries[j], file));
            },
            None => {},
        }
        i += 1;
    }
    None
}

impl DataEntry {
    /// Where the payload lies in its data file: its offset and its size,
    /// where neither is negative.
    pub fn slot(&self) -> (r: Option<(u64, usize)>)
        ensures
            r == if self.offset >= 0 && self.size >= 0 {
                Some((self.offset as u64, self.size as usize))
            } else {
                None
            },
    {
        if self.offset >= 0 && self.size >= 0 {
            Some((self.offset as u64, self.size as usize))
        } else {
            None
        }
    }
}

impl FileEntry {
    /// The name of the data file: its identifier and the ending `.bytes`.
    pub fn file_name(&self) -> (name: String)
        ensures
            name@ == self.file_hash@ + ".bytes"@,
    {
        self.file_hash.clone().concat(".bytes")
    }

    /// Reads the file record at the front of `data`, and says how long it
    /// is. Fails where `data` ends before the record does.
    pub fn parse(data: &[u8]) -> (r: Result<(FileEntry, usize), FormatError>)
        ensures
            match file_parse(data@) {
                Some((file, k)) => r is Ok && r->Ok_0.0@ == file && r->Ok_0.1 == k && k
                    <= data@.len(),
                None => r is Err && r->Err_0 == FormatError::TruncatedInput,
            },
    {
        let len: usize = data.len();
        if len < FILE_HEAD_LEN {
            return Err(FormatError::TruncatedInput);
        }
        let (name_hash, read_size, entry_count) = match (
            read_i32_be(data, 0),
            read_u64_be(data, 20),
            read_u32_be(data, 28),
        ) {
            (Some(name_hash), Some(read_size), Some(entry_count)) => (
                name_hash,
                read_size,
                entry_count,
            ),
            _ => {
                return Err(FormatError::TruncatedInput);
            },
        };
        let file_hash = hex_encode(slice_subrange(data, 4, 20));
        let mut entries: Vec<DataEntry> = Vec::new();
        let mut pos: usize = FILE_HEAD_LEN;
        let mut i: u32 = 0;
        while i < entry_count
            invariant
                i <= entry_count,
                entry_count == u32_be(data@, 28),
                32 <= len == data@.len(),
                pos == 32 + 12 * i,
                pos <= data@.len(),
                entries@ == Seq::new(i as nat, |k: int| entry_at(data@, 32 + 12 * k)),
            decreases entry_count - i,
        {
            match read_entry(data, pos) {
                Some(entry) => {
                    entries.push(entry);
                },
                None => {
                    return Err(FormatError::TruncatedInput);
                },
            }
            pos += ENTRY_LEN;
            i += 1;
        }
        match read_u8(data, pos) {
            Some(unk_1) => Ok(
                (FileEntry { name_hash, file_hash, read_size, entry_count, entries, unk_1 }, pos + 1),
            ),
            None => Err(FormatError::TruncatedInput),
        }
    }
}

impl DesignIndex {
    /// Whether the counts say what the sequences hold.
    pub open spec fn wf(&self) -> bool {
        &&& self.files@.len() == self.file_count
        &&& forall|i: int|
            0 <= i < self.files@.len() ==> (#[trigger] self.files@[i]).entries@.len()
                == self.files@[i].entry_count
    }

    /// Reads the index at the front of `data`. Fails where `data` ends
    /// before a declared field or record does; nothing is returned then.
    pub fn parse(data: &[u8]) -> (r: Result<DesignIndex, FormatError>)
        ensures
            match index_parse(data@) {
                Some(index) => r is Ok && r->Ok_0@ == index && r->Ok_0.wf(),
                None => r is Err && r->Err_0 == FormatError::TruncatedInput,
            },
    {
        let (unk_1, file_count, unk_2) = match (
            read_u64_le(data, 0),
            read_u32_be(data, 8),
            read_u32_le(data, 12),
        ) {
            (Some(unk_1), Some(file_count), Some(unk_2)) => (unk_1, file_count, unk_2),
            _ => {
                return Err(FormatError::TruncatedInput);
            },
        };
        let len: usize = data.len();
        let mut files: Vec<FileEntry> = Vec::new();
        let mut pos: usize = HEADER_LEN;
        let mut i: u32 = 0;
        while i < file_count
            invariant
                i <= file_count,
                file_count == u32_be(data@, 8),
                16 <= pos <= len == data@.len(),
                files@.len() == i,
                forall|k: int|
                    0 <= k < files@.len() ==> (#[trigger] files@[k]).entries@.len()
                        == files@[k].entry_count,
                files_parse(data@.skip(16), file_count as nat) == match files_parse(
                    data@.skip(pos as int),
                    (file_count - i) as nat,
                ) {
                    None => None,
                    Some(others) => Some(file_views(files@) + others),
                },
            decreases file_count - i,
        {
            let ghost before = file_views(files@);
            let ghost tail = data@.skip(pos as int);
            match FileEntry::parse(skip(data, pos)) {
                Ok((file, taken)) => {
                    proof {
                        let others = files_parse(
                            tail.skip(taken as int),
                            (file_count - i - 1) as nat,
                        );
                        assert(tail.skip(taken as int) =~= data@.skip(pos + taken));
                        if others is Some {
                            assert(before + (seq![file@] + others->0) =~= file_views(
                                files@.push(file),
                            ) + others->0);
                        }
                    }
                    files.push(file);
                    pos += taken;
                },
                Err(_) => {
                    return Err(FormatError::TruncatedInput);
                },
            }
            i += 1;
        }
        proof {
            assert(file_views(files@) + Seq::<FileEntryView>::empty() =~= file_views(files@));
        }
        Ok(DesignIndex { unk_1, file_count, unk_2, files })
    }

    /// The first entry, in the order of the index, whose hash is `hash`,
    /// with the file that holds it; nothing where no entry carries it.
    pub fn find_by_hash(&self, hash: i32) -> (r: Option<(&DataEntry, &FileEntry)>)
        ensures
            match r {
                Some((entry, file)) => exists|i: int, j: int|
                    #[trigger] first_carrier(self.files@, i, j, hash) && *file == self.files@[i]
                        && *entry == self.files@[i].entries@[j],
                None => forall|i: int, j: int| !carries(self.files@, i, j, hash),
            },
    {
        find_entry(&self.files, hash)
    }
}

} // verus!
