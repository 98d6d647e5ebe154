//! The allowed-language table: a version byte, a row count, and rows whose
//! fields are optional. Each row starts with a mask byte that says which
//! fields follow:
//!
//! ```text
//! bit 0   area               string
//! bit 1   row type           one byte
//! bit 2   language list      count, then that many strings
//! bit 3   default language   string
//! ```
//!
//! A string is one length byte and that many bytes, which need not be
//! well-formed text. Counts are varints.

use crate::design_index::{DataEntry, FileEntry};
use crate::error::{EncodeError, FormatError};
use crate::varint::{
    lemma_varint_round_trip, read_varint, varint_bytes, varint_parse, write_varint,
};
use crate::wire::{read_u8, skip};
use vstd::prelude::*;
use vstd::slice::{slice_subrange, slice_to_vec};

verus! {

/// The hash under which the archive index lists the table.
pub const ALLOWED_LANGUAGE_HASH: i32 = -515329346;

/// The version byte that a table is written with.
pub const TABLE_VERSION: u8 = 0;

/// The longest string that a length byte can announce.
pub const MAX_STRING_LEN: usize = 255;

/// The largest count that the count's varint can hold.
pub const MAX_COUNT: usize = 127;

/// Mask bit of the area.
pub const AREA_BIT: u8 = 1;

/// Mask bit of the row type.
pub const TYPE_BIT: u8 = 2;

/// Mask bit of the language list.
pub const LIST_BIT: u8 = 4;

/// Mask bit of the default language.
pub const DEFAULT_BIT: u8 = 8;

/// One row of the table. A field that is `None` is absent from the row's
/// bytes, and its mask bit is clear.
#[derive(Clone, Debug, Default, PartialEq, Eq)]
pub struct AllowedLanguageRow {
    pub area: Option<Vec<u8>>,
    pub row_type: Option<u8>,
    pub language_list: Option<Vec<Vec<u8>>>,
    pub default_language: Option<Vec<u8>>,
}

/// What an `AllowedLanguageRow` holds.
pub struct RowView {
    pub area: Option<Seq<u8>>,
    pub row_type: Option<u8>,
    pub language_list: Option<Seq<Seq<u8>>>,
    pub default_language: Option<Seq<u8>>,
}

/// The byte strings that `list` holds.
pub open spec fn string_views(list: Seq<Vec<u8>>) -> Seq<Seq<u8>> {
    Seq::new(list.len(), |i: int| list[i]@)
}

impl View for AllowedLanguageRow {
    type V = RowView;

    open spec fn view(&self) -> RowView {
        RowView {
            area: match self.area {
                Some(s) => Some(s@),
                None => None,
            },
            row_type: self.row_type,
            language_list: match self.language_list {
                Some(list) => Some(string_views(list@)),
                None => None,
            },
            default_language: match self.default_language {
                Some(s) => Some(s@),
                None => None,
            },
        }
    }
}

/// The rows that `rows` holds.
pub open spec fn row_views(rows: Seq<AllowedLanguageRow>) -> Seq<RowView> {
    Seq::new(rows.len(), |i: int| rows[i]@)
}

// ---------------------------------------------------------------------
// What can be written
// ---------------------------------------------------------------------

/// Whether every string of `list` has a length that one byte can say.
pub open spec fn strings_fit(list: Seq<Seq<u8>>) -> bool {
    forall|i: int| 0 <= i < list.len() ==> (#[trigger] list[i]).len() <= 255
}

/// Whether every length and count of `row` can be written.
pub open spec fn row_fits(row: RowView) -> bool {
    &&& row.area matches Some(s) ==> s.len() <= 255
    &&& row.language_list matches Some(list) ==> list.len() <= 127 && strings_fit(list)
    &&& row.default_language matches Some(s) ==> s.len() <= 255
}

/// Whether the table of `rows` can be written.
pub open spec fn rows_fit(rows: Seq<RowView>) -> bool {
    &&& rows.len() <= 127
    &&& forall|i: int| 0 <= i < rows.len() ==> row_fits(#[trigger] rows[i])
}

// ---------------------------------------------------------------------
// The bytes of a value
// ---------------------------------------------------------------------

/// A string's bytes: its length, then itself.
pub open spec fn string_bytes(s: Seq<u8>) -> Seq<u8> {
    seq![s.len() as u8] + s
}

/// The bytes of the strings of `list`, one after the other.
pub open spec fn strings_bytes(list: Seq<Seq<u8>>) -> Seq<u8>
    decreases list.len(),
{
    if list.len() == 0 {
        Seq::empty()
    } else {
        string_bytes(list.first()) + strings_bytes(list.drop_first())
    }
}

/// A list's bytes: its count, then its strings.
pub open spec fn list_bytes(list: Seq<Seq<u8>>) -> Seq<u8> {
    varint_bytes(list.len() as i8) + strings_bytes(list)
}

/// The mask of a row: the union of the bits of the fields it has.
pub open spec fn mask_of(row: RowView) -> u8 {
    (if row.area is Some { 1u8 } else { 0u8 })
        | (if row.row_type is Some { 2u8 } else { 0u8 })
        | (if row.language_list is Some { 4u8 } else { 0u8 })
        | (if row.default_language is Some { 8u8 } else { 0u8 })
}

/// The bytes of an optional string: none where it is absent.
pub open spec fn opt_string_bytes(s: Option<Seq<u8>>) -> Seq<u8> {
    match s {
        Some(s) => string_bytes(s),
        None => Seq::empty(),
    }
}

/// The bytes of an optional byte: none where it is absent.
pub open spec fn opt_byte_bytes(b: Option<u8>) -> Seq<u8> {
    match b {
        Some(b) => seq![b],
        None => Seq::empty(),
    }
}

/// The bytes of an optional list: none where it is absent.
pub open spec fn opt_list_bytes(list: Option<Seq<Seq<u8>>>) -> Seq<u8> {
    match list {
        Some(list) => list_bytes(list),
        None => Seq::empty(),
    }
}

/// What follows a row's mask: the fields it has, in the order of their bits.
pub open spec fn body_bytes(row: RowView) -> Seq<u8> {
    opt_string_bytes(row.area) + opt_byte_bytes(row.row_type) + opt_list_bytes(row.language_list)
        + opt_string_bytes(row.default_language)
}

/// A row's bytes: its mask, then its body.
pub open spec fn row_bytes(row: RowView) -> Seq<u8> {
    seq![mask_of(row)] + body_bytes(row)
}

/// The bytes of `rows`, one after the other.
pub open spec fn rows_bytes(rows: Seq<RowView>) -> Seq<u8>
    decreases rows.len(),
{
    if rows.len() == 0 {
        Seq::empty()
    } else {
        row_bytes(rows.first()) + rows_bytes(rows.drop_first())
    }
}

/// A table's bytes: the version, the row count, the rows.
pub open spec fn table_bytes(rows: Seq<RowView>) -> Seq<u8> {
    seq![0u8] + varint_bytes(rows.len() as i8) + rows_bytes(rows)
}

// ---------------------------------------------------------------------
// The value of some bytes
// ---------------------------------------------------------------------

/// Whether `bit`, one of the four mask bits, is set in `mask`.
pub open spec fn has_bit(mask: u8, bit: u8) -> bool {
    mask & bit != 0
}

/// The string at the front of `s` and the bytes it takes, where `s` holds
/// as many as its length byte says.
pub open spec fn string_parse(s: Seq<u8>) -> Option<(Seq<u8>, nat)> {
    if s.len() >= 1 && s.len() >= 1 + s[0] {
        Some((s.subrange(1, 1 + s[0]), (1 + s[0]) as nat))
    } else {
        None
    }
}

/// The `n` strings at the front of `s` and the bytes they take.
pub open spec fn strings_parse(s: Seq<u8>, n: nat) -> Option<(Seq<Seq<u8>>, nat)>
    decreases n,
{
    if n == 0 {
        Some((Seq::empty(), 0))
    } else {
        match string_parse(s) {
            None => None,
            Some((first, k)) => match strings_parse(s.skip(k as int), (n - 1) as nat) {
                None => None,
                Some((others, m)) => Some((seq![first] + others, k + m)),
            },
        }
    }
}

/// The count at the front of `s` and the bytes it takes. A negative count
/// stands for more items than any buffer holds, so it is reported as the
/// items that are missing.
pub open spec fn count_parse(s: Seq<u8>) -> Result<(nat, nat), FormatError> {
    match varint_parse(s) {
        None => Err(FormatError::MalformedVarint),
        Some((n, k)) => if n < 0 {
            Err(FormatError::TruncatedRow)
        } else {
            Ok((n as nat, k))
        },
    }
}

/// The list at the front of `s` and the bytes it takes.
pub open spec fn list_parse(s: Seq<u8>) -> Result<(Seq<Seq<u8>>, nat), FormatError> {
    match count_parse(s) {
        Err(e) => Err(e),
        Ok((n, k)) => match strings_parse(s.skip(k as int), n) {
            None => Err(FormatError::TruncatedRow),
            Some((list, m)) => Ok((list, k + m)),
        },
    }
}

/// A string that is read only where `present`.
#[verifier::opaque]
pub open spec fn opt_string_parse(present: bool, s: Seq<u8>) -> Result<
    (Option<Seq<u8>>, nat),
    FormatError,
> {
    if present {
        match string_parse(s) {
            None => Err(FormatError::TruncatedRow),
            Some((v, k)) => Ok((Some(v), k)),
        }
    } else {
        Ok((None, 0))
    }
}

/// A byte that is read only where `present`.
#[verifier::opaque]
pub open spec fn opt_byte_parse(present: bool, s: Seq<u8>) -> Result<(Option<u8>, nat), FormatError> {
    if present {
        if s.len() >= 1 {
            Ok((Some(s[0]), 1))
        } else {
            Err(FormatError::TruncatedRow)
        }
    } else {
        Ok((None, 0))
    }
}

/// A list that is read only where `present`.
#[verifier::opaque]
pub open spec fn opt_list_parse(present: bool, s: Seq<u8>) -> Result<
    (Option<Seq<Seq<u8>>>, nat),
    FormatError,
> {
    if present {
        match list_parse(s) {
            Err(e) => Err(e),
            Ok((v, k)) => Ok((Some(v), k)),
        }
    } else {
        Ok((None, 0))
    }
}

/// The row at the front of `s` and the bytes it takes. Mask bits above the
/// fourth are not looked at.
pub open spec fn row_parse(s: Seq<u8>) -> Result<(RowView, nat), FormatError> {
    if s.len() < 1 {
        Err(FormatError::TruncatedRow)
    } else {
        let mask = s[0];
        match opt_string_parse(has_bit(mask, 1), s.skip(1)) {
            Err(e) => Err(e),
            Ok((area, a)) => match opt_byte_parse(has_bit(mask, 2), s.skip(1 + a as int)) {
                Err(e) => Err(e),
                Ok((row_type, b)) => match opt_list_parse(has_bit(mask, 4), s.skip(1 + a + b as int)) {
                    Err(e) => Err(e),
                    Ok((language_list, c)) => match opt_string_parse(
                        has_bit(mask, 8),
                        s.skip(1 + a + b + c as int),
                    ) {
                        Err(e) => Err(e),
                        Ok((default_language, d)) => Ok(
                            (
                                RowView { area, row_type, language_list, default_language },
                                1 + a + b + c + d,
                            ),
                        ),
                    },
                },
            },
        }
    }
}

/// The `n` rows at the front of `s`.
pub open spec fn rows_parse(s: Seq<u8>, n: nat) -> Result<Seq<RowView>, FormatError>
    decreases n,
{
    if n == 0 {
        Ok(Seq::empty())
    } else {
        match row_parse(s) {
            Err(e) => Err(e),
            Ok((first, k)) => match rows_parse(s.skip(k as int), (n - 1) as nat) {
                Err(e) => Err(e),
                Ok(others) => Ok(seq![first] + others),
            },
        }
    }
}

/// The table that `s` holds: whatever the version byte, as many rows as
/// the count says. Bytes after the last row are not looked at.
pub open spec fn table_parse(s: Seq<u8>) -> Result<Seq<RowView>, FormatError> {
    if s.len() < 1 {
        Err(FormatError::TruncatedRow)
    } else {
        match count_parse(s.skip(1)) {
            Err(e) => Err(e),
            Ok((n, k)) => rows_parse(s.skip(1 + k as int), n),
        }
    }
}

// ---------------------------------------------------------------------
// Writing
// ---------------------------------------------------------------------

/// The bytes of a run of strings end with the bytes of its last string.
pub proof fn lemma_strings_bytes_push(list: Seq<Seq<u8>>, s: Seq<u8>)
    ensures
        strings_bytes(list.push(s)) == strings_bytes(list) + string_bytes(s),
    decreases list.len(),
{
    if list.len() == 0 {
        assert(list.push(s).drop_first() =~= Seq::<Seq<u8>>::empty());
        assert(strings_bytes(Seq::<Seq<u8>>::empty()) =~= Seq::<u8>::empty());
        assert(strings_bytes(list) =~= Seq::<u8>::empty());
        assert(strings_bytes(list.push(s)) =~= strings_bytes(list) + string_bytes(s));
    } else {
        assert(list.push(s).drop_first() =~= list.drop_first().push(s));
        lemma_strings_bytes_push(list.drop_first(), s);
        assert(strings_bytes(list.push(s)) =~= strings_bytes(list) + string_bytes(s));
    }
}

/// The bytes of a run of rows end with the bytes of its last row.
pub proof fn lemma_rows_bytes_push(rows: Seq<RowView>, row: RowView)
    ensures
        rows_bytes(rows.push(row)) == rows_bytes(rows) + row_bytes(row),
    decreases rows.len(),
{
    if rows.len() == 0 {
        assert(rows.push(row).drop_first() =~= Seq::<RowView>::empty());
        assert(rows_bytes(Seq::<RowView>::empty()) =~= Seq::<u8>::empty());
        assert(rows_bytes(rows) =~= Seq::<u8>::empty());
        assert(rows_bytes(rows.push(row)) =~= rows_bytes(rows) + row_bytes(row));
    } else {
        assert(rows.push(row).drop_first() =~= rows.drop_first().push(row));
        lemma_rows_bytes_push(rows.drop_first(), row);
        assert(rows_bytes(rows.push(row)) =~= rows_bytes(rows) + row_bytes(row));
    }
}

/// Appends a string whose length is known to fit its length byte.
fn push_string(out: &mut Vec<u8>, s: &[u8])
    requires
        s@.len() <= 255,
    ensures
        final(out)@ == old(out)@ + string_bytes(s@),
{
    out.push(s.len() as u8);
    out.extend_from_slice(s);
    assert(out@ =~= old(out)@ + string_bytes(s@));
}

/// Whether every string of `strings` fits its length byte.
fn all_fit(strings: &[Vec<u8>]) -> (b: bool)
    ensures
        b == strings_fit(string_views(strings@)),
{
    let mut i: usize = 0;
    while i < strings.len()
        invariant
            i <= strings@.len(),
            forall|k: int| 0 <= k < i ==> (#[trigger] string_views(strings@)[k]).len() <= 255,
        decreases strings@.len() - i,
    {
        if strings[i].len() > MAX_STRING_LEN {
            assert(string_views(strings@)[i as int].len() > 255);
            return false;
        }
        i += 1;
    }
    true
}

impl AllowedLanguageRow {
    /// Appends `s` with its length byte. A string of more than 255 bytes is
    /// refused, and nothing is appended.
    pub fn write_string(out: &mut Vec<u8>, s: &[u8]) -> (r: Result<(), EncodeError>)
        ensures
            s@.len() <= 255 ==> r is Ok && final(out)@ == old(out)@ + string_bytes(s@),
            s@.len() > 255 ==> r == Err::<(), EncodeError>(EncodeError::FieldTooLong)
                && final(out)@ == old(out)@,
    {
        if s.len() > MAX_STRING_LEN {
            return Err(EncodeError::FieldTooLong);
        }
        push_string(out, s);
        Ok(())
    }

    /// Appends the count of `strings` and then each of them. A list of more
    /// than 127 strings, or one that holds a string of more than 255 bytes,
    /// is refused, and nothing is appended.
    pub fn write_string_array(out: &mut Vec<u8>, strings: &[Vec<u8>]) -> (r: Result<
        (),
        EncodeError,
    >)
        ensures
            ({
                let list = string_views(strings@);
                if list.len() <= 127 && strings_fit(list) {
                    r is Ok && final(out)@ == old(out)@ + list_bytes(list)
                } else {
                    r == Err::<(), EncodeError>(EncodeError::FieldTooLong)
                        && final(out)@ == old(out)@
                }
            }),
    {
        if strings.len() > MAX_COUNT || !all_fit(strings) {
            return Err(EncodeError::FieldTooLong);
        }
        let ghost list = string_views(strings@);
        write_varint(out, strings.len() as i8);
        let mut i: usize = 0;
        while i < strings.len()
            invariant
                i <= strings@.len(),
                list == string_views(strings@),
                strings_fit(list),
                out@ == old(out)@ + varint_bytes(list.len() as i8) + strings_bytes(
                    list.take(i as int),
                ),
            decreases strings@.len() - i,
        {
            proof {
                assert(list[i as int].len() <= 255);
                lemma_strings_bytes_push(list.take(i as int), list[i as int]);
                assert(list.take(i as int).push(list[i as int]) =~= list.take(i + 1));
            }
            push_string(out, strings[i].as_slice());
            i += 1;
        }
        proof {
            assert(list.take(list.len() as int) =~= list);
            assert(out@ =~= old(out)@ + list_bytes(list));
        }
        Ok(())
    }

    /// Whether every length and count of the row can be written.
    pub fn fits(&self) -> (b: bool)
        ensures
            b == row_fits(self@),
    {
        let area_fits = match &self.area {
            Some(s) => s.len() <= MAX_STRING_LEN,
            None => true,
        };
        let list_fits = match &self.language_list {
            Some(list) => list.len() <= MAX_COUNT && all_fit(list.as_slice()),
            None => true,
        };
        let default_fits = match &self.default_language {
            Some(s) => s.len() <= MAX_STRING_LEN,
            None => true,
        };
        area_fits && list_fits && default_fits
    }

    /// The mask of the row.
    pub fn mask(&self) -> (m: u8)
        ensures
            m == mask_of(self@),
    {
        (if self.area.is_some() {
            AREA_BIT
        } else {
            0u8
        }) | (if self.row_type.is_some() {
            TYPE_BIT
        } else {
            0u8
        }) | (if self.language_list.is_some() {
            LIST_BIT
        } else {
            0u8
        }) | (if self.default_language.is_some() {
            DEFAULT_BIT
        } else {
            0u8
        })
    }

    /// The row's bytes: the mask, then exactly the fields that the row has,
    /// in the order of their bits. A row with a length or count that cannot
    /// be written is refused.
    pub fn serialize(&self) -> (r: Result<Vec<u8>, EncodeError>)
        ensures
            row_fits(self@) ==> r is Ok && r->Ok_0@ == row_bytes(self@),
            !row_fits(self@) ==> r == Err::<Vec<u8>, EncodeError>(EncodeError::FieldTooLong),
    {
        if !self.fits() {
            return Err(EncodeError::FieldTooLong);
        }
        let mut buffer: Vec<u8> = Vec::new();
        buffer.push(self.mask());
        if let Some(area) = &self.area {
            push_string(&mut buffer, area.as_slice());
        }
        if let Some(row_type) = self.row_type {
            buffer.push(row_type);
        }
        if let Some(list) = &self.language_list {
            let written = Self::write_string_array(&mut buffer, list.as_slice());
            assert(written is Ok);
        }
        if let Some(default_language) = &self.default_language {
            push_string(&mut buffer, default_language.as_slice());
        }
        assert(buffer@ =~= row_bytes(self@));
        Ok(buffer)
    }
}

// ---------------------------------------------------------------------
// Reading
// ---------------------------------------------------------------------

impl AllowedLanguageRow {
    /// Reads the row at the front of `data`, and says how many bytes it
    /// took. Fails where `data` ends before a field that the mask announces
    /// is complete.
    pub fn deserialize(data: &[u8]) -> (r: Result<(AllowedLanguageRow, usize), FormatError>)
        ensures
            match row_parse(data@) {
                Ok((row, k)) => r is Ok && r->Ok_0.0@ == row && r->Ok_0.1 == k && k <= data@.len(),
                Err(e) => r is Err && r->Err_0 == e,
            },
    {
        proof {
            reveal(opt_string_parse);
            reveal(opt_byte_parse);
            reveal(opt_list_parse);
        }
        let mask = match read_u8(data, 0) {
            Some(mask) => mask,
            None => {
                return Err(FormatError::TruncatedRow);
            },
        };
        let len: usize = data.len();
        let mut pos: usize = 1;
        let mut area: Option<Vec<u8>> = None;
        if mask & AREA_BIT != 0 {
            match AllowedLanguage::read_string(skip(data, pos)) {
                Some((s, k)) => {
                    area = Some(s);
                    pos += k;
                },
                None => {
                    return Err(FormatError::TruncatedRow);
                },
            }
        }
        let ghost a = pos - 1;
        let mut row_type: Option<u8> = None;
        if mask & TYPE_BIT != 0 {
            match read_u8(data, pos) {
                Some(b) => {
                    row_type = Some(b);
                    pos += 1;
                },
                None => {
                    return Err(FormatError::TruncatedRow);
                },
            }
        }
        let ghost b = pos - 1 - a;
        let mut language_list: Option<Vec<Vec<u8>>> = None;
        if mask & LIST_BIT != 0 {
            match AllowedLanguage::read_string_array(skip(data, pos)) {
                Ok((list, k)) => {
                    language_list = Some(list);
                    pos += k;
                },
                Err(e) => {
                    return Err(e);
                },
            }
        }
        let ghost c = pos - 1 - a - b;
        let mut default_language: Option<Vec<u8>> = None;
        if mask & DEFAULT_BIT != 0 {
            match AllowedLanguage::read_string(skip(data, pos)) {
                Some((s, k)) => {
                    default_language = Some(s);
                    pos += k;
                },
                None => {
                    return Err(FormatError::TruncatedRow);
                },
            }
        }
        Ok((AllowedLanguageRow { area, row_type, language_list, default_language }, pos))
    }
}

/// The table of one record of the archive: where its data file lies, and
/// the record's place in that file.
pub struct AllowedLanguage<'a> {
    design_data_dir: String,
    excel_data_entry: &'a DataEntry,
    excel_file_entry: &'a FileEntry,
}

impl<'a> AllowedLanguage<'a> {
    /// The directory that was given.
    pub closed spec fn dir(&self) -> Seq<char> {
        self.design_data_dir@
    }

    /// The record that was given.
    pub closed spec fn entry(&self) -> DataEntry {
        *self.excel_data_entry
    }

    /// The data file that was given.
    pub closed spec fn file(&self) -> FileEntry {
        *self.excel_file_entry
    }

    /// The table of the record `excel_data_entry` of the data file
    /// `excel_file_entry`, which lies in `design_data_dir`.
    pub fn new(
        design_data_dir: String,
        excel_data_entry: &'a DataEntry,
        excel_file_entry: &'a FileEntry,
    ) -> (table: Self)
        ensures
            table.dir() == design_data_dir@,
            table.entry() == *excel_data_entry,
            table.file() == *excel_file_entry,
    {
        AllowedLanguage { design_data_dir, excel_data_entry, excel_file_entry }
    }

    /// The directory in which the data file lies.
    pub fn design_data_dir(&self) -> (dir: &str)
        ensures
            dir@ == self.dir(),
    {
        self.design_data_dir.as_str()
    }

    /// The record that holds the table.
    pub fn excel_data_entry(&self) -> (entry: &'a DataEntry)
        ensures
            *entry == self.entry(),
    {
        self.excel_data_entry
    }

    /// The data file that holds the record.
    pub fn excel_file_entry(&self) -> (file: &'a FileEntry)
        ensures
            *file == self.file(),
    {
        self.excel_file_entry
    }

    /// Reads the string at the front of `data`, and says how many bytes it
    /// took; nothing where `data` holds fewer bytes than the length byte
    /// says. The bytes are taken as they are.
    pub fn read_string(data: &[u8]) -> (r: Option<(Vec<u8>, usize)>)
        ensures
            match string_parse(data@) {
                Some((s, k)) => r matches Some((bytes, taken)) && bytes@ == s && taken == k && k
                    <= data@.len(),
                None => r is None,
            },
    {
        let len = data.len();
        if len < 1 {
            return None;
        }
        let n = data[0] as usize;
        if len - 1 < n {
            return None;
        }
        Some((slice_to_vec(slice_subrange(data, 1, 1 + n)), 1 + n))
    }

    /// Reads the count at the front of `data`, and says how many bytes it
    /// took.
    pub fn read_count(data: &[u8]) -> (r: Result<(usize, usize), FormatError>)
        ensures
            match count_parse(data@) {
                Ok((n, k)) => r is Ok && r->Ok_0.0 == n && r->Ok_0.1 == k && k <= data@.len() && n
                    <= 127,
                Err(e) => r is Err && r->Err_0 == e,
            },
    {
        match read_varint(data) {
            Err(e) => Err(e),
            Ok((n, k)) => if n < 0 {
                Err(FormatError::TruncatedRow)
            } else {
                Ok((n as usize, k))
            },
        }
    }

    /// Reads the list at the front of `data`, and says how many bytes it
    /// took. Fails where the count is malformed, or where `data` ends
    /// before the last string does.
    pub fn read_string_array(data: &[u8]) -> (r: Result<(Vec<Vec<u8>>, usize), FormatError>)
        ensures
            match list_parse(data@) {
                Ok((list, k)) => r is Ok && string_views(r->Ok_0.0@) == list && r->Ok_0.1 == k && k
                    <= data@.len(),
                Err(e) => r is Err && r->Err_0 == e,
            },
    {
        let (count, start) = match Self::read_count(data) {
            Ok(pair) => pair,
            Err(e) => {
                return Err(e);
            },
        };
        let len: usize = data.len();
        let mut strings: Vec<Vec<u8>> = Vec::new();
        let mut pos: usize = start;
        let mut i: usize = 0;
        while i < count
            invariant
                i <= count,
                count_parse(data@) == Ok::<(nat, nat), FormatError>((count as nat, start as nat)),
                start <= pos <= len == data@.len(),
                strings@.len() == i,
                strings_parse(data@.skip(start as int), count as nat) == match strings_parse(
                    data@.skip(pos as int),
                    (count - i) as nat,
                ) {
                    None => None,
                    Some((others, m)) => Some(
                        (string_views(strings@) + others, (pos - start + m) as nat),
                    ),
                },
            decreases count - i,
        {
            let ghost before = string_views(strings@);
            let ghost tail = data@.skip(pos as int);
            match Self::read_string(skip(data, pos)) {
                Some((s, k)) => {
                    proof {
                        let others = strings_parse(tail.skip(k as int), (count - i - 1) as nat);
                        assert(tail.skip(k as int) =~= data@.skip(pos + k));
                        if others is Some {
                            let later = others.unwrap().0;
                            assert(before + (seq![s@] + later) =~= string_views(strings@.push(s))
                                + later);
                        }
                    }
                    strings.push(s);
                    pos += k;
                },
                None => {
                    return Err(FormatError::TruncatedRow);
                },
            }
            i += 1;
        }
        proof {
            assert(string_views(strings@) + Seq::<Seq<u8>>::empty() =~= string_views(strings@));
        }
        Ok((strings, pos))
    }

    /// The table's bytes: the version byte, the row count, and each row's
    /// bytes. A table of more than 127 rows, or with a row that cannot be
    /// written, is refused.
    pub fn serialize_rows(&self, rows: Vec<AllowedLanguageRow>) -> (r: Result<Vec<u8>, EncodeError>)
        ensures
            rows_fit(row_views(rows@)) ==> r is Ok && r->Ok_0@ == table_bytes(row_views(rows@)),
            !rows_fit(row_views(rows@)) ==> r == Err::<Vec<u8>, EncodeError>(
                EncodeError::FieldTooLong,
            ),
    {
        if rows.len() > MAX_COUNT {
            return Err(EncodeError::FieldTooLong);
        }
        let ghost views = row_views(rows@);
        let mut buffer: Vec<u8> = Vec::new();
        buffer.push(TABLE_VERSION);
        write_varint(&mut buffer, rows.len() as i8);
        let mut i: usize = 0;
        while i < rows.len()
            invariant
                i <= rows@.len() <= 127,
                views == row_views(rows@),
                forall|k: int| 0 <= k < i ==> row_fits(#[trigger] views[k]),
                buffer@ == seq![0u8] + varint_bytes(views.len() as i8) + rows_bytes(
                    views.take(i as int),
                ),
            decreases rows@.len() - i,
        {
            match rows[i].serialize() {
                Ok(bytes) => {
                    proof {
                        lemma_rows_bytes_push(views.take(i as int), views[i as int]);
                        assert(views.take(i as int).push(views[i as int]) =~= views.take(i + 1));
                    }
                    buffer.extend_from_slice(bytes.as_slice());
                },
                Err(e) => {
                    assert(!row_fits(views[i as int]));
                    return Err(EncodeError::FieldTooLong);
                },
            }
            i += 1;
        }
        proof {
            assert(views.take(views.len() as int) =~= views);
        }
        Ok(buffer)
    }

    /// Reads the table that `data`, the record's payload, holds. The
    /// version byte is read and not looked at. Nothing is returned unless
    /// every row was read.
    pub fn parse(&self, data: &[u8]) -> (r: Result<Vec<AllowedLanguageRow>, FormatError>)
        ensures
            match table_parse(data@) {
                Ok(rows) => r is Ok && row_views(r->Ok_0@) == rows,
                Err(e) => r is Err && r->Err_0 == e,
            },
    {
        let len: usize = data.len();
        if len < 1 {
            return Err(FormatError::TruncatedRow);
        }
        let (count, k) = match Self::read_count(skip(data, 1)) {
            Ok(pair) => pair,
            Err(e) => {
                return Err(e);
            },
        };
        let start: usize = 1 + k;
        let mut rows: Vec<AllowedLanguageRow> = Vec::new();
        let mut pos: usize = start;
        let mut i: usize = 0;
        while i < count
            invariant
                i <= count,
                count_parse(data@.skip(1)) == Ok::<(nat, nat), FormatError>(
                    (count as nat, (start - 1) as nat),
                ),
                1 <= start <= pos <= len == data@.len(),
                rows@.len() == i,
                rows_parse(data@.skip(start as int), count as nat) == match rows_parse(
                    data@.skip(pos as int),
                    (count - i) as nat,
                ) {
                    Err(e) => Err(e),
                    Ok(others) => Ok(row_views(rows@) + others),
                },
            decreases count - i,
        {
            let ghost before = row_views(rows@);
            let ghost tail = data@.skip(pos as int);
            match AllowedLanguageRow::deserialize(skip(data, pos)) {
                Ok((row, taken)) => {
                    proof {
                        let others = rows_parse(tail.skip(taken as int), (count - i - 1) as nat);
                        assert(tail.skip(taken as int) =~= data@.skip(pos + taken));
                        if others is Ok {
                            assert(before + (seq![row@] + others->Ok_0) =~= row_views(
                                rows@.push(row),
                            ) + others->Ok_0);
                        }
                    }
                    rows.push(row);
                    pos += taken;
                },
                Err(e) => {
                    return Err(e);
                },
            }
            i += 1;
        }
        proof {
            assert(row_views(rows@) + Seq::<RowView>::empty() =~= row_views(rows@));
        }
        Ok(rows)
    }
}

// ---------------------------------------------------------------------
// Reading back what was written
// ---------------------------------------------------------------------

/// In a union of the four mask bits each bit is set exactly where it was
/// put in.
proof fn lemma_mask_bits(a: u8, b: u8, c: u8, d: u8)
    by (bit_vector)
    requires
        a == 0 || a == 1,
        b == 0 || b == 2,
        c == 0 || c == 4,
        d == 0 || d == 8,
    ensures
        (a | b | c | d) & 1 == a,
        (a | b | c | d) & 2 == b,
        (a | b | c | d) & 4 == c,
        (a | b | c | d) & 8 == d,
        (a | b | c | d) == a + b + c + d,
{
}

/// The mask of a row has a bit set exactly where the row has the field,
/// and is the sum of those bits.
pub proof fn lemma_mask_of(row: RowView)
    ensures
        has_bit(mask_of(row), 1) == row.area is Some,
        has_bit(mask_of(row), 2) == row.row_type is Some,
        has_bit(mask_of(row), 4) == row.language_list is Some,
        has_bit(mask_of(row), 8) == row.default_language is Some,
        mask_of(row) == (if row.area is Some { 1int } else { 0 })
            + (if row.row_type is Some { 2int } else { 0 })
            + (if row.language_list is Some { 4int } else { 0 })
            + (if row.default_language is Some { 8int } else { 0 }),
{
    let a = if row.area is Some { 1u8 } else { 0u8 };
    let b = if row.row_type is Some { 2u8 } else { 0u8 };
    let c = if row.language_list is Some { 4u8 } else { 0u8 };
    let d = if row.default_language is Some { 8u8 } else { 0u8 };
    lemma_mask_bits(a, b, c, d);
}

/// A string that fits its length byte is read back, whatever follows it.
pub proof fn lemma_string_round_trip(s: Seq<u8>, after: Seq<u8>)
    requires
        s.len() <= 255,
    ensures
        string_parse(string_bytes(s) + after) == Some((s, string_bytes(s).len())),
        (string_bytes(s) + after).skip(string_bytes(s).len() as int) == after,
{
    let all = string_bytes(s) + after;
    assert(all[0] == s.len() as u8);
    assert(all.subrange(1, 1 + s.len() as int) =~= s);
    assert(all.skip(string_bytes(s).len() as int) =~= after);
}

/// Strings that fit their length bytes are read back, whatever follows
/// them.
pub proof fn lemma_strings_round_trip(list: Seq<Seq<u8>>, after: Seq<u8>)
    requires
        strings_fit(list),
    ensures
        strings_parse(strings_bytes(list) + after, list.len()) == Some(
            (list, strings_bytes(list).len()),
        ),
        (strings_bytes(list) + after).skip(strings_bytes(list).len() as int) == after,
    decreases list.len(),
{
    let all = strings_bytes(list) + after;
    if list.len() == 0 {
        assert(all.skip(0) =~= after);
        assert(list =~= Seq::<Seq<u8>>::empty());
    } else {
        let first = list.first();
        let others = list.drop_first();
        let later = strings_bytes(others) + after;
        assert(first == list[0]);
        assert(strings_fit(others)) by {
            assert forall|i: int| 0 <= i < others.len() implies (#[trigger] others[i]).len()
                <= 255 by {
                assert(others[i] == list[i + 1]);
            }
        }
        assert(all =~= string_bytes(first) + later);
        lemma_string_round_trip(first, later);
        lemma_strings_round_trip(others, after);
        assert(seq![first] + others =~= list);
        assert(all.skip(strings_bytes(list).len() as int) =~= later.skip(
            strings_bytes(others).len() as int,
        ));
    }
}

/// A list that can be written is read back, whatever follows it.
pub proof fn lemma_list_round_trip(list: Seq<Seq<u8>>, after: Seq<u8>)
    requires
        list.len() <= 127,
        strings_fit(list),
    ensures
        list_parse(list_bytes(list) + after) == Ok::<(Seq<Seq<u8>>, nat), FormatError>(
            (list, list_bytes(list).len()),
        ),
        (list_bytes(list) + after).skip(list_bytes(list).len() as int) == after,
{
    let count = varint_bytes(list.len() as i8);
    let later = strings_bytes(list) + after;
    let all = list_bytes(list) + after;
    assert(all =~= count + later);
    lemma_varint_round_trip(list.len() as i8, later);
    assert(all.skip(count.len() as int) =~= later);
    lemma_strings_round_trip(list, after);
    assert(all.skip(list_bytes(list).len() as int) =~= later.skip(
        strings_bytes(list).len() as int,
    ));
}

/// An optional string that fits its length byte is read back where its
/// bit is set, and nothing is read where it is not.
pub proof fn lemma_opt_string_round_trip(s: Option<Seq<u8>>, after: Seq<u8>)
    requires
        s matches Some(v) ==> v.len() <= 255,
    ensures
        opt_string_parse(s is Some, opt_string_bytes(s) + after) == Ok::<
            (Option<Seq<u8>>, nat),
            FormatError,
        >((s, opt_string_bytes(s).len())),
        (opt_string_bytes(s) + after).skip(opt_string_bytes(s).len() as int) == after,
{
    reveal(opt_string_parse);
    match s {
        Some(v) => {
            lemma_string_round_trip(v, after);
        },
        None => {
            assert((opt_string_bytes(s) + after).skip(0) =~= after);
        },
    }
}

/// An optional byte is read back where its bit is set, and nothing is read
/// where it is not.
pub proof fn lemma_opt_byte_round_trip(b: Option<u8>, after: Seq<u8>)
    ensures
        opt_byte_parse(b is Some, opt_byte_bytes(b) + after) == Ok::<
            (Option<u8>, nat),
            FormatError,
        >((b, opt_byte_bytes(b).len())),
        (opt_byte_bytes(b) + after).skip(opt_byte_bytes(b).len() as int) == after,
{
    reveal(opt_byte_parse);
    match b {
        Some(v) => {
            assert((opt_byte_bytes(b) + after)[0] == v);
            assert((opt_byte_bytes(b) + after).skip(1) =~= after);
        },
        None => {
            assert((opt_byte_bytes(b) + after).skip(0) =~= after);
        },
    }
}

/// An optional list that can be written is read back where its bit is set,
/// and nothing is read where it is not.
pub proof fn lemma_opt_list_round_trip(list: Option<Seq<Seq<u8>>>, after: Seq<u8>)
    requires
        list matches Some(l) ==> l.len() <= 127 && strings_fit(l),
    ensures
        opt_list_parse(list is Some, opt_list_bytes(list) + after) == Ok::<
            (Option<Seq<Seq<u8>>>, nat),
            FormatError,
        >((list, opt_list_bytes(list).len())),
        (opt_list_bytes(list) + after).skip(opt_list_bytes(list).len() as int) == after,
{
    reveal(opt_list_parse);
    match list {
        Some(l) => {
            lemma_list_round_trip(l, after);
        },
        None => {
            assert((opt_list_bytes(list) + after).skip(0) =~= after);
        },
    }
}

/// A row is read from a mask and four stretches of bytes, each of which
/// is read as the field that the mask announces.
proof fn lemma_row_assemble(
    mask: u8,
    row: RowView,
    area: Seq<u8>,
    kind: Seq<u8>,
    list: Seq<u8>,
    default: Seq<u8>,
    after: Seq<u8>,
)
    requires
        opt_string_parse(has_bit(mask, 1), area + (kind + (list + (default + after)))) == Ok::<
            (Option<Seq<u8>>, nat),
            FormatError,
        >((row.area, area.len())),
        opt_byte_parse(has_bit(mask, 2), kind + (list + (default + after))) == Ok::<
            (Option<u8>, nat),
            FormatError,
        >((row.row_type, kind.len())),
        opt_list_parse(has_bit(mask, 4), list + (default + after)) == Ok::<
            (Option<Seq<Seq<u8>>>, nat),
            FormatError,
        >((row.language_list, list.len())),
        opt_string_parse(has_bit(mask, 8), default + after) == Ok::<
            (Option<Seq<u8>>, nat),
            FormatError,
        >((row.default_language, default.len())),
    ensures
        row_parse(seq![mask] + (area + (kind + (list + (default + after))))) == Ok::<
            (RowView, nat),
            FormatError,
        >((row, 1 + area.len() + kind.len() + list.len() + default.len())),
{
    let r4 = default + after;
    let r3 = list + r4;
    let r2 = kind + r3;
    let r1 = area + r2;
    let all = seq![mask] + r1;
    assert(all[0] == mask);
    assert(all.skip(1) =~= r1);
    assert(all.skip(1 + area.len() as int) =~= r2);
    assert(all.skip(1 + area.len() + kind.len() as int) =~= r3);
    assert(all.skip(1 + area.len() + kind.len() + list.len() as int) =~= r4);
}

/// A mask, four stretches of bytes and what follows them, grouped from
/// the right.
proof fn lemma_regroup(
    mask: Seq<u8>,
    area: Seq<u8>,
    kind: Seq<u8>,
    list: Seq<u8>,
    default: Seq<u8>,
    after: Seq<u8>,
)
    ensures
        (mask + (area + kind + list + default)) + after == mask + (area + (kind + (list + (default
            + after)))),
        ((mask + (area + kind + list + default)) + after).skip(
            (mask + (area + kind + list + default)).len() as int,
        ) == after,
        (mask + (area + kind + list + default)).len() == mask.len() + area.len() + kind.len()
            + list.len() + default.len(),
{
    let row = mask + (area + kind + list + default);
    assert(row + after =~= mask + (area + (kind + (list + (default + after)))));
    assert((row + after).skip(row.len() as int) =~= after);
}

/// A row that can be written is read back, absent fields as absent,
/// whatever follows it.
pub proof fn lemma_row_round_trip(row: RowView, after: Seq<u8>)
    requires
        row_fits(row),
    ensures
        row_parse(row_bytes(row) + after) == Ok::<(RowView, nat), FormatError>(
            (row, row_bytes(row).len()),
        ),
        (row_bytes(row) + after).skip(row_bytes(row).len() as int) == after,
{
    let area = opt_string_bytes(row.area);
    let kind = opt_byte_bytes(row.row_type);
    let list = opt_list_bytes(row.language_list);
    let default = opt_string_bytes(row.default_language);
    let mask = mask_of(row);
    lemma_mask_of(row);
    lemma_opt_string_round_trip(row.area, kind + (list + (default + after)));
    lemma_opt_byte_round_trip(row.row_type, list + (default + after));
    lemma_opt_list_round_trip(row.language_list, default + after);
    lemma_opt_string_round_trip(row.default_language, after);
    lemma_row_assemble(mask, row, area, kind, list, default, after);
    lemma_regroup(seq![mask], area, kind, list, default, after);
}

/// Rows that can be written are read back, whatever follows them.
pub proof fn lemma_rows_round_trip(rows: Seq<RowView>, after: Seq<u8>)
    requires
        forall|i: int| 0 <= i < rows.len() ==> row_fits(#[trigger] rows[i]),
    ensures
        rows_parse(rows_bytes(rows) + after, rows.len()) == Ok::<Seq<RowView>, FormatError>(rows),
    decreases rows.len(),
{
    let all = rows_bytes(rows) + after;
    if rows.len() == 0 {
        assert(rows =~= Seq::<RowView>::empty());
    } else {
        let first = rows.first();
        let others = rows.drop_first();
        let later = rows_bytes(others) + after;
        assert(row_fits(rows[0]));
        assert forall|i: int| 0 <= i < others.len() implies row_fits(#[trigger] others[i]) by {
            assert(others[i] == rows[i + 1]);
        }
        assert(all =~= row_bytes(first) + later);
        lemma_row_round_trip(first, later);
        lemma_rows_round_trip(others, after);
        assert(seq![first] + others =~= rows);
    }
}

/// Reading a table that was written gives the rows that were written,
/// field for field, absent fields as absent: for every run of rows whose
/// lengths and counts can be written, and whatever follows the table.
pub proof fn lemma_table_round_trip(rows: Seq<RowView>, after: Seq<u8>)
    requires
        rows_fit(rows),
    ensures
        table_parse(table_bytes(rows) + after) == Ok::<Seq<RowView>, FormatError>(rows),
{
    let count = varint_bytes(rows.len() as i8);
    let later = rows_bytes(rows) + after;
    let all = table_bytes(rows) + after;
    assert(all.skip(1) =~= count + later);
    lemma_varint_round_trip(rows.len() as i8, later);
    assert(all.skip(1 + count.len() as int) =~= later);
    lemma_rows_round_trip(rows, after);
}

} // verus!
