//! Which rows of the table carry the client's language, and what setting a
//! language does to them. There are two areas, and in each a row for text
//! and a row for voice.

use crate::allowed_language::{row_views, AllowedLanguageRow, RowView};
use crate::error::LookupError;
use crate::wire::same_bytes;
use vstd::prelude::*;
use vstd::slice::slice_to_vec;
use vstd::string::StringSliceAdditionalSpecFns;

verus! {

/// The region that a row is for.
#[derive(Clone, Copy, Debug, PartialEq, Eq, Structural)]
pub enum Area {
    /// Overseas.
    Os,
    /// Mainland China.
    Cn,
}

/// What a row sets the language of.
#[derive(Clone, Copy, Debug, PartialEq, Eq, Structural)]
pub enum Kind {
    Text,
    Voice,
}

/// The row type of a voice row. A text row has none.
pub const VOICE_ROW_TYPE: u8 = 1;

impl Area {
    /// The tag of the area as rows spell it.
    pub open spec fn tag(self) -> &'static str {
        match self {
            Area::Os => "os",
            Area::Cn => "cn",
        }
    }

    /// The tag of the area as rows spell it.
    pub fn code(self) -> (code: &'static str)
        ensures
            code == self.tag(),
    {
        match self {
            Area::Os => "os",
            Area::Cn => "cn",
        }
    }
}

impl Kind {
    /// The row type that rows of this kind have.
    pub open spec fn type_of(self) -> Option<u8> {
        match self {
            Kind::Text => None,
            Kind::Voice => Some(1u8),
        }
    }

    /// The row type that rows of this kind have.
    pub fn row_type(self) -> (row_type: Option<u8>)
        ensures
            row_type == self.type_of(),
    {
        match self {
            Kind::Text => None,
            Kind::Voice => Some(VOICE_ROW_TYPE),
        }
    }
}

/// Whether `row` is a row of `area` and `kind`.
pub open spec fn is_target(row: RowView, area: Area, kind: Kind) -> bool {
    row.area == Some(area.tag().spec_bytes()) && row.row_type == kind.type_of()
}

/// Whether row `i` is the first row of `area` and `kind`.
pub open spec fn first_target(rows: Seq<RowView>, area: Area, kind: Kind, i: int) -> bool {
    &&& 0 <= i < rows.len()
    &&& is_target(rows[i], area, kind)
    &&& forall|k: int| 0 <= k < i ==> !is_target(#[trigger] rows[k], area, kind)
}

/// Whether some row is of `area` and `kind`.
pub open spec fn has_target(rows: Seq<RowView>, area: Area, kind: Kind) -> bool {
    exists|i: int| 0 <= i < rows.len() && is_target(#[trigger] rows[i], area, kind)
}

/// `row` with `language` as its default and as the one language it allows.
pub open spec fn with_language(row: RowView, language: Seq<u8>) -> RowView {
    RowView {
        area: row.area,
        row_type: row.row_type,
        language_list: Some(seq![language]),
        default_language: Some(language),
    }
}

/// Row `i` after the text language and the voice language were set: the
/// first text row of each area has `text`, the first voice row of each area
/// has `voice`, every other row is as it was.
pub open spec fn row_after(rows: Seq<RowView>, i: int, text: Seq<u8>, voice: Seq<u8>) -> RowView {
    if first_target(rows, Area::Os, Kind::Text, i) || first_target(rows, Area::Cn, Kind::Text, i) {
        with_language(rows[i], text)
    } else if first_target(rows, Area::Os, Kind::Voice, i) || first_target(
        rows,
        Area::Cn,
        Kind::Voice,
        i,
    ) {
        with_language(rows[i], voice)
    } else {
        rows[i]
    }
}

/// The rows after the text language and the voice language were set.
pub open spec fn rows_after(rows: Seq<RowView>, text: Seq<u8>, voice: Seq<u8>) -> Seq<RowView> {
    Seq::new(rows.len(), |i: int| row_after(rows, i, text, voice))
}

/// The first kind of row, in the order os text, cn voice, os voice, cn
/// text, that `rows` lacks.
pub open spec fn first_missing(rows: Seq<RowView>) -> Option<(Area, Kind)> {
    if !has_target(rows, Area::Os, Kind::Text) {
        Some((Area::Os, Kind::Text))
    } else if !has_target(rows, Area::Cn, Kind::Voice) {
        Some((Area::Cn, Kind::Voice))
    } else if !has_target(rows, Area::Os, Kind::Voice) {
        Some((Area::Os, Kind::Voice))
    } else if !has_target(rows, Area::Cn, Kind::Text) {
        Some((Area::Cn, Kind::Text))
    } else {
        None
    }
}

impl AllowedLanguageRow {
    /// Whether the row is of `area` and `kind`.
    pub fn is_for(&self, area: Area, kind: Kind) -> (b: bool)
        ensures
            b == is_target(self@, area, kind),
    {
        let area_matches = match &self.area {
            Some(tag) => same_bytes(tag.as_slice(), area.code().as_bytes()),
            None => false,
        };
        let type_matches = match (self.row_type, kind.row_type()) {
            (Some(a), Some(b)) => a == b,
            (None, None) => true,
            _ => false,
        };
        area_matches && type_matches
    }

    /// Makes `language` the row's default language and the one language
    /// that the row allows. Area and row type stay.
    pub fn update_language(&mut self, language: &[u8])
        ensures
            final(self)@ == with_language(old(self)@, language@),
    {
        let mut list: Vec<Vec<u8>> = Vec::new();
        list.push(slice_to_vec(language));
        self.language_list = Some(list);
        self.default_language = Some(slice_to_vec(language));
        assert(crate::allowed_language::string_views(list@) =~= seq![language@]);
    }
}

/// The place of the first row of `area` and `kind`; nothing where there is
/// no such row.
pub fn find_row(rows: &[AllowedLanguageRow], area: Area, kind: Kind) -> (r: Option<usize>)
    ensures
        match r {
            Some(i) => first_target(row_views(rows@), area, kind, i as int),
            None => !has_target(row_views(rows@), area, kind),
        },
{
    let mut i: usize = 0;
    while i < rows.len()
        invariant
            i <= rows@.len(),
            forall|k: int| 0 <= k < i ==> !is_target(#[trigger] row_views(rows@)[k], area, kind),
        decreases rows@.len() - i,
    {
        if rows[i].is_for(area, kind) {
            return Some(i);
        }
        i += 1;
    }
    None
}

/// Sets the text language and the voice language: in each area, of the
/// first text row and of the first voice row. Where a kind of row is
/// missing, says which, and leaves the rows as they were.
pub fn set_languages(rows: &mut Vec<AllowedLanguageRow>, text: &[u8], voice: &[u8]) -> (r: Result<
    (),
    LookupError,
>)
    ensures
        match first_missing(row_views(old(rows)@)) {
            Some((area, kind)) => r == Err::<(), LookupError>(
                LookupError::RowNotFound { area, kind },
            ) && final(rows)@ == old(rows)@,
            None => r is Ok && row_views(final(rows)@) == rows_after(
                row_views(old(rows)@),
                text@,
                voice@,
            ),
        },
{
    let os_text = match find_row(rows.as_slice(), Area::Os, Kind::Text) {
        Some(i) => i,
        None => {
            return Err(LookupError::RowNotFound { area: Area::Os, kind: Kind::Text });
        },
    };
    let cn_voice = match find_row(rows.as_slice(), Area::Cn, Kind::Voice) {
        Some(i) => i,
        None => {
            return Err(LookupError::RowNotFound { area: Area::Cn, kind: Kind::Voice });
        },
    };
    let os_voice = match find_row(rows.as_slice(), Area::Os, Kind::Voice) {
        Some(i) => i,
        None => {
            return Err(LookupError::RowNotFound { area: Area::Os, kind: Kind::Voice });
        },
    };
    let cn_text = match find_row(rows.as_slice(), Area::Cn, Kind::Text) {
        Some(i) => i,
        None => {
            return Err(LookupError::RowNotFound { area: Area::Cn, kind: Kind::Text });
        },
    };
    let ghost before = row_views(rows@);
    proof {
        lemma_tags_differ();
    }
    rows[os_text].update_language(text);
    rows[cn_voice].update_language(voice);
    rows[os_voice].update_language(voice);
    rows[cn_text].update_language(text);
    assert(row_views(rows@) =~= rows_after(before, text@, voice@));
    Ok(())
}

/// The two areas have different tags, and the two kinds different row
/// types, so no row is of two of the four kinds of row.
pub proof fn lemma_tags_differ()
    ensures
        Area::Os.tag().spec_bytes() != Area::Cn.tag().spec_bytes(),
        Kind::Text.type_of() != Kind::Voice.type_of(),
{
    reveal_strlit("os");
    reveal_strlit("cn");
    let os = "os";
    let cn = "cn";
    assert(os@[0] == 'o');
    assert(cn@[0] == 'c');
    assert(os@ != cn@);
    vstd::utf8::encode_utf8_decode_utf8(os@);
    vstd::utf8::encode_utf8_decode_utf8(cn@);
}

} // verus!
