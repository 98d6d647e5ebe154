use langpatch::allowed_language::AllowedLanguageRow;
use langpatch::error::LookupError;
use langpatch::language_patch::{find_row, set_languages, Area, Kind, VOICE_ROW_TYPE};

fn s(text: &str) -> Vec<u8> {
    text.as_bytes().to_vec()
}

fn row(area: &str, row_type: Option<u8>, list: &[&str], default: &str) -> AllowedLanguageRow {
    AllowedLanguageRow {
        area: Some(s(area)),
        row_type,
        language_list: Some(list.iter().map(|l| s(l)).collect()),
        default_language: Some(s(default)),
    }
}

fn table() -> Vec<AllowedLanguageRow> {
    vec![
        row("cn", None, &["cn"], "cn"),
        row("os", None, &["en", "jp", "kr"], "en"),
        row("cn", Some(1), &["cn"], "cn"),
        row("os", Some(1), &["en", "jp"], "en"),
        row("os", Some(2), &["en"], "en"),
        AllowedLanguageRow::default(),
        row("os", None, &["kr"], "kr"),
    ]
}

#[test]
fn areas_and_kinds_as_rows_spell_them() {
    assert_eq!(Area::Os.code(), "os");
    assert_eq!(Area::Cn.code(), "cn");
    assert_eq!(Kind::Text.row_type(), None);
    assert_eq!(Kind::Voice.row_type(), Some(1));
    assert_eq!(VOICE_ROW_TYPE, 1);
}

#[test]
fn row_is_for_its_area_and_kind_only() {
    let os_text = row("os", None, &[], "");
    assert!(os_text.is_for(Area::Os, Kind::Text));
    assert!(!os_text.is_for(Area::Os, Kind::Voice));
    assert!(!os_text.is_for(Area::Cn, Kind::Text));
    let cn_voice = row("cn", Some(1), &[], "");
    assert!(cn_voice.is_for(Area::Cn, Kind::Voice));
    assert!(!cn_voice.is_for(Area::Cn, Kind::Text));
    assert!(!cn_voice.is_for(Area::Os, Kind::Voice));
    assert!(!row("cn", Some(0), &[], "").is_for(Area::Cn, Kind::Text));
    assert!(!row("cn", Some(2), &[], "").is_for(Area::Cn, Kind::Voice));
    assert!(!row("CN", None, &[], "").is_for(Area::Cn, Kind::Text));
    assert!(!row("c", None, &[], "").is_for(Area::Cn, Kind::Text));
    assert!(!row("cnn", None, &[], "").is_for(Area::Cn, Kind::Text));
    assert!(!AllowedLanguageRow::default().is_for(Area::Cn, Kind::Text));
}

#[test]
fn find_row_gives_the_first_match() {
    let rows = table();
    assert_eq!(find_row(&rows, Area::Cn, Kind::Text), Some(0));
    assert_eq!(find_row(&rows, Area::Os, Kind::Text), Some(1));
    assert_eq!(find_row(&rows, Area::Cn, Kind::Voice), Some(2));
    assert_eq!(find_row(&rows, Area::Os, Kind::Voice), Some(3));
    assert_eq!(find_row(&rows[..3], Area::Os, Kind::Voice), None);
    assert_eq!(find_row(&[], Area::Os, Kind::Voice), None);
}

#[test]
fn update_language_sets_default_and_list() {
    let mut r = row("os", Some(1), &["en", "jp"], "en");
    r.update_language(b"kr");
    assert_eq!(r, row("os", Some(1), &["kr"], "kr"));
    let mut bare = AllowedLanguageRow::default();
    bare.update_language(b"jp");
    assert_eq!(
        bare,
        AllowedLanguageRow {
            area: None,
            row_type: None,
            language_list: Some(vec![s("jp")]),
            default_language: Some(s("jp")),
        }
    );
}

#[test]
fn set_languages_rewrites_four_rows() {
    let mut rows = table();
    assert_eq!(set_languages(&mut rows, b"jp", b"kr"), Ok(()));
    assert_eq!(
        rows,
        vec![
            row("cn", None, &["jp"], "jp"),
            row("os", None, &["jp"], "jp"),
            row("cn", Some(1), &["kr"], "kr"),
            row("os", Some(1), &["kr"], "kr"),
            row("os", Some(2), &["en"], "en"),
            AllowedLanguageRow::default(),
            row("os", None, &["kr"], "kr"),
        ]
    );
}

#[test]
fn set_languages_says_which_row_is_missing() {
    let cases = [
        (1usize, Area::Os, Kind::Text),
        (2, Area::Cn, Kind::Voice),
        (3, Area::Os, Kind::Voice),
        (0, Area::Cn, Kind::Text),
    ];
    for (drop, area, kind) in cases {
        let mut rows = table();
        rows.remove(6);
        rows.remove(drop);
        let before = rows.clone();
        assert_eq!(set_languages(&mut rows, b"jp", b"kr"), Err(LookupError::RowNotFound { area, kind }));
        assert_eq!(rows, before);
    }
}

#[test]
fn set_languages_reports_the_first_missing_row_in_order() {
    let mut rows: Vec<AllowedLanguageRow> = Vec::new();
    assert_eq!(
        set_languages(&mut rows, b"en", b"en"),
        Err(LookupError::RowNotFound { area: Area::Os, kind: Kind::Text })
    );
    let mut rows = vec![row("os", None, &[], "")];
    assert_eq!(
        set_languages(&mut rows, b"en", b"en"),
        Err(LookupError::RowNotFound { area: Area::Cn, kind: Kind::Voice })
    );
    let mut rows = vec![row("os", None, &[], ""), row("cn", Some(1), &[], "")];
    assert_eq!(
        set_languages(&mut rows, b"en", b"en"),
        Err(LookupError::RowNotFound { area: Area::Os, kind: Kind::Voice })
    );
}

#[test]
fn lookup_errors_in_words() {
    assert_eq!(LookupError::HashNotFound.message(), "the index does not list the table");
    assert_eq!(
        LookupError::RowNotFound { area: Area::Cn, kind: Kind::Voice }.message(),
        "the table lacks a row"
    );
}
