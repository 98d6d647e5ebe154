//! A table that was cut short is never read as a shorter table: reading any
//! proper prefix of a written table fails.

use crate::allowed_language::{
    has_bit, lemma_mask_of, lemma_opt_byte_round_trip,
    lemma_opt_list_round_trip, lemma_opt_string_round_trip, lemma_row_round_trip,
    lemma_string_round_trip, list_bytes, list_parse, mask_of, opt_byte_bytes, opt_byte_parse,
    opt_list_bytes, opt_list_parse, opt_string_bytes, opt_string_parse, row_bytes, row_fits,
    row_parse, rows_bytes, rows_fit, rows_parse, string_bytes, string_parse, strings_bytes,
    strings_fit, strings_parse, table_bytes, table_parse, RowView,
};
use crate::error::FormatError;
use crate::varint::{lemma_varint_round_trip, varint_bytes, varint_parse};
use vstd::prelude::*;

verus! {

/// The front of two stretches of bytes is the front of the first, or the
/// first and the front of the second.
proof fn lemma_take_concat(x: Seq<u8>, y: Seq<u8>, k: int)
    requires
        0 <= k <= x.len() + y.len(),
    ensures
        k <= x.len() ==> (x + y).take(k) == x.take(k),
        k >= x.len() ==> (x + y).take(k) == x + y.take(k - x.len()),
{
    if k <= x.len() {
        assert((x + y).take(k) =~= x.take(k));
    }
    if k >= x.len() {
        assert((x + y).take(k) =~= x + y.take(k - x.len()));
    }
}

/// A varint that was cut short is not read.
pub proof fn lemma_varint_cut(value: i8, k: int)
    requires
        0 <= k < varint_bytes(value).len(),
    ensures
        varint_parse(varint_bytes(value).take(k)) is None,
{
}

/// A string that was cut short is not read.
pub proof fn lemma_string_cut(s: Seq<u8>, k: int)
    requires
        s.len() <= 255,
        0 <= k < string_bytes(s).len(),
    ensures
        string_parse(string_bytes(s).take(k)) is None,
{
    let cut = string_bytes(s).take(k);
    if k >= 1 {
        assert(cut[0] == s.len() as u8);
    }
}

/// A run of strings that was cut short is not read.
pub proof fn lemma_strings_cut(list: Seq<Seq<u8>>, k: int)
    requires
        strings_fit(list),
        0 <= k < strings_bytes(list).len(),
    ensures
        strings_parse(strings_bytes(list).take(k), list.len()) is None,
    decreases list.len(),
{
    if list.len() == 0 {
        assert(strings_bytes(list).len() == 0);
    } else {
        let first = list.first();
        let others = list.drop_first();
        let head = string_bytes(first);
        assert(first == list[0]);
        assert(strings_fit(others)) by {
            assert forall|i: int| 0 <= i < others.len() implies (#[trigger] others[i]).len()
                <= 255 by {
                assert(others[i] == list[i + 1]);
            }
        }
        lemma_take_concat(head, strings_bytes(others), k);
        if k < head.len() {
            lemma_string_cut(first, k);
        } else {
            let after = strings_bytes(others).take(k - head.len());
            lemma_string_round_trip(first, after);
            lemma_strings_cut(others, k - head.len());
        }
    }
}

/// A list that was cut short is not read.
pub proof fn lemma_list_cut(list: Seq<Seq<u8>>, k: int)
    requires
        list.len() <= 127,
        strings_fit(list),
        0 <= k < list_bytes(list).len(),
    ensures
        list_parse(list_bytes(list).take(k)) is Err,
{
    let count = varint_bytes(list.len() as i8);
    lemma_take_concat(count, strings_bytes(list), k);
    if k < count.len() {
        lemma_varint_cut(list.len() as i8, k);
    } else {
        let after = strings_bytes(list).take(k - count.len());
        lemma_varint_round_trip(list.len() as i8, after);
        assert((count + after).skip(count.len() as int) =~= after);
        lemma_strings_cut(list, k - count.len());
    }
}

/// An optional string that was cut short is not read.
proof fn lemma_opt_string_cut(s: Option<Seq<u8>>, k: int)
    requires
        s matches Some(v) ==> v.len() <= 255,
        0 <= k < opt_string_bytes(s).len(),
    ensures
        opt_string_parse(s is Some, opt_string_bytes(s).take(k)) is Err,
{
    reveal(opt_string_parse);
    lemma_string_cut(s->0, k);
}

/// An optional byte that was cut short is not read.
proof fn lemma_opt_byte_cut(b: Option<u8>, k: int)
    requires
        0 <= k < opt_byte_bytes(b).len(),
    ensures
        opt_byte_parse(b is Some, opt_byte_bytes(b).take(k)) is Err,
{
    reveal(opt_byte_parse);
}

/// An optional list that was cut short is not read.
proof fn lemma_opt_list_cut(list: Option<Seq<Seq<u8>>>, k: int)
    requires
        list matches Some(l) ==> l.len() <= 127 && strings_fit(l),
        0 <= k < opt_list_bytes(list).len(),
    ensures
        opt_list_parse(list is Some, opt_list_bytes(list).take(k)) is Err,
{
    reveal(opt_list_parse);
    lemma_list_cut(list->0, k);
}

/// Where the bytes of a row were cut, by the field that the cut falls in.
proof fn lemma_cut_shape(
    mask: Seq<u8>,
    area: Seq<u8>,
    kind: Seq<u8>,
    list: Seq<u8>,
    default: Seq<u8>,
    k: int,
)
    requires
        mask.len() == 1,
        1 <= k < 1 + area.len() + kind.len() + list.len() + default.len(),
    ensures
        ({
            let cut = (mask + (area + kind + list + default)).take(k);
            let j = k - 1;
            let a = area.len() as int;
            let b = kind.len() as int;
            let c = list.len() as int;
            &&& j < a ==> cut == mask + area.take(j)
            &&& a <= j < a + b ==> cut == mask + (area + kind.take(j - a))
            &&& a + b <= j < a + b + c ==> cut == mask + (area + (kind + list.take(j - a - b)))
            &&& a + b + c <= j ==> cut == mask + (area + (kind + (list + default.take(
                j - a - b - c,
            ))))
        }),
{
    let cut = (mask + (area + kind + list + default)).take(k);
    let j = k - 1;
    let a = area.len() as int;
    let b = kind.len() as int;
    let c = list.len() as int;
    if j < a {
        assert(cut =~= mask + area.take(j));
    } else if j < a + b {
        assert(cut =~= mask + (area + kind.take(j - a)));
    } else if j < a + b + c {
        assert(cut =~= mask + (area + (kind + list.take(j - a - b))));
    } else {
        assert(cut =~= mask + (area + (kind + (list + default.take(j - a - b - c)))));
    }
}

/// A row whose area cannot be read is not read.
proof fn lemma_row_cut_in_area(mask: u8, area_cut: Seq<u8>)
    requires
        opt_string_parse(has_bit(mask, 1), area_cut) is Err,
    ensures
        row_parse(seq![mask] + area_cut) is Err,
{
    let all = seq![mask] + area_cut;
    assert(all[0] == mask);
    assert(all.skip(1) =~= area_cut);
}

/// A row whose row type cannot be read is not read.
proof fn lemma_row_cut_in_kind(mask: u8, area: Option<Seq<u8>>, a: Seq<u8>, kind_cut: Seq<u8>)
    requires
        opt_string_parse(has_bit(mask, 1), a + kind_cut) == Ok::<
            (Option<Seq<u8>>, nat),
            FormatError,
        >((area, a.len())),
        opt_byte_parse(has_bit(mask, 2), kind_cut) is Err,
    ensures
        row_parse(seq![mask] + (a + kind_cut)) is Err,
{
    let all = seq![mask] + (a + kind_cut);
    assert(all[0] == mask);
    assert(all.skip(1) =~= a + kind_cut);
    assert(all.skip(1 + a.len() as int) =~= kind_cut);
}

/// A row whose language list cannot be read is not read.
proof fn lemma_row_cut_in_list(
    mask: u8,
    area: Option<Seq<u8>>,
    a: Seq<u8>,
    row_type: Option<u8>,
    b: Seq<u8>,
    list_cut: Seq<u8>,
)
    requires
        opt_string_parse(has_bit(mask, 1), a + (b + list_cut)) == Ok::<
            (Option<Seq<u8>>, nat),
            FormatError,
        >((area, a.len())),
        opt_byte_parse(has_bit(mask, 2), b + list_cut) == Ok::<(Option<u8>, nat), FormatError>(
            (row_type, b.len()),
        ),
        opt_list_parse(has_bit(mask, 4), list_cut) is Err,
    ensures
        row_parse(seq![mask] + (a + (b + list_cut))) is Err,
{
    let all = seq![mask] + (a + (b + list_cut));
    assert(all[0] == mask);
    assert(all.skip(1) =~= a + (b + list_cut));
    assert(all.skip(1 + a.len() as int) =~= b + list_cut);
    assert(all.skip(1 + a.len() + b.len() as int) =~= list_cut);
}

/// A row whose default language cannot be read is not read.
proof fn lemma_row_cut_in_default(
    mask: u8,
    area: Option<Seq<u8>>,
    a: Seq<u8>,
    row_type: Option<u8>,
    b: Seq<u8>,
    list: Option<Seq<Seq<u8>>>,
    c: Seq<u8>,
    default_cut: Seq<u8>,
)
    requires
        opt_string_parse(has_bit(mask, 1), a + (b + (c + default_cut))) == Ok::<
            (Option<Seq<u8>>, nat),
            FormatError,
        >((area, a.len())),
        opt_byte_parse(has_bit(mask, 2), b + (c + default_cut)) == Ok::<
            (Option<u8>, nat),
            FormatError,
        >((row_type, b.len())),
        opt_list_parse(has_bit(mask, 4), c + default_cut) == Ok::<
            (Option<Seq<Seq<u8>>>, nat),
            FormatError,
        >((list, c.len())),
        opt_string_parse(has_bit(mask, 8), default_cut) is Err,
    ensures
        row_parse(seq![mask] + (a + (b + (c + default_cut)))) is Err,
{
    let all = seq![mask] + (a + (b + (c + default_cut)));
    assert(all[0] == mask);
    assert(all.skip(1) =~= a + (b + (c + default_cut)));
    assert(all.skip(1 + a.len() as int) =~= b + (c + default_cut));
    assert(all.skip(1 + a.len() + b.len() as int) =~= c + default_cut);
    assert(all.skip(1 + a.len() + b.len() + c.len() as int) =~= default_cut);
}

/// A row that was cut short is not read.
pub proof fn lemma_row_cut(row: RowView, k: int)
    requires
        row_fits(row),
        0 <= k < row_bytes(row).len(),
    ensures
        row_parse(row_bytes(row).take(k)) is Err,
{
    let area = opt_string_bytes(row.area);
    let kind = opt_byte_bytes(row.row_type);
    let list = opt_list_bytes(row.language_list);
    let default = opt_string_bytes(row.default_language);
    let mask = mask_of(row);
    let a = area.len() as int;
    let b = kind.len() as int;
    let c = list.len() as int;
    let j = k - 1;
    if k == 0 {
        assert(row_bytes(row).take(0).len() == 0);
    } else {
        lemma_mask_of(row);
        lemma_cut_shape(seq![mask], area, kind, list, default, k);
        if j < a {
            lemma_opt_string_cut(row.area, j);
            lemma_row_cut_in_area(mask, area.take(j));
        } else if j < a + b {
            let kind_cut = kind.take(j - a);
            lemma_opt_string_round_trip(row.area, kind_cut);
            lemma_opt_byte_cut(row.row_type, j - a);
            lemma_row_cut_in_kind(mask, row.area, area, kind_cut);
        } else if j < a + b + c {
            let list_cut = list.take(j - a - b);
            lemma_opt_string_round_trip(row.area, kind + list_cut);
            lemma_opt_byte_round_trip(row.row_type, list_cut);
            lemma_opt_list_cut(row.language_list, j - a - b);
            lemma_row_cut_in_list(mask, row.area, area, row.row_type, kind, list_cut);
        } else {
            let default_cut = default.take(j - a - b - c);
            lemma_opt_string_round_trip(row.area, kind + (list + default_cut));
            lemma_opt_byte_round_trip(row.row_type, list + default_cut);
            lemma_opt_list_round_trip(row.language_list, default_cut);
            lemma_opt_string_cut(row.default_language, j - a - b - c);
            lemma_row_cut_in_default(
                mask,
                row.area,
                area,
                row.row_type,
                kind,
                row.language_list,
                list,
                default_cut,
            );
        }
    }
}

/// A run of rows that was cut short is not read.
pub proof fn lemma_rows_cut(rows: Seq<RowView>, k: int)
    requires
        forall|i: int| 0 <= i < rows.len() ==> row_fits(#[trigger] rows[i]),
        0 <= k < rows_bytes(rows).len(),
    ensures
        rows_parse(rows_bytes(rows).take(k), rows.len()) is Err,
    decreases rows.len(),
{
    if rows.len() == 0 {
        assert(rows_bytes(rows).len() == 0);
    } else {
        let first = rows.first();
        let others = rows.drop_first();
        let head = row_bytes(first);
        assert(row_fits(rows[0]));
        assert forall|i: int| 0 <= i < others.len() implies row_fits(#[trigger] others[i]) by {
            assert(others[i] == rows[i + 1]);
        }
        lemma_take_concat(head, rows_bytes(others), k);
        if k < head.len() {
            lemma_row_cut(first, k);
        } else {
            let after = rows_bytes(others).take(k - head.len());
            lemma_row_round_trip(first, after);
            lemma_rows_cut(others, k - head.len());
        }
    }
}

/// Reading a table that was written and then cut short fails, wherever it
/// was cut: for every run of rows whose lengths and counts can be written,
/// no proper prefix of the table's bytes is read as a table.
pub proof fn lemma_truncated_table_fails(rows: Seq<RowView>, k: int)
    requires
        rows_fit(rows),
        0 <= k < table_bytes(rows).len(),
    ensures
        table_parse(table_bytes(rows).take(k)) is Err,
{
    let count = varint_bytes(rows.len() as i8);
    let cut = table_bytes(rows).take(k);
    if k == 0 {
        assert(cut.len() == 0);
    } else {
        assert(table_bytes(rows) =~= seq![0u8] + (count + rows_bytes(rows)));
        lemma_take_concat(seq![0u8], count + rows_bytes(rows), k);
        let body = (count + rows_bytes(rows)).take(k - 1);
        assert(cut.skip(1) =~= body);
        lemma_take_concat(count, rows_bytes(rows), k - 1);
        if k - 1 < count.len() {
            lemma_varint_cut(rows.len() as i8, k - 1);
        } else {
            let after = rows_bytes(rows).take(k - 1 - count.len());
            lemma_varint_round_trip(rows.len() as i8, after);
            assert(cut.skip(1 + count.len() as int) =~= after);
            lemma_rows_cut(rows, k - 1 - count.len());
        }
    }
}

} // verus!
