//! Text of DuckDB result values, matching `CAST(value AS VARCHAR)`, and the
//! column types reported to sqllogictest.

use vstd::prelude::*;

use crate::decimal::{decimal, decimal_string, push_signed, signed_decimal};
use crate::extensions::{escape_sql_string_literal, escape_quotes, is_ident_char, quoted};
use crate::temporal::{
    date32_text, format_date32, format_interval, format_time64, format_timestamp,
    interval_text, time_text, timestamp_text, unit_nanos, TimeUnit,
};
use crate::text::{chars_of, push_char, push_str};

verus! {

/// A value inside a nested DuckDB value (a list, array, struct, map or union).
pub enum NestedValue {
    Null,
    Boolean(bool),
    TinyInt(i8),
    SmallInt(i16),
    Int(i32),
    BigInt(i64),
    HugeInt(i128),
    UTinyInt(u8),
    USmallInt(u16),
    UInt(u32),
    UBigInt(u64),
    UHugeInt(u128),
    /// A value whose text its own type gives (floating point, decimal).
    Rendered(String),
    Timestamp(TimeUnit, i64),
    Date32(i32),
    Time64(TimeUnit, i64),
    Interval { months: i32, days: i32, nanos: i64 },
    Text(String),
    Blob(Vec<u8>),
    Enum(String),
    List(Vec<NestedValue>),
    Array(Vec<NestedValue>),
    Struct(Vec<(String, NestedValue)>),
    MapValue(Vec<(NestedValue, NestedValue)>),
    Union(Box<NestedValue>),
}

/// A value of a result cell.
pub enum CellValue {
    Null,
    Text(String),
    Boolean(bool),
    TinyInt(i8),
    SmallInt(i16),
    Int(i32),
    BigInt(i64),
    HugeInt(i128),
    UTinyInt(u8),
    USmallInt(u16),
    UInt(u32),
    UBigInt(u64),
    /// A value whose text its own type gives (floating point, decimal, and
    /// kinds without a text form of their own).
    Rendered(String),
    Date32(i32),
    Time64(TimeUnit, i64),
    Timestamp(TimeUnit, i64),
    Interval { months: i32, days: i32, nanos: i64 },
    Blob(Vec<u8>),
    /// A list, array, struct or map.
    Nested(NestedValue),
}

// ---------------------------------------------------------------------------
// Blobs and strings

/// A hexadecimal digit, lower case.
pub open spec fn hex_digit(n: int) -> char {
    if n < 10 {
        (48 + n) as char
    } else {
        (87 + n) as char
    }
}

/// Two lower-case hex digits per byte.
pub open spec fn hex_text(bytes: Seq<u8>) -> Seq<char>
    decreases bytes.len(),
{
    if bytes.len() == 0 {
        Seq::empty()
    } else {
        hex_text(bytes.drop_last()) + seq![
            hex_digit((bytes.last() / 16) as int),
            hex_digit((bytes.last() % 16) as int),
        ]
    }
}

fn hex_char(n: u8) -> (c: char)
    requires
        n < 16,
    ensures
        c == hex_digit(n as int),
{
    if n < 10 {
        (n + 48) as char
    } else {
        (n + 87) as char
    }
}

/// `0x` followed by two lower-case hex digits per byte.
pub fn format_blob_hex(bytes: &[u8]) -> (r: String)
    ensures
        r@ == "0x"@ + hex_text(bytes@),
{
    let mut out = "0x".to_owned();
    let n = bytes.len();
    for i in 0..n
        invariant
            n == bytes@.len(),
            out@ == "0x"@ + hex_text(bytes@.take(i as int)),
    {
        let b = bytes[i];
        push_char(&mut out, hex_char(b / 16));
        push_char(&mut out, hex_char(b % 16));
        proof {
            let t = bytes@.take(i + 1);
            assert(t.drop_last() =~= bytes@.take(i as int));
            assert(t.last() == b);
            assert(out@ =~= "0x"@ + hex_text(t));
        }
    }
    assert(bytes@.take(n as int) =~= bytes@);
    out
}

/// Whether a string may appear bare inside a nested value's text.
pub open spec fn is_bare_text(s: Seq<char>) -> bool {
    forall|i: int| 0 <= i < s.len() ==> is_ident_char(#[trigger] s[i])
}

/// A string inside a nested value: `''` when empty, bare when it holds only
/// ASCII letters, digits and `_`, quoted otherwise.
pub open spec fn nested_string_text(s: Seq<char>) -> Seq<char> {
    if s.len() == 0 {
        seq!['\'', '\'']
    } else if is_bare_text(s) {
        s
    } else {
        quoted(s)
    }
}

/// `'s'` with the quotes of `s` doubled.
pub fn quote_duckdb_string(s: &str) -> (r: String)
    ensures
        r@ == quoted(s@),
{
    let mut out = "'".to_owned();
    let e = escape_sql_string_literal(s);
    push_str(&mut out, e.as_str());
    push_str(&mut out, "'");
    out
}

/// Text of a string inside a nested value.
pub fn format_duckdb_nested_string(s: &str) -> (r: String)
    ensures
        r@ == nested_string_text(s@),
{
    let v = chars_of(s);
    if v.len() == 0 {
        let mut out = String::new();
        push_char(&mut out, '\'');
        push_char(&mut out, '\'');
        assert(out@ =~= seq!['\'', '\'']);
        return out;
    }
    let n = v.len();
    let mut bare = true;
    for i in 0..n
        invariant
            n == v.len(),
            bare == forall|k: int| 0 <= k < i ==> is_ident_char(#[trigger] v@[k]),
    {
        let c = v[i];
        if !(('a' <= c && c <= 'z') || ('A' <= c && c <= 'Z') || c == '_' || ('0' <= c && c
            <= '9')) {
            bare = false;
        }
    }
    if bare {
        s.to_owned()
    } else {
        quote_duckdb_string(s)
    }
}

// ---------------------------------------------------------------------------
// Nested values

/// Text of a nested value.
pub open spec fn nested_text(v: NestedValue) -> Seq<char>
    decreases v, 0nat,
{
    match v {
        NestedValue::Null => "NULL"@,
        NestedValue::Boolean(b) => if b {
            "true"@
        } else {
            "false"@
        },
        NestedValue::TinyInt(i) => signed_decimal(i as int),
        NestedValue::SmallInt(i) => signed_decimal(i as int),
        NestedValue::Int(i) => signed_decimal(i as int),
        NestedValue::BigInt(i) => signed_decimal(i as int),
        NestedValue::HugeInt(i) => signed_decimal(i as int),
        NestedValue::UTinyInt(i) => signed_decimal(i as int),
        NestedValue::USmallInt(i) => signed_decimal(i as int),
        NestedValue::UInt(i) => signed_decimal(i as int),
        NestedValue::UBigInt(i) => signed_decimal(i as int),
        NestedValue::UHugeInt(i) => decimal(i as nat),
        NestedValue::Rendered(s) => s@,
        NestedValue::Timestamp(unit, t) => timestamp_text(t as int, unit),
        NestedValue::Date32(d) => date32_text(d as int),
        NestedValue::Time64(unit, t) => time_text(t * unit_nanos(unit), unit),
        NestedValue::Interval { months, days, nanos } => interval_text(
            months as int,
            days as int,
            nanos as int,
        ),
        NestedValue::Text(s) => nested_string_text(s@),
        NestedValue::Blob(b) => "0x"@ + hex_text(b@),
        NestedValue::Enum(s) => nested_string_text(s@),
        NestedValue::List(items) => seq!['['] + items_text(items@) + seq![']'],
        NestedValue::Array(items) => seq!['['] + items_text(items@) + seq![']'],
        NestedValue::Struct(fields) => seq!['{'] + fields_text(fields@) + seq!['}'],
        NestedValue::MapValue(entries) => seq!['{'] + entries_text(entries@) + seq!['}'],
        NestedValue::Union(inner) => nested_text(*inner),
    }
}

/// The texts of `items` separated by `, `.
pub open spec fn items_text(items: Seq<NestedValue>) -> Seq<char>
    decreases items, 1nat,
{
    if items.len() == 0 {
        Seq::empty()
    } else if items.len() == 1 {
        nested_text(items[0])
    } else {
        items_text(items.drop_last()) + seq![',', ' '] + nested_text(items.last())
    }
}

/// `'name': value` for each field, separated by `, `.
pub open spec fn fields_text(fields: Seq<(String, NestedValue)>) -> Seq<char>
    decreases fields, 1nat,
{
    if fields.len() == 0 {
        Seq::empty()
    } else {
        let f = fields.last();
        let one = quoted(f.0@) + seq![':', ' '] + nested_text(f.1);
        if fields.len() == 1 {
            one
        } else {
            fields_text(fields.drop_last()) + seq![',', ' '] + one
        }
    }
}

/// `key=value` for each entry, separated by `, `.
pub open spec fn entries_text(entries: Seq<(NestedValue, NestedValue)>) -> Seq<char>
    decreases entries, 1nat,
{
    if entries.len() == 0 {
        Seq::empty()
    } else {
        let e = entries.last();
        let one = nested_text(e.0) + seq!['='] + nested_text(e.1);
        if entries.len() == 1 {
            one
        } else {
            entries_text(entries.drop_last()) + seq![',', ' '] + one
        }
    }
}


/// Text of a nested value, as `CAST(value AS VARCHAR)` gives it.
pub fn format_advanced_value(value: &NestedValue) -> (r: String)
    ensures
        r@ == nested_text(*value),
    decreases value, 0nat,
{
    match value {
        NestedValue::Null => "NULL".to_owned(),
        NestedValue::Boolean(b) => if *b {
            "true".to_owned()
        } else {
            "false".to_owned()
        },
        NestedValue::TinyInt(i) => signed_string(*i as i128),
        NestedValue::SmallInt(i) => signed_string(*i as i128),
        NestedValue::Int(i) => signed_string(*i as i128),
        NestedValue::BigInt(i) => signed_string(*i as i128),
        NestedValue::HugeInt(i) => signed_string(*i),
        NestedValue::UTinyInt(i) => signed_string(*i as i128),
        NestedValue::USmallInt(i) => signed_string(*i as i128),
        NestedValue::UInt(i) => signed_string(*i as i128),
        NestedValue::UBigInt(i) => signed_string(*i as i128),
        NestedValue::UHugeInt(i) => decimal_string(*i),
        NestedValue::Rendered(s) => s.clone(),
        NestedValue::Timestamp(unit, t) => format_timestamp(*unit, *t),
        NestedValue::Date32(d) => format_date32(*d),
        NestedValue::Time64(unit, t) => format_time64(*unit, *t),
        NestedValue::Interval { months, days, nanos } => format_interval(*months, *days, *nanos),
        NestedValue::Text(s) => format_duckdb_nested_string(s.as_str()),
        NestedValue::Blob(b) => format_blob_hex(b.as_slice()),
        NestedValue::Enum(s) => format_duckdb_nested_string(s.as_str()),
        NestedValue::List(items) => {
            let mut out = String::new();
            push_char(&mut out, '[');
            let inner = format_items(items);
            push_str(&mut out, inner.as_str());
            push_char(&mut out, ']');
            assert(out@ =~= seq!['['] + items_text(items@) + seq![']']);
            out
        },
        NestedValue::Array(items) => {
            let mut out = String::new();
            push_char(&mut out, '[');
            let inner = format_items(items);
            push_str(&mut out, inner.as_str());
            push_char(&mut out, ']');
            assert(out@ =~= seq!['['] + items_text(items@) + seq![']']);
            out
        },
        NestedValue::Struct(fields) => {
            let mut out = String::new();
            push_char(&mut out, '{');
            let inner = format_fields(fields);
            push_str(&mut out, inner.as_str());
            push_char(&mut out, '}');
            assert(out@ =~= seq!['{'] + fields_text(fields@) + seq!['}']);
            out
        },
        NestedValue::MapValue(entries) => {
            let mut out = String::new();
            push_char(&mut out, '{');
            let inner = format_entries(entries);
            push_str(&mut out, inner.as_str());
            push_char(&mut out, '}');
            assert(out@ =~= seq!['{'] + entries_text(entries@) + seq!['}']);
            out
        },
        NestedValue::Union(inner) => format_advanced_value(inner),
    }
}

fn signed_string(i: i128) -> (r: String)
    ensures
        r@ == signed_decimal(i as int),
{
    let mut out = String::new();
    push_signed(&mut out, i);
    assert(out@ =~= signed_decimal(i as int));
    out
}

fn format_items(items: &Vec<NestedValue>) -> (r: String)
    ensures
        r@ == items_text(items@),
    decreases items@, 1nat,
{
    let mut out = String::new();
    let n = items.len();
    for i in 0..n
        invariant
            n == items@.len(),
            out@ == items_text(items@.take(i as int)),
    {
        let ghost before = out@;
        if i > 0 {
            push_char(&mut out, ',');
            push_char(&mut out, ' ');
        }
        assert(decreases_to!(items@ => items@[i as int]));
        let t = format_advanced_value(&items[i]);
        push_str(&mut out, t.as_str());
        proof {
            let tk = items@.take(i + 1);
            assert(tk.drop_last() =~= items@.take(i as int));
            assert(tk.last() == items@[i as int]);
            if i == 0 {
                assert(out@ =~= items_text(tk));
            } else {
                assert(out@ =~= before + seq![',', ' '] + nested_text(tk.last()));
            }
        }
    }
    assert(items@.take(n as int) =~= items@);
    out
}

fn format_fields(fields: &Vec<(String, NestedValue)>) -> (r: String)
    ensures
        r@ == fields_text(fields@),
    decreases fields@, 1nat,
{
    let mut out = String::new();
    let n = fields.len();
    for i in 0..n
        invariant
            n == fields@.len(),
            out@ == fields_text(fields@.take(i as int)),
    {
        let ghost before = out@;
        if i > 0 {
            push_char(&mut out, ',');
            push_char(&mut out, ' ');
        }
        let (name, val) = &fields[i];
        let q = quote_duckdb_string(name.as_str());
        push_str(&mut out, q.as_str());
        push_char(&mut out, ':');
        push_char(&mut out, ' ');
        assert(decreases_to!(fields@ => fields@[i as int].1));
        let t = format_advanced_value(val);
        push_str(&mut out, t.as_str());
        proof {
            let tk = fields@.take(i + 1);
            assert(tk.drop_last() =~= fields@.take(i as int));
            assert(tk.last() == fields@[i as int]);
            let one = quoted(tk.last().0@) + seq![':', ' '] + nested_text(tk.last().1);
            if i == 0 {
                assert(out@ =~= one);
            } else {
                assert(out@ =~= before + seq![',', ' '] + one);
            }
        }
    }
    assert(fields@.take(n as int) =~= fields@);
    out
}

fn format_entries(entries: &Vec<(NestedValue, NestedValue)>) -> (r: String)
    ensures
        r@ == entries_text(entries@),
    decreases entries@, 1nat,
{
    let mut out = String::new();
    let n = entries.len();
    for i in 0..n
        invariant
            n == entries@.len(),
            out@ == entries_text(entries@.take(i as int)),
    {
        let ghost before = out@;
        if i > 0 {
            push_char(&mut out, ',');
            push_char(&mut out, ' ');
        }
        let (k, v) = &entries[i];
        assert(decreases_to!(entries@ => entries@[i as int].0));
        let kt = format_advanced_value(k);
        push_str(&mut out, kt.as_str());
        push_char(&mut out, '=');
        assert(decreases_to!(entries@ => entries@[i as int].1));
        let vt = format_advanced_value(v);
        push_str(&mut out, vt.as_str());
        proof {
            let tk = entries@.take(i + 1);
            assert(tk.drop_last() =~= entries@.take(i as int));
            assert(tk.last() == entries@[i as int]);
            let one = nested_text(tk.last().0) + seq!['='] + nested_text(tk.last().1);
            if i == 0 {
                assert(out@ =~= one);
            } else {
                assert(out@ =~= before + seq![',', ' '] + one);
            }
        }
    }
    assert(entries@.take(n as int) =~= entries@);
    out
}


// ---------------------------------------------------------------------------
// Cells

/// Text of a result cell: as `CAST(value AS VARCHAR)` gives it, except that
/// `NULL` is `NULL` and an empty string is `(empty)`, as sqllogictest
/// expects.
pub open spec fn cell_text(v: CellValue) -> Seq<char> {
    match v {
        CellValue::Null => "NULL"@,
        CellValue::Text(s) => if s@.len() == 0 {
            "(empty)"@
        } else {
            s@
        },
        CellValue::Boolean(b) => if b {
            "true"@
        } else {
            "false"@
        },
        CellValue::TinyInt(i) => signed_decimal(i as int),
        CellValue::SmallInt(i) => signed_decimal(i as int),
        CellValue::Int(i) => signed_decimal(i as int),
        CellValue::BigInt(i) => signed_decimal(i as int),
        CellValue::HugeInt(i) => signed_decimal(i as int),
        CellValue::UTinyInt(i) => signed_decimal(i as int),
        CellValue::USmallInt(i) => signed_decimal(i as int),
        CellValue::UInt(i) => signed_decimal(i as int),
        CellValue::UBigInt(i) => signed_decimal(i as int),
        CellValue::Rendered(s) => s@,
        CellValue::Date32(d) => date32_text(d as int),
        CellValue::Time64(unit, t) => time_text(t * unit_nanos(unit), unit),
        CellValue::Timestamp(unit, t) => timestamp_text(t as int, unit),
        CellValue::Interval { months, days, nanos } => interval_text(
            months as int,
            days as int,
            nanos as int,
        ),
        CellValue::Blob(b) => "0x"@ + hex_text(b@),
        CellValue::Nested(n) => nested_text(n),
    }
}

/// Text of a result cell, as the test files expect it.
pub fn format_value(value: &CellValue) -> (r: String)
    ensures
        r@ == cell_text(*value),
{
    match value {
        CellValue::Null => "NULL".to_owned(),
        CellValue::Text(s) => {
            if chars_of(s.as_str()).len() == 0 {
                "(empty)".to_owned()
            } else {
                s.clone()
            }
        },
        CellValue::Boolean(b) => if *b {
            "true".to_owned()
        } else {
            "false".to_owned()
        },
        CellValue::TinyInt(i) => signed_string(*i as i128),
        CellValue::SmallInt(i) => signed_string(*i as i128),
        CellValue::Int(i) => signed_string(*i as i128),
        CellValue::BigInt(i) => signed_string(*i as i128),
        CellValue::HugeInt(i) => signed_string(*i),
        CellValue::UTinyInt(i) => signed_string(*i as i128),
        CellValue::USmallInt(i) => signed_string(*i as i128),
        CellValue::UInt(i) => signed_string(*i as i128),
        CellValue::UBigInt(i) => signed_string(*i as i128),
        CellValue::Rendered(s) => s.clone(),
        CellValue::Date32(d) => format_date32(*d),
        CellValue::Time64(unit, t) => format_time64(*unit, *t),
        CellValue::Timestamp(unit, t) => format_timestamp(*unit, *t),
        CellValue::Interval { months, days, nanos } => format_interval(*months, *days, *nanos),
        CellValue::Blob(b) => format_blob_hex(b.as_slice()),
        CellValue::Nested(n) => format_advanced_value(n),
    }
}

/// An ASCII letter, an ASCII digit or `_`.
pub open spec fn ascii_word_char(c: char) -> bool {
    ('a' <= c && c <= 'z') || ('A' <= c && c <= 'Z') || ('0' <= c && c <= '9') || c == '_'
}

/// Strings inside nested values: a non-empty string of ASCII letters, digits
/// and `_` (whatever its first character) is written bare; a string with any
/// other character is written between single quotes, and un-doubling the
/// quotes inside gives it back; the empty string is written `''`.
pub proof fn lemma_nested_strings(s: String)
    ensures
        (s@.len() > 0 && forall|i: int| 0 <= i < s@.len() ==> ascii_word_char(#[trigger] s@[i]))
            ==> nested_text(NestedValue::Text(s)) == s@,
        (exists|i: int| 0 <= i < s@.len() && !ascii_word_char(#[trigger] s@[i])) ==> ({
            let t = nested_text(NestedValue::Text(s));
            &&& t.len() >= 2
            &&& t[0] == '\''
            &&& t.last() == '\''
            &&& crate::extensions::unescape_quotes(t.subrange(1, t.len() - 1)) == s@
        }),
        s@.len() == 0 ==> nested_text(NestedValue::Text(s)) == seq!['\'', '\''],
{
    reveal_strlit("'");
    let v = s@;
    if exists|i: int| 0 <= i < v.len() && !ascii_word_char(#[trigger] v[i]) {
        let i = choose|i: int| 0 <= i < v.len() && !ascii_word_char(#[trigger] v[i]);
        assert(!is_ident_char(v[i]));
        assert(!is_bare_text(v));
        let t = nested_text(NestedValue::Text(s));
        assert(t == quoted(v));
        assert(t.subrange(1, t.len() - 1) =~= escape_quotes(v));
        crate::extensions::lemma_escape_roundtrip(v);
    }
}

/// A text cell at the top level is its characters as they are (no quotes, no
/// escaping); the empty text is `(empty)`.
pub proof fn lemma_text_cells(s: String)
    ensures
        s@.len() > 0 ==> cell_text(CellValue::Text(s)) == s@,
        s@.len() == 0 ==> cell_text(CellValue::Text(s)) == "(empty)"@,
{
}

} // verus!
