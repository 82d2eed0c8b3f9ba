//! The decisions of the DuckDB driver: which sqllogictest column type a
//! result column gets, how result rows become text, and which DuckDB error
//! messages are normalized.

use vstd::prelude::*;

use crate::temporal::TimeUnit;
use crate::text::chars_of;
use crate::values::{cell_text, format_value, CellValue};

verus! {

/// The column types of sqllogictest.
#[derive(Clone, Copy, Debug, PartialEq, Eq, Structural)]
pub enum ColumnType {
    Text,
    Integer,
    FloatingPoint,
    Any,
}

/// The logical type of a DuckDB value.
#[derive(Debug)]
pub enum DuckdbType {
    Null,
    Boolean,
    TinyInt,
    SmallInt,
    Int,
    BigInt,
    HugeInt,
    UTinyInt,
    USmallInt,
    UInt,
    UBigInt,
    Float,
    Double,
    Decimal,
    Timestamp,
    Text,
    Blob,
    Date32,
    Time64,
    Interval,
    List(Box<DuckdbType>),
    Enum,
    Struct(Vec<(String, DuckdbType)>),
    MapOf(Box<DuckdbType>, Box<DuckdbType>),
    Array(Box<DuckdbType>, u32),
    Union,
    /// Any other type.
    Other,
}

/// The Arrow data type of a result column.
#[derive(Debug)]
pub enum ArrowType {
    Boolean,
    Int8,
    Int16,
    Int32,
    Int64,
    UInt8,
    UInt16,
    UInt32,
    UInt64,
    Float16,
    Float32,
    Float64,
    Decimal128(u8, i8),
    Decimal256(u8, i8),
    Utf8,
    LargeUtf8,
    Date32,
    Time64(TimeUnit),
    Timestamp(TimeUnit, Option<String>),
    Interval,
    List,
    LargeList,
    FixedSizeList(i32),
    Struct,
    MapOf,
    /// Any other type.
    Other,
}

/// The column type that a DuckDB value type gives.
pub open spec fn duckdb_column_type(t: DuckdbType) -> ColumnType {
    match t {
        DuckdbType::TinyInt | DuckdbType::SmallInt | DuckdbType::Int | DuckdbType::BigInt
        | DuckdbType::HugeInt | DuckdbType::UTinyInt | DuckdbType::USmallInt | DuckdbType::UInt
        | DuckdbType::UBigInt => ColumnType::Integer,
        DuckdbType::Float | DuckdbType::Double | DuckdbType::Decimal => ColumnType::FloatingPoint,
        DuckdbType::Text | DuckdbType::Date32 | DuckdbType::Time64 | DuckdbType::Timestamp
        | DuckdbType::Interval | DuckdbType::List(_) | DuckdbType::Struct(_)
        | DuckdbType::MapOf(_, _) | DuckdbType::Array(_, _) => ColumnType::Text,
        _ => ColumnType::Any,
    }
}

/// The column type that an Arrow data type gives.
pub open spec fn arrow_column_type(t: ArrowType) -> ColumnType {
    match t {
        ArrowType::Int8 | ArrowType::Int16 | ArrowType::Int32 | ArrowType::Int64
        | ArrowType::UInt8 | ArrowType::UInt16 | ArrowType::UInt32 | ArrowType::UInt64 =>
            ColumnType::Integer,
        ArrowType::Float16 | ArrowType::Float32 | ArrowType::Float64 | ArrowType::Decimal128(_, _)
        | ArrowType::Decimal256(_, _) => ColumnType::FloatingPoint,
        ArrowType::Utf8 | ArrowType::LargeUtf8 => ColumnType::Text,
        ArrowType::Date32 | ArrowType::Time64(_) | ArrowType::Timestamp(_, _)
        | ArrowType::Interval | ArrowType::List | ArrowType::LargeList
        | ArrowType::FixedSizeList(_) | ArrowType::Struct | ArrowType::MapOf => ColumnType::Text,
        _ => ColumnType::Any,
    }
}

/// The column type of a DuckDB value type: integers are `Integer`, floating
/// point and decimals `FloatingPoint`, text, temporal and nested types
/// `Text`, anything else `Any`.
pub fn map_duckdb_type(value_type: &DuckdbType) -> (r: ColumnType)
    ensures
        r == duckdb_column_type(*value_type),
{
    match value_type {
        DuckdbType::TinyInt | DuckdbType::SmallInt | DuckdbType::Int | DuckdbType::BigInt
        | DuckdbType::HugeInt | DuckdbType::UTinyInt | DuckdbType::USmallInt | DuckdbType::UInt
        | DuckdbType::UBigInt => ColumnType::Integer,
        DuckdbType::Float | DuckdbType::Double | DuckdbType::Decimal => ColumnType::FloatingPoint,
        DuckdbType::Text => ColumnType::Text,
        DuckdbType::Date32 | DuckdbType::Time64 | DuckdbType::Timestamp | DuckdbType::Interval => {
            ColumnType::Text
        },
        DuckdbType::List(_) | DuckdbType::Struct(_) | DuckdbType::MapOf(_, _) | DuckdbType::Array(
            _,
            _,
        ) => ColumnType::Text,
        _ => ColumnType::Any,
    }
}

/// The column type of an Arrow data type, by the same rules as
/// [`map_duckdb_type`].
pub fn map_arrow_type(data_type: &ArrowType) -> (r: ColumnType)
    ensures
        r == arrow_column_type(*data_type),
{
    match data_type {
        ArrowType::Int8 | ArrowType::Int16 | ArrowType::Int32 | ArrowType::Int64
        | ArrowType::UInt8 | ArrowType::UInt16 | ArrowType::UInt32 | ArrowType::UInt64 => {
            ColumnType::Integer
        },
        ArrowType::Float16 | ArrowType::Float32 | ArrowType::Float64 | ArrowType::Decimal128(_, _)
        | ArrowType::Decimal256(_, _) => ColumnType::FloatingPoint,
        ArrowType::Utf8 | ArrowType::LargeUtf8 => ColumnType::Text,
        ArrowType::Date32 | ArrowType::Time64(_) | ArrowType::Timestamp(_, _)
        | ArrowType::Interval | ArrowType::List | ArrowType::LargeList
        | ArrowType::FixedSizeList(_) | ArrowType::Struct | ArrowType::MapOf => ColumnType::Text,
        _ => ColumnType::Any,
    }
}

/// The rows of a query result, as text, with the type of each column.
pub struct QueryRows {
    pub types: Vec<ColumnType>,
    pub rows: Vec<Vec<String>>,
}

/// The type of column `i`: the Arrow type's, or, when that says nothing
/// (`Any`) and there is a first row, the type of that row's value.
pub open spec fn result_column_type(
    arrow_types: Seq<ArrowType>,
    first_row_types: Seq<DuckdbType>,
    has_rows: bool,
    i: int,
) -> ColumnType {
    let t = arrow_column_type(arrow_types[i]);
    if t == ColumnType::Any && has_rows && i < first_row_types.len() {
        duckdb_column_type(first_row_types[i])
    } else {
        t
    }
}

/// Collects the rows of a query result as text. Column types come from the
/// Arrow schema; a column typed `Any` there takes the type of its value in
/// the first row (`first_row_types`).
pub fn collect_rows(
    arrow_types: &Vec<ArrowType>,
    first_row_types: &Vec<DuckdbType>,
    rows: &Vec<Vec<CellValue>>,
) -> (r: QueryRows)
    requires
        forall|k: int| 0 <= k < rows@.len() ==> #[trigger] rows@[k].len() == arrow_types@.len(),
    ensures
        r.types@.len() == arrow_types@.len(),
        forall|i: int|
            0 <= i < arrow_types@.len() ==> #[trigger] r.types@[i] == result_column_type(
                arrow_types@,
                first_row_types@,
                rows@.len() > 0,
                i,
            ),
        r.rows@.len() == rows@.len(),
        forall|k: int|
            0 <= k < rows@.len() ==> (#[trigger] r.rows@[k])@.len() == rows@[k]@.len(),
        forall|k: int, c: int|
            0 <= k < rows@.len() && 0 <= c < rows@[k]@.len() ==> (#[trigger] r.rows@[k]@[c])@
                == cell_text(rows@[k]@[c]),
{
    let col_count = arrow_types.len();
    let mut types: Vec<ColumnType> = Vec::new();
    for i in 0..col_count
        invariant
            col_count == arrow_types@.len(),
            types@.len() == i,
            forall|j: int|
                0 <= j < i ==> #[trigger] types@[j] == arrow_column_type(arrow_types@[j]),
    {
        types.push(map_arrow_type(&arrow_types[i]));
    }
    if rows.len() > 0 {
        let ghost before = types@;
        for i in 0..col_count
            invariant
                col_count == arrow_types@.len(),
                col_count == types@.len(),
                rows@.len() > 0,
                forall|j: int|
                    0 <= j < col_count ==> #[trigger] before[j] == arrow_column_type(
                        arrow_types@[j],
                    ),
                forall|j: int|
                    0 <= j < col_count ==> #[trigger] types@[j] == if j < i {
                        result_column_type(arrow_types@, first_row_types@, true, j)
                    } else {
                        before[j]
                    },
        {
            if types[i] == ColumnType::Any && i < first_row_types.len() {
                let t = map_duckdb_type(&first_row_types[i]);
                types.set(i, t);
            }
        }
    }
    let mut out_rows: Vec<Vec<String>> = Vec::new();
    let n = rows.len();
    for k in 0..n
        invariant
            n == rows@.len(),
            out_rows@.len() == k,
            forall|q: int| 0 <= q < k ==> (#[trigger] out_rows@[q])@.len() == rows@[q]@.len(),
            forall|q: int, c: int|
                0 <= q < k && 0 <= c < rows@[q]@.len() ==> (#[trigger] out_rows@[q]@[c])@
                    == cell_text(rows@[q]@[c]),
    {
        let row = &rows[k];
        let mut out_row: Vec<String> = Vec::new();
        let m = row.len();
        for c in 0..m
            invariant
                m == row@.len(),
                out_row@.len() == c,
                forall|d: int| 0 <= d < c ==> (#[trigger] out_row@[d])@ == cell_text(row@[d]),
        {
            out_row.push(format_value(&row[c]));
        }
        out_rows.push(out_row);
    }
    QueryRows { types, rows: out_rows }
}

/// Whether a query returned as many columns as the test expects.
pub fn validate_query_column_count<T>(actual: &Vec<T>, expected: &Vec<T>) -> (r: bool)
    ensures
        r == (actual@.len() == expected@.len()),
{
    actual.len() == expected.len()
}

/// Whether `t` occurs in `s` as a contiguous run.
pub open spec fn has_substring(s: Seq<char>, t: Seq<char>) -> bool {
    exists|i: int| 0 <= i && i + t.len() <= s.len() && #[trigger] s.subrange(i, i + t.len()) == t
}

/// Whether `t` occurs in `s`.
pub fn contains_str(s: &str, t: &str) -> (r: bool)
    ensures
        r == has_substring(s@, t@),
{
    let sv = chars_of(s);
    let tv = chars_of(t);
    if tv.len() > sv.len() {
        proof {
            assert forall|i: int| 0 <= i && i + tv@.len() <= sv@.len() implies #[trigger] sv@.subrange(
                i,
                i + tv@.len(),
            ) != tv@ by {}
        }
        return false;
    }
    let last = sv.len() - tv.len();
    let mut i: usize = 0;
    loop
        invariant
            i <= last,
            last + tv@.len() == sv@.len(),
            sv@.len() == sv.len(),
            sv@ == s@,
            tv@ == t@,
            forall|p: int| 0 <= p < i ==> #[trigger] sv@.subrange(p, p + tv@.len()) != tv@,
        decreases last - i,
    {
        let mut j: usize = 0;
        let mut same = true;
        while j < tv.len()
            invariant
                i <= last,
                last + tv@.len() == sv@.len(),
                sv@.len() == sv.len(),
                j <= tv@.len(),
                same == forall|q: int| 0 <= q < j ==> sv@[i + q] == tv@[q],
            decreases tv@.len() - j,
        {
            if sv[i + j] != tv[j] {
                same = false;
            }
            j = j + 1;
        }
        if same {
            assert(sv@.subrange(i as int, i + tv@.len()) =~= tv@);
            return true;
        }
        proof {
            let q = choose|q: int| 0 <= q < tv@.len() && sv@[i + q] != tv@[q];
            assert(sv@.subrange(i as int, i + tv@.len())[q] != tv@[q]);
        }
        if i == last {
            return false;
        }
        i = i + 1;
    }
}

/// The stable form of a DuckDB error message whose details depend on the
/// host (paths, OS error texts), if it is one of those.
pub open spec fn normalized_message(msg: Seq<char>) -> Option<Seq<char>> {
    if has_substring(msg, "Failed to open file"@) {
        Some("Failed to open file"@)
    } else {
        None
    }
}

/// Normalizes DuckDB error messages whose details vary between hosts: any
/// message about failing to open a file becomes `Failed to open file`.
pub fn normalize_duckdb_error_message(msg: &str) -> (r: Option<String>)
    ensures
        match r {
            Some(s) => normalized_message(msg@) == Some(s@),
            None => normalized_message(msg@) is None,
        },
{
    if contains_str(msg, "Failed to open file") {
        return Some("Failed to open file".to_owned());
    }
    None
}

/// Column types: a column whose Arrow type gives a definite type keeps it,
/// whatever the first row holds; a column that the Arrow type leaves open
/// takes the type of its value in the first row, and stays open without rows.
pub proof fn lemma_result_column_types(
    arrow_types: Seq<ArrowType>,
    first_row_types: Seq<DuckdbType>,
    has_rows: bool,
    i: int,
)
    requires
        0 <= i < arrow_types.len(),
    ensures
        arrow_column_type(arrow_types[i]) != ColumnType::Any ==> result_column_type(
            arrow_types,
            first_row_types,
            has_rows,
            i,
        ) == arrow_column_type(arrow_types[i]),
        arrow_column_type(arrow_types[i]) == ColumnType::Any && has_rows && i
            < first_row_types.len() ==> result_column_type(arrow_types, first_row_types, has_rows, i)
            == duckdb_column_type(first_row_types[i]),
        arrow_column_type(arrow_types[i]) == ColumnType::Any && !has_rows ==> result_column_type(
            arrow_types,
            first_row_types,
            has_rows,
            i,
        ) == ColumnType::Any,
{
}

} // verus!
