use duckdb_slt::temporal::{
    format_date32, format_interval, format_time64, format_timestamp, TimeUnit,
};
use duckdb_slt::values::{
    format_advanced_value, format_blob_hex, format_duckdb_nested_string, format_value,
    quote_duckdb_string, CellValue, NestedValue,
};

#[test]
fn format_values_golden() {
    assert_eq!(format_value(&CellValue::Null), "NULL");
    assert_eq!(
        format_value(&CellValue::Text(String::new())).as_str(),
        "(empty)"
    );
    assert_eq!(format_value(&CellValue::Text("hello".to_string())), "hello");
    assert_eq!(format_value(&CellValue::Boolean(true)), "true");
    assert_eq!(format_value(&CellValue::Int(-7)), "-7");
    assert_eq!(format_value(&CellValue::UBigInt(7)), "7");
    assert_eq!(format_value(&CellValue::Rendered(1.5f32.to_string())), "1.5");
    assert_eq!(format_value(&CellValue::Rendered(2.25f64.to_string())), "2.25");
    assert_eq!(format_value(&CellValue::Blob(vec![])), "0x");
    assert_eq!(
        format_value(&CellValue::Blob(vec![0x00, 0x0f, 0x10, 0xff])),
        "0x000f10ff"
    );
}

#[test]
fn format_values_match_cast_varchar() {
    // DATE '2020-01-02', TIME '03:04:05.006007', TIMESTAMP '2020-01-02 03:04:05.006007',
    // CAST(1.50 AS DECIMAL(4,2)), INTERVAL '1 month 2 days 03:04:05.006007'
    let cases = [
        (CellValue::Date32(18263), "2020-01-02"),
        (
            CellValue::Time64(TimeUnit::Microsecond, 11_045_006_007),
            "03:04:05.006007",
        ),
        (
            CellValue::Timestamp(TimeUnit::Microsecond, 1_577_934_245_006_007),
            "2020-01-02 03:04:05.006007",
        ),
        (CellValue::Rendered("1.50".to_string()), "1.50"),
        (
            CellValue::Interval {
                months: 1,
                days: 2,
                nanos: 11_045_006_007_000,
            },
            "1 month 2 days 03:04:05.006007",
        ),
    ];

    for (value, expected) in cases {
        assert_eq!(format_value(&value), expected);
    }
}

#[test]
fn format_nested_values_match_cast_varchar() {
    let cases = [
        (
            NestedValue::List(vec![NestedValue::Int(1), NestedValue::Int(2), NestedValue::Null]),
            "[1, 2, NULL]",
        ),
        (
            NestedValue::List(vec![
                NestedValue::Text("a".to_string()),
                NestedValue::Text("b".to_string()),
                NestedValue::Text("c".to_string()),
            ]),
            "[a, b, c]",
        ),
        (
            NestedValue::Struct(vec![
                ("a".to_string(), NestedValue::Int(1)),
                ("b".to_string(), NestedValue::Int(2)),
            ]),
            "{'a': 1, 'b': 2}",
        ),
        (
            NestedValue::MapValue(vec![
                (NestedValue::Text("a".to_string()), NestedValue::Int(1)),
                (NestedValue::Text("b".to_string()), NestedValue::Int(2)),
            ]),
            "{a=1, b=2}",
        ),
    ];

    for (value, expected) in cases {
        assert_eq!(format_value(&CellValue::Nested(value)), expected);
    }
}

#[test]
fn dates_around_the_epoch_and_leap_days() {
    assert_eq!(format_date32(0), "1970-01-01");
    assert_eq!(format_date32(-1), "1969-12-31");
    assert_eq!(format_date32(11016), "2000-02-29");
    assert_eq!(format_date32(11017), "2000-03-01");
    assert_eq!(format_date32(-25508), "1900-03-01");
    assert_eq!(format_date32(-719528), "0000-01-01");
    assert_eq!(format_date32(-719529), "-001-12-31");
    assert_eq!(format_date32(2932896), "9999-12-31");
}

#[test]
fn times_and_timestamps() {
    assert_eq!(format_time64(TimeUnit::Second, 3661), "01:01:01");
    assert_eq!(format_time64(TimeUnit::Millisecond, 500), "00:00:00.5");
    assert_eq!(format_time64(TimeUnit::Nanosecond, 1), "00:00:00.000000001");
    assert_eq!(format_time64(TimeUnit::Microsecond, -1), "23:59:59.999999");
    assert_eq!(format_timestamp(TimeUnit::Second, 0), "1970-01-01 00:00:00");
    assert_eq!(
        format_timestamp(TimeUnit::Millisecond, -1),
        "1969-12-31 23:59:59.999"
    );
    assert_eq!(
        format_timestamp(TimeUnit::Microsecond, i64::MAX),
        "294247-01-10 04:00:54.775807"
    );
}

#[test]
fn intervals() {
    assert_eq!(format_interval(0, 0, 0), "00:00:00");
    assert_eq!(format_interval(14, 1, 0), "1 year 2 months 1 day");
    assert_eq!(format_interval(-13, 0, 0), "-1 year -1 month");
    assert_eq!(format_interval(12, -2, 1_500_000_000), "1 year -2 days 00:00:01.5");
    assert_eq!(format_interval(0, 0, -3_600_000_000_000), "-01:00:00");
    assert_eq!(format_interval(0, 0, 90_000_000_000_000), "25:00:00");
}

#[test]
fn blobs_and_nested_strings() {
    assert_eq!(format_blob_hex(&[0xab, 0x01]), "0xab01");
    assert_eq!(format_duckdb_nested_string(""), "''");
    assert_eq!(format_duckdb_nested_string("a_1"), "a_1");
    assert_eq!(format_duckdb_nested_string("a b"), "'a b'");
    assert_eq!(format_duckdb_nested_string("it's"), "'it''s'");
    assert_eq!(quote_duckdb_string("x"), "'x'");
}

#[test]
fn nested_values_of_every_kind() {
    let v = NestedValue::Struct(vec![
        ("k y".to_string(), NestedValue::Union(Box::new(NestedValue::Enum("E".to_string())))),
        (
            "n".to_string(),
            NestedValue::Array(vec![
                NestedValue::HugeInt(i128::MIN),
                NestedValue::Boolean(false),
                NestedValue::Blob(vec![1]),
            ]),
        ),
        ("d".to_string(), NestedValue::Date32(1)),
        ("e".to_string(), NestedValue::List(vec![])),
    ]);
    assert_eq!(
        format_advanced_value(&v),
        "{'k y': E, 'n': [-170141183460469231731687303715884105728, false, 0x01], 'd': 1970-01-02, 'e': []}"
    );
}

#[test]
fn dates_step_one_day_at_a_time() {
    assert_eq!(format_date32(18262), "2020-01-01");
    assert_eq!(format_date32(18263), "2020-01-02");
    assert_eq!(format_date32(18320), "2020-02-28");
    assert_eq!(format_date32(18321), "2020-02-29");
    assert_eq!(format_date32(18322), "2020-03-01");
    assert_eq!(format_date32(18627), "2020-12-31");
    assert_eq!(format_date32(18628), "2021-01-01");
}

#[test]
fn nested_unsigned_huge_integers() {
    let v = NestedValue::List(vec![
        NestedValue::UHugeInt(u128::MAX),
        NestedValue::UHugeInt(0),
    ]);
    assert_eq!(
        format_advanced_value(&v),
        "[340282366920938463463374607431768211455, 0]"
    );
}
