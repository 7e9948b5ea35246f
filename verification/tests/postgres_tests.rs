use rosemary::postgres::{
    cell_text, column_kind, compare_bytes, compare_cells, convert_cell, convert_type,
    str_equals, CellValue, ColumnKind, Decoded,
};

#[test]
fn column_kinds_by_type_name() {
    for t in ["TEXT", "VARCHAR", "NAME", "CITEXT", "BPCHAR", "CHAR"] {
        assert_eq!(column_kind(t), ColumnKind::Text);
    }
    for t in ["SMALLINT", "SMALLSERIAL", "INT2"] {
        assert_eq!(column_kind(t), ColumnKind::SmallInt);
    }
    for t in ["INT", "SERIAL", "INT4"] {
        assert_eq!(column_kind(t), ColumnKind::MedInt);
    }
    for t in ["BIGINT", "BIGSERIAL", "INT8"] {
        assert_eq!(column_kind(t), ColumnKind::BigInt);
    }
    assert_eq!(column_kind("REAL"), ColumnKind::Real);
    assert_eq!(column_kind("FLOAT4"), ColumnKind::Real);
    assert_eq!(column_kind("DOUBLE PRECISION"), ColumnKind::Double);
    assert_eq!(column_kind("FLOAT8"), ColumnKind::Double);
    assert_eq!(column_kind("NUMERIC"), ColumnKind::Numeric);
    for t in ["TIMESTAMPTZ", "TIMESTAMP", "DATE", "TIME"] {
        assert_eq!(column_kind(t), ColumnKind::Timestamp);
    }
    assert_eq!(column_kind("UUID"), ColumnKind::Uuid);
    assert_eq!(column_kind("JSONB"), ColumnKind::Other);
    assert_eq!(column_kind("text"), ColumnKind::Other);
}

#[test]
fn null_values_become_null_cells() {
    assert!(matches!(convert_type("INT4", true, Decoded::Failed), CellValue::Null));
    assert!(matches!(convert_type("TEXT", true, Decoded::Text("x".into())), CellValue::Null));
}

#[test]
fn values_become_cells_of_their_kind() {
    assert!(matches!(convert_type("INT2", false, Decoded::Int2(-3)), CellValue::SmallInt(-3)));
    assert!(matches!(convert_type("INT4", false, Decoded::Int4(70000)), CellValue::MedInt(70000)));
    assert!(matches!(convert_type("INT8", false, Decoded::Int8(1 << 40)), CellValue::BigInt(v) if v == 1 << 40));
    assert!(matches!(convert_type("TEXT", false, Decoded::Text("abc".into())), CellValue::Text(s) if s == "abc"));
    assert!(matches!(convert_type("JSON", false, Decoded::Text("{}".into())), CellValue::Text(s) if s == "{}"));
    assert!(matches!(convert_type("REAL", false, Decoded::Float4("1.5".into())), CellValue::SmallFloat(s) if s == "1.5"));
    assert!(matches!(convert_type("FLOAT8", false, Decoded::Float8("2.25".into())), CellValue::BigFloat(s) if s == "2.25"));
    assert!(matches!(convert_type("NUMERIC", false, Decoded::Numeric("3.14159".into())), CellValue::Text(s) if s == "3.14159"));
    assert!(matches!(convert_type("UUID", false, Decoded::Uuid(5)), CellValue::Uuid(5)));
}

#[test]
fn failed_or_mismatched_reads_are_unsupported() {
    assert!(matches!(convert_type("INT4", false, Decoded::Failed), CellValue::Unsupported));
    assert!(matches!(convert_type("INT4", false, Decoded::Int8(1)), CellValue::Unsupported));
    assert!(matches!(convert_cell(ColumnKind::Text, false, Decoded::Int2(1)), CellValue::Unsupported));
}

#[test]
fn timestamps_are_written_in_rfc3339() {
    let c = convert_type("TIMESTAMPTZ", false, Decoded::Timestamp(1431648000, 0));
    let expected = chrono::DateTime::from_timestamp(1431648000, 0).unwrap().to_rfc3339();
    assert_eq!(expected, "2015-05-15T00:00:00+00:00");
    assert!(matches!(c, CellValue::Text(s) if s == expected));
    let bad = convert_type("DATE", false, Decoded::Timestamp(0, 3_000_000_000));
    assert!(matches!(bad, CellValue::Unsupported));
}

#[test]
fn cell_texts() {
    assert_eq!(cell_text(&CellValue::Text("x".into())), "x");
    assert_eq!(cell_text(&CellValue::SmallInt(-7)), "-7");
    assert_eq!(cell_text(&CellValue::MedInt(123456)), "123456");
    assert_eq!(cell_text(&CellValue::BigInt(i64::MIN)), i64::MIN.to_string());
    assert_eq!(cell_text(&CellValue::Null), "NULL");
    assert_eq!(cell_text(&CellValue::Unsupported), "Unsupported");
    assert_eq!(cell_text(&CellValue::BigDecimal("1.0".into())), "1.0");
    let v: u128 = 0xa1a2a3a4b1b2c1c2d1d2d3d4d5d6d7d8;
    assert_eq!(cell_text(&CellValue::Uuid(v)), "a1a2a3a4-b1b2-c1c2-d1d2-d3d4d5d6d7d8");
    assert_eq!(cell_text(&CellValue::Uuid(v)), uuid::Uuid::from_u128(v).to_string());
    assert_eq!(cell_text(&CellValue::Uuid(1)), "00000000-0000-0000-0000-000000000001");
}

#[test]
fn cell_order() {
    let t = |s: &str| CellValue::Text(s.to_string());
    assert_eq!(compare_cells(&CellValue::SmallInt(5), &CellValue::BigInt(6)), -1);
    assert_eq!(compare_cells(&CellValue::MedInt(6), &CellValue::BigInt(6)), 0);
    assert_eq!(compare_cells(&CellValue::BigInt(7), &CellValue::SmallInt(-1)), 1);
    assert_eq!(compare_cells(&CellValue::BigInt(i64::MAX), &t("a")), -1);
    assert_eq!(compare_cells(&t("a"), &CellValue::Null), -1);
    assert_eq!(compare_cells(&CellValue::Null, &CellValue::Unsupported), 0);
    assert_eq!(compare_cells(&t("abc"), &t("abd")), -1);
    assert_eq!(compare_cells(&t("ab"), &t("abc")), -1);
    assert_eq!(compare_cells(&t("b"), &t("abc")), 1);
    assert_eq!(compare_cells(&t("Z"), &t("a")), -1);
    assert_eq!(compare_cells(&t("é"), &t("z")), 1);
    assert_eq!(compare_bytes(&[1, 2], &[1, 2]), 0);
}

#[test]
fn string_equality() {
    assert!(str_equals("abc", "abc"));
    assert!(!str_equals("abc", "abd"));
    assert!(!str_equals("abc", "ab"));
}

#[test]
fn cell_order_is_a_total_preorder_on_samples() {
    let cells = vec![
        CellValue::SmallInt(-2),
        CellValue::MedInt(3),
        CellValue::BigInt(3),
        CellValue::Text("".into()),
        CellValue::Text("a".into()),
        CellValue::Text("ab".into()),
        CellValue::Text("é".into()),
        CellValue::Null,
        CellValue::Unsupported,
        CellValue::Uuid(9),
    ];
    for a in &cells {
        for b in &cells {
            assert_eq!(compare_cells(a, b), -compare_cells(b, a));
            for c in &cells {
                if compare_cells(a, b) <= 0 && compare_cells(b, c) <= 0 {
                    assert!(compare_cells(a, c) <= 0);
                }
            }
        }
    }
}
