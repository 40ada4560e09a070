//! Unit tests for the individual normalization stages.

use json_normalizer::infer::infer_table;
use json_normalizer::prune::prune;
use json_normalizer::repair::repair_byte_lists;
use json_normalizer::table::{ColType, Column, Table};
use json_normalizer::unnest::unnest_root;
use json_normalizer::JsonVal;
use json_normalizer::ProcessorError;

fn obj(fields: Vec<(&str, JsonVal)>) -> JsonVal {
    JsonVal::Obj(fields.into_iter().map(|(k, v)| (k.to_string(), v)).collect())
}

#[test]
fn infer_counts_rows_and_unions_keys() {
    let records = vec![
        obj(vec![("a", JsonVal::Int(1))]),
        obj(vec![("b", JsonVal::Text("x".to_string()))]),
        obj(vec![("a", JsonVal::Int(3)), ("b", JsonVal::Text("y".to_string()))]),
    ];
    let t = infer_table(&records, None).unwrap();
    assert_eq!(t.shape(), (3, 2));
    assert_eq!(t.cols[0].name, "a");
    assert_eq!(t.cols[1].name, "b");
    // a missing key reads as a null cell, not an error
    assert!(matches!(t.cols[0].cells[1], JsonVal::Null));
    assert!(matches!(t.cols[1].cells[0], JsonVal::Null));
    assert!(matches!(t.cols[0].ty, ColType::Int));
    assert!(matches!(t.cols[1].ty, ColType::Text));
}

#[test]
fn infer_empty_array_gives_empty_sentinel() {
    let records: Vec<JsonVal> = vec![];
    let t = infer_table(&records, None).unwrap();
    assert_eq!(t.shape(), (0, 0));
}

#[test]
fn infer_rejects_non_objects() {
    let records = vec![JsonVal::Int(1)];
    match infer_table(&records, None) {
        Err(ProcessorError::Schema(_)) => {},
        _ => panic!("an array of non-objects must give a Schema error"),
    }
}

#[test]
fn infer_widens_int_and_float() {
    let records = vec![
        obj(vec![("x", JsonVal::Int(1))]),
        obj(vec![("x", JsonVal::Num("2.5".to_string()))]),
    ];
    let t = infer_table(&records, None).unwrap();
    assert!(matches!(t.cols[0].ty, ColType::Float));
}

#[test]
fn unnest_without_root_is_noop() {
    let records = vec![obj(vec![("a", JsonVal::Int(1))])];
    let t = infer_table(&records, None).unwrap();
    let t = unnest_root(t, None);
    assert_eq!(t.shape(), (1, 1));
    assert_eq!(t.cols[0].name, "a");
    assert!(matches!(t.cols[0].cells[0], JsonVal::Int(1)));
}

#[test]
fn unnest_with_empty_or_missing_root_is_noop() {
    let records = vec![obj(vec![("a", JsonVal::Int(1))])];
    let t = infer_table(&records, None).unwrap();
    let t = unnest_root(t, Some(""));
    assert_eq!(t.shape(), (1, 1));
    let t = unnest_root(t, Some("nowhere"));
    assert_eq!(t.shape(), (1, 1));
    assert_eq!(t.cols[0].name, "a");
}

#[test]
fn unnest_struct_column_in_place() {
    let records = vec![obj(vec![
        ("dados", obj(vec![("x", JsonVal::Int(7)), ("y", JsonVal::Bool(true))])),
        ("tag", JsonVal::Text("t".to_string())),
    ])];
    let t = infer_table(&records, None).unwrap();
    let t = unnest_root(t, Some("dados"));
    assert_eq!(t.shape(), (1, 3));
    assert_eq!(t.cols[0].name, "x");
    assert_eq!(t.cols[1].name, "y");
    assert_eq!(t.cols[2].name, "tag");
    assert!(matches!(t.cols[0].cells[0], JsonVal::Int(7)));
    assert!(matches!(t.cols[1].cells[0], JsonVal::Bool(true)));
}

#[test]
fn explode_list_of_struct_replicates_siblings() {
    // one original row whose list holds three elements: exactly three
    // output rows, the sibling column's value repeated on each of them
    let records = vec![obj(vec![
        (
            "resultado",
            JsonVal::Arr(vec![
                obj(vec![("id", JsonVal::Int(1))]),
                obj(vec![("id", JsonVal::Int(2))]),
                obj(vec![("id", JsonVal::Int(3))]),
            ]),
        ),
        ("tag", JsonVal::Text("x".to_string())),
    ])];
    let t = infer_table(&records, None).unwrap();
    let t = unnest_root(t, Some("resultado"));
    assert_eq!(t.shape(), (3, 2));
    assert_eq!(t.cols[0].name, "id");
    assert_eq!(t.cols[1].name, "tag");
    for i in 0..3 {
        assert!(matches!(&t.cols[1].cells[i], JsonVal::Text(s) if s == "x"));
    }
    assert!(matches!(t.cols[0].cells[0], JsonVal::Int(1)));
    assert!(matches!(t.cols[0].cells[1], JsonVal::Int(2)));
    assert!(matches!(t.cols[0].cells[2], JsonVal::Int(3)));
}

#[test]
fn explode_empty_lists_gives_zero_rows() {
    let records = vec![obj(vec![("resultado", JsonVal::Arr(vec![]))])];
    let t = infer_table(&records, None).unwrap();
    let t = unnest_root(t, Some("resultado"));
    assert_eq!(t.nrows, 0);
}

#[test]
fn explode_keeps_untyped_elements() {
    // a list holding only null has no element type; exploding keeps the
    // column under its own name, one row per element
    let records = vec![obj(vec![("resultado", JsonVal::Arr(vec![JsonVal::Null]))])];
    let t = infer_table(&records, None).unwrap();
    let t = unnest_root(t, Some("resultado"));
    assert_eq!(t.shape(), (1, 1));
    assert_eq!(t.cols[0].name, "resultado");
    assert!(matches!(t.cols[0].cells[0], JsonVal::Null));
}

#[test]
fn explode_skips_rows_with_a_null_list() {
    // a null target cell contributes no output row
    let records = vec![
        obj(vec![("resultado", JsonVal::Arr(vec![obj(vec![("id", JsonVal::Int(1))])]))]),
        obj(vec![("resultado", JsonVal::Null)]),
    ];
    let t = infer_table(&records, None).unwrap();
    let t = unnest_root(t, Some("resultado"));
    assert_eq!(t.shape(), (1, 1));
    assert_eq!(t.cols[0].name, "id");
    assert!(matches!(t.cols[0].cells[0], JsonVal::Int(1)));
}

#[test]
fn unnest_scalar_root_is_best_effort_noop() {
    let records = vec![obj(vec![("resultado", JsonVal::Int(5))])];
    let t = infer_table(&records, None).unwrap();
    let t = unnest_root(t, Some("resultado"));
    assert_eq!(t.shape(), (1, 1));
    assert!(matches!(t.cols[0].cells[0], JsonVal::Int(5)));
}

#[test]
fn prune_removes_technical_columns_and_keeps_data() {
    let records = vec![obj(vec![
        ("id", JsonVal::Int(1)),
        ("totalRegistros", JsonVal::Int(99)),
        ("totalPaginas", JsonVal::Int(9)),
        ("links", JsonVal::Text("l".to_string())),
    ])];
    let t = infer_table(&records, None).unwrap();
    let t = prune(&t);
    assert_eq!(t.shape(), (1, 1));
    assert_eq!(t.cols[0].name, "id");
}

#[test]
fn prune_twice_equals_prune_once() {
    let records = vec![obj(vec![
        ("id", JsonVal::Int(1)),
        ("dataHoraConsulta", JsonVal::Text("now".to_string())),
    ])];
    let t = infer_table(&records, None).unwrap();
    let once = prune(&t);
    let twice = prune(&once);
    assert_eq!(once.shape(), twice.shape());
    assert_eq!(once.cols.len(), twice.cols.len());
    for j in 0..once.cols.len() {
        assert_eq!(once.cols[j].name, twice.cols[j].name);
    }
}

#[test]
fn prune_of_clean_table_is_noop() {
    let records = vec![obj(vec![("id", JsonVal::Int(1))])];
    let t = infer_table(&records, None).unwrap();
    let t = prune(&t);
    assert_eq!(t.shape(), (1, 1));
}

#[test]
fn repair_decodes_ascii_codes() {
    let records = vec![obj(vec![(
        "descricao",
        JsonVal::Arr(vec![JsonVal::Int(65), JsonVal::Int(110), JsonVal::Int(97)]),
    )])];
    let t = infer_table(&records, None).unwrap();
    assert!(matches!(&t.cols[0].ty, ColType::List(inner) if matches!(**inner, ColType::Int)));
    let t = repair_byte_lists(&t).unwrap();
    assert!(matches!(t.cols[0].ty, ColType::Text));
    assert!(matches!(&t.cols[0].cells[0], JsonVal::Text(s) if s == "Ana"));
}

#[test]
fn repair_round_trips_the_codes() {
    let codes: Vec<i64> = vec![65, 110, 97, 195, 161];  // "Anaá" as UTF-8 bytes
    let records = vec![obj(vec![(
        "d",
        JsonVal::Arr(codes.iter().map(|&c| JsonVal::Int(c)).collect()),
    )])];
    let t = infer_table(&records, None).unwrap();
    let t = repair_byte_lists(&t).unwrap();
    match &t.cols[0].cells[0] {
        JsonVal::Text(s) => {
            let recovered: Vec<i64> = s.as_bytes().iter().map(|&b| b as i64).collect();
            assert_eq!(recovered, codes);
        },
        _ => panic!("expected text after repair"),
    }
}

#[test]
fn repair_truncates_float_codes() {
    let records = vec![obj(vec![(
        "d",
        JsonVal::Arr(vec![
            JsonVal::Num("65.7".to_string()),
            JsonVal::Num("110.2".to_string()),
            JsonVal::Num("97.0".to_string()),
        ]),
    )])];
    let t = infer_table(&records, None).unwrap();
    let t = repair_byte_lists(&t).unwrap();
    assert!(matches!(&t.cols[0].cells[0], JsonVal::Text(s) if s == "Ana"));
}

#[test]
fn repair_truncates_codes_into_byte_range() {
    // 321 = 65 + 256: narrowed to its low byte
    let records = vec![obj(vec![("d", JsonVal::Arr(vec![JsonVal::Int(321)]))])];
    let t = infer_table(&records, None).unwrap();
    let t = repair_byte_lists(&t).unwrap();
    assert!(matches!(&t.cols[0].cells[0], JsonVal::Text(s) if s == "A"));
}

#[test]
fn repair_rejects_invalid_utf8() {
    let records = vec![obj(vec![("d", JsonVal::Arr(vec![JsonVal::Int(255)]))])];
    let t = infer_table(&records, None).unwrap();
    match repair_byte_lists(&t) {
        Err(ProcessorError::Encoding(_)) => {},
        _ => panic!("invalid UTF-8 must give an Encoding error"),
    }
}

#[test]
fn repair_leaves_other_columns_alone() {
    let records = vec![obj(vec![
        ("name", JsonVal::Text("keep".to_string())),
        ("nums", JsonVal::Arr(vec![JsonVal::Text("not a code".to_string())])),
    ])];
    let t = infer_table(&records, None).unwrap();
    let t = repair_byte_lists(&t).unwrap();
    assert!(matches!(&t.cols[0].cells[0], JsonVal::Text(s) if s == "keep"));
    assert!(matches!(t.cols[1].ty, ColType::List(_)));
}

#[test]
fn repair_keeps_null_cells_null() {
    let records = vec![
        obj(vec![("d", JsonVal::Arr(vec![JsonVal::Int(65)]))]),
        obj(vec![]),
    ];
    let t = infer_table(&records, None).unwrap();
    let t = repair_byte_lists(&t).unwrap();
    assert!(matches!(&t.cols[0].cells[0], JsonVal::Text(s) if s == "A"));
    assert!(matches!(t.cols[0].cells[1], JsonVal::Null));
}

#[test]
fn table_shape_and_find() {
    let t = Table { cols: vec![Column { name: "a".to_string(), ty: ColType::Int, cells: vec![JsonVal::Int(1)] }], nrows: 1 };
    assert_eq!(t.shape(), (1, 1));
    assert_eq!(t.find_col("a"), Some(0));
    assert_eq!(t.find_col("b"), None);
}
