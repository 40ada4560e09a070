//! End-to-end scenarios: raw JSON bytes through the whole engine, and the
//! produced Parquet file image read back through polars.

use std::io::Cursor;

use polars::io::SerReader;
use polars::prelude::ParquetReader;

use json_normalizer::pipeline::{process_json_to_parquet, process_raw_to_parquet, process_value};
use json_normalizer::writer::{Codec, StatsFlags};
use json_normalizer::JsonVal;
use json_normalizer::ProcessorError;

fn bytes(s: &str) -> Vec<u8> {
    s.as_bytes().to_vec()
}

#[test]
fn scenario_envelope_with_records() {
    // an envelope whose record list sits under the root path
    let raw = bytes(r#"{"resultado": [{"id": 1, "nome": "Ana"}, {"id": 2, "nome": "Beto"}]}"#);
    let out = process_json_to_parquet(&raw, Some("resultado")).unwrap();
    assert_eq!((out.rows, out.cols), (2, 2));
    let file = out.file.expect("two rows must produce a file image");
    let df = ParquetReader::new(Cursor::new(file)).finish().unwrap();
    assert_eq!(df.shape(), (2, 2));
    let names: Vec<String> = df.get_column_names().iter().map(|n| n.to_string()).collect();
    assert_eq!(names, vec!["id".to_string(), "nome".to_string()]);
}

#[test]
fn scenario_empty_record_list() {
    // an empty nested list: reported shape (0, 0), no file produced
    let raw = bytes(r#"{"resultado": []}"#);
    let out = process_json_to_parquet(&raw, Some("resultado")).unwrap();
    assert_eq!((out.rows, out.cols), (0, 0));
    assert!(out.file.is_none());
}

#[test]
fn scenario_bare_array_without_root() {
    let raw = bytes(r#"[{"a": 1}]"#);
    let out = process_json_to_parquet(&raw, None).unwrap();
    assert_eq!((out.rows, out.cols), (1, 1));
    assert!(out.file.is_some());
}

#[test]
fn scenario_technical_column_is_absent_from_output() {
    let raw = bytes(
        r#"{"resultado": [{"id": 1}], "totalRegistros": 1, "dataHoraConsulta": "2020-01-01"}"#,
    );
    let out = process_json_to_parquet(&raw, Some("resultado")).unwrap();
    assert_eq!((out.rows, out.cols), (1, 1));
    let df = ParquetReader::new(Cursor::new(out.file.unwrap())).finish().unwrap();
    let names: Vec<String> = df.get_column_names().iter().map(|n| n.to_string()).collect();
    assert_eq!(names, vec!["id".to_string()]);
}

#[test]
fn scenario_byte_list_column_becomes_text() {
    let raw = bytes(r#"[{"descricao": [65, 110, 97]}]"#);
    let out = process_json_to_parquet(&raw, None).unwrap();
    assert_eq!((out.rows, out.cols), (1, 1));
    let df = ParquetReader::new(Cursor::new(out.file.unwrap())).finish().unwrap();
    let col = df.column("descricao").unwrap();
    let value = col.str().unwrap().get(0).unwrap();
    assert_eq!(value, "Ana");
}

#[test]
fn parquet_image_carries_the_magic_bytes() {
    let raw = bytes(r#"[{"a": 1, "b": "x"}]"#);
    let out = process_json_to_parquet(&raw, None).unwrap();
    let file = out.file.unwrap();
    assert!(file.len() > 8);
    assert_eq!(&file[0..4], b"PAR1");
    assert_eq!(&file[file.len() - 4..], b"PAR1");
}

#[test]
fn invalid_json_is_a_parse_error() {
    let raw = bytes("{not json");
    match process_json_to_parquet(&raw, None) {
        Err(ProcessorError::Parse(_)) => {},
        _ => panic!("invalid JSON must give a Parse error"),
    }
}

#[test]
fn scalar_document_is_a_schema_error() {
    let raw = bytes("42");
    match process_json_to_parquet(&raw, None) {
        Err(ProcessorError::Schema(_)) => {},
        _ => panic!("a bare scalar document must give a Schema error"),
    }
}

#[test]
fn array_of_scalars_is_a_schema_error() {
    let raw = bytes("[1, 2, 3]");
    match process_json_to_parquet(&raw, None) {
        Err(ProcessorError::Schema(_)) => {},
        _ => panic!("an array of non-objects must give a Schema error"),
    }
}

#[test]
fn empty_table_writes_no_file() {
    let doc = JsonVal::Arr(vec![]);
    let stats = StatsFlags { min_value: true, max_value: true, null_count: true };
    let out = process_value(doc, None, &Codec::HighSpeed, &stats).unwrap();
    assert_eq!((out.rows, out.cols), (0, 0));
    assert!(out.file.is_none());
}

#[test]
fn high_ratio_codec_also_round_trips() {
    let doc = JsonVal::Arr(vec![JsonVal::Obj(vec![("k".to_string(), JsonVal::Int(7))])]);
    let stats = StatsFlags { min_value: true, max_value: true, null_count: true };
    let out = process_value(doc, None, &Codec::HighRatio, &stats).unwrap();
    let df = ParquetReader::new(Cursor::new(out.file.unwrap())).finish().unwrap();
    assert_eq!(df.shape(), (1, 1));
}

#[test]
fn raw_variant_reads_the_resultado_envelope() {
    let raw = bytes(r#"{"resultado": [{"id": 1, "nome": "Ana"}, {"id": 2, "nome": "Beto"}]}"#);
    let out = process_raw_to_parquet(&raw).unwrap();
    assert_eq!((out.rows, out.cols), (2, 2));
    assert!(out.file.is_some());
}

#[test]
fn raw_variant_reports_zero_for_an_empty_list() {
    let raw = bytes(r#"{"resultado": []}"#);
    let out = process_raw_to_parquet(&raw).unwrap();
    assert_eq!((out.rows, out.cols), (0, 0));
    assert!(out.file.is_none());
}

#[test]
fn raw_variant_requires_the_resultado_field() {
    let raw = bytes(r#"{"other": []}"#);
    match process_raw_to_parquet(&raw) {
        Err(ProcessorError::Schema(_)) => {},
        _ => panic!("a document without the record list must give a Schema error"),
    }
}

#[test]
fn float_and_text_columns_survive_the_round_trip() {
    // a non-integer numeric literal is carried through as a float column
    let raw = bytes(r#"[{"f": 2.5, "s": "x", "b": true}]"#);
    let out = process_json_to_parquet(&raw, None).unwrap();
    assert_eq!((out.rows, out.cols), (1, 3));
    let df = ParquetReader::new(Cursor::new(out.file.unwrap())).finish().unwrap();
    let f = df.column("f").unwrap().f64().unwrap().get(0).unwrap();
    assert!((f - 2.5).abs() < 1e-12);
    let s = df.column("s").unwrap().str().unwrap().get(0).unwrap();
    assert_eq!(s, "x");
    let b = df.column("b").unwrap().bool().unwrap().get(0).unwrap();
    assert!(b);
}
