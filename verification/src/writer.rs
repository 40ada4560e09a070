//! The Columnar Writer boundary, and the decoding of raw JSON bytes.
//!
//! The verified engine works on its own `JsonVal`/`Table` model. At this
//! module's trusted boundary the raw bytes are decoded through serde_json
//! into that model, and the final table is serialized — its rows as JSON
//! records, handed to polars to encode as a compressed Parquet file image
//! in memory (writing that image to disk is the caller's concern). Two
//! compression profiles are offered, and per-column statistics can be
//! requested; a distinct-count statistic is never computed, by fixed policy.

use vstd::prelude::*;

use polars::io::SerReader;
use polars::prelude::{JsonReader, ParquetCompression, ParquetWriter, StatisticsOptions};
use std::io::Cursor;
use std::num::NonZeroUsize;

use crate::errors::ProcessorError;
use crate::table::{view_cols, SpecTable, Table};
use crate::value::{view_fields, view_val, view_vals, JsonVal, SpecVal};

verus! {

/// How many records the schema inference samples, here and in the engine's
/// own inferencer: a fixed policy knob.
pub const SCHEMA_SAMPLE_CAP: usize = 1000;

/// The compression profile of the persisted file.
#[derive(Debug)]
pub enum Codec {
    /// High compression ratio (Zstd).
    HighRatio,
    /// High speed (Snappy).
    HighSpeed,
}

/// Which per-column statistics the writer embeds. There is deliberately no
/// distinct-count flag: that statistic is never computed.
#[derive(Debug)]
pub struct StatsFlags {
    pub min_value: bool,
    pub max_value: bool,
    pub null_count: bool,
}

#[verifier::external_type_specification]
#[verifier::external_body]
pub struct ExValue(serde_json::Value);

/// The document serde_json's parser yields for these bytes — `None`
/// exactly on a parse failure. Parsing is a function of the bytes alone.
pub uninterp spec fn parsed_doc(bytes: Seq<u8>) -> Option<SpecVal>;

/// The JSON array of records serde_json's serializer emits for these rows.
/// The encoding depends on the rows alone.
pub uninterp spec fn json_of(rows: Seq<SpecVal>) -> Seq<u8>;

/// Whether the polars encoder accepts the given JSON record bytes,
/// schema-inference cap, codec choice and statistics flags. Whether the
/// encode succeeds depends on these arguments alone; only the produced
/// bytes can vary (below).
pub uninterp spec fn parquet_accepts(
    json: Seq<u8>,
    cap: nat,
    high_ratio: bool,
    min_value: bool,
    max_value: bool,
    null_count: bool,
) -> bool;

/// Whether `image` is a Parquet file image the polars encoder can produce
/// for these inputs. A relation, not a function: for a record wider than a
/// small bound the encoder's column order follows a hash order seeded anew
/// in every process, so two runs on the same input may produce different
/// images.
pub uninterp spec fn parquet_encodes(
    json: Seq<u8>,
    cap: nat,
    high_ratio: bool,
    min_value: bool,
    max_value: bool,
    null_count: bool,
    image: Seq<u8>,
) -> bool;

/// Relies on serde_json's `Value` accessors to rebuild the decoded document
/// in the engine's own model: one arm per variant; numbers that fit `i64`
/// become integers, any other numeric literal keeps its decimal text.
#[verifier::external_body]
fn from_sj(v: serde_json::Value) -> JsonVal {
    match v {
        serde_json::Value::Null => JsonVal::Null,
        serde_json::Value::Bool(b) => JsonVal::Bool(b),
        serde_json::Value::Number(n) => match n.as_i64() {
            Some(i) => JsonVal::Int(i),
            None => JsonVal::Num(n.to_string()),
        },
        serde_json::Value::String(s) => JsonVal::Text(s),
        serde_json::Value::Array(a) => JsonVal::Arr(a.into_iter().map(from_sj).collect()),
        serde_json::Value::Object(m) => JsonVal::Obj(
            m.into_iter().map(|(k, x)| (k, from_sj(x))).collect(),
        ),
    }
}

/// Relies on serde_json's `Value` constructors: the reverse of `from_sj`,
/// one arm per variant. A kept numeric text re-parses as a JSON value —
/// always a number for the texts `from_sj` produces; text that does not
/// parse at all is kept as a JSON string.
#[verifier::external_body]
fn to_sj(v: &JsonVal) -> serde_json::Value {
    match v {
        JsonVal::Null => serde_json::Value::Null,
        JsonVal::Bool(b) => serde_json::Value::Bool(*b),
        JsonVal::Int(i) => serde_json::Value::Number(serde_json::Number::from(*i)),
        JsonVal::Num(s) => serde_json::from_str(s.as_str()).unwrap_or(
            serde_json::Value::String(s.clone()),
        ),
        JsonVal::Text(s) => serde_json::Value::String(s.clone()),
        JsonVal::Arr(es) => serde_json::Value::Array(es.iter().map(to_sj).collect()),
        JsonVal::Obj(fs) => serde_json::Value::Object(
            fs.iter().map(|(k, x)| (k.clone(), to_sj(x))).collect(),
        ),
    }
}

/// Relies on serde_json::from_slice: decodes one JSON document, or reports
/// the parse failure's message. The decoded value is rebuilt in the
/// engine's model by `from_sj`; what comes back is a function of the bytes
/// alone, named `parsed_doc`.
#[verifier::external_body]
pub(crate) fn parse_json(bytes: &Vec<u8>) -> (r: Result<JsonVal, String>)
    ensures
        match r {
            Ok(v) => parsed_doc(bytes@) == Option::Some(v@),
            Err(_) => parsed_doc(bytes@) is None,
        },
{
    match serde_json::from_slice::<serde_json::Value>(bytes.as_slice()) {
        Ok(v) => Ok(from_sj(v)),
        Err(e) => Err(e.to_string()),
    }
}

/// Relies on serde_json::to_vec: encodes the rows as one JSON array of
/// records; the bytes are a function of the rows alone, named `json_of`.
/// Serializing a `serde_json::Value` tree cannot fail.
#[verifier::external_body]
fn records_to_json(rows: &Vec<JsonVal>) -> (r: Vec<u8>)
    ensures
        r@ == json_of(view_vals(rows@)),
{
    let mut vals: Vec<serde_json::Value> = Vec::new();
    for r in rows.iter() {
        vals.push(to_sj(r));
    }
    serde_json::to_vec(&serde_json::Value::Array(vals)).unwrap_or_default()
}

/// Relies on polars' JsonReader and ParquetWriter: reads the JSON records
/// (inferring the schema over a sample of `cap` records) and encodes them
/// as a single Parquet file image in memory, with the chosen compression
/// codec and the requested statistics. The distinct count is never
/// computed. Success is a function of the arguments (`parquet_accepts`);
/// of the bytes only the relation `parquet_encodes` is claimed, since the
/// column order of wide records follows a per-process hash seed.
#[verifier::external_body]
fn json_to_parquet(json: &Vec<u8>, cap: usize, codec: &Codec, stats: &StatsFlags) -> (r: Result<
    Vec<u8>,
    String,
>)
    ensures
        match r {
            Ok(bytes) => parquet_accepts(
                json@,
                cap as nat,
                *codec matches Codec::HighRatio,
                stats.min_value,
                stats.max_value,
                stats.null_count,
            ) && parquet_encodes(
                json@,
                cap as nat,
                *codec matches Codec::HighRatio,
                stats.min_value,
                stats.max_value,
                stats.null_count,
                bytes@,
            ),
            Err(_) => !parquet_accepts(
                json@,
                cap as nat,
                *codec matches Codec::HighRatio,
                stats.min_value,
                stats.max_value,
                stats.null_count,
            ),
        },
{
    let reader = JsonReader::new(Cursor::new(json.as_slice()));
    let mut df = reader.infer_schema_len(NonZeroUsize::new(cap)).finish().map_err(|e| e.to_string())?;
    let compression = match codec { Codec::HighRatio => ParquetCompression::Zstd(None), Codec::HighSpeed => ParquetCompression::Snappy };
    let options = StatisticsOptions { min_value: stats.min_value, max_value: stats.max_value, null_count: stats.null_count, distinct_count: false, binary_statistics_truncate_length: None };
    let mut out = Cursor::new(Vec::new());
    let writer = ParquetWriter::new(&mut out).with_compression(compression).with_statistics(options);
    writer.finish(&mut df).map_err(|e| e.to_string())?;
    Ok(out.into_inner())
}

/// The fields of row `i` of a table: each column's name with its cell.
pub open spec fn row_fields(st: SpecTable, i: int) -> Seq<(Seq<char>, SpecVal)> {
    Seq::new(st.cols.len(), |j: int| (st.cols[j].name, st.cols[j].cells[i]))
}

/// The table's rows as mathematical records, in order.
pub open spec fn spec_rows(st: SpecTable) -> Seq<SpecVal> {
    Seq::new(st.nrows, |i: int| SpecVal::Obj(row_fields(st, i)))
}

/// Whether the encoder accepts this table under the given codec and
/// statistics flags — the writer succeeds exactly on these tables.
pub open spec fn table_encodable(st: SpecTable, high_ratio: bool, stats: StatsFlags) -> bool {
    parquet_accepts(
        json_of(spec_rows(st)),
        SCHEMA_SAMPLE_CAP as nat,
        high_ratio,
        stats.min_value,
        stats.max_value,
        stats.null_count,
    )
}

/// Whether `image` is a Parquet file image of this table under the given
/// codec and statistics flags (a relation: see `parquet_encodes`).
pub open spec fn is_table_image(
    st: SpecTable,
    high_ratio: bool,
    stats: StatsFlags,
    image: Seq<u8>,
) -> bool {
    parquet_encodes(
        json_of(spec_rows(st)),
        SCHEMA_SAMPLE_CAP as nat,
        high_ratio,
        stats.min_value,
        stats.max_value,
        stats.null_count,
        image,
    )
}

/// The table's rows as records, ready for serialization.
#[verifier::loop_isolation(false)]
pub fn table_rows(t: &Table) -> (r: Vec<JsonVal>)
    requires
        t@.wf(),
    ensures
        r@.len() == t@.nrows,
        forall|i: int|
            0 <= i < t@.nrows ==> #[trigger] view_vals(r@)[i] == SpecVal::Obj(row_fields(t@, i)),
{
    broadcast use crate::table::group_table_views;
    broadcast use crate::value::group_value_views;

    let mut rows: Vec<JsonVal> = Vec::new();
    let mut i: usize = 0;
    while i < t.nrows
        invariant
            0 <= i <= t@.nrows,
            rows@.len() == i,
            forall|k: int|
                0 <= k < i ==> #[trigger] view_vals(rows@)[k] == SpecVal::Obj(row_fields(t@, k)),
        decreases t.nrows - i,
    {
        let mut fields: Vec<(String, JsonVal)> = Vec::new();
        let mut j: usize = 0;
        while j < t.cols.len()
            invariant
                0 <= j <= t@.cols.len(),
                0 <= i < t@.nrows,
                fields@.len() == j,
                forall|k: int|
                    0 <= k < j ==> #[trigger] view_fields(fields@)[k] == (
                    t@.cols[k].name,
                    t@.cols[k].cells[i as int],
                ),
            decreases t.cols.len() - j,
        {
            proof {
                assert(view_cols(t.cols@)[j as int].cells.len() == t@.nrows);
            }
            let name = t.cols[j].name.clone();
            let v = t.cols[j].cells[i].duplicate();
            let ghost pre = fields@;
            fields.push((name, v));
            proof {
                assert(fields@.drop_last() =~= pre);
                assert forall|k: int|
                    0 <= k < j + 1 implies #[trigger] view_fields(fields@)[k] == (
                    t@.cols[k].name,
                    t@.cols[k].cells[i as int],
                ) by {
                    if k < j {
                        assert(view_fields(fields@)[k] == view_fields(pre)[k]);
                    } else {
                        assert(view_vals(t.cols@[j as int].cells@)[i as int] == view_val(
                            t.cols@[j as int].cells@[i as int],
                        ));
                    }
                }
            }
            j = j + 1;
        }
        let ghost pre = rows@;
        rows.push(JsonVal::Obj(fields));
        proof {
            assert(rows@.drop_last() =~= pre);
            assert forall|k: int|
                0 <= k < i + 1 implies #[trigger] view_vals(rows@)[k] == SpecVal::Obj(
                row_fields(t@, k),
            ) by {
                if k < i {
                    assert(view_vals(rows@)[k] == view_vals(pre)[k]);
                } else {
                    assert(view_vals(rows@)[k] == view_val(rows@[k]));
                    assert(view_fields(fields@) =~= row_fields(t@, k));
                }
            }
        }
        i = i + 1;
    }
    rows
}

/// Serializes the final table as one compressed, statistics-annotated
/// Parquet file image and reports the written shape `(rows, columns)`.
/// The call succeeds exactly when the encoder behind this module's trusted
/// boundary accepts the table (`table_encodable`), the returned bytes are
/// an image of it (`is_table_image`), and a failure is surfaced as a
/// `Serialization` error, never silently dropped.
pub fn write_table(t: &Table, codec: &Codec, stats: &StatsFlags) -> (r: Result<
    (Vec<u8>, (usize, usize)),
    ProcessorError,
>)
    requires
        t@.wf(),
    ensures
        match r {
            Ok(p) => {
                &&& p.1.0 as nat == t@.nrows && p.1.1 as nat == t@.cols.len()
                &&& table_encodable(t@, *codec matches Codec::HighRatio, *stats)
                &&& is_table_image(t@, *codec matches Codec::HighRatio, *stats, p.0@)
            },
            Err(e) => e matches ProcessorError::Serialization(_) && !table_encodable(
                t@,
                *codec matches Codec::HighRatio,
                *stats,
            ),
        },
{
    broadcast use crate::table::group_table_views;
    broadcast use crate::value::group_value_views;

    let rows = table_rows(t);
    proof {
        assert(view_vals(rows@) =~= spec_rows(t@));
    }
    let json = records_to_json(&rows);
    match json_to_parquet(&json, SCHEMA_SAMPLE_CAP, codec, stats) {
        Ok(bytes) => {
            let shape = t.shape();
            Ok((bytes, shape))
        },
        Err(msg) => Err(ProcessorError::Serialization(msg)),
    }
}

} // verus!
