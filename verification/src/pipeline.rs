//! The orchestrator: sequences the normalization engine over one decoded
//! document and hands back the encoded Parquet file image with its shape.
//!
//! An empty table (zero rows) short-circuits: the reported shape is
//! `(0, 0)` and no file image is produced — callers distinguish "no data"
//! from failure. Per-unit failures carry a typed error; reading the raw
//! file and persisting the image (and deleting the raw file only after a
//! fully successful write) are the calling program's concern.

use vstd::prelude::*;

use crate::errors::ProcessorError;
use crate::infer::{all_objects, infer_table, spec_infer, spec_sample};
use crate::prune::{prune, spec_prune};
use crate::repair::{repair_byte_lists, repair_fails, spec_repair};
use crate::table::SpecTable;
use crate::unnest::{spec_unnest, unnest_root};
use crate::value::{record_field, view_vals, JsonVal, SpecVal};
use crate::writer::{is_table_image, parsed_doc, table_encodable, write_table, Codec, StatsFlags};

verus! {

/// The outcome of one unit of work: the shape written, and the encoded
/// Parquet file image — `None` exactly when the table was empty and no
/// file must be produced.
#[derive(Debug)]
pub struct ParquetOutput {
    pub rows: usize,
    pub cols: usize,
    pub file: Option<Vec<u8>>,
}

/// The record list a decoded document stands for: a bare array is already
/// the list; a single object is one record; anything else has none.
pub open spec fn doc_records(v: SpecVal) -> Option<Seq<SpecVal>> {
    match v {
        SpecVal::Arr(es) => Option::Some(es),
        SpecVal::Obj(_) => Option::Some(seq![v]),
        _ => Option::None,
    }
}

/// The schema-inference sample cap of the engine: a fixed policy knob.
pub open spec fn sample_cap() -> Option<usize> {
    Option::Some(crate::writer::SCHEMA_SAMPLE_CAP)
}

/// The full statistics request: minimum, maximum and null count (a
/// distinct count does not exist to be requested).
pub open spec fn full_stats() -> StatsFlags {
    StatsFlags { min_value: true, max_value: true, null_count: true }
}

/// The table after inference, root unnesting and pruning — everything up
/// to the byte-list repair, as one function of the records.
pub open spec fn pre_repair(records: Seq<SpecVal>, root: Option<Seq<char>>) -> SpecTable {
    let t0 = spec_infer(records, spec_sample(sample_cap(), records.len()) as int);
    let t1 = spec_unnest(t0, root);
    SpecTable { cols: spec_prune(t1.cols), nrows: t1.nrows }
}

/// The table the engine writes: inference, unnesting, pruning and repair,
/// as one function of the records.
pub open spec fn final_table(records: Seq<SpecVal>, root: Option<Seq<char>>) -> SpecTable {
    spec_repair(pre_repair(records, root))
}

/// Everything a successful run of the engine owes for this document: the
/// document has a record list of objects, no cell defeats the repair, the
/// shape is the normalized table's, and a non-empty table comes with a
/// Parquet image of the final table — an empty one with none.
pub open spec fn engine_ok(
    doc: SpecVal,
    root: Option<Seq<char>>,
    high_ratio: bool,
    stats: StatsFlags,
    out: ParquetOutput,
) -> bool {
    doc_records(doc) matches Option::Some(records) && {
        let t2 = pre_repair(records, root);
        &&& all_objects(records)
        &&& !repair_fails(t2)
        &&& out.rows as nat == t2.nrows
        &&& (out.rows == 0 ==> out.cols == 0 && out.file is None)
        &&& (out.rows > 0 ==> {
            &&& out.cols as nat == t2.cols.len()
            &&& table_encodable(final_table(records, root), high_ratio, stats)
            &&& out.file matches Option::Some(b) && is_table_image(
                final_table(records, root),
                high_ratio,
                stats,
                b@,
            )
        })
    }
}

/// Everything a failed run of the engine owes: the error kind names its
/// cause, if and only if — `Schema` for a document without a record list
/// of objects, `Encoding` for a cell that defeats the repair,
/// `Serialization` exactly when the encoder does not accept the final
/// table. No other kind can come out of the engine.
pub open spec fn engine_err(
    doc: SpecVal,
    root: Option<Seq<char>>,
    high_ratio: bool,
    stats: StatsFlags,
    e: ProcessorError,
) -> bool {
    &&& !(e matches ProcessorError::Io(_))
    &&& !(e matches ProcessorError::Parse(_))
    &&& ((e matches ProcessorError::Schema(_)) <==> (doc_records(doc) is None || (doc_records(
        doc,
    ) matches Option::Some(records) && !all_objects(records))))
    &&& ((e matches ProcessorError::Encoding(_)) <==> (doc_records(doc)
        matches Option::Some(records) && all_objects(records) && repair_fails(
        pre_repair(records, root),
    )))
    &&& ((e matches ProcessorError::Serialization(_)) <==> (doc_records(doc)
        matches Option::Some(records) && all_objects(records) && !repair_fails(
        pre_repair(records, root),
    ) && !table_encodable(final_table(records, root), high_ratio, stats)))
}

/// Runs the engine over one decoded document: Schema Inferencer, Root
/// Unnester, Column Pruner, Byte-List Repairer, Columnar Writer, in that
/// fixed order (see `engine_ok` and `engine_err` for the exact promises).
/// An empty result reports shape `(0, 0)` and produces no file, and can
/// never fail.
#[verifier::loop_isolation(false)]
pub fn process_value(doc: JsonVal, root_path: Option<&str>, codec: &Codec, stats: &StatsFlags) -> (r:
    Result<ParquetOutput, ProcessorError>)
    ensures
        ({
            let rootv = match root_path {
                Option::Some(s) => Option::Some(s@),
                Option::None => Option::<Seq<char>>::None,
            };
            let hr = *codec matches Codec::HighRatio;
            &&& (doc_records(doc@) matches Option::Some(records) && all_objects(records)
                && pre_repair(records, rootv).nrows == 0 ==> r matches Ok(_))
            &&& match r {
                Ok(out) => engine_ok(doc@, rootv, hr, *stats, out),
                Err(e) => engine_err(doc@, rootv, hr, *stats, e),
            }
        }),
{
    broadcast use crate::value::group_value_views;

    let ghost docv = doc@;
    let records: Vec<JsonVal> = match doc {
        JsonVal::Arr(es) => es,
        JsonVal::Obj(_) => {
            let mut one: Vec<JsonVal> = Vec::new();
            one.push(doc);
            proof {
                assert(view_vals(one@) =~= seq![docv]);
            }
            one
        },
        _ => {
            assert(doc_records(docv) is None);
            return Err(
                ProcessorError::Schema(
                    String::from_str("the document is neither a JSON array nor a JSON object"),
                ),
            );
        },
    };
    let ghost recs = match doc_records(docv) {
        Option::Some(rs) => rs,
        Option::None => Seq::empty(),
    };
    assert(view_vals(records@) == recs);

    let t0 = match infer_table(&records, Some(crate::writer::SCHEMA_SAMPLE_CAP)) {
        Ok(t) => t,
        Err(e) => {
            return Err(e);
        },
    };
    let t1 = unnest_root(t0, root_path);
    let t2 = prune(&t1);
    let ghost rootv = match root_path {
        Option::Some(s) => Option::Some(s@),
        Option::None => Option::<Seq<char>>::None,
    };
    proof {
        assert(t2@ =~= pre_repair(recs, rootv));
    }
    let t3 = match repair_byte_lists(&t2) {
        Ok(t) => t,
        Err(e) => {
            return Err(e);
        },
    };
    proof {
        assert(t3@ == final_table(recs, rootv));
    }
    if t3.nrows == 0 {
        return Ok(ParquetOutput { rows: 0, cols: 0, file: None });
    }
    match write_table(&t3, codec, stats) {
        Ok((bytes, shape)) => Ok(
            ParquetOutput { rows: shape.0, cols: shape.1, file: Some(bytes) },
        ),
        Err(e) => Err(e),
    }
}

/// Runs the engine over one raw JSON byte buffer, with the high-speed
/// codec and full statistics (minimum, maximum and null count — never a
/// distinct count). A `Parse` error comes back exactly when the bytes are
/// not valid JSON; on a decoded document the engine's promises hold of it
/// (see `engine_ok` and `engine_err`).
pub fn process_json_to_parquet(raw: &Vec<u8>, root_path: Option<&str>) -> (r: Result<
    ParquetOutput,
    ProcessorError,
>)
    ensures
        ({
            let rootv = match root_path {
                Option::Some(s) => Option::Some(s@),
                Option::None => Option::<Seq<char>>::None,
            };
            &&& ((r matches Err(e) && e matches ProcessorError::Parse(_)) <==> parsed_doc(
                raw@,
            ) is None)
            &&& (parsed_doc(raw@) matches Option::Some(doc) ==> {
                &&& (doc_records(doc) matches Option::Some(records) && all_objects(records)
                    && pre_repair(records, rootv).nrows == 0 ==> r matches Ok(_))
                &&& match r {
                    Ok(out) => engine_ok(doc, rootv, false, full_stats(), out),
                    Err(e) => engine_err(doc, rootv, false, full_stats(), e),
                }
            })
            &&& (r matches Err(e) ==> !(e matches ProcessorError::Io(_)))
        }),
{
    let doc = match crate::writer::parse_json(raw) {
        Ok(v) => v,
        Err(msg) => {
            return Err(ProcessorError::Parse(msg));
        },
    };
    let stats = StatsFlags { min_value: true, max_value: true, null_count: true };
    process_value(doc, root_path, &Codec::HighSpeed, &stats)
}

/// Runs the simple envelope variant over one decoded document: the record
/// list is expected directly under the `resultado` key; an empty list
/// reports `(0, 0)` and produces no file; otherwise the inferred table
/// (schema read over the entire list) is written as exactly its Parquet
/// image. No unnesting, pruning or repair is applied. Fails with a
/// `Schema` error exactly when the document has no `resultado` list or
/// some record in it is not an object, and with a `Serialization` error
/// exactly when the encoder yields no image.
pub fn process_raw_value(doc: &JsonVal, codec: &Codec, stats: &StatsFlags) -> (r: Result<
    ParquetOutput,
    ProcessorError,
>)
    ensures
        (record_field(doc@, "resultado"@) matches SpecVal::Arr(es) && all_objects(es) && es.len()
            == 0 ==> r matches Ok(_)),
        match r {
            Ok(out) => record_field(doc@, "resultado"@) matches SpecVal::Arr(es) && {
                &&& all_objects(es)
                &&& out.rows as nat == es.len()
                &&& (es.len() == 0 ==> out.rows == 0 && out.cols == 0 && out.file is None)
                &&& (es.len() > 0 ==> {
                    &&& out.cols as nat == spec_infer(es, es.len() as int).cols.len()
                    &&& table_encodable(
                        spec_infer(es, es.len() as int),
                        *codec matches Codec::HighRatio,
                        *stats,
                    )
                    &&& out.file matches Option::Some(b) && is_table_image(
                        spec_infer(es, es.len() as int),
                        *codec matches Codec::HighRatio,
                        *stats,
                        b@,
                    )
                })
            },
            Err(e) => {
                &&& !(e matches ProcessorError::Io(_))
                &&& !(e matches ProcessorError::Parse(_))
                &&& !(e matches ProcessorError::Encoding(_))
                &&& ((e matches ProcessorError::Schema(_)) <==> (!(record_field(
                    doc@,
                    "resultado"@,
                ) matches SpecVal::Arr(_)) || (record_field(doc@, "resultado"@)
                    matches SpecVal::Arr(es) && !all_objects(es))))
                &&& ((e matches ProcessorError::Serialization(_)) <==> (record_field(
                    doc@,
                    "resultado"@,
                ) matches SpecVal::Arr(es) && all_objects(es) && es.len() > 0 && !table_encodable(
                    spec_infer(es, es.len() as int),
                    *codec matches Codec::HighRatio,
                    *stats,
                )))
            },
        },
{
    broadcast use crate::value::group_value_views;

    let field = doc.get_field("resultado");
    match field {
        JsonVal::Arr(es) => {
            proof {
                assert(record_field(doc@, "resultado"@) == SpecVal::Arr(view_vals(es@)));
            }
            if es.len() == 0 {
                return Ok(ParquetOutput { rows: 0, cols: 0, file: None });
            }
            let t = match infer_table(es, None) {
                Ok(t) => t,
                Err(e) => {
                    return Err(e);
                },
            };
            proof {
                assert(view_vals(es@).take(view_vals(es@).len() as int) =~= view_vals(es@));
            }
            match write_table(&t, codec, stats) {
                Ok((bytes, shape)) => Ok(
                    ParquetOutput { rows: shape.0, cols: shape.1, file: Some(bytes) },
                ),
                Err(e) => Err(e),
            }
        },
        _ => {
            proof {
                match record_field(doc@, "resultado"@) {
                    SpecVal::Null => {},
                    SpecVal::Bool(_) => {},
                    SpecVal::Int(_) => {},
                    SpecVal::Num(_) => {},
                    SpecVal::Text(_) => {},
                    SpecVal::Arr(_) => {},
                    SpecVal::Obj(_) => {},
                }
            }
            Err(
                ProcessorError::Schema(
                    String::from_str("the document holds no `resultado` record list"),
                ),
            )
        },
    }
}

/// Runs the simple envelope variant over one raw JSON byte buffer, with
/// the high-ratio codec and full statistics. A `Parse` error comes back
/// exactly when the bytes are not valid JSON; on a decoded document the
/// promises of `process_raw_value` hold of it.
pub fn process_raw_to_parquet(raw: &Vec<u8>) -> (r: Result<ParquetOutput, ProcessorError>)
    ensures
        ((r matches Err(e) && e matches ProcessorError::Parse(_)) <==> parsed_doc(raw@) is None),
        (parsed_doc(raw@) matches Option::Some(doc) ==> {
            &&& (record_field(doc, "resultado"@) matches SpecVal::Arr(es) && all_objects(es)
                && es.len() == 0 ==> r matches Ok(_))
            &&& match r {
                Ok(out) => record_field(doc, "resultado"@) matches SpecVal::Arr(es) && {
                    &&& all_objects(es)
                    &&& out.rows as nat == es.len()
                    &&& (es.len() == 0 ==> out.cols == 0 && out.file is None)
                    &&& (es.len() > 0 ==> {
                        &&& out.cols as nat == spec_infer(es, es.len() as int).cols.len()
                        &&& table_encodable(spec_infer(es, es.len() as int), true, full_stats())
                        &&& out.file matches Option::Some(b) && is_table_image(
                            spec_infer(es, es.len() as int),
                            true,
                            full_stats(),
                            b@,
                        )
                    })
                },
                Err(e) => {
                    &&& !(e matches ProcessorError::Io(_))
                    &&& !(e matches ProcessorError::Encoding(_))
                    &&& ((e matches ProcessorError::Schema(_)) <==> (!(record_field(
                        doc,
                        "resultado"@,
                    ) matches SpecVal::Arr(_)) || (record_field(doc, "resultado"@)
                        matches SpecVal::Arr(es) && !all_objects(es))))
                    &&& ((e matches ProcessorError::Serialization(_)) <==> (record_field(
                        doc,
                        "resultado"@,
                    ) matches SpecVal::Arr(es) && all_objects(es) && es.len() > 0
                        && !table_encodable(spec_infer(es, es.len() as int), true, full_stats())))
                },
            }
        }),
        (r matches Err(e) ==> !(e matches ProcessorError::Io(_))),
{
    let doc = match crate::writer::parse_json(raw) {
        Ok(v) => v,
        Err(msg) => {
            return Err(ProcessorError::Parse(msg));
        },
    };
    let stats = StatsFlags { min_value: true, max_value: true, null_count: true };
    process_raw_value(&doc, &Codec::HighRatio, &stats)
}

} // verus!
