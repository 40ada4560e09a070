//! Normalization engine for JSON payloads fetched from heterogeneous data
//! APIs: locates the record list inside an envelope, flattens it into a
//! uniform tabular shape, repairs strings serialized as arrays of numeric
//! character codes, strips known metadata columns, and hands the result to a
//! columnar writer.

use vstd::prelude::*;

pub mod config;
pub mod errors;
pub mod infer;
pub mod pipeline;
pub mod prune;
pub mod repair;
pub mod unnest;
pub mod writer;
pub mod strutil;
pub mod table;
pub mod value;

pub use config::{ApiConfig, Config, EndpointGroup};
pub use errors::ProcessorError;
pub use pipeline::{process_json_to_parquet, process_raw_to_parquet, process_value, ParquetOutput};
pub use table::{ColField, ColType, Column, Table};
pub use value::JsonVal;
pub use writer::{write_table, Codec, StatsFlags};
