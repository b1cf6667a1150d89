//! Which columns of a Parquet file a table scan reads.
//!
//! A table has a schema whose fields carry ids, and a data file has columns that carry the same
//! ids, or none. [`reader::ArrowReader::get_arrow_projection_mask`] turns the fields that a scan
//! asks for, and those that its filter reads, into a mask over the columns of a file: by field id,
//! with a check that each column can be read at the type that the table has for it, or by position
//! for a file without ids. [`field_map`] finds single columns by id, and [`field_ids`] gives ids to
//! the columns of a file that has none, by a name mapping or by position.
//!
//! The schemas of files belong to the `parquet` and `arrow-schema` crates. [`parquet_file`] and
//! [`arrow_file`] hold everything that is taken on trust about them. [`laws`] holds what can be
//! said of projections as a whole.

pub mod arrow_convert;
pub mod arrow_file;
pub mod arrow_tree;
pub mod error;
pub mod field_ids;
pub mod field_map;
pub mod laws;
pub mod name_mapping;
pub mod parquet_file;
pub mod predicate;
pub mod projection;
pub mod promotion;
pub mod reader;
pub mod schema;
pub mod text;
