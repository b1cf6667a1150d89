# iceberg_projection

Decides which columns of a Parquet file a table scan reads, with Verus proofs of what is decided.

- `reader`: masks over the columns of a file, and the columns by field id. Start here.
- `projection`, `promotion`: the decisions, on plain values.
- `field_map`, `field_ids`: columns by field id; ids for files that carry none.
- `arrow_convert`: the table schema that an Arrow schema stands for.
- `schema`, `predicate`, `name_mapping`, `error`, `text`: the values that these work on.
- `parquet_file`, `arrow_file`, `arrow_tree`: schemas of files, and what is trusted of the crates
  that own them.
- `laws`: what holds of projections as a whole; `laws::naming`, `laws::untouched` and
  `laws::without_ids` go into single matters.
