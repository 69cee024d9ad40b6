//! Destination sessions: the statements and names they use, what they count,
//! and how they end.
use arrow_array::{ArrayRef, Int64Array, RecordBatch, StringArray};
use arrow_schema::{DataType, Field, Schema};
use data_spark::alignment::{
    align_batch_to_destination_schema, align_batch_to_duckdb_schema, align_columns,
    parquet_align_failure, ChunkColumn, DestinationColumn, RecordChunk,
};
use data_spark::destination::{DestinationWriteFailure, Transience};
use data_spark::duckdb::{
    quote_identifier, DuckDbAppendSession, DuckDbFullRefreshSession, DuckDbMergeSession,
    DuckDbTable, MergeAction, MergeCommit, MergeProgress,
};
use data_spark::failure::LoadFailure;
use data_spark::parquet::{
    existing_parquet_schema, is_parquet_part, ParquetAppendProgress, ParquetFullRefreshProgress,
};
use data_spark::token::{
    merge_stage_name, new_load_id, new_merge_stage, new_part_names, new_staging_directory,
    part_names, staging_directory_name,
};
use serde_json::Value;
use std::sync::Arc;

fn json(text: &str) -> Value {
    serde_json::from_str(text).expect("test json")
}

fn table() -> DuckDbTable {
    DuckDbTable {
        path: "data/customers.duckdb".to_string(),
        dataset: "cust\"omers".to_string(),
    }
}

fn texts(items: &[&str]) -> Vec<String> {
    items.iter().map(|item| item.to_string()).collect()
}

#[test]
fn identifiers_are_quoted_with_their_quotes_doubled() {
    assert_eq!(quote_identifier("customers"), "\"customers\"");
    assert_eq!(quote_identifier(""), "\"\"");
    assert_eq!(quote_identifier("a\"b\"\"c"), "\"a\"\"b\"\"\"\"c\"");
    assert_ne!(quote_identifier("a\""), quote_identifier("a\"\""));
    assert_eq!(table().quoted_dataset(), "\"cust\"\"omers\"");
}

#[test]
fn a_full_refresh_replaces_with_its_first_chunk_and_extends_with_the_others() {
    let table = table();
    let mut session = DuckDbFullRefreshSession::new();
    assert_eq!(
        session.chunk_statement(&table),
        "CREATE OR REPLACE TABLE \"cust\"\"omers\" AS SELECT * FROM arrow(?, ?)"
    );
    session.chunk_written(3);
    assert_eq!(
        session.chunk_statement(&table),
        "INSERT INTO \"cust\"\"omers\" SELECT * FROM arrow(?, ?)"
    );
    session.chunk_written(1);

    let failure = session.replace_failure(&table, "type mismatch");
    assert_eq!(
        failure.failure.message,
        "failed to replace DuckDB table cust\"omers in data/customers.duckdb: type mismatch"
    );
    assert_eq!(failure.written_records, 0);
    assert_eq!(failure.committed_chunks, 0);
    assert_eq!(failure.transience, Transience::Terminal);
    let failure = session.commit_failure(&table, "disk full");
    assert_eq!(
        failure.failure.message,
        "failed to commit the DuckDB replace of table cust\"omers in data/customers.duckdb: \
         disk full"
    );

    let failure = session
        .committed(&table, Err("busy".to_string()))
        .err()
        .expect("the close fails after the commit");
    assert_eq!(failure.written_records, 4);
    assert_eq!(failure.committed_chunks, 2);
    assert_eq!(
        failure.facts.report_value(),
        json(r#"{ "atomicity": "atomic", "strategy": "transactional_replace" }"#)
    );
    assert_eq!(
        failure.failure.message,
        "failed to close DuckDB database data/customers.duckdb: busy"
    );

    let write = DuckDbFullRefreshSession::new().committed(&table, Ok(())).expect("committed");
    assert_eq!(write.bytes_written, None);
    let abandoned = DuckDbFullRefreshSession::new().abandon();
    assert_eq!(abandoned.committed_chunks, 0);
    assert_eq!(
        abandoned.facts.report_value(),
        json(r#"{ "atomicity": "not_applicable" }"#)
    );
}

fn mismatch() -> LoadFailure {
    LoadFailure {
        code: "destination_write_failed",
        message: "mismatch".to_string(),
    }
}

fn assert_prefix(failure: &DestinationWriteFailure, strategy: &str, chunks: u64, records: u64) {
    assert_eq!(failure.committed_chunks, chunks);
    assert_eq!(failure.written_records, records);
    assert_eq!(failure.facts.report_value()["strategy"], strategy);
}

#[test]
fn an_append_session_reports_its_committed_prefix() {
    let table = table();
    let mut session = DuckDbAppendSession::new();
    assert_eq!(
        session.chunk_statement(&table),
        "INSERT INTO \"cust\"\"omers\" BY NAME SELECT * FROM arrow(?, ?)"
    );
    let untouched = session.chunk_failure(mismatch());
    assert_eq!(
        untouched.facts.report_value(),
        json(r#"{ "atomicity": "not_applicable" }"#)
    );
    session.chunk_committed(5);
    assert_prefix(&session.chunk_failure(mismatch()), "insert", 1, 5);
    let failure = session.append_failure(&table, "constraint");
    assert_prefix(&failure, "insert", 1, 5);
    assert_eq!(
        failure.failure.message,
        "failed to append to DuckDB table cust\"omers in data/customers.duckdb: constraint"
    );
    let abandoned = session.abandon();
    assert_eq!(abandoned.committed_chunks, 1);
    assert_eq!(abandoned.written_records, 5);
    assert_eq!(abandoned.facts.report_value()["strategy"], "insert");

    let abandoned = DuckDbAppendSession::new().abandon();
    assert_eq!(
        abandoned.facts.report_value(),
        json(r#"{ "atomicity": "not_applicable" }"#)
    );
    let failure = DuckDbAppendSession::new()
        .committed(&table, Err("busy".to_string()))
        .err()
        .expect("the close fails");
    assert_prefix(&failure, "insert", 0, 0);
    let write = DuckDbAppendSession::new().committed(&table, Ok(())).expect("committed");
    assert_eq!(write.facts.report_value()["atomicity"], "best_effort");
}

#[test]
fn sessions_write_a_chunk_through_their_statement() {
    let table = table();
    let mut refresh = DuckDbFullRefreshSession::new();
    let mut ran = Vec::new();
    refresh
        .write_chunk(&table, |statement| {
            ran.push(statement.to_string());
            Ok(())
        })
        .expect("the first chunk is written");
    refresh.chunk_written(1);
    let failure = refresh
        .write_chunk(&table, |statement| {
            ran.push(statement.to_string());
            Err("type mismatch".to_string())
        })
        .expect_err("the second chunk fails");
    assert_eq!(
        ran,
        vec![
            "CREATE OR REPLACE TABLE \"cust\"\"omers\" AS SELECT * FROM arrow(?, ?)",
            "INSERT INTO \"cust\"\"omers\" SELECT * FROM arrow(?, ?)",
        ]
    );
    assert_eq!(failure.facts.report_value()["strategy"], "transactional_replace");

    let mut append = DuckDbAppendSession::new();
    append.chunk_committed(4);
    let failure = append
        .write_chunk(&table, || Err::<(), _>(mismatch()), |_, _| panic!("nothing to insert"))
        .expect_err("the chunk does not align");
    assert_prefix(&failure, "insert", 1, 4);
    let failure = append
        .write_chunk(&table, || Ok(7), |_, batch| Err(format!("batch {batch} refused")))
        .expect_err("the insert fails");
    assert_eq!(
        failure.failure.message,
        "failed to append to DuckDB table cust\"omers in data/customers.duckdb: batch 7 refused"
    );
    assert!(append.write_chunk(&table, || Ok(7), |_, _| Ok(())).is_ok());

    let merge = merge_session();
    let failure = merge
        .write_chunk(|| Err::<(), _>(mismatch()), |_, _| Ok(()))
        .expect_err("the chunk does not align");
    assert_eq!(failure.failure.message, "mismatch");
    assert_eq!(failure.facts.report_value()["strategy"], "transactional_merge");
    let failure = merge
        .write_chunk(|| Ok(()), |_, _| Err("full".to_string()))
        .expect_err("the stage is full");
    assert_eq!(
        failure.failure.message,
        "failed to stage merge records for DuckDB table customers in customers.duckdb: full"
    );
}

#[test]
fn a_full_refresh_closes_only_after_its_commit() {
    let table = table();
    let session = || {
        let mut session = DuckDbFullRefreshSession::new();
        session.chunk_written(3);
        session
    };
    let failure = session()
        .commit(&table, |_| Err("disk full".to_string()), || panic!("not committed"))
        .err()
        .expect("the commit fails");
    assert_eq!(failure.written_records, 0);
    let failure = session()
        .commit(
            &table,
            |statement| {
                assert_eq!(statement, "COMMIT");
                Ok(())
            },
            || Err("busy".to_string()),
        )
        .err()
        .expect("the close fails");
    assert_eq!(failure.written_records, 3);
    assert_eq!(failure.committed_chunks, 1);
    assert!(session().commit(&table, |_| Ok(()), || Ok(())).is_ok());
}

#[test]
fn a_part_is_aligned_staged_and_renamed() {
    let mut progress = ParquetAppendProgress::new();
    let path = "out/part-1.parquet";
    let cleared = std::cell::Cell::new(0);
    let clear = || cleared.set(cleared.get() + 1);
    assert_eq!(
        progress
            .write_part(path, || Ok(3), |batch| Ok(batch * 10), || Ok(()), clear)
            .expect("the part is written"),
        30
    );
    assert_eq!(cleared.get(), 0);
    progress.part_committed(3, 30);
    let failure = progress
        .write_part(path, || Err::<u64, _>(mismatch()), |_| Ok(0), || Ok(()), clear)
        .expect_err("the chunk does not align");
    assert_prefix(&failure, "staged_part_append", 1, 3);
    assert_eq!(cleared.get(), 0, "nothing was staged");
    let failure = progress
        .write_part(path, || Ok(3), |_| Err(mismatch()), || Ok(()), clear)
        .expect_err("the part cannot be staged");
    assert_eq!(failure.failure.message, "mismatch");
    assert_eq!(cleared.get(), 1);
    let failure = progress
        .write_part(path, || Ok(3), |_| Ok(0), || Err("denied".to_string()), clear)
        .expect_err("the part cannot be renamed");
    assert_eq!(
        failure.failure.message,
        "failed to commit Parquet part out/part-1.parquet: denied"
    );
    assert_eq!(cleared.get(), 2);
}

#[test]
fn tables_are_inspected_and_opened_with_their_own_messages() {
    let table = table();
    assert_eq!(table.inspect_statement(), "SELECT * FROM \"cust\"\"omers\" LIMIT 0");
    assert_eq!(
        table.inspect_failure("merge", "no such table").message,
        "failed to inspect DuckDB table cust\"omers in data/customers.duckdb before merge: \
         no such table"
    );
    assert_eq!(
        table.open_failure("locked").message,
        "failed to open DuckDB database data/customers.duckdb: locked"
    );
    assert_eq!(
        table.align_failure("append", "bad length").message,
        "failed to align append records with DuckDB destination cust\"omers in \
         data/customers.duckdb: bad length"
    );
    assert_eq!(
        table.begin_failure("replace", "locked").message,
        "failed to begin the DuckDB replace transaction in data/customers.duckdb: locked"
    );
}

fn merge_session() -> DuckDbMergeSession {
    DuckDbMergeSession::new(
        DuckDbTable {
            path: "customers.duckdb".to_string(),
            dataset: "customers".to_string(),
        },
        texts(&["id", "region"]),
        "stage_1".to_string(),
    )
}

#[test]
fn merge_statements_spell_the_keys_and_the_columns() {
    let session = merge_session();
    assert_eq!(session.stage_reference(), "temp.main.\"stage_1\"");
    assert_eq!(
        session.stage_statement(),
        "CREATE TEMPORARY TABLE \"stage_1\" AS SELECT * FROM \"customers\" LIMIT 0"
    );
    assert_eq!(
        session.stage_failure("locked").message,
        "failed to create the DuckDB merge stage for table customers in customers.duckdb: locked"
    );
    assert_eq!(
        session.chunk_statement(),
        "INSERT INTO temp.main.\"stage_1\" BY NAME SELECT * FROM arrow(?, ?)"
    );
    assert_eq!(
        session.key_equality(),
        "merge_target.\"id\" = merge_source.\"id\" AND \
         merge_target.\"region\" = merge_source.\"region\""
    );
    assert_eq!(
        session.colliding_records_sql(),
        "SELECT count(*) FROM (SELECT count(*) OVER (PARTITION BY \"id\", \"region\") \
         AS key_tuple_records FROM temp.main.\"stage_1\") AS keyed WHERE key_tuple_records > 1"
    );
    assert_eq!(
        session.matched_records_sql(),
        "SELECT count(*) FROM temp.main.\"stage_1\" AS merge_source WHERE EXISTS \
         (SELECT 1 FROM \"customers\" AS merge_target WHERE \
         merge_target.\"id\" = merge_source.\"id\" AND \
         merge_target.\"region\" = merge_source.\"region\")"
    );
    assert_eq!(
        session.merge_sql(&texts(&["id", "name", "region", "total"])),
        "MERGE INTO \"customers\" AS merge_target USING temp.main.\"stage_1\" AS merge_source \
         ON merge_target.\"id\" = merge_source.\"id\" AND \
         merge_target.\"region\" = merge_source.\"region\" \
         WHEN MATCHED THEN UPDATE SET \"name\" = merge_source.\"name\", \
         \"total\" = merge_source.\"total\" \
         WHEN NOT MATCHED THEN INSERT (\"id\", \"name\", \"region\", \"total\") VALUES \
         (merge_source.\"id\", merge_source.\"name\", merge_source.\"region\", \
         merge_source.\"total\")"
    );
    assert_eq!(
        session.merge_sql(&texts(&["region", "id"])),
        "MERGE INTO \"customers\" AS merge_target USING temp.main.\"stage_1\" AS merge_source \
         ON merge_target.\"id\" = merge_source.\"id\" AND \
         merge_target.\"region\" = merge_source.\"region\" \
         WHEN NOT MATCHED THEN INSERT (\"region\", \"id\") VALUES \
         (merge_source.\"region\", merge_source.\"id\")",
        "with every column a key there is nothing to update"
    );
}

fn staged_commit() -> MergeCommit {
    let mut session = merge_session();
    session.chunk_staged(4);
    session.chunk_staged(2);
    MergeCommit::new(session, texts(&["id", "name", "region"]))
}

fn next(progress: MergeProgress) -> MergeCommit {
    match progress {
        MergeProgress::Next(commit) => commit,
        MergeProgress::Committed(_) => panic!("the commit has not ended yet"),
        MergeProgress::Failed(failure) => panic!("the commit failed: {failure:?}"),
    }
}

fn failed(progress: MergeProgress) -> DestinationWriteFailure {
    match progress {
        MergeProgress::Failed(failure) => failure,
        _ => panic!("the commit fails"),
    }
}

#[test]
fn a_merge_commits_step_by_step_and_partitions_its_records() {
    let commit = staged_commit();
    assert!(matches!(commit.action(), MergeAction::Query(sql) if sql.contains("key_tuple_records")));
    let commit = commit.counted(Ok(0)).expect("no collision");
    assert!(matches!(commit.action(), MergeAction::Query(sql) if sql.contains("WHERE EXISTS")));
    let commit = commit.counted(Ok(4)).expect("matches counted");
    assert!(matches!(commit.action(), MergeAction::Execute(sql) if sql.starts_with("MERGE INTO")));
    let commit = next(commit.executed(Ok(())));
    assert!(matches!(commit.action(), MergeAction::Execute(sql) if sql == "COMMIT"));
    let commit = next(commit.executed(Ok(())));
    assert!(matches!(commit.action(), MergeAction::Close));
    match commit.executed(Ok(())) {
        MergeProgress::Committed(write) => assert_eq!(
            write.facts.report_value(),
            json(
                r#"{
                    "atomicity": "atomic",
                    "strategy": "transactional_merge",
                    "merge": { "updated": 4, "inserted": 2 }
                }"#
            )
        ),
        _ => panic!("the merge is committed"),
    }
}

#[test]
fn a_merge_fails_on_colliding_keys_before_anything_is_visible() {
    let failure = staged_commit().counted(Ok(2)).err().expect("keys collide");
    assert_eq!(failure.failure.code, "duplicate_merge_keys");
    assert_eq!(
        failure.failure.message,
        "2 surviving records share a merge key tuple with another surviving record for DuckDB \
         table customers in customers.duckdb"
    );
    assert_eq!(failure.written_records, 0);
    assert_eq!(failure.facts.report_value()["strategy"], "transactional_merge");
}

#[test]
fn every_step_of_a_merge_fails_with_its_own_message() {
    let message = |failure: DestinationWriteFailure| failure.failure.message;
    let gone = || Err("gone".to_string());
    let failure = staged_commit().counted(Err("gone".to_string())).err().expect("fails");
    assert_eq!(
        message(failure),
        "failed to check merge key uniqueness for DuckDB table customers in customers.duckdb: gone"
    );
    let counting = || staged_commit().counted(Ok(0)).expect("no collision");
    let failure = counting().counted(Err("gone".to_string())).err().expect("fails");
    assert_eq!(
        message(failure),
        "failed to count matched merge records for DuckDB table customers in customers.duckdb: gone"
    );
    let merging = || counting().counted(Ok(6)).expect("all match");
    assert_eq!(
        message(failed(merging().executed(gone()))),
        "failed to merge into DuckDB table customers in customers.duckdb: gone"
    );
    let committing = || next(merging().executed(Ok(())));
    assert_eq!(
        message(failed(committing().executed(gone()))),
        "failed to commit the merge of DuckDB table customers in customers.duckdb: gone"
    );
    let closing = next(committing().executed(Ok(())));
    let failure = failed(closing.executed(gone()));
    assert_eq!(failure.written_records, 6, "the merge was committed before the close failed");
    assert_eq!(failure.committed_chunks, 2);
    assert_eq!(failure.failure.message, "failed to close DuckDB database customers.duckdb: gone");
    assert_eq!(merge_session().abandon().committed_chunks, 0);
}

fn column(name: &str, data_type: DataType, null_count: usize) -> ChunkColumn {
    ChunkColumn {
        name: name.to_string(),
        held_type: data_type.clone(),
        data_type,
        null_count,
    }
}

fn destination(name: &str, data_type: DataType, nullable: bool) -> DestinationColumn {
    DestinationColumn { name: name.to_string(), data_type, nullable }
}

#[test]
fn columns_align_by_name_with_exact_types() {
    let columns = vec![
        column("name", DataType::Utf8, 1),
        column("id", DataType::Int64, 0),
    ];
    let matching = vec![
        destination("id", DataType::Int64, false),
        destination("name", DataType::Utf8, true),
    ];
    assert_eq!(align_columns(&columns, &matching), Some(vec![1, 0]));

    let renamed = vec![
        destination("id", DataType::Int64, false),
        destination("label", DataType::Utf8, true),
    ];
    assert_eq!(align_columns(&columns, &renamed), None);
    let retyped = vec![
        destination("id", DataType::Int32, false),
        destination("name", DataType::Utf8, true),
    ];
    assert_eq!(align_columns(&columns, &retyped), None);
    let required = vec![
        destination("id", DataType::Int64, false),
        destination("name", DataType::Utf8, false),
    ];
    assert_eq!(align_columns(&columns, &required), None, "a required column takes no nulls");
    let narrower = vec![destination("id", DataType::Int64, false)];
    assert_eq!(align_columns(&columns, &narrower), None, "no column is left out");
}

fn named_chunk(names: Vec<Option<&str>>) -> RecordChunk {
    let ids: Vec<i64> = (0..names.len() as i64).collect();
    let schema = Schema::new(vec![
        Field::new("name", DataType::Utf8, true),
        Field::new("id", DataType::Int64, true),
    ]);
    let columns: Vec<ArrayRef> = vec![
        Arc::new(StringArray::from(names)),
        Arc::new(Int64Array::from(ids)),
    ];
    RecordChunk {
        batch: RecordBatch::try_new(Arc::new(schema), columns).expect("test batch"),
    }
}

fn schema(fields: Vec<Field>) -> Arc<Schema> {
    Arc::new(Schema::new(fields))
}

#[test]
fn chunks_are_put_under_the_schema_of_their_destination() {
    let destination = schema(vec![
        Field::new("id", DataType::Int64, false),
        Field::new("name", DataType::Utf8, true),
    ]);
    let chunk = named_chunk(vec![Some("Ada"), None]);
    let aligned = align_batch_to_destination_schema("out", &chunk, &destination)
        .expect("the chunk aligns");
    assert_eq!(aligned.batch.schema(), destination);
    assert_eq!(aligned.batch.num_rows(), 2);
    let ids = aligned.batch.column(0).as_any().downcast_ref::<Int64Array>().expect("ids");
    assert_eq!(ids.values().to_vec(), vec![0, 1]);
    assert_eq!(aligned.batch.column(0).null_count(), 0);
    assert_eq!(aligned.batch.column(1).null_count(), 1, "a column keeps its nulls");
    let aligned = align_batch_to_duckdb_schema(&table(), &chunk, &destination, "append")
        .expect("the chunk aligns");
    assert_eq!(aligned.batch.schema(), destination);

    let required = schema(vec![
        Field::new("id", DataType::Int64, false),
        Field::new("name", DataType::Utf8, false),
    ]);
    let failure = align_batch_to_destination_schema("out", &chunk, &required)
        .err()
        .expect("a required column takes no nulls");
    assert_eq!(failure.message, "append schema does not match Parquet destination out");
    assert!(align_batch_to_destination_schema(
        "out",
        &named_chunk(vec![Some("Ada"), Some("Grace")]),
        &required
    )
    .is_ok());
    let narrower = schema(vec![Field::new("id", DataType::Int64, false)]);
    let failure = align_batch_to_duckdb_schema(&table(), &chunk, &narrower, "merge")
        .err()
        .expect("mismatch");
    assert_eq!(
        failure.message,
        "merge schema does not match DuckDB destination cust\"omers in data/customers.duckdb"
    );
}

#[test]
fn a_chunk_without_columns_cannot_be_rebuilt() {
    let options = arrow_array::RecordBatchOptions::new().with_row_count(Some(3));
    let empty = RecordChunk {
        batch: RecordBatch::try_new_with_options(schema(Vec::new()), Vec::new(), &options)
            .expect("a batch of rows alone"),
    };
    let failure = align_batch_to_destination_schema("out", &empty, &schema(Vec::new()))
        .err()
        .expect("nothing to rebuild from");
    assert!(
        failure.message.starts_with(
            "failed to align append records with Parquet destination out: Invalid argument error"
        ),
        "message {:?} names the step",
        failure.message
    );
    assert_eq!(
        parquet_align_failure("out", "bad length").message,
        "failed to align append records with Parquet destination out: bad length"
    );
}

#[test]
fn the_parts_of_a_dataset_share_one_schema() {
    let schema = |name: &str| Arc::new(Schema::new(vec![Field::new(name, DataType::Int64, true)]));
    let existing = |parts: Vec<Result<Arc<Schema>, LoadFailure>>| {
        existing_parquet_schema(parts.into_iter(), "out")
    };
    assert_eq!(existing(Vec::new()).expect("an empty dataset"), None);
    assert_eq!(
        existing(vec![Ok(schema("id")), Ok(schema("id"))]).expect("one schema"),
        Some(schema("id"))
    );
    let failure = existing(vec![Ok(schema("id")), Ok(schema("key")), Err(mismatch())])
        .err()
        .expect("the second part differs");
    assert_eq!(failure.message, "Parquet destination out contains inconsistent schemas");
    let failure = existing(vec![Ok(schema("id")), Err(mismatch()), Ok(schema("key"))])
        .err()
        .expect("the second part cannot be read");
    assert_eq!(failure.message, "mismatch");
}

#[test]
fn parquet_parts_are_named_and_recognised() {
    let mut progress = ParquetFullRefreshProgress::new();
    assert_eq!(progress.part_name(), "part-00000.parquet");
    for _ in 0..12 {
        progress.part_staged(10);
    }
    assert_eq!(progress.part_name(), "part-00012.parquet");
    let wide = ParquetFullRefreshProgress { parts: 1234567, bytes_written: 0 };
    assert_eq!(wide.part_name(), "part-1234567.parquet");
    let write = progress
        .committed("out", Ok(()), || Ok(()))
        .expect("the destination is replaced");
    assert_eq!(write.bytes_written, Some(120));

    assert!(is_parquet_part("out/part-00000.parquet"));
    assert!(!is_parquet_part("out/.part-1.data-spark-staging.tmp"));
    assert!(!is_parquet_part("out/parquet"));
}

#[test]
fn a_parquet_full_refresh_renames_only_over_a_removed_destination() {
    let failure = ParquetFullRefreshProgress::new()
        .committed("out", Err("busy".to_string()), || {
            panic!("nothing is renamed over a destination that is still there")
        })
        .err()
        .expect("the removal fails");
    assert_eq!(failure.failure.message, "failed to replace existing destination out: busy");
    assert_eq!(
        failure.facts.report_value(),
        json(r#"{ "atomicity": "best_effort", "strategy": "staging_then_replace" }"#)
    );
    let failure = ParquetFullRefreshProgress::new()
        .committed("out", Ok(()), || Err("cross-device".to_string()))
        .err()
        .expect("the rename fails");
    assert_eq!(failure.failure.message, "failed to commit Parquet destination out: cross-device");
    assert_eq!(ParquetFullRefreshProgress::new().abandon().written_records, 0);
}

#[test]
fn a_parquet_append_reports_its_committed_parts() {
    let mut progress = ParquetAppendProgress::new();
    assert_eq!(progress.chunk_failure(mismatch()).committed_chunks, 0);
    progress.part_committed(3, 100);
    progress.part_committed(2, 50);
    assert_prefix(&progress.chunk_failure(mismatch()), "staged_part_append", 2, 5);
    let failure = progress.part_failure("out/part-1.parquet", "denied");
    assert_prefix(&failure, "staged_part_append", 2, 5);
    assert_eq!(
        failure.failure.message,
        "failed to commit Parquet part out/part-1.parquet: denied"
    );
    let abandoned = progress.abandon();
    assert_eq!((abandoned.committed_chunks, abandoned.written_records), (2, 5));
    let mut progress = ParquetAppendProgress::new();
    progress.part_committed(1, 9);
    let write = progress.committed();
    assert_eq!(write.bytes_written, Some(9));
    assert_eq!(write.facts.report_value()["strategy"], "staged_part_append");
}

#[test]
fn names_are_built_around_a_token() {
    assert_eq!(merge_stage_name("0f"), "data_spark_merge_stage_0f");
    assert_eq!(
        staging_directory_name(Some("customers"), "0f"),
        ".customers.data-spark-staging-0f"
    );
    assert_eq!(staging_directory_name(None, "0f"), ".dataset.data-spark-staging-0f");
    let names = part_names("0f");
    assert_eq!(names.staged, ".part-0f.data-spark-staging.tmp");
    assert_eq!(names.committed, "part-0f.parquet");
    assert!(!is_parquet_part(&names.staged));
    assert!(is_parquet_part(&names.committed));
}

#[test]
fn fresh_names_do_not_collide() {
    let (a, b) = (new_load_id(), new_load_id());
    assert_ne!(a, b);
    assert_eq!(a.len(), 36);
    for (at, c) in a.chars().enumerate() {
        if matches!(at, 8 | 13 | 18 | 23) {
            assert_eq!(c, '-');
        } else {
            assert!(c.is_ascii_digit() || ('a'..='f').contains(&c));
        }
    }
    let stage = new_merge_stage();
    let token = stage.strip_prefix("data_spark_merge_stage_").expect("stage prefix");
    assert_eq!(token.len(), 32);
    assert!(token.chars().all(|c| c.is_ascii_digit() || ('a'..='f').contains(&c)));
    assert_ne!(new_staging_directory(None), new_staging_directory(None));
    assert_ne!(new_part_names().committed, new_part_names().committed);
}

#[test]
fn columns_of_one_type_keep_their_values_under_their_names() {
    let numbers = Schema::new(vec![
        Field::new("b", DataType::Int64, true),
        Field::new("a", DataType::Int64, true),
    ]);
    let columns: Vec<ArrayRef> = vec![
        Arc::new(Int64Array::from(vec![20, 21])),
        Arc::new(Int64Array::from(vec![10, 11])),
    ];
    let chunk = RecordChunk {
        batch: RecordBatch::try_new(Arc::new(numbers), columns).expect("test batch"),
    };
    let destination = schema(vec![
        Field::new("a", DataType::Int64, true),
        Field::new("b", DataType::Int64, true),
    ]);
    let aligned = align_batch_to_destination_schema("out", &chunk, &destination)
        .expect("the chunk aligns");
    let values = |at: usize| {
        let column = aligned.batch.column(at).as_any().downcast_ref::<Int64Array>();
        column.expect("numbers").values().to_vec()
    };
    assert_eq!(values(0), vec![10, 11]);
    assert_eq!(values(1), vec![20, 21]);
}

#[test]
fn a_quoted_name_is_longer_by_its_quotes() {
    let quoted = quote_identifier("a\"b\"");
    assert_eq!(quoted, "\"a\"\"b\"\"\"");
    assert_eq!(quoted.len(), 4 + 2 + 2);
    assert_eq!(quoted[1..quoted.len() - 1].replace("\"\"", "\""), "a\"b\"");
}
