//! Load reports, and how they are summed up.
use data_spark::count::NonZeroPort;
use data_spark::definition::{
    DestinationDefinition, FileDestinationDefinition, SourceDefinition,
    SqlServerDestinationDefinition,
};
use data_spark::destination::DestinationWriteFacts;
use data_spark::failure::CommittedExecution;
use data_spark::report::{
    destination_summary, load_report, not_evaluated_schema_decision, source_summary, summary_lines,
    summary_text, ByteCounts, ExecutionDetails, LoadReport, RejectedRecordFacts, ReportableFailure,
    RowCounts, Timings, BINARY_VERSION, LOAD_REPORT_VERSION,
};
use serde_json::Value;

fn json(text: &str) -> Value {
    serde_json::from_str(text).expect("test json")
}

fn with_retry(text: &str, retry: Value) -> Value {
    let mut value = json(text);
    value.as_object_mut().expect("test object").insert("retry".to_string(), retry);
    value
}

fn timings() -> Timings {
    Timings {
        started_unix_ms: 100,
        finished_unix_ms: 250,
        duration_ms: 150,
    }
}

#[test]
fn from_success_reports_the_success_posture_around_the_execution_facts() {
    let details = ExecutionDetails {
        source_summary: json(r#"{ "connector": "local_file" }"#),
        destination_summary: json(r#"{ "connector": "parquet" }"#),
        dataset: Some("customers".to_string()),
        load_mode: "full_refresh".to_string(),
        schema_decision: json(r#"{ "mode": "inferred" }"#),
        row_counts: RowCounts {
            source: 3,
            written: 2,
            rejected: 1,
        },
        byte_counts: ByteCounts {
            source: Some(64),
            destination: Some(128),
        },
        rejected_count: 1,
        destination_write: DestinationWriteFacts::best_effort("replace_directory"),
        execution: json(r#"{ "record_format": "arrow_record_batch", "batch_count": 1 }"#),
    };

    let report = LoadReport::from_success(
        "load-under-test".to_string(),
        "artifacts/load-under-test".to_string(),
        timings(),
        details,
    );

    assert_eq!(report.report_version, LOAD_REPORT_VERSION);
    assert_eq!(report.binary_version, BINARY_VERSION);
    assert_eq!(report.load_id, "load-under-test");
    assert_eq!(report.artifact_dir, "artifacts/load-under-test");
    assert_eq!(report.source_summary, json(r#"{ "connector": "local_file" }"#));
    assert_eq!(
        report.destination_summary,
        json(r#"{ "connector": "parquet" }"#)
    );
    assert_eq!(report.dataset, Some("customers".to_string()));
    assert_eq!(report.load_mode, "full_refresh");
    assert_eq!(report.schema_decision, json(r#"{ "mode": "inferred" }"#));
    assert_eq!(report.row_counts.source, 3);
    assert_eq!(report.row_counts.written, 2);
    assert_eq!(report.row_counts.rejected, 1);
    assert_eq!(report.byte_counts.source, Some(64));
    assert_eq!(report.byte_counts.destination, Some(128));
    assert_eq!(report.rejected_records.count, 1);
    assert_eq!(
        report.rejected_records.artifact,
        Some("artifacts/load-under-test/rejected-records.jsonl".to_string())
    );
    assert_eq!(
        report.destination_write,
        json(r#"{ "atomicity": "best_effort", "strategy": "replace_directory" }"#)
    );
    assert_eq!(
        report.execution,
        json(r#"{ "record_format": "arrow_record_batch", "batch_count": 1 }"#)
    );
    assert_eq!(report.timings.started_unix_ms, 100);
    assert_eq!(report.timings.finished_unix_ms, 250);
    assert_eq!(report.timings.duration_ms, 150);
    assert_eq!(report.exit_status, "succeeded");
    assert_eq!(report.process_exit_code, 0);
    assert!(report.error_summary.is_none());
}

#[test]
fn from_success_reports_no_artifact_for_a_load_without_rejections() {
    let details = ExecutionDetails {
        source_summary: json(r#"{}"#),
        destination_summary: json(r#"{}"#),
        dataset: None,
        load_mode: "full_refresh".to_string(),
        schema_decision: json(r#"{ "mode": "inferred" }"#),
        row_counts: RowCounts {
            source: 2,
            written: 2,
            rejected: 0,
        },
        byte_counts: ByteCounts {
            source: Some(64),
            destination: Some(128),
        },
        rejected_count: 0,
        destination_write: DestinationWriteFacts::not_applicable(),
        execution: json(r#"{}"#),
    };

    let report = LoadReport::from_success(
        "load-under-test".to_string(),
        "artifacts/load-under-test".to_string(),
        timings(),
        details,
    );

    assert_eq!(report.rejected_records.count, 0);
    assert_eq!(report.rejected_records.artifact, None);
}

#[test]
fn from_failure_reports_the_failure_posture_around_the_error() {
    let failure = ReportableFailure {
        source_summary: json(r#"{ "connector": "local_file" }"#),
        destination_summary: json(r#"{ "connector": "parquet" }"#),
        dataset: Some("customers".to_string()),
        load_mode: "full_refresh".to_string(),
        schema_decision: not_evaluated_schema_decision(),
        source_rows: 0,
        written_records: 0,
        rejected_count: 0,
        committed_execution: None,
        retry: None,
        destination_write: DestinationWriteFacts::not_applicable(),
        code: "missing_source",
        message: "load definition source is required".to_string(),
    };

    let report = LoadReport::from_failure(
        "load-under-test".to_string(),
        "artifacts/load-under-test".to_string(),
        timings(),
        failure,
    );

    assert_eq!(report.report_version, LOAD_REPORT_VERSION);
    assert_eq!(report.binary_version, BINARY_VERSION);
    assert_eq!(report.load_id, "load-under-test");
    assert_eq!(report.artifact_dir, "artifacts/load-under-test");
    assert_eq!(report.source_summary, json(r#"{ "connector": "local_file" }"#));
    assert_eq!(
        report.destination_summary,
        json(r#"{ "connector": "parquet" }"#)
    );
    assert_eq!(report.dataset, Some("customers".to_string()));
    assert_eq!(report.load_mode, "full_refresh");
    assert_eq!(report.schema_decision, json(r#"{ "mode": "not_evaluated" }"#));
    assert_eq!(report.row_counts.source, 0);
    assert_eq!(report.row_counts.written, 0);
    assert_eq!(report.row_counts.rejected, 0);
    assert_eq!(report.byte_counts.source, None);
    assert_eq!(report.byte_counts.destination, None);
    assert_eq!(report.rejected_records.count, 0);
    assert_eq!(report.rejected_records.artifact, None);
    assert_eq!(
        report.destination_write,
        json(r#"{ "atomicity": "not_applicable" }"#)
    );
    assert_eq!(
        report.execution,
        json(r#"{ "record_format": "not_started", "batch_count": 0 }"#)
    );
    assert_eq!(report.timings.started_unix_ms, 100);
    assert_eq!(report.timings.finished_unix_ms, 250);
    assert_eq!(report.timings.duration_ms, 150);
    assert_eq!(report.exit_status, "failed");
    assert_eq!(report.process_exit_code, 1);
    let error = report
        .error_summary
        .expect("failed load report carries an error summary");
    assert_eq!(error.code, "missing_source");
    assert_eq!(error.message, "load definition source is required");
}

#[test]
fn from_failure_reports_the_rejection_facts_the_load_had_established() {
    let failure = ReportableFailure {
        source_summary: json(r#"{ "connector": "local_file" }"#),
        destination_summary: json(r#"{ "connector": "parquet" }"#),
        dataset: Some("customers".to_string()),
        load_mode: "full_refresh".to_string(),
        schema_decision: json(r#"{ "mode": "inferred" }"#),
        source_rows: 3,
        written_records: 0,
        rejected_count: 2,
        committed_execution: None,
        retry: None,
        destination_write: DestinationWriteFacts::not_applicable(),
        code: "reject_threshold_exceeded",
        message: "rejected 2 of 3 records, exceeding the reject threshold of 0".to_string(),
    };

    let report = LoadReport::from_failure(
        "load-under-test".to_string(),
        "artifacts/load-under-test".to_string(),
        timings(),
        failure,
    );

    assert_eq!(report.row_counts.source, 3);
    assert_eq!(report.row_counts.written, 0);
    assert_eq!(report.row_counts.rejected, 2);
    assert_eq!(report.rejected_records.count, 2);
    assert_eq!(
        report.rejected_records.artifact,
        Some("artifacts/load-under-test/rejected-records.jsonl".to_string())
    );
}

#[test]
fn from_failure_reports_the_committed_write_phase_posture() {
    let retry_story = json(r#"{
        "max_attempts": 3,
        "initial_delay_ms": 200,
        "max_delay_ms": 5000,
        "attempts": []
    }"#);
    let failure = ReportableFailure {
        source_summary: json(r#"{ "connector": "local_file" }"#),
        destination_summary: json(r#"{ "connector": "parquet" }"#),
        dataset: Some("customers".to_string()),
        load_mode: "append".to_string(),
        schema_decision: json(r#"{ "mode": "inferred" }"#),
        source_rows: 5,
        written_records: 2,
        rejected_count: 0,
        committed_execution: Some(CommittedExecution {
            committed_chunks: 2,
            chunk_rows: 1,
            parallelism: 1,
            connector_parallelism_limit: 1,
            retry: retry_story.clone(),
        }),
        retry: None,
        destination_write: DestinationWriteFacts::best_effort("staged_part_append"),
        code: "source_changed_during_load",
        message: "source changed during the load".to_string(),
    };

    let report = LoadReport::from_failure(
        "load-under-test".to_string(),
        "artifacts/load-under-test".to_string(),
        timings(),
        failure,
    );

    assert_eq!(
        report.execution,
        with_retry(
            r#"{
                "record_format": "arrow_record_batch",
                "batch_count": 2,
                "chunk_rows": 1,
                "parallelism": 1,
                "connector_parallelism_limit": 1
            }"#,
            retry_story
        )
    );
    assert_eq!(report.row_counts.written, 2);
}

#[test]
fn from_failure_states_a_not_started_retry_story_only_when_attempts_exist() {
    let retry_story = json(r#"{
        "max_attempts": 3,
        "initial_delay_ms": 200,
        "max_delay_ms": 5000,
        "attempts": [{
            "operation": "begin",
            "attempt": 1,
            "error": {
                "code": "destination_write_failed",
                "message": "connection shortage"
            }
        }]
    }"#);
    let failure = ReportableFailure {
        source_summary: json(r#"{}"#),
        destination_summary: json(r#"{}"#),
        dataset: None,
        load_mode: "append".to_string(),
        schema_decision: json(r#"{ "mode": "inferred" }"#),
        source_rows: 1,
        written_records: 0,
        rejected_count: 0,
        committed_execution: None,
        retry: Some(retry_story.clone()),
        destination_write: DestinationWriteFacts::not_applicable(),
        code: "destination_write_failed",
        message: "connection shortage".to_string(),
    };

    let report = LoadReport::from_failure(
        "load-under-test".to_string(),
        "artifacts/load-under-test".to_string(),
        timings(),
        failure,
    );

    assert_eq!(
        report.execution,
        with_retry(
            r#"{
                "record_format": "not_started",
                "batch_count": 0
            }"#,
            retry_story
        )
    );
}

#[test]
fn without_context_reports_empty_summaries_and_the_default_load_mode() {
    let failure = ReportableFailure::without_context(
        "load_definition_read_failed",
        "failed to read load definition: file is gone".to_string(),
    );

    assert_eq!(failure.source_summary, json(r#"{}"#));
    assert_eq!(failure.destination_summary, json(r#"{}"#));
    assert_eq!(failure.dataset, None);
    assert_eq!(failure.load_mode, "full_refresh");
    assert_eq!(failure.schema_decision, json(r#"{ "mode": "not_evaluated" }"#));
    assert_eq!(failure.code, "load_definition_read_failed");
    assert_eq!(
        failure.message,
        "failed to read load definition: file is gone"
    );
}

fn source_definition(format: Option<&str>) -> SourceDefinition {
    SourceDefinition {
        connector: "local_file".to_string(),
        path: "customers.csv".to_string(),
        format: format.map(str::to_string),
    }
}

#[test]
fn summaries_echo_the_definition_in_its_order() {
    let source = source_summary(Some(&source_definition(Some("csv"))));
    assert_eq!(
        source.to_string(),
        r#"{"connector":"local_file","path":"customers.csv","format":"csv"}"#
    );
    assert_eq!(summary_text(&source), "connector=local_file, path=customers.csv, format=csv");

    let unnamed = source_summary(Some(&source_definition(None)));
    assert_eq!(summary_text(&unnamed), "connector=local_file, path=customers.csv, format=null");

    assert_eq!(summary_text(&source_summary(None)), "not specified");
    assert_eq!(summary_text(&destination_summary(None)), "not specified");
    assert_eq!(summary_text(&json("[1, 2]")), "[1,2]");
}

#[test]
fn destination_summaries_never_hold_a_credential() {
    let file = DestinationDefinition::File(FileDestinationDefinition {
        connector: "parquet".to_string(),
        path: "out".to_string(),
    });
    assert_eq!(
        destination_summary(Some(&file)).to_string(),
        r#"{"connector":"parquet","path":"out"}"#
    );
    let server = DestinationDefinition::SqlServer(SqlServerDestinationDefinition {
        connector: "sqlserver".to_string(),
        host: Some("db.example.internal".to_string()),
        port: NonZeroPort::new(1444),
        database: Some("analytics".to_string()),
        schema: None,
        user: Some("loader".to_string()),
        password_env: Some("MSSQL_PASSWORD".to_string()),
        encryption: None,
        trust_server_certificate: Some(true),
        accept_datetime_rounding: None,
    });
    assert_eq!(
        destination_summary(Some(&server)),
        json(
            r#"{
                "connector": "sqlserver",
                "host": "db.example.internal",
                "port": 1444,
                "database": "analytics",
                "schema": null,
                "user": "loader",
                "password_env": "MSSQL_PASSWORD",
                "encryption": null,
                "trust_server_certificate": true,
                "accept_datetime_rounding": null
            }"#
        )
    );
}

#[test]
fn write_facts_state_a_merge_partition() {
    let facts = DestinationWriteFacts::atomic("transactional_merge").with_merge_counts(4, 2);
    assert_eq!(
        facts.report_value().to_string(),
        r#"{"atomicity":"atomic","strategy":"transactional_merge","merge":{"updated":4,"inserted":2}}"#
    );
}

#[test]
fn timings_never_run_backwards() {
    assert_eq!(Timings::between(100, 250).duration_ms, 150);
    assert_eq!(Timings::between(250, 100).duration_ms, 0);
}

#[test]
fn rejection_facts_name_an_artifact_only_where_there_is_one() {
    let facts = RejectedRecordFacts::facts(2, "runs/7/");
    assert_eq!(facts.artifact.as_deref(), Some("runs/7/rejected-records.jsonl"));
    assert_eq!(RejectedRecordFacts::facts(0, "runs/7").artifact, None);
    assert_eq!(
        RejectedRecordFacts::facts(1, "").artifact.as_deref(),
        Some("rejected-records.jsonl")
    );
}

#[test]
fn a_report_is_summed_up_line_by_line() {
    let failure = ReportableFailure {
        rejected_count: 2,
        source_rows: 3,
        ..ReportableFailure::without_context("reject_threshold_exceeded", "too many".to_string())
    };
    let report = load_report(
        "load-7".to_string(),
        "runs/load-7".to_string(),
        timings(),
        Err(failure),
    );
    assert_eq!(report.process_exit_code, 1);
    assert_eq!(
        summary_lines(&report),
        vec![
            "Data Spark load load-7",
            "Status: failed",
            "Load mode: full_refresh",
            "Source: not specified",
            "Destination: not specified",
            "Records read: 3",
            "Records written: 0",
            "Records rejected: 2",
            "Artifact directory: runs/load-7",
            "Load report: runs/load-7/load-report.json",
            "Rejected records artifact: runs/load-7/rejected-records.jsonl",
            "Error: too many",
        ]
    );
}

#[test]
fn definition_failures_have_their_own_codes() {
    let failure = ReportableFailure::definition_read_failure("file is gone");
    assert_eq!(failure.code, "load_definition_read_failed");
    assert_eq!(failure.message, "failed to read load definition: file is gone");
    let failure = ReportableFailure::definition_parse_failure("bad indentation");
    assert_eq!(failure.code, "invalid_load_definition_yaml");
    assert_eq!(failure.message, "failed to parse load definition: bad indentation");
}
