//! Whole loads, with everything outside handed in by the test.
use data_spark::connector::{DestinationConnector, DestinationPort};
use data_spark::count::NonZeroCount;
use data_spark::definition::{
    DestinationDefinition, ExecutionConfig, FileDestinationDefinition, LoadDefinition,
    SchemaConfig, SourceDefinition,
};
use data_spark::destination::{
    DestinationWriteFacts, DestinationWriteFailure, LoadMode, Transience,
};
use data_spark::dispatch::{WritePhaseFailure, WritePhaseOutcome, WrittenPhase};
use data_spark::failure::{reject_threshold_failure, ExecutionFailure, LoadFailure};
use data_spark::load::{
    admit_read, artifact_root, execute_load_definition, execute_supported_load, SourceRead,
};
use data_spark::report::{load_report, ExecutionDetails, Timings};
use data_spark::retry::{RetryAttempt, RetryPolicy, RetryUnit};
use data_spark::schema::{PinRead, PinnedSchemaWrite};
use data_spark::sqlserver::CredentialLookup;
use serde_json::Value;
use std::cell::RefCell;

fn json(text: &str) -> Value {
    serde_json::from_str(text).expect("test json")
}

type Definition = LoadDefinition<(), ()>;

fn threshold_definition(reject_threshold: Option<u64>) -> Definition {
    LoadDefinition {
        version: Some(1),
        source: Some(SourceDefinition {
            connector: "local_file".to_string(),
            path: "customers.csv".to_string(),
            format: Some("csv".to_string()),
        }),
        destination: Some(DestinationDefinition::File(FileDestinationDefinition {
            connector: "parquet".to_string(),
            path: "customers_dataset".to_string(),
        })),
        dataset: Some("customers".to_string()),
        load_mode: None,
        transform: None,
        schema: None,
        artifacts: None,
        execution: None,
        reject_threshold,
    }
}

/// What the load did outside, in order.
#[derive(Default)]
struct Outside {
    events: RefCell<Vec<String>>,
}

impl Outside {
    fn note(&self, event: &str) {
        self.events.borrow_mut().push(event.to_string());
    }
}

/// One of two records rejected, and a pinned schema file to write.
fn one_of_two_rejected(pin: Option<&str>) -> Result<SourceRead<u64>, ExecutionFailure> {
    Ok(SourceRead {
        schema_decision: json(r#"{ "mode": "inferred" }"#),
        pinned_schema_write: pin.map(|path| PinnedSchemaWrite {
            pinned_path: path.to_string(),
            yaml: "version: 1\n".to_string(),
        }),
        source_bytes: 13,
        source_rows: 2,
        rejected_count: 1,
        chunks: 1,
    })
}

fn written(chunks: u64) -> WrittenPhase {
    WrittenPhase {
        result: Ok(WritePhaseOutcome {
            bytes_written: Some(128),
            facts: DestinationWriteFacts::best_effort("staging_then_replace"),
            chunk_count: chunks,
        }),
        attempts: Vec::new(),
    }
}

fn run(
    definition: &Definition,
    outside: &Outside,
    read: Result<SourceRead<u64>, ExecutionFailure>,
    persisted: Result<(), LoadFailure>,
    write: impl FnOnce(u64) -> WrittenPhase,
) -> Result<ExecutionDetails, ExecutionFailure> {
    execute_supported_load(
        definition,
        &[],
        |name: &str| {
            outside.note(&format!("look up {name}"));
            CredentialLookup::Present
        },
        |format: &str| {
            outside.note(&format!("transform for {format}"));
            Ok("transform")
        },
        || Ok("overrides"),
        |path: &str| {
            outside.note(&format!("read pin {path}"));
            PinRead::<()>::NotFound
        },
        |source, _, chunk_rows| {
            outside.note(&format!("read {} by {chunk_rows}", source.path));
            read
        },
        |pin: &PinnedSchemaWrite| {
            outside.note(&format!("persist {}", pin.pinned_path));
            persisted
        },
        |chunks, destination: &DestinationConnector, mode: LoadMode, parallelism, _| {
            outside.note(&format!(
                "write {} {} {}",
                destination.connector_name(),
                mode.as_str(),
                parallelism.get()
            ));
            write(chunks)
        },
    )
}

#[test]
fn execute_supported_load_fails_when_rejections_exceed_the_default_threshold() {
    let outside = Outside::default();
    let failure = run(
        &threshold_definition(None),
        &outside,
        one_of_two_rejected(None),
        Ok(()),
        written,
    )
    .err()
    .expect("one rejection exceeds the default threshold of 0");
    assert_eq!(failure.failure.code, "reject_threshold_exceeded");
    assert_eq!(
        failure.failure.message,
        "rejected 1 of 2 records, exceeding the reject threshold of 0"
    );
    assert_eq!(failure.schema_decision.expect("decision made")["mode"], "inferred");
    assert_eq!(failure.source_rows, Some(2));
    assert_eq!(failure.rejected_count, 1);
    assert_eq!(
        outside.events.into_inner(),
        vec!["transform for csv", "read customers.csv by 65536"],
        "no destination was written"
    );
}

#[test]
fn execute_supported_load_completes_at_an_explicit_reject_threshold() {
    let outside = Outside::default();
    let details = run(
        &threshold_definition(Some(1)),
        &outside,
        one_of_two_rejected(None),
        Ok(()),
        written,
    )
    .expect("at-or-below the threshold completes");
    assert_eq!(details.row_counts.source, 2);
    assert_eq!(details.row_counts.written, 1);
    assert_eq!(details.row_counts.rejected, 1);
    assert_eq!(details.rejected_count, 1);
    assert_eq!(details.byte_counts.source, Some(13));
    assert_eq!(details.byte_counts.destination, Some(128));
    assert_eq!(
        details.execution,
        json(
            r#"{
                "record_format": "arrow_record_batch",
                "batch_count": 1,
                "chunk_rows": 65536,
                "parallelism": 1,
                "connector_parallelism_limit": 1,
                "retry": {
                    "max_attempts": 3,
                    "initial_delay_ms": 200,
                    "max_delay_ms": 5000,
                    "attempts": []
                }
            }"#
        )
    );
    assert_eq!(
        outside.events.into_inner().last().map(String::as_str),
        Some("write parquet full_refresh 1")
    );
}

#[test]
fn execute_supported_load_does_not_persist_the_pin_when_the_threshold_fails() {
    let mut definition = threshold_definition(None);
    definition.schema = Some(SchemaConfig {
        pinned_path: Some("customers.schema.yml".to_string()),
        drift_policy: None,
        overrides: None,
    });
    let outside = Outside::default();
    let failure = run(
        &definition,
        &outside,
        one_of_two_rejected(Some("customers.schema.yml")),
        Ok(()),
        written,
    )
    .err()
    .expect("one rejection exceeds the default threshold of 0");
    assert_eq!(failure.failure.code, "reject_threshold_exceeded");
    assert_eq!(
        outside.events.into_inner(),
        vec![
            "transform for csv",
            "read pin customers.schema.yml",
            "read customers.csv by 65536"
        ],
        "a threshold-failed load must not persist the pin"
    );
}

#[test]
fn the_pin_is_persisted_before_anything_is_written() {
    let outside = Outside::default();
    run(
        &threshold_definition(Some(1)),
        &outside,
        one_of_two_rejected(Some("customers.schema.yml")),
        Ok(()),
        written,
    )
    .expect("the load completes");
    let events = outside.events.into_inner();
    assert_eq!(
        events[2..].to_vec(),
        vec!["persist customers.schema.yml", "write parquet full_refresh 1"]
    );

    let outside = Outside::default();
    let failure = run(
        &threshold_definition(Some(1)),
        &outside,
        one_of_two_rejected(Some("customers.schema.yml")),
        Err(LoadFailure {
            code: "pinned_schema_write_failed",
            message: "disk full".to_string(),
        }),
        written,
    )
    .expect_err("a pin that cannot be written fails the load");
    assert_eq!(failure.failure.code, "pinned_schema_write_failed");
    assert_eq!(failure.source_rows, Some(2));
    assert_eq!(failure.written_records, 0);
    assert!(failure.committed_execution.is_none());
    assert_eq!(
        outside.events.into_inner().last().map(String::as_str),
        Some("persist customers.schema.yml"),
        "the destination stays untouched"
    );
}

#[test]
fn faults_of_a_definition_are_found_in_order() {
    let code = |definition: &Definition| {
        let outside = Outside::default();
        let failure = run(definition, &outside, one_of_two_rejected(None), Ok(()), written)
            .expect_err("the definition is refused");
        assert!(outside.events.into_inner().is_empty(), "nothing outside is touched");
        assert!(failure.schema_decision.is_none());
        assert_eq!(failure.rejected_count, 0);
        failure.failure.code
    };
    let mut definition = threshold_definition(None);
    definition.source = None;
    definition.destination = None;
    definition.load_mode = Some("upsert".to_string());
    assert_eq!(code(&definition), "missing_source");
    definition.source = Some(SourceDefinition {
        connector: "s3".to_string(),
        path: "customers.csv".to_string(),
        format: None,
    });
    assert_eq!(code(&definition), "missing_destination");
    definition.destination = Some(DestinationDefinition::File(FileDestinationDefinition {
        connector: "bigquery".to_string(),
        path: "out".to_string(),
    }));
    assert_eq!(code(&definition), "unsupported_load_mode");
    definition.load_mode = Some("merge".to_string());
    assert_eq!(code(&definition), "unsupported_source_connector");
    if let Some(source) = &mut definition.source {
        source.connector = "local_file".to_string();
    }
    assert_eq!(code(&definition), "unsupported_destination_connector");
    definition.destination = Some(DestinationDefinition::File(FileDestinationDefinition {
        connector: "parquet".to_string(),
        path: "out".to_string(),
    }));
    assert_eq!(code(&definition), "unsupported_load_mode_for_destination");
}

#[test]
fn a_source_failure_with_too_many_rejections_becomes_a_breach() {
    let failed = |rejected_count| {
        let failure = ExecutionFailure {
            source_rows: None,
            rejected_count,
            ..ExecutionFailure::from(LoadFailure {
                code: "malformed_jsonl",
                message: "no fields".to_string(),
            })
        };
        run(&threshold_definition(Some(2)), &Outside::default(), Err(failure), Ok(()), written)
            .expect_err("the source failed")
    };
    let breach = failed(3);
    assert_eq!(breach.failure.code, "reject_threshold_exceeded");
    assert_eq!(
        breach.failure.message,
        "rejected 3 of 3 records, exceeding the reject threshold of 2"
    );
    assert_eq!(breach.source_rows, Some(3));
    let within = failed(2);
    assert_eq!(within.failure.code, "malformed_jsonl");
    assert_eq!(within.source_rows, None);

    let decided = ExecutionFailure {
        schema_decision: Some(json(r#"{ "mode": "pinned" }"#)),
        rejected_count: 9,
        ..ExecutionFailure::from(LoadFailure {
            code: "schema_drift_detected",
            message: "a new field".to_string(),
        })
    };
    let held = decided.apply_pending_reject_threshold(0);
    assert_eq!(held.failure.code, "schema_drift_detected", "a decision was made before it");
}

fn write_failure(transience: Transience) -> DestinationWriteFailure {
    DestinationWriteFailure {
        failure: LoadFailure {
            code: "destination_write_failed",
            message: "connection shortage".to_string(),
        },
        facts: DestinationWriteFacts::best_effort("staged_part_append"),
        written_records: 4,
        committed_chunks: 2,
        transience,
    }
}

fn attempt() -> RetryAttempt {
    RetryAttempt {
        unit: RetryUnit::Begin,
        attempt: 1,
        code: "destination_write_failed",
        message: "connection shortage".to_string(),
        delay_before_retry_ms: Some(200),
    }
}

#[test]
fn a_session_that_never_opened_keeps_the_posture_from_before_the_write() {
    for retried in [false, true] {
        let failure = run(
            &threshold_definition(Some(1)),
            &Outside::default(),
            one_of_two_rejected(None),
            Ok(()),
            |_| WrittenPhase {
                result: Err(WritePhaseFailure::BeforeSession(write_failure(
                    Transience::Transient,
                ))),
                attempts: if retried { vec![attempt()] } else { Vec::new() },
            },
        )
        .expect_err("the write fails");
        assert!(failure.committed_execution.is_none());
        assert_eq!(failure.retry.is_some(), retried, "a story only where there is one");
        assert_eq!(failure.written_records, 4);
    }
}

#[test]
fn a_failure_within_a_session_reports_what_was_committed() {
    let mut definition = threshold_definition(Some(1));
    definition.load_mode = Some("append".to_string());
    definition.execution = Some(ExecutionConfig {
        chunk_rows: NonZeroCount::new(10),
        parallelism: NonZeroCount::new(8),
        retry: None,
    });
    let failure = run(
        &definition,
        &Outside::default(),
        one_of_two_rejected(None),
        Ok(()),
        |_| WrittenPhase {
            result: Err(WritePhaseFailure::InSession(write_failure(Transience::Terminal))),
            attempts: vec![attempt()],
        },
    )
    .expect_err("the write fails");
    let committed = failure.committed_execution.expect("the session was open");
    assert_eq!(committed.committed_chunks, 2);
    assert_eq!(committed.chunk_rows, 10);
    assert_eq!(committed.parallelism, 1);
    assert_eq!(committed.connector_parallelism_limit, 1);
    assert_eq!(committed.retry["attempts"][0]["operation"], "begin");
    assert_eq!(failure.written_records, 4);
    assert_eq!(failure.source_rows, Some(2));
    assert!(failure.retry.is_none());
}

#[test]
fn only_the_supported_version_is_executed() {
    for (version, code, message) in [
        (None, "missing_load_definition_version", "load definition version is required"),
        (
            Some(7),
            "unsupported_load_definition_version",
            "unsupported load definition version: 7",
        ),
    ] {
        let mut definition = threshold_definition(None);
        definition.version = version;
        definition.load_mode = Some("append".to_string());
        let failure = execute_load_definition(definition, |_: &Definition| {
            panic!("an unsupported version is not executed")
        })
        .expect_err("the version is refused");
        assert_eq!(failure.code, code);
        assert_eq!(failure.message, message);
        assert_eq!(failure.load_mode, "append");
        assert_eq!(failure.dataset.as_deref(), Some("customers"));
        assert_eq!(failure.source_summary["path"], "customers.csv");
        assert_eq!(failure.destination_summary["connector"], "parquet");
        assert_eq!(failure.schema_decision["mode"], "not_evaluated");
    }
}

#[test]
fn a_failed_execution_is_reported_with_its_definition() {
    let outside = Outside::default();
    let result = execute_load_definition(threshold_definition(None), |definition: &Definition| {
        run(definition, &outside, one_of_two_rejected(None), Ok(()), written)
    });
    let report = load_report(
        "load-1".to_string(),
        "runs/load-1".to_string(),
        Timings::between(100, 250),
        result,
    );
    assert_eq!(report.process_exit_code, 1);
    assert_eq!(report.exit_status, "failed");
    assert_eq!(report.row_counts.source, 2);
    assert_eq!(report.row_counts.written, 0);
    assert_eq!(report.row_counts.rejected, 1);
    assert_eq!(report.load_mode, "full_refresh");
    assert_eq!(report.schema_decision["mode"], "inferred");
    assert_eq!(
        report.execution,
        json(r#"{ "record_format": "not_started", "batch_count": 0 }"#)
    );
    assert_eq!(report.destination_write, json(r#"{ "atomicity": "not_applicable" }"#));

    let result = execute_load_definition(
        threshold_definition(Some(1)),
        |definition: &Definition| {
            run(definition, &outside, one_of_two_rejected(None), Ok(()), written)
        },
    );
    let report = load_report(
        "load-2".to_string(),
        "runs/load-2".to_string(),
        Timings::between(100, 250),
        result,
    );
    assert_eq!(report.process_exit_code, 0);
    assert_eq!(report.row_counts.written + report.row_counts.rejected, report.row_counts.source);
}

#[test]
fn a_read_is_admitted_up_to_the_threshold() {
    assert!(admit_read(one_of_two_rejected(None), 1).is_ok());
    let failure = admit_read(one_of_two_rejected(None), 0).err().expect("beyond the threshold");
    assert_eq!(failure.failure.code, "reject_threshold_exceeded");
    assert_eq!(
        reject_threshold_failure(12, 300, 11).message,
        "rejected 12 of 300 records, exceeding the reject threshold of 11"
    );
}

#[test]
fn artifacts_go_where_the_caller_says_then_the_definition_then_the_default() {
    assert_eq!(artifact_root(Some("cli"), Some("definition"), "default"), "cli");
    assert_eq!(artifact_root(None, Some("definition"), "default"), "definition");
    assert_eq!(artifact_root(None, None, "default"), "default");
}

#[test]
fn a_retry_policy_reaches_the_write_phase() {
    let mut definition = threshold_definition(Some(1));
    definition.execution = Some(ExecutionConfig {
        chunk_rows: None,
        parallelism: None,
        retry: Some(data_spark::definition::RetryConfig {
            max_attempts: NonZeroCount::new(5),
            initial_delay_ms: Some(7),
            max_delay_ms: None,
        }),
    });
    let mut seen: Option<RetryPolicy> = None;
    let details = execute_supported_load(
        &definition,
        &[],
        |_: &str| CredentialLookup::Present,
        |_: &str| Ok(()),
        || Ok(()),
        |_: &str| PinRead::<()>::NotFound,
        |_, _, _| one_of_two_rejected(None),
        |_: &PinnedSchemaWrite| Ok(()),
        |chunks, _: &DestinationConnector, _, _, policy: &RetryPolicy| {
            seen = Some(*policy);
            written(chunks)
        },
    )
    .expect("the load completes");
    let policy = seen.expect("the write phase ran");
    assert_eq!(policy.max_attempts.get(), 5);
    assert_eq!(policy.initial_delay_ms, 7);
    assert_eq!(policy.max_delay_ms, 5000);
    assert_eq!(details.execution["retry"]["max_attempts"], 5);
}
