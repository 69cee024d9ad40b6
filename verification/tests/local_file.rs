//! Local files read twice, from memory: the first read with its rejections,
//! and the second read with its chunks.
use data_spark::failure::{ExecutionFailure, LoadFailure};
use data_spark::first_read::{read_csv, read_jsonl, Resolution, SecondRead};
use data_spark::lines::{CallingObserver, CallingWriter};
use data_spark::load::SourceRead;
use data_spark::local_file::{
    check_reopened_header, csv_source_item, jsonl_source_item, read_csv_header,
    source_file_failure,
};
use data_spark::rejection::{
    merge_spill_file, MergeError, RejectedRecord, RejectionSink, MALFORMED_CSV_RECORD,
    MALFORMED_JSONL_RECORD, MISSING_REQUIRED_FIELD, TYPE_COERCION_FAILED,
};
use data_spark::source::{
    classify_cells, classify_parsed, csv_item, jsonl_line_record, CsvItem, CsvReadError, HashState,
    JsonRecord, JsonlLine, TextRecord,
};
use data_spark::stream::ChunkPhase;
use serde_json::Value;
use std::cell::RefCell;

fn json(text: &str) -> Value {
    serde_json::from_str(text).expect("test json")
}

fn hash_of(bytes: &[u8]) -> u64 {
    let mut hash = HashState::new();
    hash.update(bytes);
    hash.value()
}

type CsvRecords = Vec<Result<csv::StringRecord, CsvReadError>>;

/// The header and the records of a CSV text.
fn csv_records(bytes: &[u8]) -> (Result<Vec<String>, String>, CsvRecords) {
    let mut reader = csv::ReaderBuilder::new()
        .has_headers(true)
        .flexible(true)
        .from_reader(bytes);
    let header = reader
        .headers()
        .map(|header| header.iter().map(str::to_string).collect())
        .map_err(|error| error.to_string());
    let records = reader
        .records()
        .map(|record| {
            record.map_err(|error| CsvReadError {
                line: error.position().map(|position| position.line()),
                message: error.to_string(),
            })
        })
        .collect();
    (header, records)
}

/// What a first read came to: the source, and the artifact's lines.
struct Read {
    result: Result<SourceRead<SecondRead<Vec<String>>>, ExecutionFailure>,
    rejected: Vec<Value>,
    lines: Vec<u64>,
}

fn never(_: &TextRecord) -> Option<RejectedRecord> {
    None
}

/// Rejects records whose first cell is no number.
fn not_a_number(record: &TextRecord) -> Option<RejectedRecord> {
    let cell = record.cells[0].clone().unwrap_or_default();
    if cell.parse::<i64>().is_ok() {
        return None;
    }
    Some(RejectedRecord {
        line: record.line,
        code: TYPE_COERCION_FAILED,
        field: Some("id".to_string()),
        source_field: None,
        message: format!("value {cell:?} does not fit pinned type int64 for field \"id\""),
        record: Value::String(cell),
    })
}

fn first_csv_read(
    bytes: &[u8],
    chunk_rows: usize,
    observe: fn(&TextRecord) -> Option<RejectedRecord>,
) -> Read {
    let (header, records) = csv_records(bytes);
    let field_names = read_csv_header(header, "customers.csv").expect("header");
    let artifact: RefCell<Vec<String>> = RefCell::new(Vec::new());
    let mut sink: RejectionSink<String> = RejectionSink::new("artifacts");
    let result = read_csv(
        "customers.csv",
        bytes.len() as u64,
        field_names.len(),
        chunk_rows,
        records.into_iter(),
        CallingObserver::new(observe),
        &mut CallingWriter::new(|line: &str| {
            artifact.borrow_mut().push(line.to_string());
            Ok(())
        }),
        |_| {
            Ok(Resolution {
                plan: field_names.clone(),
                decision: json(r#"{ "mode": "inferred" }"#),
                pinned_schema_write: None,
            })
        },
        || hash_of(bytes),
        &mut sink,
    );
    assert!(sink.take_io_error().is_none());
    let lines = sink.rejected_lines().clone();
    let rejected = artifact.into_inner().iter().map(|line| json(line)).collect();
    Read { result, rejected, lines }
}

/// The chunks of a second read, as the first cells of their records.
fn second_csv_read(
    read: SourceRead<SecondRead<Vec<String>>>,
    bytes: &[u8],
    observe: fn(&TextRecord) -> Option<RejectedRecord>,
) -> (Vec<Vec<String>>, Option<LoadFailure>) {
    let SecondRead { plan: field_names, mut stream } = read.chunks;
    assert_eq!(stream.phase(), ChunkPhase::NotStarted);
    let (header, records) = csv_records(bytes);
    if let Err(failure) = check_reopened_header(
        read_csv_header(header, "customers.csv"),
        &field_names,
        "customers.csv",
    ) {
        stream.halt();
        return (Vec::new(), Some(failure));
    }
    stream.opened();
    let field_count = field_names.len();
    let mut items = records.into_iter().map(|record| {
        Ok(csv_source_item(record, field_count, |text| observe(text).is_some()))
    });
    let mut chunks = Vec::new();
    loop {
        match stream.next_chunk(&mut items, || hash_of(bytes)) {
            Ok(Some(chunk)) => chunks.push(
                chunk
                    .into_iter()
                    .map(|record: TextRecord| record.cells[0].clone().unwrap_or_default())
                    .collect(),
            ),
            Ok(None) => return (chunks, None),
            Err(failure) => {
                assert_eq!(stream.phase(), ChunkPhase::Done);
                return (chunks, Some(failure));
            }
        }
    }
}

fn jsonl_lines(bytes: &[u8]) -> Vec<Vec<u8>> {
    bytes.split_inclusive(|byte| *byte == b'\n').map(<[u8]>::to_vec).collect()
}

fn renders(line: u64, object: serde_json::Map<String, Value>) -> Option<RejectedRecord> {
    Some(RejectedRecord {
        line,
        code: MISSING_REQUIRED_FIELD,
        field: Some("id".to_string()),
        source_field: None,
        message: "field \"id\" is required".to_string(),
        record: Value::Object(object),
    })
}

fn first_jsonl_read(
    lines: Vec<Result<Vec<u8>, String>>,
    observe: fn(&JsonRecord) -> bool,
    finish: fn(&Vec<String>) -> Result<Resolution<Vec<String>>, ExecutionFailure>,
) -> Read {
    let bytes: Vec<u8> = lines.iter().flat_map(|line| line.clone().unwrap_or_default()).collect();
    let artifact: RefCell<Vec<String>> = RefCell::new(Vec::new());
    let spill: RefCell<Vec<String>> = RefCell::new(Vec::new());
    let mut sink: RejectionSink<String> = RejectionSink::new("artifacts");
    let result = read_jsonl(
        "customers.jsonl",
        bytes.len() as u64,
        1,
        lines.into_iter(),
        CallingObserver::new(observe),
        &mut CallingWriter::new(|line: &str| {
            artifact.borrow_mut().push(line.to_string());
            Ok(())
        }),
        CallingWriter::new(|line: &str| {
            spill.borrow_mut().push(line.to_string());
            Ok(())
        }),
        |_| Ok(()),
        |_, names: &Vec<String>| finish(names),
        |_: &Resolution<Vec<String>>| {
            let recorded = artifact.replace(Vec::new());
            let spilled = spill.replace(Vec::new());
            merge_spill_file(
                recorded.into_iter().map(Ok),
                spilled.into_iter().map(Ok),
                &renders,
                &mut CallingWriter::new(|line: &str| {
                    artifact.borrow_mut().push(line.to_string());
                    Ok(())
                }),
            )
            .map_err(|error: MergeError<String>| format!("{error:?}"))
        },
        || hash_of(&bytes),
        &mut sink,
    );
    assert!(sink.take_io_error().is_none());
    let lines = sink.rejected_lines().clone();
    let rejected = artifact.into_inner().iter().map(|line| json(line)).collect();
    Read { result, rejected, lines }
}

fn whole(text: &str) -> Vec<Result<Vec<u8>, String>> {
    jsonl_lines(text.as_bytes()).into_iter().map(Ok).collect()
}

fn accepts(_: &JsonRecord) -> bool {
    false
}

fn lacks_id(record: &JsonRecord) -> bool {
    record.object.get("id").is_none_or(Value::is_null)
}

fn infers(names: &Vec<String>) -> Result<Resolution<Vec<String>>, ExecutionFailure> {
    Ok(Resolution {
        plan: names.clone(),
        decision: json(r#"{ "mode": "inferred" }"#),
        pinned_schema_write: None,
    })
}

fn drifts(_: &Vec<String>) -> Result<Resolution<Vec<String>>, ExecutionFailure> {
    Err(ExecutionFailure::from(LoadFailure {
        code: "schema_drift_detected",
        message: "the source has a new field".to_string(),
    }))
}

#[test]
fn local_file_source_rejects_csv_records_with_the_wrong_field_count_and_reads_on() {
    let bytes = b"id,name\n1,Ada\n2,Grace,extra-field\n3,Cara\n";
    let read = first_csv_read(bytes, usize::MAX, never);
    let source = read.result.expect("read source");
    assert_eq!(source.source_rows, 3);
    assert_eq!(source.rejected_count, 1);
    assert_eq!(read.rejected.len(), 1);
    let rejected = &read.rejected[0];
    assert_eq!(rejected["line"], 3);
    assert_eq!(rejected["code"], "malformed_csv_record");
    assert!(rejected["field"].is_null());
    assert_eq!(rejected["message"], "expected 2 fields, found 3");
    assert_eq!(rejected["record"], json(r#"["2", "Grace", "extra-field"]"#));

    let (chunks, failure) = second_csv_read(source, bytes, never);
    assert!(failure.is_none());
    assert_eq!(chunks, vec![vec!["1".to_string(), "3".to_string()]]);
}

#[test]
fn local_file_source_rejects_csv_records_that_fail_to_parse_and_reads_on() {
    let bytes = b"id,name\n1,Ada\n2,\xFF\n3,Cara\n";
    let read = first_csv_read(bytes, usize::MAX, never);
    let source = read.result.expect("read source");
    assert_eq!(read.rejected.len(), 1);
    let rejected = &read.rejected[0];
    assert_eq!(rejected["line"], 3);
    assert_eq!(rejected["code"], "malformed_csv_record");
    let message = rejected["message"].as_str().expect("rejection message");
    assert!(
        message.to_lowercase().contains("utf-8"),
        "message {message:?} names the parse problem"
    );
    assert!(rejected["record"].is_null());
    let (chunks, failure) = second_csv_read(source, bytes, never);
    assert!(failure.is_none());
    assert_eq!(chunks, vec![vec!["1".to_string(), "3".to_string()]]);
}

#[test]
fn local_file_source_merges_parse_and_validation_rejections() {
    let bytes = b"id\n1\n2,extra\nabc\n";
    let read = first_csv_read(bytes, usize::MAX, not_a_number);
    let source = read.result.expect("read source");
    assert_eq!(source.rejected_count, 2);
    assert_eq!(read.lines, vec![3, 4]);
    assert_eq!(read.rejected[0]["code"], "malformed_csv_record");
    assert_eq!(read.rejected[1]["code"], "type_coercion_failed");
    let (chunks, failure) = second_csv_read(source, bytes, not_a_number);
    assert!(failure.is_none());
    assert_eq!(chunks, vec![vec!["1".to_string()]]);
}

#[test]
fn local_file_source_rejects_malformed_jsonl_lines_and_reads_on() {
    let read = first_jsonl_read(
        whole("{\"id\": 1}\n{\"id\": 2, \n[1, 2]\n\n{\"id\": 4}\n"),
        accepts,
        infers,
    );
    let source = read.result.expect("read source");
    assert_eq!(source.source_rows, 4);
    assert_eq!(source.chunks.plan, vec!["id".to_string()]);
    assert_eq!(read.rejected.len(), 2);
    assert_eq!(read.rejected[0]["line"], 2);
    assert_eq!(read.rejected[0]["code"], "malformed_jsonl_record");
    assert!(read.rejected[0]["field"].is_null());
    assert!(!read.rejected[0]["message"].as_str().expect("rejection message").is_empty());
    assert_eq!(read.rejected[0]["record"], Value::from("{\"id\": 2, "));
    assert_eq!(read.rejected[1]["line"], 3);
    assert_eq!(read.rejected[1]["code"], "malformed_jsonl_record");
    assert_eq!(
        read.rejected[1]["message"],
        "each JSONL record must be a JSON object"
    );
    assert_eq!(read.rejected[1]["record"], Value::from("[1, 2]"));
}

#[test]
fn local_file_source_fails_jsonl_with_no_parseable_records_but_reports_the_rejections() {
    let read = first_jsonl_read(whole("not json\n[1]\n"), accepts, infers);
    let error = read.result.err().expect("no field, no schema");
    assert_eq!(error.failure.code, "malformed_jsonl");
    assert!(error
        .failure
        .message
        .contains("must include at least one record with fields"));
    assert_eq!(error.source_rows, Some(2));
    assert_eq!(error.rejected_count, 2);
    assert_eq!(read.rejected.len(), 2);
    assert_eq!(read.rejected[0]["line"], 1);
    assert_eq!(read.rejected[1]["line"], 2);
}

#[test]
fn local_file_source_counts_empty_jsonl_objects_when_no_fields_can_be_inferred() {
    let read = first_jsonl_read(whole("{}\nnot json\n"), accepts, infers);
    let error = read.result.err().expect("no field, no schema");
    assert_eq!(error.failure.code, "malformed_jsonl");
    assert_eq!(error.source_rows, Some(2));
    assert_eq!(error.rejected_count, 1);
    assert_eq!(read.rejected.len(), 1);
    assert_eq!(read.rejected[0]["line"], 2);
}

#[test]
fn validation_rejections_of_jsonl_merge_in_line_order_once_the_shape_is_right() {
    let read = first_jsonl_read(
        whole("{\"name\": \"Ada\"}\nnot json\n{\"id\": 3}\n{\"id\": null}\n"),
        lacks_id,
        infers,
    );
    let source = read.result.expect("read source");
    assert_eq!(source.source_rows, 4);
    assert_eq!(source.rejected_count, 3);
    assert_eq!(source.chunks.plan, vec!["name".to_string(), "id".to_string()]);
    assert_eq!(read.lines, vec![1, 2, 4]);
    let codes: Vec<&str> =
        read.rejected.iter().map(|entry| entry["code"].as_str().expect("code")).collect();
    assert_eq!(
        codes,
        vec![MISSING_REQUIRED_FIELD, MALFORMED_JSONL_RECORD, MISSING_REQUIRED_FIELD]
    );
    assert_eq!(read.rejected[0]["record"], json(r#"{ "name": "Ada" }"#));
}

#[test]
fn a_failed_shape_verdict_keeps_only_the_parse_rejections() {
    let read = first_jsonl_read(
        whole("{\"name\": \"Ada\"}\nnot json\n{\"id\": 3}\n"),
        lacks_id,
        drifts,
    );
    let error = read.result.err().expect("the verdict fails");
    assert_eq!(error.failure.code, "schema_drift_detected");
    assert_eq!(error.rejected_count, 1);
    assert_eq!(read.lines, vec![2]);
    assert_eq!(read.rejected.len(), 1);
}

#[test]
fn a_jsonl_file_that_cannot_be_read_on_reports_what_was_counted() {
    let mut lines = whole("{\"id\": 1}\nnot json\n\n");
    lines.push(Err("device gone".to_string()));
    let read = first_jsonl_read(lines, accepts, infers);
    let error = read.result.err().expect("the read fails");
    assert_eq!(error.failure.code, "source_read_failed");
    assert_eq!(
        error.failure.message,
        "failed to read JSONL source customers.jsonl after line 3: device gone"
    );
    assert_eq!(error.source_rows, Some(2));
    assert_eq!(error.rejected_count, 1);
    assert!(error.schema_decision.is_none());
}

#[test]
fn a_failing_artifact_never_stops_the_first_read() {
    let (header, records) = csv_records(b"id\n1,2\n3,4\n5\n");
    let field_names = read_csv_header(header, "customers.csv").expect("header");
    let mut sink: RejectionSink<String> = RejectionSink::new("artifacts");
    let attempts = RefCell::new(0);
    let read = read_csv(
        "customers.csv",
        11,
        field_names.len(),
        1,
        records.into_iter(),
        CallingObserver::new(never),
        &mut CallingWriter::new(|_: &str| {
            *attempts.borrow_mut() += 1;
            Err("disk full".to_string())
        }),
        |_| {
            Ok(Resolution {
                plan: (),
                decision: Value::Null,
                pinned_schema_write: None,
            })
        },
        || 0,
        &mut sink,
    )
    .expect("the read keeps its outcome");
    assert_eq!(read.source_rows, 3);
    assert_eq!(read.rejected_count, 2);
    assert_eq!(*attempts.borrow(), 1, "nothing is written after a failure");
    assert_eq!(sink.take_io_error().as_deref(), Some("disk full"));
}

#[test]
fn csv_chunks_split_survivors_deterministically_by_chunk_rows() {
    let bytes = b"id\n1\n2\n3\n4\n5\n6\n7\n";
    for _ in 0..2 {
        let read = first_csv_read(bytes, 3, never).result.expect("read source");
        let (chunks, failure) = second_csv_read(read, bytes, never);
        assert!(failure.is_none());
        let row_counts: Vec<usize> = chunks.iter().map(Vec::len).collect();
        assert_eq!(row_counts, vec![3, 3, 1]);
    }
}

#[test]
fn chunk_stream_yields_one_empty_chunk_for_a_survivor_free_load() {
    let bytes = b"id,name\n";
    let read = first_csv_read(bytes, 4, never).result.expect("read source");
    assert_eq!(read.chunks.plan.len(), 2);
    let (chunks, failure) = second_csv_read(read, bytes, never);
    assert!(failure.is_none());
    assert_eq!(chunks, vec![Vec::<String>::new()]);
}

#[test]
fn a_full_last_chunk_is_followed_by_no_empty_one() {
    let bytes = b"id\n1\n2\n";
    let read = first_csv_read(bytes, 2, never).result.expect("read source");
    let (chunks, failure) = second_csv_read(read, bytes, never);
    assert!(failure.is_none());
    assert_eq!(chunks.len(), 1);
}

#[test]
fn csv_chunks_skip_the_records_pass_one_rejected() {
    let bytes = b"id\n1\n2,extra\n3\n";
    let read = first_csv_read(bytes, 2, never).result.expect("read source");
    assert_eq!(read.rejected_count, 1);
    let (chunks, failure) = second_csv_read(read, bytes, never);
    assert!(failure.is_none());
    assert_eq!(chunks, vec![vec!["1".to_string(), "3".to_string()]]);
}

#[test]
fn csv_chunks_fail_on_a_bytes_only_change_at_end_of_stream() {
    let read = first_csv_read(b"id,name\n1,Ada\n2,Grace\n", 1, never)
        .result
        .expect("read source");
    let (chunks, failure) = second_csv_read(read, b"id,name\n1,Bob\n2,Grace\n", never);
    assert_eq!(chunks.len(), 2, "all chunks yield before the end check");
    let failure = failure.expect("bytes-only divergence detected");
    assert_eq!(failure.code, "source_changed_during_load");
    assert!(
        failure.message.contains("bytes no longer match"),
        "message {:?} names the byte guard",
        failure.message
    );
}

#[test]
fn csv_chunks_fail_semantically_when_a_record_outcome_diverges() {
    let read = first_csv_read(b"id\n1\n2\n3\n", 1, never).result.expect("read source");
    let (chunks, failure) = second_csv_read(read, b"id\n1\n2\n3,extra\n", never);
    assert_eq!(chunks.len(), 2, "the chunks before the divergence yield");
    let failure = failure.expect("semantic divergence detected");
    assert_eq!(failure.code, "source_changed_during_load");
    assert!(
        failure.message.contains("line 4"),
        "message {:?} names the diverging record",
        failure.message
    );
}

#[test]
fn csv_chunks_fail_when_the_record_count_changes() {
    let read = first_csv_read(b"id\n1\n2\n", usize::MAX, never).result.expect("read source");
    let (_, failure) = second_csv_read(read, b"id\n1\n2\n3\n", never);
    let failure = failure.expect("record-count divergence detected");
    assert_eq!(failure.code, "source_changed_during_load");
    assert!(
        failure.message.contains("3 records instead of 2"),
        "message {:?} names the count divergence",
        failure.message
    );
}

#[test]
fn csv_chunks_fail_when_the_header_changes() {
    let read = first_csv_read(b"id\n1\n", 1, never).result.expect("read source");
    let (chunks, failure) = second_csv_read(read, b"key\n1\n", never);
    assert!(chunks.is_empty());
    assert_eq!(
        failure.expect("header divergence detected").message,
        "source customers.csv changed during the load: its CSV header no longer matches the \
         resolved schema"
    );
    let read = first_csv_read(b"id\n1\n", 1, never).result.expect("read source");
    let (_, failure) = second_csv_read(read, b"", never);
    assert_eq!(
        failure.expect("header divergence detected").message,
        "source customers.csv changed during the load: its CSV header no longer parses"
    );
}

#[test]
fn jsonl_chunks_fail_when_a_record_carries_a_key_outside_the_resolved_shape() {
    let read = first_jsonl_read(whole("{\"id\": 1}\n{\"id\": 2}\n"), accepts, infers)
        .result
        .expect("read source");
    let SecondRead { plan: shape, mut stream } = read.chunks;
    stream.opened();
    let mutated = "{\"id\": 1}\n{\"id\": 2, \"note\": \"x\"}\n";
    let mut items = jsonl_lines(mutated.as_bytes()).into_iter().enumerate().map(|(at, line)| {
        jsonl_source_item(&line, at as u64 + 1, &shape, "customers.jsonl", accepts)
    });
    let first = stream.next_chunk(&mut items, || 0).expect("the first chunk yields");
    assert_eq!(first.expect("a chunk").len(), 1);
    let failure = stream.next_chunk(&mut items, || 0).expect_err("shape divergence detected");
    assert_eq!(failure.code, "source_changed_during_load");
    assert_eq!(
        failure.message,
        "source customers.jsonl changed during the load: the record at line 2 carries field \
         \"note\" outside the resolved schema shape"
    );
    assert!(stream.next_chunk(&mut items, || 0).expect("a failed stream has ended").is_none());
}

#[test]
fn jsonl_lines_are_classified_from_their_bytes() {
    assert!(matches!(jsonl_line_record(b"\n", 1), JsonlLine::Blank));
    assert!(matches!(jsonl_line_record(b"", 1), JsonlLine::Blank));
    assert!(matches!(jsonl_line_record("\u{2003}\t \r\n".as_bytes(), 1), JsonlLine::Blank));
    match jsonl_line_record(b"{\"b\": 1, \"a\": 2}\r\n", 7) {
        JsonlLine::Record(record) => {
            assert_eq!(record.line, 7);
            let keys: Vec<&String> = record.object.keys().collect();
            assert_eq!(keys, vec!["b", "a"]);
        }
        other => panic!("a record, not {other:?}"),
    }
    match jsonl_line_record(b"{\"a\": \"\xFF\"}\n", 3) {
        JsonlLine::Rejected(rejection) => {
            assert_eq!(rejection.line, 3);
            assert_eq!(rejection.message, "invalid utf-8 sequence of 1 bytes from index 7");
            assert_eq!(rejection.record, Value::from("{\"a\": \"\u{FFFD}\"}"));
        }
        other => panic!("a rejection, not {other:?}"),
    }
    match jsonl_line_record(b"{\"a\": 1}}\n", 4) {
        JsonlLine::Rejected(rejection) => {
            assert_eq!(rejection.message, "trailing characters at line 1 column 9");
        }
        other => panic!("a rejection, not {other:?}"),
    }
}

#[test]
fn texts_are_classified_by_what_parsing_gave() {
    match classify_parsed("5", Ok(Value::from(5)), 2) {
        JsonlLine::Rejected(rejection) => {
            assert_eq!(rejection.message, "each JSONL record must be a JSON object");
            assert_eq!(rejection.record, Value::from("5"));
        }
        other => panic!("a rejection, not {other:?}"),
    }
    match classify_parsed("{", Err("EOF".to_string()), 2) {
        JsonlLine::Rejected(rejection) => assert_eq!(rejection.message, "EOF"),
        other => panic!("a rejection, not {other:?}"),
    }
    match classify_parsed("{}", Ok(json("{}")), 2) {
        JsonlLine::Record(record) => assert!(record.object.is_empty()),
        other => panic!("a record, not {other:?}"),
    }
    match classify_cells(Some(4), vec!["1".to_string(), String::new()], 2) {
        CsvItem::Record(text) => assert_eq!(text.cells, vec![Some("1".to_string()), None]),
        other => panic!("a record, not {other:?}"),
    }
}

#[test]
fn csv_items_are_classified_by_their_cells() {
    let mut record = csv::StringRecord::from(vec!["1", "", "x"]);
    let mut position = csv::Position::new();
    position.set_line(9);
    record.set_position(Some(position));
    match csv_item(Ok(record), 3) {
        CsvItem::Record(text) => {
            assert_eq!(text.line, 9);
            assert_eq!(text.cells, vec![Some("1".to_string()), None, Some("x".to_string())]);
        }
        other => panic!("a record, not {other:?}"),
    }
    match csv_item(Ok(csv::StringRecord::from(vec!["1"])), 3) {
        CsvItem::Rejected(rejection) => {
            assert_eq!(rejection.line, 0, "a record without a position");
            assert_eq!(rejection.code, MALFORMED_CSV_RECORD);
            assert_eq!(rejection.message, "expected 3 fields, found 1");
        }
        other => panic!("a rejection, not {other:?}"),
    }
    let error = CsvReadError { line: None, message: "bad bytes".to_string() };
    match csv_item(Err(error), 3) {
        CsvItem::Rejected(rejection) => {
            assert_eq!(rejection.line, 0);
            assert_eq!(rejection.message, "bad bytes");
            assert!(rejection.record.is_null());
        }
        other => panic!("a rejection, not {other:?}"),
    }
}

#[test]
fn the_source_hash_is_fnv1a_however_the_bytes_arrive() {
    assert_eq!(hash_of(b""), 0xcbf2_9ce4_8422_2325);
    assert_eq!(hash_of(b"a"), 0xaf63_dc4c_8601_ec8c);
    assert_eq!(hash_of(b"foobar"), 0x8594_4171_f739_67e8);
    let mut pieces = HashState::new();
    pieces.update(b"foo");
    pieces.update(b"");
    pieces.update(b"bar");
    assert_eq!(pieces.value(), hash_of(b"foobar"));
}

#[test]
fn headers_and_files_fail_with_their_own_messages() {
    let failure = read_csv_header(Ok(Vec::new()), "a.csv").expect_err("no field");
    assert_eq!(failure.code, "malformed_csv");
    assert_eq!(failure.message, "CSV source a.csv must include at least one header field");
    let failure = read_csv_header(Err("bad quote".to_string()), "a.csv").expect_err("no header");
    assert_eq!(failure.message, "malformed CSV syntax in a.csv: bad quote");
    let failure = source_file_failure("inspect", "JSONL", "a.jsonl", "gone");
    assert_eq!(failure.code, "source_read_failed");
    assert_eq!(failure.message, "failed to inspect JSONL source a.jsonl: gone");
}

#[test]
fn every_record_is_observed_once_and_in_order_before_the_read_is_resolved() {
    let seen: RefCell<Vec<u64>> = RefCell::new(Vec::new());
    let mut sink: RejectionSink<String> = RejectionSink::new("artifacts");
    let written: RefCell<Vec<String>> = RefCell::new(Vec::new());
    let lines = whole("{\"id\": 1}\n\nnot json\n{\"id\": 2}\n");
    let read = read_jsonl(
        "customers.jsonl",
        31,
        10,
        lines.into_iter(),
        CallingObserver::new(|record: &JsonRecord| {
            seen.borrow_mut().push(record.line);
            false
        }),
        &mut CallingWriter::new(|line: &str| {
            written.borrow_mut().push(line.to_string());
            Ok(())
        }),
        CallingWriter::new(|_: &str| panic!("nothing is put aside")),
        |_| Ok(()),
        |_, names: &Vec<String>| {
            assert_eq!(*seen.borrow(), vec![1, 4]);
            assert_eq!(names, &vec!["id".to_string()]);
            Ok(Resolution {
                plan: (),
                decision: Value::Null,
                pinned_schema_write: None,
            })
        },
        |_: &Resolution<()>| panic!("there is nothing to merge"),
        || 0,
        &mut sink,
    )
    .ok()
    .expect("the source is read");
    assert_eq!(read.source_rows, 3);
    assert_eq!(read.rejected_count, 1);
    assert_eq!(written.borrow().len(), 1);
    assert_eq!(json(&written.borrow()[0])["line"], 3);
}
