//! Rejected records: artifact lines, the sink, and the merge of put-aside
//! records.
use data_spark::lines::CallingWriter;
use data_spark::rejection::{
    artifact_line, artifact_line_number, merge_spill_file, next_artifact_line, spill_entry,
    MergeError, RejectedRecord, RejectionSink, MALFORMED_JSONL_RECORD, TYPE_COERCION_FAILED,
};
use serde_json::Value;

fn json(text: &str) -> Value {
    serde_json::from_str(text).expect("test json")
}

fn object(text: &str) -> serde_json::Map<String, Value> {
    json(text).as_object().expect("record object").clone()
}

fn parse_rejection(line: u64) -> RejectedRecord {
    RejectedRecord {
        line,
        code: MALFORMED_JSONL_RECORD,
        field: None,
        source_field: None,
        message: "expected value at line 1 column 28".to_string(),
        record: Value::from("{\"customer_id\": 2, \"name\": "),
    }
}

fn validation_rejection(line: u64) -> RejectedRecord {
    RejectedRecord {
        line,
        code: TYPE_COERCION_FAILED,
        field: Some("customer_id".to_string()),
        source_field: Some("id".to_string()),
        message: "value \"abc\" does not fit pinned type int64 for field \"customer_id\""
            .to_string(),
        record: json(r#"{ "id": "abc", "name": "Ada" }"#),
    }
}

#[test]
fn artifact_line_renders_the_rejection_with_all_artifact_keys() {
    assert_eq!(
        serde_json::from_str::<Value>(&artifact_line(&validation_rejection(4)))
            .expect("artifact line is json"),
        json(r#"{
            "line": 4,
            "code": "type_coercion_failed",
            "field": "customer_id",
            "source_field": "id",
            "message": "value \"abc\" does not fit pinned type int64 for field \"customer_id\"",
            "record": { "id": "abc", "name": "Ada" }
        }"#)
    );

    assert_eq!(
        serde_json::from_str::<Value>(&artifact_line(&parse_rejection(2)))
            .expect("artifact line is json"),
        json(r#"{
            "line": 2,
            "code": "malformed_jsonl_record",
            "field": null,
            "source_field": null,
            "message": "expected value at line 1 column 28",
            "record": "{\"customer_id\": 2, \"name\": "
        }"#)
    );
}

/// A sink with its artifact and spill in memory.
struct Artifacts {
    sink: RejectionSink<String>,
    artifact: Vec<String>,
    spill: Vec<String>,
}

impl Artifacts {
    fn new() -> Self {
        Artifacts {
            sink: RejectionSink::new("artifacts"),
            artifact: Vec::new(),
            spill: Vec::new(),
        }
    }

    fn record(&mut self, rejected: &RejectedRecord) {
        self.artifact.extend(self.sink.record(rejected));
    }

    fn merge(
        &mut self,
        render: impl Fn(u64, serde_json::Map<String, Value>) -> Option<RejectedRecord>,
    ) {
        let mut merged = Vec::new();
        let lines = merge_spill_file(
            self.artifact.clone().into_iter().map(Ok),
            self.spill.clone().into_iter().map(Ok),
            &render,
            &mut CallingWriter::new(|line: &str| {
                merged.push(line.to_string());
                Ok(())
            }),
        );
        self.artifact = merged;
        self.sink.finish_merge(lines.map_err(|error: MergeError<String>| format!("{error:?}")));
    }
}

#[test]
fn sink_streams_rejections_in_arrival_order_and_tracks_their_lines() {
    let mut work = Artifacts::new();
    work.record(&parse_rejection(2));
    work.record(&validation_rejection(4));
    assert_eq!(work.sink.count(), 2);
    assert_eq!(work.sink.rejected_lines(), &[2, 4]);
    assert!(work.sink.take_io_error().is_none());
    assert_eq!(
        work.artifact,
        vec![artifact_line(&parse_rejection(2)), artifact_line(&validation_rejection(4))]
    );
}

#[test]
fn sink_without_rejections_leaves_no_artifact_file() {
    let mut work = Artifacts::new();
    assert_eq!(work.sink.count(), 0);
    assert!(work.sink.take_io_error().is_none());
    assert!(work.artifact.is_empty());
    assert_eq!(work.sink.artifact_path(), "artifacts/rejected-records.jsonl");
    assert_eq!(work.sink.spill_path(), "artifacts/.rejected-records.spill");
    assert_eq!(work.sink.merged_path(), "artifacts/.rejected-records.merged");
}

#[test]
fn merge_spill_interleaves_spilled_rejections_into_source_line_order() {
    let mut work = Artifacts::new();
    let mut spill = work.sink.spill();
    let record = object(r#"{ "id": "abc", "name": "Ada" }"#);
    work.record(&parse_rejection(2));
    work.spill.extend(spill.record(4, &record));
    work.record(&parse_rejection(5));
    work.spill.extend(spill.record(7, &record));

    assert!(work.sink.begin_merge(spill));
    work.merge(|line, object| {
        let mut rejection = validation_rejection(line);
        rejection.record = Value::Object(object);
        Some(rejection)
    });

    assert_eq!(work.sink.count(), 4);
    assert_eq!(work.sink.rejected_lines(), &[2, 4, 5, 7]);
    assert!(work.sink.take_io_error().is_none());
    assert_eq!(
        work.artifact,
        vec![
            artifact_line(&parse_rejection(2)),
            artifact_line(&validation_rejection(4)),
            artifact_line(&parse_rejection(5)),
            artifact_line(&validation_rejection(7)),
        ]
    );
}

#[test]
fn merge_spill_without_parse_rejections_creates_the_artifact_from_the_spill() {
    let mut work = Artifacts::new();
    let mut spill = work.sink.spill();
    work.spill.extend(spill.record(3, &object(r#"{ "id": "abc" }"#)));
    assert!(work.sink.begin_merge(spill));
    work.merge(|line, _| Some(validation_rejection(line)));
    assert_eq!(work.sink.count(), 1);
    assert_eq!(work.sink.rejected_lines(), &[3]);
    assert!(work.sink.take_io_error().is_none());
    assert_eq!(work.artifact, vec![artifact_line(&validation_rejection(3))]);
}

#[test]
fn discarding_the_spill_keeps_only_the_streamed_parse_rejections() {
    let mut work = Artifacts::new();
    let mut spill = work.sink.spill();
    work.record(&parse_rejection(2));
    work.spill.extend(spill.record(4, &object(r#"{ "id": "abc" }"#)));
    work.sink.discard(spill);
    assert_eq!(work.sink.count(), 1);
    assert_eq!(work.sink.rejected_lines(), &[2]);
    assert!(work.sink.take_io_error().is_none());
    assert_eq!(work.artifact, vec![artifact_line(&parse_rejection(2))]);
}

#[test]
fn records_that_no_longer_violate_are_dropped_from_the_merge() {
    let mut work = Artifacts::new();
    let mut spill = work.sink.spill();
    for line in [1, 2, 3] {
        work.spill.extend(spill.record(line, &object(r#"{ "id": "abc" }"#)));
    }
    assert!(work.sink.begin_merge(spill));
    work.merge(|line, _| if line == 2 { None } else { Some(validation_rejection(line)) });
    assert_eq!(work.sink.rejected_lines(), &[1, 3]);
}

#[test]
fn the_artifact_goes_first_where_both_sides_name_a_line() {
    let mut work = Artifacts::new();
    let mut spill = work.sink.spill();
    work.record(&parse_rejection(4));
    work.spill.extend(spill.record(4, &object(r#"{ "id": "abc" }"#)));
    assert!(work.sink.begin_merge(spill));
    work.merge(|line, _| Some(validation_rejection(line)));
    assert_eq!(work.sink.rejected_lines(), &[4, 4]);
    assert_eq!(work.artifact[0], artifact_line(&parse_rejection(4)));
}

#[test]
fn a_failure_poisons_the_sink_and_the_first_one_is_kept() {
    let mut sink: RejectionSink<String> = RejectionSink::new("artifacts");
    assert!(sink.record(&parse_rejection(1)).is_some());
    sink.absorb("disk full".to_string());
    sink.absorb("disk gone".to_string());
    assert!(sink.record(&parse_rejection(2)).is_none(), "nothing more is written");
    assert_eq!(sink.rejected_lines(), &[1, 2], "but everything is counted");
    let mut spill = sink.spill();
    assert!(spill.record(3, &object("{}")).is_some());
    assert!(!sink.begin_merge(spill), "a poisoned sink merges nothing");
    assert_eq!(sink.take_io_error().as_deref(), Some("disk full"));
    assert!(sink.take_io_error().is_none());

    let mut spill = sink.spill();
    spill.absorb("spill gone".to_string());
    assert!(spill.record(4, &object("{}")).is_none());
    sink.discard(spill);
    assert_eq!(sink.take_io_error().as_deref(), Some("spill gone"));

    assert!(!sink.begin_merge(sink.spill()), "an empty spill has nothing to merge");
    sink.finish_merge(Err("rename failed".to_string()));
    assert_eq!(sink.rejected_lines(), &[1, 2], "a failed merge changes no line");
    assert_eq!(sink.take_io_error().as_deref(), Some("rename failed"));
}

#[test]
fn artifact_and_spill_lines_read_back() {
    assert_eq!(artifact_line_number(&artifact_line(&validation_rejection(18))), Some(18));
    assert_eq!(artifact_line_number(r#"{"code":"x"}"#), None);
    assert_eq!(artifact_line_number(r#"{"line":-4}"#), None);
    assert_eq!(artifact_line_number(r#"{"line":"4"}"#), None);
    assert_eq!(artifact_line_number("[4]"), None);
    assert_eq!(artifact_line_number("not json"), None);

    let record = object(r#"{ "b": [1, -2, "x"], "a": { "c": null, "d": true } }"#);
    let mut spill = RejectionSink::<String>::new("artifacts").spill();
    let text = spill.record(u64::MAX, &record).expect("spill line");
    assert_eq!(spill_entry(&text), Some((u64::MAX, record)));
    assert_eq!(spill_entry(r#"{"line":4}"#), None);
    assert_eq!(spill_entry(r#"{"line":4,"record":[1]}"#), None);
    assert_eq!(spill_entry(r#"{"record":{}}"#), None);
}

#[test]
fn records_read_back_as_deep_as_the_parser_follows() {
    let nested = |levels: usize| {
        let mut record = Value::from(-7);
        for _ in 0..levels {
            record = Value::from(vec![record]);
        }
        RejectedRecord { record, ..parse_rejection(5) }
    };
    assert_eq!(artifact_line_number(&artifact_line(&nested(126))), Some(5));
    assert_eq!(artifact_line_number(&artifact_line(&nested(127))), None);
}

#[test]
fn a_merge_stops_at_the_first_bad_line() {
    let render = |line: u64, _: serde_json::Map<String, Value>| Some(validation_rejection(line));
    let merge = |artifact: Vec<Result<String, String>>, spill: Vec<Result<String, String>>| {
        merge_spill_file(
            artifact.into_iter(),
            spill.into_iter(),
            &render,
            &mut CallingWriter::new(|_: &str| Ok(())),
        )
    };
    let good = artifact_line(&parse_rejection(1));
    let error = merge(vec![Ok(good.clone()), Ok("{}".to_string())], Vec::new()).expect_err("bad");
    assert_eq!(
        error.invalid_line(),
        Some("rejected-records artifact line without a line number")
    );
    let error = merge(vec![Ok(good.clone())], vec![Ok("[]".to_string())]).expect_err("bad");
    assert_eq!(
        error.invalid_line(),
        Some("rejected-records spill line without a line number and record")
    );
    let error = merge(vec![Err("device gone".to_string())], Vec::new()).expect_err("bad");
    assert!(matches!(error, MergeError::Io(text) if text == "device gone"));
    let error = merge_spill_file(
        vec![Ok(good)].into_iter(),
        Vec::new().into_iter(),
        &render,
        &mut CallingWriter::new(|_: &str| Err("disk full".to_string())),
    )
    .expect_err("the write fails");
    assert!(error.invalid_line().is_none());
    assert!(matches!(error, MergeError::Io(text) if text == "disk full"));
}

#[test]
fn reading_an_artifact_hands_out_line_and_text() {
    let text = artifact_line(&parse_rejection(6));
    let mut lines = vec![Ok::<String, String>(text.clone())].into_iter();
    assert_eq!(next_artifact_line(&mut lines).expect("a line"), Some((6, text)));
    assert_eq!(next_artifact_line(&mut lines).expect("the end"), None);
}

#[test]
fn a_merge_writes_each_line_once_until_a_write_fails() {
    let render = |line: u64, _: serde_json::Map<String, Value>| Some(parse_rejection(line));
    let artifact = vec![artifact_line(&parse_rejection(1)), artifact_line(&parse_rejection(4))];
    let spill = vec![r#"{"line":2,"record":{}}"#.to_string(), r#"{"line":3,"record":{}}"#.to_string()];
    let mut written: Vec<Option<u64>> = Vec::new();
    let lines = merge_spill_file(
        artifact.clone().into_iter().map(Ok::<String, String>),
        spill.clone().into_iter().map(Ok::<String, String>),
        &render,
        &mut CallingWriter::new(|line: &str| {
            written.push(artifact_line_number(line));
            Ok(())
        }),
    )
    .expect("the merge ends");
    assert_eq!(lines, vec![1, 2, 3, 4]);
    assert_eq!(written, vec![Some(1), Some(2), Some(3), Some(4)]);
    let mut handed = 0;
    let error = merge_spill_file(
        artifact.into_iter().map(Ok::<String, String>),
        spill.into_iter().map(Ok::<String, String>),
        &render,
        &mut CallingWriter::new(|_: &str| {
            handed += 1;
            if handed == 3 {
                Err("disk full".to_string())
            } else {
                Ok(())
            }
        }),
    )
    .expect_err("the third write fails");
    assert!(matches!(error, MergeError::Io(text) if text == "disk full"));
    assert_eq!(handed, 3, "nothing is handed over after the failure");
}

#[test]
fn lines_read_back_with_fractions_in_their_record() {
    for record in [
        r#"{"price":0.1,"rate":1.7976931348623157e308}"#,
        r#"{"tiny":5e-324,"list":[-0.0,123456789.125]}"#,
    ] {
        let rejected = RejectedRecord {
            line: 12,
            code: TYPE_COERCION_FAILED,
            field: Some("price".to_string()),
            source_field: None,
            message: "not a number of the pinned type".to_string(),
            record: json(record),
        };
        let line = artifact_line(&rejected);
        assert_eq!(artifact_line_number(&line), Some(12));
        let mut sink: RejectionSink<String> = RejectionSink::new("artifacts");
        assert_eq!(sink.record(&rejected), Some(line));
        let mut spill = sink.spill();
        let text = spill.record(12, &object(record)).expect("a spill line");
        let (named, held) = spill_entry(&text).expect("the line reads back");
        assert_eq!(named, 12);
        let keys: Vec<&String> = held.keys().collect();
        let written = object(record);
        assert_eq!(keys, written.keys().collect::<Vec<&String>>());
    }
}

#[test]
fn a_record_that_nests_too_deep_does_not_read_back() {
    let nested = |depth: usize| {
        let mut value = Value::from(1);
        for _ in 0..depth {
            value = Value::from(vec![value]);
        }
        let mut rejected = parse_rejection(3);
        rejected.record = value;
        artifact_line_number(&artifact_line(&rejected))
    };
    assert_eq!(nested(126), Some(3));
    assert_eq!(nested(127), None);
}

#[test]
fn a_merge_breaks_off_at_the_first_bad_line_that_it_reads_ahead() {
    let render = |line: u64, _: serde_json::Map<String, Value>| Some(parse_rejection(line));
    let good = |line: u64| Ok::<String, String>(artifact_line(&parse_rejection(line)));
    let spilled = |line: u64| Ok::<String, String>(format!(r#"{{"line":{line},"record":{{}}}}"#));
    let mut written: Vec<Option<u64>> = Vec::new();
    let error = merge_spill_file(
        vec![good(1), good(2), Err("artifact gone".to_string())].into_iter(),
        vec![spilled(5), Ok("{}".to_string())].into_iter(),
        &render,
        &mut CallingWriter::new(|line: &str| {
            written.push(artifact_line_number(line));
            Ok(())
        }),
    )
    .expect_err("the artifact ends in a failure");
    assert!(matches!(error, MergeError::Io(text) if text == "artifact gone"));
    assert_eq!(written, vec![Some(1)], "the line before the failure is not handed over");
    let mut written: Vec<Option<u64>> = Vec::new();
    let error = merge_spill_file(
        vec![good(6), good(7), Err("artifact gone".to_string())].into_iter(),
        vec![spilled(4), spilled(5), Ok("{}".to_string())].into_iter(),
        &render,
        &mut CallingWriter::new(|line: &str| {
            written.push(artifact_line_number(line));
            Ok(())
        }),
    )
    .expect_err("the spill comes first");
    assert!(matches!(error, MergeError::InvalidSpillLine));
    assert_eq!(written, vec![Some(4)]);
    let error = merge_spill_file(
        vec![Ok::<String, String>("{}".to_string())].into_iter(),
        vec![Err("spill gone".to_string())].into_iter(),
        &render,
        &mut CallingWriter::new(|_: &str| Ok(())),
    )
    .expect_err("the artifact is read first");
    assert!(matches!(error, MergeError::InvalidArtifactLine));
}
