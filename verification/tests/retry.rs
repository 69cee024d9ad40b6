//! The retry engine, driven by scripted operations.
use data_spark::count::NonZeroCount;
use data_spark::destination::{DestinationWriteFacts, DestinationWriteFailure, Transience};
use data_spark::failure::LoadFailure;
use data_spark::retry::{
    delay_before_attempt_ms, report_value, report_when_attempted, run_unit, CallingOperation,
    CallingSleeper, RecordingSleeper, RetryAttempt, RetryPolicy, RetryUnit,
};
use serde_json::Value;

fn json(text: &str) -> Value {
    serde_json::from_str(text).expect("test json")
}

struct ScriptedOperation {
    outcomes: Vec<ScriptedOutcome>,
    calls: u64,
}

enum ScriptedOutcome {
    Succeed,
    Fail {
        message: &'static str,
        transience: Transience,
    },
}

impl ScriptedOperation {
    fn new(outcomes: Vec<ScriptedOutcome>) -> Self {
        ScriptedOperation { outcomes, calls: 0 }
    }

    fn invoke(&mut self) -> Result<u64, DestinationWriteFailure> {
        let outcome = self.outcomes.remove(0);
        self.calls += 1;
        match outcome {
            ScriptedOutcome::Succeed => Ok(self.calls),
            ScriptedOutcome::Fail {
                message,
                transience,
            } => Err(DestinationWriteFailure {
                failure: LoadFailure {
                    code: "destination_write_failed",
                    message: message.to_string(),
                },
                facts: DestinationWriteFacts::not_applicable(),
                written_records: 0,
                committed_chunks: 0,
                transience,
            }),
        }
    }
}

fn transient(message: &'static str) -> ScriptedOutcome {
    ScriptedOutcome::Fail {
        message,
        transience: Transience::Transient,
    }
}

#[test]
fn transient_failures_retry_through_the_sleeper_and_record_the_backoff_sequence() {
    let mut operation = ScriptedOperation::new(vec![
        transient("first shortage"),
        transient("second shortage"),
        ScriptedOutcome::Succeed,
    ]);
    let mut sleeper = RecordingSleeper::new();
    let mut attempts = Vec::new();

    let value = run_unit(
        &RetryPolicy::default(),
        RetryUnit::WriteChunk { chunk_index: 4 },
        &mut attempts,
        &mut sleeper,
        &mut CallingOperation::new(|| operation.invoke()),
    )
    .expect("the third attempt succeeds");

    assert_eq!(value, 3, "the operation ran exactly three times");
    assert_eq!(sleeper.slept_ms(), vec![200, 400]);
    let entries: Vec<Value> = attempts.iter().map(RetryAttempt::report_value).collect();
    assert_eq!(
        entries,
        vec![
            json(r#"{
                "operation": "write_chunk",
                "chunk_index": 4,
                "attempt": 1,
                "error": {
                    "code": "destination_write_failed",
                    "message": "first shortage"
                },
                "delay_before_retry_ms": 200
            }"#),
            json(r#"{
                "operation": "write_chunk",
                "chunk_index": 4,
                "attempt": 2,
                "error": {
                    "code": "destination_write_failed",
                    "message": "second shortage"
                },
                "delay_before_retry_ms": 400
            }"#),
        ]
    );
}

#[test]
fn exhaustion_surfaces_the_last_failure_unchanged_and_records_the_final_attempt() {
    let mut operation = ScriptedOperation::new(vec![
        transient("first shortage"),
        transient("second shortage"),
        transient("third shortage"),
    ]);
    let mut sleeper = RecordingSleeper::new();
    let mut attempts = Vec::new();

    let failure = run_unit(
        &RetryPolicy::default(),
        RetryUnit::Begin,
        &mut attempts,
        &mut sleeper,
        &mut CallingOperation::new(|| operation.invoke()),
    )
    .expect_err("an exhausted budget surfaces the failure");

    assert_eq!(failure.failure.code, "destination_write_failed");
    assert_eq!(failure.failure.message, "third shortage");
    assert_eq!(sleeper.slept_ms(), vec![200, 400]);
    let entries: Vec<Value> = attempts.iter().map(RetryAttempt::report_value).collect();
    assert_eq!(
        entries,
        vec![
            json(r#"{
                "operation": "begin",
                "attempt": 1,
                "error": {
                    "code": "destination_write_failed",
                    "message": "first shortage"
                },
                "delay_before_retry_ms": 200
            }"#),
            json(r#"{
                "operation": "begin",
                "attempt": 2,
                "error": {
                    "code": "destination_write_failed",
                    "message": "second shortage"
                },
                "delay_before_retry_ms": 400
            }"#),
            json(r#"{
                "operation": "begin",
                "attempt": 3,
                "error": {
                    "code": "destination_write_failed",
                    "message": "third shortage"
                }
            }"#),
        ]
    );
}

#[test]
fn a_terminal_failure_after_a_transient_one_stops_the_unit_and_joins_the_log() {
    let mut operation = ScriptedOperation::new(vec![
        transient("first shortage"),
        ScriptedOutcome::Fail {
            message: "storage detached",
            transience: Transience::Terminal,
        },
    ]);
    let mut sleeper = RecordingSleeper::new();
    let mut attempts = Vec::new();

    let failure = run_unit(
        &RetryPolicy::default(),
        RetryUnit::WriteChunk { chunk_index: 0 },
        &mut attempts,
        &mut sleeper,
        &mut CallingOperation::new(|| operation.invoke()),
    )
    .expect_err("a terminal failure surfaces");

    assert_eq!(failure.failure.message, "storage detached");
    assert_eq!(sleeper.slept_ms(), vec![200]);
    let entries: Vec<Value> = attempts.iter().map(RetryAttempt::report_value).collect();
    assert_eq!(entries.len(), 2);
    assert_eq!(entries[1]["attempt"], 2);
    assert_eq!(entries[1]["error"]["message"], "storage detached");
    assert!(
        entries[1].get("delay_before_retry_ms").is_none(),
        "no retry followed the final failure"
    );
}

#[test]
fn an_immediately_terminal_failure_retries_zero_times_and_records_nothing() {
    let mut operation = ScriptedOperation::new(vec![ScriptedOutcome::Fail {
        message: "table is missing",
        transience: Transience::Terminal,
    }]);
    let mut sleeper = RecordingSleeper::new();
    let mut attempts = Vec::new();

    let failure = run_unit(
        &RetryPolicy::default(),
        RetryUnit::Begin,
        &mut attempts,
        &mut sleeper,
        &mut CallingOperation::new(|| operation.invoke()),
    )
    .expect_err("a terminal failure surfaces");

    assert_eq!(failure.failure.message, "table is missing");
    assert_eq!(operation.calls, 1, "terminal failures retry zero times");
    assert!(sleeper.slept_ms().is_empty());
    assert!(attempts.is_empty());
}

#[test]
fn max_attempts_one_disables_retry_even_for_a_transient_failure() {
    let policy = RetryPolicy {
        max_attempts: NonZeroCount::new(1).expect("nonzero"),
        ..RetryPolicy::default()
    };
    let mut operation = ScriptedOperation::new(vec![transient("first shortage")]);
    let mut sleeper = RecordingSleeper::new();
    let mut attempts = Vec::new();

    let failure = run_unit(
        &policy,
        RetryUnit::WriteChunk { chunk_index: 2 },
        &mut attempts,
        &mut sleeper,
        &mut CallingOperation::new(|| operation.invoke()),
    )
    .expect_err("a single-attempt budget surfaces the first failure");

    assert_eq!(failure.failure.message, "first shortage");
    assert_eq!(operation.calls, 1);
    assert!(sleeper.slept_ms().is_empty());
    assert!(attempts.is_empty());
}

#[test]
fn each_unit_holds_its_own_attempt_budget() {
    let mut sleeper = RecordingSleeper::new();
    let mut attempts = Vec::new();

    for chunk_index in [0, 1] {
        let mut operation = ScriptedOperation::new(vec![
            transient("first shortage"),
            transient("second shortage"),
            ScriptedOutcome::Succeed,
        ]);
        run_unit(
            &RetryPolicy::default(),
            RetryUnit::WriteChunk { chunk_index },
            &mut attempts,
            &mut sleeper,
            &mut CallingOperation::new(|| operation.invoke()),
        )
        .unwrap_or_else(|_| panic!("unit {chunk_index} recovers within its own budget"));
    }

    assert_eq!(sleeper.slept_ms(), vec![200, 400, 200, 400]);
    let entries: Vec<Value> = attempts.iter().map(RetryAttempt::report_value).collect();
    assert_eq!(entries.len(), 4);
    assert_eq!(entries[0]["chunk_index"], 0);
    assert_eq!(entries[1]["chunk_index"], 0);
    assert_eq!(entries[2]["chunk_index"], 1);
    assert_eq!(entries[3]["chunk_index"], 1);
    assert_eq!(
        entries[2]["attempt"], 1,
        "the second unit's attempts start back at 1"
    );
    assert_eq!(entries[2]["delay_before_retry_ms"], 200);
}

#[test]
fn the_backoff_wait_doubles_from_the_initial_delay_and_clamps_at_the_cap() {
    let policy = RetryPolicy {
        max_attempts: NonZeroCount::new(6).expect("nonzero"),
        initial_delay_ms: 100,
        max_delay_ms: 700,
    };
    let outcomes = vec![
        transient("shortage"),
        transient("shortage"),
        transient("shortage"),
        transient("shortage"),
        transient("shortage"),
        ScriptedOutcome::Succeed,
    ];
    let mut operation = ScriptedOperation::new(outcomes);
    let mut sleeper = RecordingSleeper::new();
    let mut attempts = Vec::new();

    run_unit(
        &policy,
        RetryUnit::Begin,
        &mut attempts,
        &mut sleeper,
        &mut CallingOperation::new(|| operation.invoke()),
    )
    .expect("the sixth attempt succeeds");

    assert_eq!(sleeper.slept_ms(), vec![100, 200, 400, 700, 700]);
}

#[test]
fn a_cap_below_the_initial_delay_clamps_every_wait() {
    let policy = RetryPolicy {
        max_attempts: NonZeroCount::new(3).expect("nonzero"),
        initial_delay_ms: 500,
        max_delay_ms: 300,
    };
    let mut operation = ScriptedOperation::new(vec![
        transient("shortage"),
        transient("shortage"),
        ScriptedOutcome::Succeed,
    ]);
    let mut sleeper = RecordingSleeper::new();
    let mut attempts = Vec::new();

    run_unit(
        &policy,
        RetryUnit::Begin,
        &mut attempts,
        &mut sleeper,
        &mut CallingOperation::new(|| operation.invoke()),
    )
    .expect("the third attempt succeeds");

    assert_eq!(sleeper.slept_ms(), vec![300, 300]);
}

#[test]
fn a_first_attempt_success_touches_neither_the_sleeper_nor_the_log() {
    let mut operation = ScriptedOperation::new(vec![ScriptedOutcome::Succeed]);
    let mut sleeper = RecordingSleeper::new();
    let mut attempts = Vec::new();

    run_unit(
        &RetryPolicy::default(),
        RetryUnit::Begin,
        &mut attempts,
        &mut sleeper,
        &mut CallingOperation::new(|| operation.invoke()),
    )
    .expect("the first attempt succeeds");

    assert_eq!(operation.calls, 1);
    assert!(sleeper.slept_ms().is_empty());
    assert!(attempts.is_empty());
}

#[test]
fn the_not_started_retry_story_exists_exactly_when_attempts_were_recorded() {
    let policy = RetryPolicy::default();
    assert!(report_when_attempted(&policy, &[]).is_none());

    let mut operation = ScriptedOperation::new(vec![
        transient("connection shortage"),
        ScriptedOutcome::Succeed,
    ]);
    let mut sleeper = RecordingSleeper::new();
    let mut attempts = Vec::new();
    run_unit(
        &policy,
        RetryUnit::Begin,
        &mut attempts,
        &mut sleeper,
        &mut CallingOperation::new(|| operation.invoke()),
    )
    .expect("the second attempt succeeds");

    let story =
        report_when_attempted(&policy, &attempts).expect("recorded attempts tell their story");
    assert_eq!(story["max_attempts"], 3);
    assert_eq!(
        story["attempts"].as_array().expect("attempts array").len(),
        1
    );
    assert_eq!(story["attempts"][0]["operation"], "begin");
}

#[test]
fn the_report_value_orders_attempts_begin_first_then_chunk_index_then_attempt() {
    let policy = RetryPolicy::default();
    let mut sleeper = RecordingSleeper::new();
    let mut attempts = Vec::new();

    let mut scrambled = Vec::new();
    for chunk_index in [4, 1] {
        let mut operation = ScriptedOperation::new(vec![
            transient("first shortage"),
            transient("second shortage"),
            ScriptedOutcome::Succeed,
        ]);
        run_unit(
            &policy,
            RetryUnit::WriteChunk { chunk_index },
            &mut attempts,
            &mut sleeper,
            &mut CallingOperation::new(|| operation.invoke()),
        )
        .expect("the unit recovers");
        scrambled.append(&mut attempts);
        if chunk_index == 4 {
            let mut operation = ScriptedOperation::new(vec![
                transient("connection shortage"),
                ScriptedOutcome::Succeed,
            ]);
            run_unit(
                &policy,
                RetryUnit::Begin,
                &mut attempts,
                &mut sleeper,
                &mut CallingOperation::new(|| operation.invoke()),
            )
            .expect("begin recovers");
            scrambled.append(&mut attempts);
        }
    }

    let entries = report_value(&policy, &scrambled)["attempts"]
        .as_array()
        .expect("attempts array")
        .clone();
    let keys: Vec<(Value, Value, Value)> = entries
        .iter()
        .map(|entry| {
            (
                entry["operation"].clone(),
                entry.get("chunk_index").cloned().unwrap_or(Value::Null),
                entry["attempt"].clone(),
            )
        })
        .collect();
    assert_eq!(
        keys,
        vec![
            (Value::from("begin"), Value::Null, Value::from(1)),
            (Value::from("write_chunk"), Value::from(1), Value::from(1)),
            (Value::from("write_chunk"), Value::from(1), Value::from(2)),
            (Value::from("write_chunk"), Value::from(4), Value::from(1)),
            (Value::from("write_chunk"), Value::from(4), Value::from(2)),
        ]
    );
}

#[test]
fn the_report_value_echoes_the_effective_policy_around_the_attempts() {
    let policy = RetryPolicy {
        max_attempts: NonZeroCount::new(5).expect("nonzero"),
        initial_delay_ms: 50,
        max_delay_ms: 900,
    };
    assert_eq!(
        report_value(&policy, &[]),
        json(r#"{
            "max_attempts": 5,
            "initial_delay_ms": 50,
            "max_delay_ms": 900,
            "attempts": []
        }"#)
    );
}

#[test]
fn the_backoff_stays_well_defined_at_any_attempt_count() {
    let policy = RetryPolicy {
        max_attempts: NonZeroCount::new(u64::MAX).expect("nonzero"),
        initial_delay_ms: 3,
        max_delay_ms: u64::MAX,
    };
    assert_eq!(delay_before_attempt_ms(&policy, 0), 3);
    assert_eq!(delay_before_attempt_ms(&policy, 2), 3);
    assert_eq!(delay_before_attempt_ms(&policy, 12), 3 * 1024);
    assert_eq!(delay_before_attempt_ms(&policy, 64), 3 << 62);
    assert_eq!(delay_before_attempt_ms(&policy, 65), u64::MAX);
    assert_eq!(delay_before_attempt_ms(&policy, u64::MAX), u64::MAX);

    let idle = RetryPolicy { initial_delay_ms: 0, ..policy };
    assert_eq!(delay_before_attempt_ms(&idle, u64::MAX), 0);
}

#[test]
fn a_calling_sleeper_hands_every_wait_on() {
    let waited = std::cell::RefCell::new(Vec::new());
    let mut sleeper = CallingSleeper::new(|delay_ms| waited.borrow_mut().push(delay_ms));
    let mut operation = ScriptedOperation::new(vec![
        transient("first shortage"),
        transient("second shortage"),
        ScriptedOutcome::Succeed,
    ]);
    let mut attempts = Vec::new();
    run_unit(
        &RetryPolicy::default(),
        RetryUnit::Begin,
        &mut attempts,
        &mut sleeper,
        &mut CallingOperation::new(|| operation.invoke()),
    )
    .expect("the third attempt succeeds");
    assert_eq!(*waited.borrow(), vec![200, 400]);
}

#[test]
fn an_attempt_names_its_place_in_the_report() {
    let entry = |unit: RetryUnit, attempt: u64| RetryAttempt {
        unit,
        attempt,
        code: "destination_write_failed",
        message: "shortage".to_string(),
        delay_before_retry_ms: None,
    };
    assert_eq!(entry(RetryUnit::Begin, 2).unit_order(), (0, 0, 2));
    assert_eq!(
        entry(RetryUnit::WriteChunk { chunk_index: 7 }, 1).unit_order(),
        (1, 7, 1)
    );
}
