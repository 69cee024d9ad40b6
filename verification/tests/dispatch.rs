//! The write phase: the serial loop against a scripted destination, and the
//! window of concurrent writes driven completion by completion.
use arrow_array::RecordBatch;
use data_spark::count::NonZeroCount;
use data_spark::destination::{
    AbandonedWrite, DestinationWrite, DestinationWriteFacts, DestinationWriteFailure, LoadMode,
    Transience,
};
use data_spark::dispatch::{
    abandon_in_session, commit_in_session, run_serial_write_phase, run_write_phase, Destination,
    DestinationWriter, WritePhaseFailure, WritePhaseOutcome, WrittenPhase,
};
use data_spark::failure::LoadFailure;
use data_spark::retry::{
    report_value, run_unit, CallingOperation, Operation, RecordingSleeper, RetryAttempt,
    RetryPolicy, RetryUnit,
};
use data_spark::session::{LoadSession, SessionOpener, WriteSession};
use data_spark::window::{
    SlotCompletion, SlotOutcome, SourcePull, WindowEnd, WindowStep, WriteWindow,
};
use serde_json::Value;
use std::collections::VecDeque;
use std::sync::atomic::{AtomicU64, Ordering};
use std::sync::{Arc, Mutex};

type SourceChunks = Box<dyn Iterator<Item = Result<RecordBatch, LoadFailure>>>;

fn json(text: &str) -> Value {
    serde_json::from_str(text).expect("test json")
}

fn no_window(_: SourceChunks, _: WriteSession<ScriptedWriter>, _: NonZeroCount) -> WrittenPhase {
    panic!("a serial load opens no window")
}

fn int64_batch(values: &[i64]) -> RecordBatch {
    let field = arrow_schema::Field::new("id", arrow_schema::DataType::Int64, false);
    let schema = std::sync::Arc::new(arrow_schema::Schema::new(vec![field]));
    RecordBatch::try_new(
        schema,
        vec![std::sync::Arc::new(arrow_array::Int64Array::from(
            values.to_vec(),
        ))],
    )
    .expect("test batch")
}

fn batch_values(batch: &RecordBatch) -> Vec<i64> {
    batch
        .column(0)
        .as_any()
        .downcast_ref::<arrow_array::Int64Array>()
        .expect("int64 column")
        .values()
        .to_vec()
}

fn chunk_stream(chunks: &[&[i64]]) -> SourceChunks {
    let batches: Vec<Result<RecordBatch, LoadFailure>> = chunks
        .iter()
        .map(|values| Ok(int64_batch(values)))
        .collect();
    Box::new(batches.into_iter())
}

enum ScriptedWriteOutcome {
    Succeed,
    Fail {
        message: &'static str,
        transience: Transience,
    },
}

fn scripted_transient(message: &'static str) -> ScriptedWriteOutcome {
    ScriptedWriteOutcome::Fail {
        message,
        transience: Transience::Transient,
    }
}

struct ScriptedDestination {
    begin_outcomes: Mutex<VecDeque<ScriptedWriteOutcome>>,
    write_outcomes: Arc<Mutex<VecDeque<ScriptedWriteOutcome>>>,
    begin_calls: AtomicU64,
    observed_writes: Arc<Mutex<Vec<Vec<i64>>>>,
}

impl ScriptedDestination {
    fn new(
        begin_outcomes: Vec<ScriptedWriteOutcome>,
        write_outcomes: Vec<ScriptedWriteOutcome>,
    ) -> Self {
        ScriptedDestination {
            begin_outcomes: Mutex::new(begin_outcomes.into()),
            write_outcomes: Arc::new(Mutex::new(write_outcomes.into())),
            begin_calls: AtomicU64::new(0),
            observed_writes: Arc::new(Mutex::new(Vec::new())),
        }
    }

    fn observed_writes(&self) -> Vec<Vec<i64>> {
        self.observed_writes.lock().expect("observed lock").clone()
    }

    fn begin_calls(&self) -> u64 {
        self.begin_calls.load(Ordering::SeqCst)
    }
}

impl Destination for ScriptedDestination {
    type Writer = ScriptedWriter;

    fn begin(&self, _mode: LoadMode) -> Result<ScriptedWriter, DestinationWriteFailure> {
        self.begin_calls.fetch_add(1, Ordering::SeqCst);
        match self.begin_outcomes.lock().expect("script lock").pop_front() {
            None | Some(ScriptedWriteOutcome::Succeed) => Ok(ScriptedWriter {
                write_outcomes: Arc::clone(&self.write_outcomes),
                observed_writes: Arc::clone(&self.observed_writes),
                progress: Mutex::new(ScriptedProgress {
                    committed_chunks: 0,
                    written_records: 0,
                }),
            }),
            Some(ScriptedWriteOutcome::Fail {
                message,
                transience,
            }) => Err(DestinationWriteFailure {
                failure: LoadFailure {
                    code: "destination_write_failed",
                    message: message.to_string(),
                },
                facts: DestinationWriteFacts::not_applicable(),
                written_records: 0,
                committed_chunks: 0,
                transience,
            }),
        }
    }
}

struct ScriptedProgress {
    committed_chunks: u64,
    written_records: u64,
}

struct ScriptedWriter {
    write_outcomes: Arc<Mutex<VecDeque<ScriptedWriteOutcome>>>,
    observed_writes: Arc<Mutex<Vec<Vec<i64>>>>,
    progress: Mutex<ScriptedProgress>,
}

impl DestinationWriter for ScriptedWriter {
    type Batch = RecordBatch;

    fn write_chunk(&self, batch: &RecordBatch) -> Result<(), DestinationWriteFailure> {
        self.observed_writes
            .lock()
            .expect("observed lock")
            .push(batch_values(batch));
        let mut progress = self.progress.lock().expect("progress lock");
        match self.write_outcomes.lock().expect("script lock").pop_front() {
            None | Some(ScriptedWriteOutcome::Succeed) => {
                progress.committed_chunks += 1;
                progress.written_records += batch.num_rows() as u64;
                Ok(())
            }
            Some(ScriptedWriteOutcome::Fail {
                message,
                transience,
            }) => Err(DestinationWriteFailure {
                failure: LoadFailure {
                    code: "destination_write_failed",
                    message: message.to_string(),
                },
                facts: DestinationWriteFacts::best_effort("scripted_append"),
                written_records: progress.written_records,
                committed_chunks: progress.committed_chunks,
                transience,
            }),
        }
    }

    fn commit(self) -> Result<DestinationWrite, DestinationWriteFailure> {
        Ok(DestinationWrite {
            bytes_written: None,
            facts: DestinationWriteFacts::best_effort("scripted_append"),
        })
    }

    fn abandon(self) -> AbandonedWrite {
        let progress = self.progress.lock().expect("progress lock");
        AbandonedWrite {
            committed_chunks: progress.committed_chunks,
            written_records: progress.written_records,
            facts: DestinationWriteFacts::best_effort("scripted_append"),
        }
    }
}

#[test]
fn a_transient_write_chunk_failure_resubmits_the_same_chunk_batch() {
    let destination =
        ScriptedDestination::new(Vec::new(), vec![scripted_transient("first chunk shortage")]);
    let mut sleeper = RecordingSleeper::new();
    let mut retry_attempts = Vec::new();

    let outcome = run_write_phase(
        chunk_stream(&[&[1, 2], &[3, 4]]),
        &mut LoadSession::new(&destination, LoadMode::Append),
        NonZeroCount::one(),
        &RetryPolicy::default(),
        &mut sleeper,
        &mut retry_attempts,
        no_window,
    )
    .expect("the retried chunk commits");

    assert_eq!(outcome.chunk_count, 2);
    assert_eq!(
        destination.observed_writes(),
        vec![vec![1, 2], vec![1, 2], vec![3, 4]],
        "the failed chunk is re-submitted with the same records"
    );
    assert_eq!(sleeper.slept_ms(), vec![200]);
    let entries: Vec<Value> = retry_attempts
        .iter()
        .map(RetryAttempt::report_value)
        .collect();
    assert_eq!(
        entries,
        vec![json(r#"{
            "operation": "write_chunk",
            "chunk_index": 0,
            "attempt": 1,
            "error": {
                "code": "destination_write_failed",
                "message": "first chunk shortage"
            },
            "delay_before_retry_ms": 200
        }"#)]
    );
}

#[test]
fn a_transient_begin_failure_reopens_the_session() {
    let destination =
        ScriptedDestination::new(vec![scripted_transient("connection shortage")], Vec::new());
    let mut sleeper = RecordingSleeper::new();
    let mut retry_attempts = Vec::new();

    let outcome = run_write_phase(
        chunk_stream(&[&[1]]),
        &mut LoadSession::new(&destination, LoadMode::Append),
        NonZeroCount::one(),
        &RetryPolicy::default(),
        &mut sleeper,
        &mut retry_attempts,
        no_window,
    )
    .expect("the retried begin opens the session");

    assert_eq!(destination.begin_calls(), 2);
    assert_eq!(outcome.chunk_count, 1);
    assert_eq!(destination.observed_writes(), vec![vec![1]]);
    assert_eq!(sleeper.slept_ms(), vec![200]);
    let entries: Vec<Value> = retry_attempts
        .iter()
        .map(RetryAttempt::report_value)
        .collect();
    assert_eq!(entries.len(), 1);
    assert_eq!(entries[0]["operation"], "begin");
    assert!(entries[0].get("chunk_index").is_none());
}

#[test]
fn an_exhausted_chunk_unit_keeps_the_committed_prefix_and_the_full_history() {
    let destination = ScriptedDestination::new(
        Vec::new(),
        vec![
            ScriptedWriteOutcome::Succeed,
            scripted_transient("first shortage"),
            scripted_transient("second shortage"),
            scripted_transient("third shortage"),
        ],
    );
    let mut sleeper = RecordingSleeper::new();
    let mut retry_attempts = Vec::new();

    let Err(WritePhaseFailure::InSession(failure)) = run_write_phase(
        chunk_stream(&[&[1], &[2], &[3]]),
        &mut LoadSession::new(&destination, LoadMode::Append),
        NonZeroCount::one(),
        &RetryPolicy::default(),
        &mut sleeper,
        &mut retry_attempts,
        no_window,
    ) else {
        panic!("an exhausted chunk unit fails in session")
    };

    assert_eq!(failure.failure.code, "destination_write_failed");
    assert_eq!(failure.failure.message, "third shortage");
    assert_eq!(failure.committed_chunks, 1);
    assert_eq!(failure.written_records, 1);
    assert_eq!(
        destination.observed_writes(),
        vec![vec![1], vec![2], vec![2], vec![2]],
        "every re-attempt of the exhausted unit re-submitted the same batch"
    );
    assert_eq!(sleeper.slept_ms(), vec![200, 400]);
    let entries: Vec<Value> = retry_attempts
        .iter()
        .map(RetryAttempt::report_value)
        .collect();
    assert_eq!(entries.len(), 3);
    for (index, entry) in entries.iter().enumerate() {
        assert_eq!(entry["operation"], "write_chunk");
        assert_eq!(entry["chunk_index"], 1);
        assert_eq!(entry["attempt"], index as u64 + 1);
    }
    assert_eq!(entries[0]["delay_before_retry_ms"], 200);
    assert_eq!(entries[1]["delay_before_retry_ms"], 400);
    assert!(entries[2].get("delay_before_retry_ms").is_none());
}

#[test]
fn an_exhausted_begin_unit_fails_before_the_session_with_its_history() {
    let destination = ScriptedDestination::new(
        vec![
            scripted_transient("first shortage"),
            scripted_transient("second shortage"),
            scripted_transient("third shortage"),
        ],
        Vec::new(),
    );
    let mut sleeper = RecordingSleeper::new();
    let mut retry_attempts = Vec::new();

    let Err(WritePhaseFailure::BeforeSession(failure)) = run_write_phase(
        chunk_stream(&[&[1]]),
        &mut LoadSession::new(&destination, LoadMode::Append),
        NonZeroCount::one(),
        &RetryPolicy::default(),
        &mut sleeper,
        &mut retry_attempts,
        no_window,
    ) else {
        panic!("an exhausted begin unit fails before the session")
    };

    assert_eq!(failure.failure.message, "third shortage");
    assert_eq!(destination.begin_calls(), 3);
    assert!(destination.observed_writes().is_empty());
    assert_eq!(sleeper.slept_ms(), vec![200, 400]);
    let entries: Vec<Value> = retry_attempts
        .iter()
        .map(RetryAttempt::report_value)
        .collect();
    assert_eq!(entries.len(), 3);
    assert!(entries.iter().all(|entry| entry["operation"] == "begin"));
}

#[test]
fn a_serial_load_logs_its_retries_in_report_order() {
    let destination = ScriptedDestination::new(
        vec![scripted_transient("connection shortage")],
        vec![
            scripted_transient("first shortage"),
            ScriptedWriteOutcome::Succeed,
            scripted_transient("second shortage"),
        ],
    );
    let mut sleeper = RecordingSleeper::new();
    let mut retry_attempts = Vec::new();
    run_write_phase(
        chunk_stream(&[&[1], &[2]]),
        &mut LoadSession::new(&destination, LoadMode::Append),
        NonZeroCount::one(),
        &RetryPolicy::default(),
        &mut sleeper,
        &mut retry_attempts,
        no_window,
    )
    .expect("every unit recovers");
    let logged: Vec<Value> = retry_attempts.iter().map(RetryAttempt::report_value).collect();
    assert_eq!(logged.len(), 3);
    let reported = report_value(&RetryPolicy::default(), &retry_attempts);
    assert_eq!(reported["attempts"], Value::from(logged));
    assert_eq!(reported["attempts"][0]["operation"], "begin");
    assert_eq!(reported["attempts"][2]["chunk_index"], 1);
    assert_eq!(sleeper.slept_ms(), vec![200, 200, 200]);
}

fn source_failure() -> LoadFailure {
    LoadFailure {
        code: "source_changed_during_load",
        message: "source changed during the load".to_string(),
    }
}

#[test]
fn a_source_failure_mid_stream_abandons_the_serial_session_with_its_committed_prefix() {
    let destination = ScriptedDestination::new(Vec::new(), Vec::new());
    let chunks: SourceChunks = Box::new(
        vec![Ok(int64_batch(&[1, 2])), Err(source_failure()), Ok(int64_batch(&[3]))].into_iter(),
    );
    let mut sleeper = RecordingSleeper::new();
    let mut retry_attempts = Vec::new();

    let Err(WritePhaseFailure::InSession(failure)) = run_write_phase(
        chunks,
        &mut LoadSession::new(&destination, LoadMode::Append),
        NonZeroCount::one(),
        &RetryPolicy::default(),
        &mut sleeper,
        &mut retry_attempts,
        no_window,
    ) else {
        panic!("a source failure fails the load in session")
    };
    assert_eq!(failure.failure.code, "source_changed_during_load");
    assert_eq!(failure.committed_chunks, 1);
    assert_eq!(failure.written_records, 2);
    assert_eq!(failure.transience, Transience::Terminal);
    assert_eq!(destination.observed_writes(), vec![vec![1, 2]]);
}

#[test]
fn a_terminal_write_failure_surfaces_as_it_was_raised() {
    let destination = ScriptedDestination::new(
        Vec::new(),
        vec![
            ScriptedWriteOutcome::Succeed,
            ScriptedWriteOutcome::Fail {
                message: "storage detached",
                transience: Transience::Terminal,
            },
        ],
    );
    let mut sleeper = RecordingSleeper::new();
    let mut retry_attempts = Vec::new();
    let mut session = SessionOpener::new(&destination, LoadMode::Append)
        .attempt(&sleeper)
        .expect("session opens");
    let Err(WritePhaseFailure::InSession(failure)) = run_serial_write_phase(
        chunk_stream(&[&[1], &[2], &[3]]),
        &mut session,
        &RetryPolicy::default(),
        &mut sleeper,
        &mut retry_attempts,
    ) else {
        panic!("a terminal failure fails the load in session")
    };
    assert_eq!(failure.failure.message, "storage detached");
    assert_eq!(failure.committed_chunks, 1);
    assert!(retry_attempts.is_empty());
    assert_eq!(destination.observed_writes(), vec![vec![1], vec![2]]);
}

/// A destination whose writes are put off until the driver lets them complete.
struct WindowedWriter {
    /// What each attempt at a chunk comes to, by the chunk's first value.
    steps: Mutex<Vec<(i64, VecDeque<ScriptedWriteOutcome>)>>,
    committed: Mutex<(u64, u64)>,
    abandoned: Arc<Mutex<bool>>,
}

impl WindowedWriter {
    fn new(steps: Vec<(i64, Vec<ScriptedWriteOutcome>)>) -> Self {
        WindowedWriter {
            steps: Mutex::new(
                steps.into_iter().map(|(value, steps)| (value, steps.into())).collect(),
            ),
            committed: Mutex::new((0, 0)),
            abandoned: Arc::new(Mutex::new(false)),
        }
    }
}

impl DestinationWriter for WindowedWriter {
    type Batch = RecordBatch;

    fn write_chunk(&self, batch: &RecordBatch) -> Result<(), DestinationWriteFailure> {
        let value = batch_values(batch)[0];
        let outcome = self
            .steps
            .lock()
            .expect("steps lock")
            .iter_mut()
            .find(|(scripted, _)| *scripted == value)
            .and_then(|(_, steps)| steps.pop_front());
        let mut committed = self.committed.lock().expect("committed lock");
        match outcome {
            None | Some(ScriptedWriteOutcome::Succeed) => {
                committed.0 += 1;
                committed.1 += batch.num_rows() as u64;
                Ok(())
            }
            Some(ScriptedWriteOutcome::Fail { message, transience }) => {
                Err(DestinationWriteFailure {
                    failure: LoadFailure {
                        code: "destination_write_failed",
                        message: message.to_string(),
                    },
                    facts: DestinationWriteFacts::best_effort("windowed_append"),
                    written_records: committed.1,
                    committed_chunks: committed.0,
                    transience,
                })
            }
        }
    }

    fn commit(self) -> Result<DestinationWrite, DestinationWriteFailure> {
        Ok(DestinationWrite {
            bytes_written: None,
            facts: DestinationWriteFacts::best_effort("windowed_append"),
        })
    }

    fn abandon(self) -> AbandonedWrite {
        *self.abandoned.lock().expect("abandoned lock") = true;
        let (committed_chunks, written_records) = *self.committed.lock().expect("committed lock");
        AbandonedWrite {
            committed_chunks,
            written_records,
            facts: if committed_chunks > 0 {
                DestinationWriteFacts::best_effort("windowed_append")
            } else {
                DestinationWriteFacts::not_applicable()
            },
        }
    }
}

/// What driving a window showed besides its result.
#[derive(Default)]
struct WindowTrace {
    pulled: u64,
    max_in_flight: usize,
    /// The pulls seen by each write when as many as the window met.
    observed_pulls: Vec<u64>,
    /// The chunks in the order in which their writes completed.
    completed: Vec<u64>,
}

/// Runs a windowed write phase. Writes wait for one another until the window
/// is full or nothing more is pulled; of those that met, `pick` says which
/// completes next.
fn run_windowed(
    chunks: Vec<Result<RecordBatch, LoadFailure>>,
    writer: WindowedWriter,
    parallelism: u64,
    sleeper: &mut RecordingSleeper,
    retry_attempts: &mut Vec<RetryAttempt>,
    pick: fn(&[u64]) -> usize,
) -> (Result<WritePhaseOutcome, WritePhaseFailure>, WindowTrace) {
    let policy = RetryPolicy::default();
    let mut trace = WindowTrace::default();
    let mut source = chunks.into_iter();
    let mut window: WriteWindow<String> =
        WriteWindow::new(NonZeroCount::new(parallelism).expect("nonzero window"));
    let mut in_flight: Vec<(u64, RecordBatch)> = Vec::new();
    let mut met: Vec<u64> = Vec::new();
    loop {
        match window.next_step() {
            WindowStep::Pull => {
                let pulled = source.next();
                let batch = match pulled {
                    None => {
                        assert_eq!(window.pulled(SourcePull::Exhausted), None);
                        continue;
                    }
                    Some(Err(failure)) => {
                        assert_eq!(window.pulled(SourcePull::Failed(failure)), None);
                        continue;
                    }
                    Some(Ok(batch)) => batch,
                };
                trace.pulled += 1;
                let index = window.pulled(SourcePull::Chunk).expect("a chunk is dispatched");
                in_flight.push((index, batch));
                trace.max_in_flight = trace.max_in_flight.max(in_flight.len());
                let waiting: Vec<u64> = in_flight
                    .iter()
                    .map(|(index, _)| *index)
                    .filter(|index| !met.contains(index))
                    .collect();
                if waiting.len() as u64 == parallelism {
                    for index in waiting {
                        trace.observed_pulls.push(trace.pulled);
                        met.push(index);
                    }
                }
            }
            WindowStep::Await => {
                let ready: Vec<u64> = in_flight
                    .iter()
                    .map(|(index, _)| *index)
                    .filter(|index| met.contains(index))
                    .collect();
                let ready = if ready.is_empty() {
                    in_flight.iter().map(|(index, _)| *index).collect()
                } else {
                    ready
                };
                let chunk_index = ready[pick(&ready)];
                let at = in_flight
                    .iter()
                    .position(|(index, _)| *index == chunk_index)
                    .expect("the chunk is in flight");
                let (_, batch) = in_flight.remove(at);
                let mut attempts = Vec::new();
                let outcome = run_unit(
                    &policy,
                    RetryUnit::WriteChunk { chunk_index },
                    &mut attempts,
                    sleeper,
                    &mut CallingOperation::new(|| writer.write_chunk(&batch)),
                );
                trace.completed.push(chunk_index);
                window.completed(
                    SlotCompletion {
                        chunk_index,
                        attempts,
                        outcome: match outcome {
                            Ok(()) => SlotOutcome::Written,
                            Err(failure) => SlotOutcome::Failed(failure),
                        },
                    },
                    retry_attempts,
                );
            }
            WindowStep::Finish => {
                assert!(in_flight.is_empty(), "the session ends once the window drained");
                let result = match window.finish() {
                    WindowEnd::Commit { chunk_count } => commit_in_session(writer, chunk_count),
                    WindowEnd::Abandon { failure } => Err(abandon_in_session(writer, failure)),
                    WindowEnd::Panicked { payload } => panic!("{payload}"),
                };
                return (result, trace);
            }
        }
    }
}

fn first(_: &[u64]) -> usize {
    0
}

fn last(ready: &[u64]) -> usize {
    ready.len() - 1
}

fn batches(values: &[i64]) -> Vec<Result<RecordBatch, LoadFailure>> {
    values.iter().map(|value| Ok(int64_batch(&[*value]))).collect()
}

fn terminal(message: &'static str) -> ScriptedWriteOutcome {
    ScriptedWriteOutcome::Fail {
        message,
        transience: Transience::Terminal,
    }
}

#[test]
fn the_window_reaches_and_never_exceeds_the_effective_parallelism() {
    let mut sleeper = RecordingSleeper::new();
    let mut retry_attempts = Vec::new();
    let (result, trace) = run_windowed(
        batches(&[1, 2, 3, 4]),
        WindowedWriter::new(Vec::new()),
        2,
        &mut sleeper,
        &mut retry_attempts,
        first,
    );
    let outcome = result.expect("all four chunks commit");
    assert_eq!(outcome.chunk_count, 4);
    assert_eq!(trace.max_in_flight, 2, "the window reached 2 and never exceeded it");
    assert!(retry_attempts.is_empty());
    assert!(sleeper.slept_ms().is_empty());
}

#[test]
fn the_source_is_pulled_only_when_a_slot_frees_and_chunks_stay_window_bounded() {
    let mut sleeper = RecordingSleeper::new();
    let mut retry_attempts = Vec::new();
    let (result, trace) = run_windowed(
        batches(&[1, 2, 3, 4]),
        WindowedWriter::new(Vec::new()),
        2,
        &mut sleeper,
        &mut retry_attempts,
        first,
    );
    let outcome = result.expect("all four chunks commit");
    assert_eq!(outcome.chunk_count, 4);
    assert_eq!(trace.pulled, 4, "every chunk pulled once");
    assert_eq!(
        trace.observed_pulls,
        vec![2, 2, 4, 4],
        "the source was never pulled while every slot was occupied"
    );
}

#[test]
fn a_terminal_failure_drains_the_in_flight_write_then_abandons_with_its_commit() {
    let writer = WindowedWriter::new(vec![
        (10, vec![ScriptedWriteOutcome::Succeed]),
        (20, vec![terminal("value 20 detached")]),
    ]);
    let abandoned = Arc::clone(&writer.abandoned);
    let mut sleeper = RecordingSleeper::new();
    let mut retry_attempts = Vec::new();
    let (result, trace) = run_windowed(
        batches(&[10, 20]),
        writer,
        2,
        &mut sleeper,
        &mut retry_attempts,
        last,
    );
    let Err(WritePhaseFailure::InSession(failure)) = result else {
        panic!("the terminal unit failure fails the load in session")
    };
    assert_eq!(failure.failure.code, "destination_write_failed");
    assert_eq!(failure.failure.message, "value 20 detached");
    assert_eq!(
        failure.committed_chunks, 1,
        "the drained write's commit is reported through the abandon path"
    );
    assert_eq!(failure.written_records, 1);
    assert_eq!(
        failure.facts.report_value(),
        json(r#"{ "atomicity": "best_effort", "strategy": "windowed_append" }"#)
    );
    assert_eq!(trace.pulled, 2);
    assert_eq!(trace.completed, vec![1, 0]);
    assert!(*abandoned.lock().expect("abandoned lock"));
    assert!(retry_attempts.is_empty());
}

#[test]
fn concurrent_terminal_failures_surface_the_lowest_chunk_index_not_wall_clock_order() {
    let writer = WindowedWriter::new(vec![
        (10, vec![terminal("value 10 detached")]),
        (20, vec![terminal("value 20 detached")]),
    ]);
    let mut sleeper = RecordingSleeper::new();
    let mut retry_attempts = Vec::new();
    let (result, trace) = run_windowed(
        batches(&[10, 20, 30]),
        writer,
        2,
        &mut sleeper,
        &mut retry_attempts,
        last,
    );
    let Err(WritePhaseFailure::InSession(failure)) = result else {
        panic!("concurrent terminal failures fail the load in session")
    };
    assert_eq!(failure.failure.message, "value 10 detached");
    assert_eq!(failure.committed_chunks, 0);
    assert_eq!(
        failure.facts.report_value(),
        json(r#"{ "atomicity": "not_applicable" }"#),
        "nothing committed, so the abandoned session states no strategy"
    );
    assert_eq!(trace.pulled, 2, "the halt stops dispatch: chunk 2 is never pulled");
    assert_eq!(trace.completed, vec![1, 0], "chunk 1 failed before chunk 0");
}

#[test]
fn a_source_pull_failure_mid_stream_drains_and_abandons_the_windowed_session() {
    let mut chunks = batches(&[10, 20]);
    chunks.push(Err(source_failure()));
    let writer = WindowedWriter::new(Vec::new());
    let abandoned = Arc::clone(&writer.abandoned);
    let mut sleeper = RecordingSleeper::new();
    let mut retry_attempts = Vec::new();
    let (result, trace) =
        run_windowed(chunks, writer, 2, &mut sleeper, &mut retry_attempts, first);
    let Err(WritePhaseFailure::InSession(failure)) = result else {
        panic!("a mid-stream pull failure fails the load in session")
    };
    assert_eq!(failure.failure.code, "source_changed_during_load");
    assert_eq!(failure.failure.message, "source changed during the load");
    assert_eq!(
        failure.committed_chunks, 2,
        "both dispatched writes drained to completion before the abandon"
    );
    assert_eq!(failure.written_records, 2);
    assert_eq!(trace.completed, vec![0, 1]);
    assert!(*abandoned.lock().expect("abandoned lock"));
    assert!(retry_attempts.is_empty());
}

#[test]
fn concurrent_slots_retry_independently_and_the_report_orders_their_attempts() {
    let writer = WindowedWriter::new(vec![
        (
            10,
            vec![
                scripted_transient("value 10 first shortage"),
                scripted_transient("value 10 second shortage"),
                ScriptedWriteOutcome::Succeed,
            ],
        ),
        (
            20,
            vec![
                scripted_transient("value 20 first shortage"),
                scripted_transient("value 20 second shortage"),
                ScriptedWriteOutcome::Succeed,
            ],
        ),
    ]);
    let mut sleeper = RecordingSleeper::new();
    let mut retry_attempts = Vec::new();
    let (result, trace) = run_windowed(
        batches(&[10, 20]),
        writer,
        2,
        &mut sleeper,
        &mut retry_attempts,
        last,
    );
    let outcome = result.expect("both units recover inside their own budgets");
    assert_eq!(outcome.chunk_count, 2);
    assert_eq!(trace.completed, vec![1, 0]);
    let mut slept = sleeper.slept_ms();
    slept.sort_unstable();
    assert_eq!(
        slept,
        vec![200, 200, 400, 400],
        "each slot slept its own restarted backoff sequence"
    );
    let entries = report_value(&RetryPolicy::default(), &retry_attempts)["attempts"]
        .as_array()
        .expect("attempts array")
        .clone();
    let summarized: Vec<(Value, Value, Value)> = entries
        .iter()
        .map(|entry| {
            (
                entry["chunk_index"].clone(),
                entry["attempt"].clone(),
                entry["delay_before_retry_ms"].clone(),
            )
        })
        .collect();
    assert_eq!(
        summarized,
        vec![
            (Value::from(0), Value::from(1), Value::from(200)),
            (Value::from(0), Value::from(2), Value::from(400)),
            (Value::from(1), Value::from(1), Value::from(200)),
            (Value::from(1), Value::from(2), Value::from(400)),
        ],
        "report assembly orders attempts by chunk index then attempt, not by completion order"
    );
}

#[test]
#[should_panic(expected = "value 10 writer panic")]
fn a_panicking_writer_drains_the_window_and_re_raises_on_the_dispatching_thread() {
    let writer = WindowedWriter::new(vec![(20, vec![ScriptedWriteOutcome::Succeed])]);
    let chunks = [int64_batch(&[10]), int64_batch(&[20])];
    let mut window: WriteWindow<&str> =
        WriteWindow::new(NonZeroCount::new(2).expect("nonzero window"));
    let mut retry_attempts = Vec::new();
    for index in 0..chunks.len() as u64 {
        assert_eq!(window.next_step(), WindowStep::Pull);
        assert_eq!(window.pulled(SourcePull::Chunk), Some(index));
    }
    assert_eq!(window.next_step(), WindowStep::Await, "the window is full");
    writer.write_chunk(&chunks[1]).expect("the sibling is written");
    window.completed(
        SlotCompletion {
            chunk_index: 1,
            attempts: Vec::new(),
            outcome: SlotOutcome::Written,
        },
        &mut retry_attempts,
    );
    window.completed(
        SlotCompletion {
            chunk_index: 0,
            attempts: Vec::new(),
            outcome: SlotOutcome::Panicked("value 10 writer panic"),
        },
        &mut retry_attempts,
    );
    assert_eq!(window.next_step(), WindowStep::Finish, "nothing more is pulled");
    assert!(retry_attempts.is_empty());
    match window.finish() {
        WindowEnd::Panicked { payload } => panic!("{payload}"),
        WindowEnd::Commit { .. } | WindowEnd::Abandon { .. } => {}
    }
}

#[test]
fn a_panicked_writer_ends_the_window_with_its_first_payload_once_it_drained() {
    let mut window: WriteWindow<&str> =
        WriteWindow::new(NonZeroCount::new(2).expect("nonzero window"));
    let mut retry_attempts = Vec::new();
    assert_eq!(window.next_step(), WindowStep::Pull);
    assert_eq!(window.pulled(SourcePull::Chunk), Some(0));
    assert_eq!(window.pulled(SourcePull::Chunk), Some(1));
    assert_eq!(window.next_step(), WindowStep::Await);
    let completion = |chunk_index, outcome| SlotCompletion {
        chunk_index,
        attempts: Vec::new(),
        outcome,
    };
    window.completed(
        completion(1, SlotOutcome::Panicked("value 20 writer panic")),
        &mut retry_attempts,
    );
    assert_eq!(window.next_step(), WindowStep::Await, "the sibling write drains first");
    window.completed(
        completion(0, SlotOutcome::Panicked("value 10 writer panic")),
        &mut retry_attempts,
    );
    assert_eq!(window.next_step(), WindowStep::Finish);
    match window.finish() {
        WindowEnd::Panicked { payload } => assert_eq!(payload, "value 20 writer panic"),
        _ => panic!("a panic comes before any other end"),
    }
}

#[test]
fn a_load_above_one_hands_its_session_to_the_window() {
    let destination =
        ScriptedDestination::new(vec![scripted_transient("connection shortage")], Vec::new());
    let mut load = LoadSession::new(&destination, LoadMode::Append);
    let mut sleeper = RecordingSleeper::new();
    let mut retry_attempts = Vec::new();
    let outcome = run_write_phase(
        chunk_stream(&[&[1], &[2]]),
        &mut load,
        NonZeroCount::new(2).expect("nonzero"),
        &RetryPolicy::default(),
        &mut sleeper,
        &mut retry_attempts,
        |chunks: SourceChunks, session: WriteSession<ScriptedWriter>, parallelism| {
            assert_eq!(parallelism.get(), 2);
            let writer = session.into_writer();
            let mut written = 0;
            for chunk in chunks {
                writer.write_chunk(&chunk.expect("a chunk")).expect("the chunk is written");
                written += 1;
            }
            WrittenPhase {
                result: commit_in_session(writer, written),
                attempts: Vec::new(),
            }
        },
    )
    .expect("the window commits");
    assert_eq!(outcome.chunk_count, 2);
    assert_eq!(destination.begin_calls(), 2);
    assert_eq!(destination.observed_writes(), vec![vec![1], vec![2]]);
    assert_eq!(retry_attempts.len(), 1);
    assert!(load.session.is_none(), "the window took the session");
}

#[test]
fn a_session_writes_its_chunk_with_every_attempt_and_ends_once() {
    let destination = ScriptedDestination::new(Vec::new(), vec![scripted_transient("shortage")]);
    let sleeper = RecordingSleeper::new();
    let mut opener = SessionOpener::new(&destination, LoadMode::Append);
    let mut session = opener.attempt(&sleeper).expect("session opens");
    session.take_chunk(int64_batch(&[7]));
    assert!(session.attempt(&sleeper).is_err());
    assert!(session.attempt(&sleeper).is_ok());
    session.take_chunk(int64_batch(&[8, 9]));
    assert!(session.attempt(&sleeper).is_ok());
    assert_eq!(destination.observed_writes(), vec![vec![7], vec![7], vec![8, 9]]);
    let abandoned = session.abandon();
    assert_eq!(abandoned.committed_chunks, 2);
    assert_eq!(abandoned.written_records, 3);
    let mut second = opener.attempt(&sleeper).expect("session opens again");
    assert!(second.commit().is_ok());
    assert_eq!(destination.begin_calls(), 2);
}

#[test]
fn a_serial_load_leaves_its_session_behind() {
    let destination = ScriptedDestination::new(Vec::new(), Vec::new());
    let mut load = LoadSession::new(&destination, LoadMode::Append);
    run_write_phase(
        chunk_stream(&[&[1]]),
        &mut load,
        NonZeroCount::one(),
        &RetryPolicy::default(),
        &mut RecordingSleeper::new(),
        &mut Vec::new(),
        no_window,
    )
    .expect("the chunk is written");
    assert!(load.session.is_some());
    assert_eq!(destination.observed_writes(), vec![vec![1]]);
}
