//! What can go wrong in a load, and the facts a failure carries to the report.
use crate::destination::DestinationWriteFacts;
use crate::text::{decimal, decimal_text};
use serde_json::Value;
use vstd::prelude::*;
use vstd::std_specs::convert::FromSpecImpl;
use vstd::string::*;

verus! {

/// A load failure: a stable code for machines and a message for people.
#[derive(Debug)]
pub struct LoadFailure {
    pub code: &'static str,
    pub message: String,
}

/// A load failure as the texts it holds.
pub struct FailureView {
    pub code: Seq<char>,
    pub message: Seq<char>,
}

impl View for LoadFailure {
    type V = FailureView;

    open spec fn view(&self) -> FailureView {
        FailureView { code: self.code@, message: self.message@ }
    }
}

/// The failure with this code and message.
pub open spec fn failing(code: Seq<char>, message: Seq<char>) -> FailureView {
    FailureView { code, message }
}

impl LoadFailure {
    /// A failure with a code and a message.
    pub fn new(code: &'static str, message: String) -> (failure: LoadFailure)
        ensures
            failure@ == failing(code@, message@),
            failure.code == code,
            failure.message == message,
    {
        LoadFailure { code, message }
    }
}

/// The execution posture of a failure that happened inside a write session:
/// the chunks the destination had committed, the effective chunk bound and
/// parallelism, and the retry story.
#[derive(Debug)]
pub struct CommittedExecution {
    pub committed_chunks: u64,
    pub chunk_rows: u64,
    pub parallelism: u64,
    pub connector_parallelism_limit: u64,
    pub retry: Value,
}

/// A load failure joined with the facts the load had already established
/// when it happened: the schema decision if one was made, the source records
/// once they were counted, what the destination holds of the load, the
/// records rejected so far, and the execution posture inside a write session.
/// `retry` is the retry story of a failure before any session was open.
#[derive(Debug)]
pub struct ExecutionFailure {
    pub failure: LoadFailure,
    pub schema_decision: Option<Value>,
    pub source_rows: Option<u64>,
    pub written_records: u64,
    pub rejected_count: u64,
    pub committed_execution: Option<CommittedExecution>,
    pub retry: Option<Value>,
    pub destination_write: DestinationWriteFacts,
}

/// The failure of a load that had established nothing but the failure.
pub open spec fn bare_failure(failure: LoadFailure) -> ExecutionFailure {
    ExecutionFailure {
        failure,
        schema_decision: None,
        source_rows: None,
        written_records: 0,
        rejected_count: 0,
        committed_execution: None,
        retry: None,
        destination_write: DestinationWriteFacts {
            atomicity: "not_applicable",
            strategy: None,
            merge: None,
        },
    }
}

impl From<LoadFailure> for ExecutionFailure {
    fn from(failure: LoadFailure) -> (lifted: Self) {
        ExecutionFailure {
            failure,
            schema_decision: None,
            source_rows: None,
            written_records: 0,
            rejected_count: 0,
            committed_execution: None,
            retry: None,
            destination_write: DestinationWriteFacts::not_applicable(),
        }
    }
}

impl FromSpecImpl<LoadFailure> for ExecutionFailure {
    open spec fn obeys_from_spec() -> bool {
        true
    }

    open spec fn from_spec(failure: LoadFailure) -> Self {
        bare_failure(failure)
    }
}

/// The message of a breached reject threshold.
pub open spec fn threshold_message(rejected: nat, rows: nat, threshold: nat) -> Seq<char> {
    "rejected "@ + decimal(rejected) + " of "@ + decimal(rows)
        + " records, exceeding the reject threshold of "@ + decimal(threshold)
}

/// The failure of a load that rejected more records than it may.
pub fn reject_threshold_failure(
    rejected_count: u64,
    source_rows: u64,
    reject_threshold: u64,
) -> (failure: LoadFailure)
    ensures
        failure@ == failing(
            "reject_threshold_exceeded"@,
            threshold_message(rejected_count as nat, source_rows as nat, reject_threshold as nat),
        ),
{
    let message = "rejected ".to_owned().concat(decimal_text(rejected_count).as_str()).concat(
        " of ",
    ).concat(decimal_text(source_rows).as_str()).concat(
        " records, exceeding the reject threshold of ",
    ).concat(decimal_text(reject_threshold).as_str());
    LoadFailure::new("reject_threshold_exceeded", message)
}

impl ExecutionFailure {
    /// Whether a failure that came before any schema decision already
    /// rejected more records than the load tolerates.
    pub open spec fn breaches(self, reject_threshold: u64) -> bool {
        self.schema_decision is None && self.rejected_count > reject_threshold
    }

    /// Whether `held` is this failure held to the reject threshold: as it is,
    /// or the breach in its place.
    pub open spec fn holds_to(self, reject_threshold: u64, held: ExecutionFailure) -> bool {
        if self.breaches(reject_threshold) {
            let rows = match self.source_rows {
                Some(rows) => rows,
                None => self.rejected_count,
            };
            &&& held == (ExecutionFailure {
                failure: held.failure,
                source_rows: Some(rows),
                ..self
            })
            &&& held.failure@ == failing(
                "reject_threshold_exceeded"@,
                threshold_message(
                    self.rejected_count as nat,
                    rows as nat,
                    reject_threshold as nat,
                ),
            )
        } else {
            held == self
        }
    }

    /// Holds a source failure that came before any schema decision to the
    /// reject threshold: where the records rejected so far already exceed it,
    /// the breach is the failure, and the source rows default to the
    /// rejected ones.
    pub fn apply_pending_reject_threshold(self, reject_threshold: u64) -> (held: Self)
        ensures
            self.holds_to(reject_threshold, held),
    {
        if self.schema_decision.is_none() && self.rejected_count > reject_threshold {
            let rows: u64 = match self.source_rows {
                Some(rows) => rows,
                None => self.rejected_count,
            };
            ExecutionFailure {
                failure: reject_threshold_failure(self.rejected_count, rows, reject_threshold),
                source_rows: Some(rows),
                ..self
            }
        } else {
            self
        }
    }

    /// Attaches the count of the records already rejected.
    pub fn with_rejected_count(self, rejected_count: u64) -> (counted: Self)
        ensures
            counted == (ExecutionFailure { rejected_count, ..self }),
    {
        ExecutionFailure { rejected_count, ..self }
    }
}

/// The failure of a load whose read resolved but whose destination session
/// did not open: the schema decision and the counts travel, and nothing of
/// the load was written.
pub fn resolved_pre_write_failure(
    failure: LoadFailure,
    schema_decision: Value,
    source_rows: u64,
    rejected_count: u64,
) -> (resolved: ExecutionFailure)
    ensures
        resolved == (ExecutionFailure {
            schema_decision: Some(schema_decision),
            source_rows: Some(source_rows),
            rejected_count,
            ..bare_failure(failure)
        }),
{
    ExecutionFailure {
        failure,
        schema_decision: Some(schema_decision),
        source_rows: Some(source_rows),
        written_records: 0,
        rejected_count,
        committed_execution: None,
        retry: None,
        destination_write: DestinationWriteFacts::not_applicable(),
    }
}

/// A failure has the code and the message it was made with, and lifted out of its
/// place it says nothing else: nothing was decided, counted or written.
pub proof fn law_bare_failure_established_nothing(
    code: &'static str,
    message: String,
    failure: LoadFailure,
    lifted: ExecutionFailure,
)
    requires
        call_ensures(LoadFailure::new, (code, message), failure),
        call_ensures(<ExecutionFailure as From<LoadFailure>>::from, (failure,), lifted),
    ensures
        failure.code@ == code@ && failure.message@ == message@,
        lifted.failure == failure,
        lifted.schema_decision is None && lifted.source_rows is None,
        lifted.written_records == 0 && lifted.rejected_count == 0,
        lifted.committed_execution is None && lifted.retry is None,
        lifted.destination_write.atomicity@ == "not_applicable"@,
        lifted.destination_write.strategy is None && lifted.destination_write.merge is None,
{
}

/// A breached threshold is told with the rejected records, the records there were,
/// and the threshold, in this order.
pub proof fn law_breach_tells_its_numbers(
    rejected_count: u64,
    source_rows: u64,
    reject_threshold: u64,
    failure: LoadFailure,
)
    requires
        call_ensures(
            reject_threshold_failure,
            (rejected_count, source_rows, reject_threshold),
            failure,
        ),
    ensures
        failure.code@ == "reject_threshold_exceeded"@,
        failure.message@ == "rejected "@ + decimal(rejected_count as nat) + " of "@ + decimal(
            source_rows as nat,
        ) + " records, exceeding the reject threshold of "@ + decimal(reject_threshold as nat),
{
}

/// A source failure gives way to the breached threshold exactly where no schema was
/// decided yet and more records were rejected than tolerated. Everything else that
/// the failure established stays.
pub proof fn law_breach_replaces_only_an_undecided_failure(
    failure: ExecutionFailure,
    reject_threshold: u64,
    held: ExecutionFailure,
)
    requires
        call_ensures(
            ExecutionFailure::apply_pending_reject_threshold,
            (failure, reject_threshold),
            held,
        ),
    ensures
        failure.schema_decision is Some || failure.rejected_count <= reject_threshold ==> held
            == failure,
        failure.schema_decision is None && failure.rejected_count > reject_threshold ==> {
            let rows = if failure.source_rows is Some {
                failure.source_rows->0
            } else {
                failure.rejected_count
            };
            &&& held.failure.code@ == "reject_threshold_exceeded"@
            &&& held.failure.message@ == "rejected "@ + decimal(failure.rejected_count as nat)
                + " of "@ + decimal(rows as nat) + " records, exceeding the reject threshold of "@
                + decimal(reject_threshold as nat)
            &&& held.source_rows == Some(rows)
            &&& held.rejected_count == failure.rejected_count
            &&& held.written_records == failure.written_records
            &&& held.schema_decision == failure.schema_decision
            &&& held.committed_execution == failure.committed_execution
            &&& held.retry == failure.retry
            &&& held.destination_write == failure.destination_write
        },
{
}

/// A count of rejected records is attached to a failure without touching the rest of
/// it, and a failure before any write carries the decision and the counts of its
/// read.
pub proof fn law_counts_travel_with_a_failure(
    failure: ExecutionFailure,
    rejected_count: u64,
    counted: ExecutionFailure,
    raised: LoadFailure,
    schema_decision: Value,
    source_rows: u64,
    resolved: ExecutionFailure,
)
    requires
        call_ensures(ExecutionFailure::with_rejected_count, (failure, rejected_count), counted),
        call_ensures(
            resolved_pre_write_failure,
            (raised, schema_decision, source_rows, rejected_count),
            resolved,
        ),
    ensures
        counted.rejected_count == rejected_count,
        counted.failure == failure.failure && counted.schema_decision == failure.schema_decision
            && counted.source_rows == failure.source_rows && counted.written_records
            == failure.written_records && counted.committed_execution
            == failure.committed_execution && counted.retry == failure.retry
            && counted.destination_write == failure.destination_write,
        resolved.failure == raised,
        resolved.schema_decision == Some(schema_decision),
        resolved.source_rows == Some(source_rows),
        resolved.rejected_count == rejected_count,
        resolved.written_records == 0,
        resolved.committed_execution is None && resolved.retry is None,
        resolved.destination_write.atomicity@ == "not_applicable"@
            && resolved.destination_write.strategy is None && resolved.destination_write.merge
            is None,
{
}

} // verus!
