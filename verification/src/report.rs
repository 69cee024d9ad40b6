//! The load report: what a load did, or how far it came, as one object.
use crate::count::NonZeroPort;
use crate::definition::{DestinationDefinition, SourceDefinition};
use crate::destination::{facts_of, facts_tree, DestinationWriteFacts};
use crate::failure::CommittedExecution;
use crate::json::{
    copy_json, entry_trees, into_object, json_bool, json_null, json_number, json_object, json_text,
    json_tree, lacks, lemma_object_of_different_keys, lemma_object_shows_its_entries, number_tree,
    object_entries, object_fields, object_of, optional_text, render_json, rendered_json, shows,
    text_of, text_or_null, with_field, JsonTree,
};
use crate::rejection::REJECTED_RECORDS_FILENAME;
use crate::text::{
    decimal, decimal_text, join_path, joined_path, separated, separated_text, texts,
};
use serde_json::Value;
use vstd::prelude::*;
use vstd::string::*;

verus! {

pub const LOAD_REPORT_VERSION: u8 = 1;

/// The version of this tool.
pub const BINARY_VERSION: &'static str = "0.2.0";

/// The report's file name inside the artifact directory of a load.
pub const LOAD_REPORT_FILENAME: &'static str = "load-report.json";

/// The load mode of a definition that names none.
pub const DEFAULT_LOAD_MODE: &'static str = "full_refresh";

/// The records a load read, wrote and rejected.
#[derive(Clone, Copy, Debug, PartialEq, Eq, Structural)]
pub struct RowCounts {
    pub source: u64,
    pub written: u64,
    pub rejected: u64,
}

/// The bytes a load read and wrote, where they are known.
#[derive(Clone, Copy, Debug, PartialEq, Eq)]
pub struct ByteCounts {
    pub source: Option<u64>,
    pub destination: Option<u64>,
}

/// How many records a load rejected, and the artifact that holds them.
#[derive(Debug)]
pub struct RejectedRecordFacts {
    pub count: u64,
    pub artifact: Option<String>,
}

impl RejectedRecordFacts {
    /// The facts on rejected records: there is an artifact where there are
    /// any.
    pub fn facts(count: u64, artifact_dir: &str) -> (facts: Self)
        ensures
            facts.count == count,
            match facts.artifact {
                Some(path) => count > 0 && path@ == joined_path(
                    artifact_dir@,
                    REJECTED_RECORDS_FILENAME@,
                ),
                None => count == 0,
            },
    {
        RejectedRecordFacts {
            count,
            artifact: if count > 0 {
                Some(join_path(artifact_dir, REJECTED_RECORDS_FILENAME))
            } else {
                None
            },
        }
    }
}

/// When a load started and finished, in milliseconds since the Unix epoch.
#[derive(Clone, Copy, Debug, PartialEq, Eq, Structural)]
pub struct Timings {
    pub started_unix_ms: u128,
    pub finished_unix_ms: u128,
    pub duration_ms: u128,
}

impl Timings {
    /// The timings of a load; a clock that was set back gives no duration.
    pub fn between(started_unix_ms: u128, finished_unix_ms: u128) -> (timings: Timings)
        ensures
            timings.started_unix_ms == started_unix_ms,
            timings.finished_unix_ms == finished_unix_ms,
            timings.duration_ms == if finished_unix_ms >= started_unix_ms {
                finished_unix_ms - started_unix_ms
            } else {
                0
            },
    {
        Timings {
            started_unix_ms,
            finished_unix_ms,
            duration_ms: if finished_unix_ms >= started_unix_ms {
                finished_unix_ms - started_unix_ms
            } else {
                0
            },
        }
    }
}

/// The failure that a report states.
#[derive(Debug)]
pub struct ErrorSummary {
    pub code: &'static str,
    pub message: String,
}

/// What a load that succeeded did.
#[derive(Debug)]
pub struct ExecutionDetails {
    pub source_summary: Value,
    pub destination_summary: Value,
    pub dataset: Option<String>,
    pub load_mode: String,
    pub schema_decision: Value,
    pub row_counts: RowCounts,
    pub byte_counts: ByteCounts,
    pub rejected_count: u64,
    pub destination_write: DestinationWriteFacts,
    pub execution: Value,
}

/// A failure joined with what the definition said and what the load had
/// established when it failed.
#[derive(Debug)]
pub struct ReportableFailure {
    pub source_summary: Value,
    pub destination_summary: Value,
    pub dataset: Option<String>,
    pub load_mode: String,
    pub schema_decision: Value,
    pub source_rows: u64,
    pub written_records: u64,
    pub rejected_count: u64,
    pub committed_execution: Option<CommittedExecution>,
    pub retry: Option<Value>,
    pub destination_write: DestinationWriteFacts,
    pub code: &'static str,
    pub message: String,
}

/// The empty object.
pub open spec fn empty_object() -> JsonTree {
    object_of(seq![])
}

/// The schema decision of a load that failed before it made one.
pub open spec fn not_evaluated() -> JsonTree {
    object_of(seq![("mode"@, JsonTree::Text("not_evaluated"@))])
}

fn empty_summary() -> (value: Value)
    ensures
        json_tree(value) == empty_object(),
{
    let fields: Vec<(String, Value)> = Vec::new();
    assert(entry_trees(fields@) =~= seq![]);
    json_object(fields)
}

/// The schema decision of a load that failed before it made one.
pub fn not_evaluated_schema_decision() -> (value: Value)
    ensures
        json_tree(value) == not_evaluated(),
{
    let fields = with_field(Vec::new(), "mode", json_text("not_evaluated".to_owned()));
    assert(entry_trees(fields@) =~= seq![("mode"@, JsonTree::Text("not_evaluated"@))]);
    json_object(fields)
}

impl ReportableFailure {
    /// A failure before there was any definition: empty summaries, no dataset,
    /// and the default load mode.
    pub fn without_context(code: &'static str, message: String) -> (failure: Self)
        ensures
            json_tree(failure.source_summary) == empty_object(),
            json_tree(failure.destination_summary) == empty_object(),
            failure.dataset is None,
            failure.load_mode@ == DEFAULT_LOAD_MODE@,
            json_tree(failure.schema_decision) == not_evaluated(),
            failure.source_rows == 0,
            failure.written_records == 0,
            failure.rejected_count == 0,
            failure.committed_execution is None,
            failure.retry is None,
            failure.destination_write == facts_of("not_applicable", None),
            failure.code == code,
            failure.message == message,
    {
        ReportableFailure {
            source_summary: empty_summary(),
            destination_summary: empty_summary(),
            dataset: None,
            load_mode: DEFAULT_LOAD_MODE.to_owned(),
            schema_decision: not_evaluated_schema_decision(),
            source_rows: 0,
            written_records: 0,
            rejected_count: 0,
            committed_execution: None,
            retry: None,
            destination_write: DestinationWriteFacts::not_applicable(),
            code,
            message,
        }
    }

    /// The failure of a definition file that cannot be read.
    pub fn definition_read_failure(error: &str) -> (failure: Self)
        ensures
            failure.code@ == "load_definition_read_failed"@,
            failure.message@ == "failed to read load definition: "@ + error@,
            json_tree(failure.source_summary) == empty_object(),
            json_tree(failure.destination_summary) == empty_object(),
            failure.dataset is None,
            failure.load_mode@ == DEFAULT_LOAD_MODE@,
            json_tree(failure.schema_decision) == not_evaluated(),
            failure.source_rows == 0,
            failure.written_records == 0,
            failure.rejected_count == 0,
            failure.committed_execution is None,
            failure.retry is None,
            failure.destination_write == facts_of("not_applicable", None),
    {
        ReportableFailure::without_context(
            "load_definition_read_failed",
            "failed to read load definition: ".to_owned().concat(error),
        )
    }

    /// The failure of a definition that does not parse.
    pub fn definition_parse_failure(error: &str) -> (failure: Self)
        ensures
            failure.code@ == "invalid_load_definition_yaml"@,
            failure.message@ == "failed to parse load definition: "@ + error@,
            json_tree(failure.source_summary) == empty_object(),
            json_tree(failure.destination_summary) == empty_object(),
            failure.dataset is None,
            failure.load_mode@ == DEFAULT_LOAD_MODE@,
            json_tree(failure.schema_decision) == not_evaluated(),
            failure.source_rows == 0,
            failure.written_records == 0,
            failure.rejected_count == 0,
            failure.committed_execution is None,
            failure.retry is None,
            failure.destination_write == facts_of("not_applicable", None),
    {
        ReportableFailure::without_context(
            "invalid_load_definition_yaml",
            "failed to parse load definition: ".to_owned().concat(error),
        )
    }
}

/// What a report says of the source.
pub open spec fn source_tree(definition: SourceDefinition) -> JsonTree {
    object_of(
        seq![
            ("connector"@, JsonTree::Text(definition.connector@)),
            ("path"@, JsonTree::Text(definition.path@)),
            ("format"@, text_or_null(definition.format)),
        ],
    )
}

/// What a report says of the source, if anything.
pub fn source_summary(definition: Option<&SourceDefinition>) -> (summary: Value)
    ensures
        json_tree(summary) == match definition {
            Some(definition) => source_tree(*definition),
            None => empty_object(),
        },
{
    match definition {
        Some(definition) => {
            let fields = with_field(
                Vec::new(),
                "connector",
                json_text(definition.connector.clone()),
            );
            let fields = with_field(fields, "path", json_text(definition.path.clone()));
            let fields = with_field(fields, "format", optional_text(&definition.format));
            assert(entry_trees(fields@) =~= seq![
                ("connector"@, JsonTree::Text(definition.connector@)),
                ("path"@, JsonTree::Text(definition.path@)),
                ("format"@, text_or_null(definition.format)),
            ]);
            json_object(fields)
        },
        None => empty_summary(),
    }
}

/// A switch, or JSON null where it is not set.
pub open spec fn switch_or_null(switch: Option<bool>) -> JsonTree {
    match switch {
        Some(on) => JsonTree::Bool(on),
        None => JsonTree::Null,
    }
}

fn optional_switch(switch: Option<bool>) -> (value: Value)
    ensures
        json_tree(value) == switch_or_null(switch),
{
    match switch {
        Some(on) => json_bool(on),
        None => json_null(),
    }
}

/// A port, or JSON null where it is not set.
pub open spec fn port_or_null(port: Option<NonZeroPort>) -> JsonTree {
    match port {
        Some(port) => number_tree(port.number() as nat),
        None => JsonTree::Null,
    }
}

fn optional_port(port: Option<NonZeroPort>) -> (value: Value)
    ensures
        json_tree(value) == port_or_null(port),
{
    match port {
        Some(port) => json_number(port.get() as u64),
        None => json_null(),
    }
}

/// What a report says of the destination. Of a password only the name of its
/// variable is ever known.
pub open spec fn destination_tree(definition: DestinationDefinition) -> JsonTree {
    match definition {
        DestinationDefinition::File(file) => object_of(
            seq![
                ("connector"@, JsonTree::Text(file.connector@)),
                ("path"@, JsonTree::Text(file.path@)),
            ],
        ),
        DestinationDefinition::SqlServer(server) => object_of(
            seq![
                ("connector"@, JsonTree::Text(server.connector@)),
                ("host"@, text_or_null(server.host)),
                ("port"@, port_or_null(server.port)),
                ("database"@, text_or_null(server.database)),
                ("schema"@, text_or_null(server.schema)),
                ("user"@, text_or_null(server.user)),
                ("password_env"@, text_or_null(server.password_env)),
                ("encryption"@, text_or_null(server.encryption)),
                ("trust_server_certificate"@, switch_or_null(server.trust_server_certificate)),
                ("accept_datetime_rounding"@, switch_or_null(server.accept_datetime_rounding)),
            ],
        ),
    }
}

/// What a report says of the destination, if anything.
pub fn destination_summary(definition: Option<&DestinationDefinition>) -> (summary: Value)
    ensures
        json_tree(summary) == match definition {
            Some(definition) => destination_tree(*definition),
            None => empty_object(),
        },
{
    match definition {
        Some(DestinationDefinition::File(file)) => {
            let fields = with_field(Vec::new(), "connector", json_text(file.connector.clone()));
            let fields = with_field(fields, "path", json_text(file.path.clone()));
            assert(entry_trees(fields@) =~= seq![
                ("connector"@, JsonTree::Text(file.connector@)),
                ("path"@, JsonTree::Text(file.path@)),
            ]);
            json_object(fields)
        },
        Some(DestinationDefinition::SqlServer(server)) => {
            let fields = with_field(Vec::new(), "connector", json_text(server.connector.clone()));
            let fields = with_field(fields, "host", optional_text(&server.host));
            let fields = with_field(fields, "port", optional_port(server.port));
            let fields = with_field(fields, "database", optional_text(&server.database));
            let fields = with_field(fields, "schema", optional_text(&server.schema));
            let fields = with_field(fields, "user", optional_text(&server.user));
            let fields = with_field(fields, "password_env", optional_text(&server.password_env));
            let fields = with_field(fields, "encryption", optional_text(&server.encryption));
            let fields = with_field(
                fields,
                "trust_server_certificate",
                optional_switch(server.trust_server_certificate),
            );
            let fields = with_field(
                fields,
                "accept_datetime_rounding",
                optional_switch(server.accept_datetime_rounding),
            );
            assert(entry_trees(fields@) =~= seq![
                ("connector"@, JsonTree::Text(server.connector@)),
                ("host"@, text_or_null(server.host)),
                ("port"@, port_or_null(server.port)),
                ("database"@, text_or_null(server.database)),
                ("schema"@, text_or_null(server.schema)),
                ("user"@, text_or_null(server.user)),
                ("password_env"@, text_or_null(server.password_env)),
                ("encryption"@, text_or_null(server.encryption)),
                ("trust_server_certificate"@, switch_or_null(server.trust_server_certificate)),
                ("accept_datetime_rounding"@, switch_or_null(server.accept_datetime_rounding)),
            ]);
            json_object(fields)
        },
        None => empty_summary(),
    }
}

/// The execution object of a load that entered its write session.
pub open spec fn execution_tree(
    batch_count: u64,
    chunk_rows: u64,
    parallelism: u64,
    connector_parallelism_limit: u64,
    retry: JsonTree,
) -> JsonTree {
    object_of(
        seq![
            ("record_format"@, JsonTree::Text("arrow_record_batch"@)),
            ("batch_count"@, number_tree(batch_count as nat)),
            ("chunk_rows"@, number_tree(chunk_rows as nat)),
            ("parallelism"@, number_tree(parallelism as nat)),
            ("connector_parallelism_limit"@, number_tree(connector_parallelism_limit as nat)),
            ("retry"@, retry),
        ],
    )
}

/// The execution object of a load that entered its write session.
pub fn execution_value(
    batch_count: u64,
    chunk_rows: u64,
    parallelism: u64,
    connector_parallelism_limit: u64,
    retry: Value,
) -> (value: Value)
    ensures
        json_tree(value) == execution_tree(
            batch_count,
            chunk_rows,
            parallelism,
            connector_parallelism_limit,
            json_tree(retry),
        ),
{
    let ghost story = json_tree(retry);
    let fields = with_field(
        Vec::new(),
        "record_format",
        json_text("arrow_record_batch".to_owned()),
    );
    let fields = with_field(fields, "batch_count", json_number(batch_count));
    let fields = with_field(fields, "chunk_rows", json_number(chunk_rows));
    let fields = with_field(fields, "parallelism", json_number(parallelism));
    let fields = with_field(
        fields,
        "connector_parallelism_limit",
        json_number(connector_parallelism_limit),
    );
    let fields = with_field(fields, "retry", retry);
    assert(entry_trees(fields@) =~= seq![
        ("record_format"@, JsonTree::Text("arrow_record_batch"@)),
        ("batch_count"@, number_tree(batch_count as nat)),
        ("chunk_rows"@, number_tree(chunk_rows as nat)),
        ("parallelism"@, number_tree(parallelism as nat)),
        ("connector_parallelism_limit"@, number_tree(connector_parallelism_limit as nat)),
        ("retry"@, story),
    ]);
    json_object(fields)
}

/// The execution object of a load that never entered a write session: it has a
/// retry story only where there is one.
pub open spec fn not_started_tree(retry: Option<JsonTree>) -> JsonTree {
    let started = seq![
        ("record_format"@, JsonTree::Text("not_started"@)),
        ("batch_count"@, number_tree(0)),
    ];
    match retry {
        None => object_of(started),
        Some(story) => object_of(started.push(("retry"@, story))),
    }
}

fn not_started_value(retry: Option<Value>) -> (value: Value)
    ensures
        json_tree(value) == not_started_tree(
            match retry {
                Some(story) => Some(json_tree(story)),
                None => None,
            },
        ),
{
    let fields = with_field(Vec::new(), "record_format", json_text("not_started".to_owned()));
    let fields = with_field(fields, "batch_count", json_number(0));
    assert(entry_trees(fields@) =~= seq![
        ("record_format"@, JsonTree::Text("not_started"@)),
        ("batch_count"@, number_tree(0)),
    ]);
    match retry {
        None => json_object(fields),
        Some(story) => json_object(with_field(fields, "retry", story)),
    }
}

/// The execution object that a failure comes to.
pub open spec fn failed_execution_tree(failure: ReportableFailure) -> JsonTree {
    match failure.committed_execution {
        Some(committed) => execution_tree(
            committed.committed_chunks,
            committed.chunk_rows,
            committed.parallelism,
            committed.connector_parallelism_limit,
            json_tree(committed.retry),
        ),
        None => not_started_tree(
            match failure.retry {
                Some(story) => Some(json_tree(story)),
                None => None,
            },
        ),
    }
}

/// The report of a load.
#[derive(Debug)]
pub struct LoadReport {
    pub report_version: u8,
    pub binary_version: &'static str,
    pub load_id: String,
    pub artifact_dir: String,
    pub source_summary: Value,
    pub destination_summary: Value,
    pub dataset: Option<String>,
    pub load_mode: String,
    pub schema_decision: Value,
    pub row_counts: RowCounts,
    pub byte_counts: ByteCounts,
    pub rejected_records: RejectedRecordFacts,
    pub destination_write: Value,
    pub execution: Value,
    pub timings: Timings,
    pub exit_status: &'static str,
    pub process_exit_code: u8,
    pub error_summary: Option<ErrorSummary>,
}

impl LoadReport {
    /// Whether the rejected records are stated as they are.
    pub open spec fn states_rejections(self, count: u64) -> bool {
        &&& self.rejected_records.count == count
        &&& match self.rejected_records.artifact {
            Some(path) => count > 0 && path@ == joined_path(
                self.artifact_dir@,
                REJECTED_RECORDS_FILENAME@,
            ),
            None => count == 0,
        }
    }

    /// The report of a load that succeeded.
    pub fn from_success(
        load_id: String,
        artifact_dir: String,
        timings: Timings,
        details: ExecutionDetails,
    ) -> (report: Self)
        ensures
            report == (LoadReport {
                report_version: LOAD_REPORT_VERSION,
                binary_version: BINARY_VERSION,
                load_id,
                artifact_dir,
                source_summary: details.source_summary,
                destination_summary: details.destination_summary,
                dataset: details.dataset,
                load_mode: details.load_mode,
                schema_decision: details.schema_decision,
                row_counts: details.row_counts,
                byte_counts: details.byte_counts,
                rejected_records: report.rejected_records,
                destination_write: report.destination_write,
                execution: details.execution,
                timings,
                exit_status: "succeeded",
                process_exit_code: 0,
                error_summary: None,
            }),
            report.states_rejections(details.rejected_count),
            json_tree(report.destination_write) == facts_tree(details.destination_write),
    {
        let rejected_records = RejectedRecordFacts::facts(
            details.rejected_count,
            artifact_dir.as_str(),
        );
        LoadReport {
            report_version: LOAD_REPORT_VERSION,
            binary_version: BINARY_VERSION,
            load_id,
            artifact_dir,
            source_summary: details.source_summary,
            destination_summary: details.destination_summary,
            dataset: details.dataset,
            load_mode: details.load_mode,
            schema_decision: details.schema_decision,
            row_counts: details.row_counts,
            byte_counts: details.byte_counts,
            rejected_records,
            destination_write: details.destination_write.report_value(),
            execution: details.execution,
            timings,
            exit_status: "succeeded",
            process_exit_code: 0,
            error_summary: None,
        }
    }

    /// The report of a load that failed: what the definition said, what the
    /// load had established, and the failure.
    pub fn from_failure(
        load_id: String,
        artifact_dir: String,
        timings: Timings,
        failure: ReportableFailure,
    ) -> (report: Self)
        ensures
            report == (LoadReport {
                report_version: LOAD_REPORT_VERSION,
                binary_version: BINARY_VERSION,
                load_id,
                artifact_dir,
                source_summary: failure.source_summary,
                destination_summary: failure.destination_summary,
                dataset: failure.dataset,
                load_mode: failure.load_mode,
                schema_decision: failure.schema_decision,
                row_counts: RowCounts {
                    source: failure.source_rows,
                    written: failure.written_records,
                    rejected: failure.rejected_count,
                },
                byte_counts: ByteCounts { source: None, destination: None },
                rejected_records: report.rejected_records,
                destination_write: report.destination_write,
                execution: report.execution,
                timings,
                exit_status: "failed",
                process_exit_code: 1,
                error_summary: Some(
                    ErrorSummary { code: failure.code, message: failure.message },
                ),
            }),
            report.states_rejections(failure.rejected_count),
            json_tree(report.destination_write) == facts_tree(failure.destination_write),
            json_tree(report.execution) == failed_execution_tree(failure),
    {
        let rejected_records = RejectedRecordFacts::facts(
            failure.rejected_count,
            artifact_dir.as_str(),
        );
        let execution = match failure.committed_execution {
            None => not_started_value(failure.retry),
            Some(committed) => execution_value(
                committed.committed_chunks,
                committed.chunk_rows,
                committed.parallelism,
                committed.connector_parallelism_limit,
                committed.retry,
            ),
        };
        LoadReport {
            report_version: LOAD_REPORT_VERSION,
            binary_version: BINARY_VERSION,
            load_id,
            artifact_dir,
            source_summary: failure.source_summary,
            destination_summary: failure.destination_summary,
            dataset: failure.dataset,
            load_mode: failure.load_mode,
            schema_decision: failure.schema_decision,
            row_counts: RowCounts {
                source: failure.source_rows,
                written: failure.written_records,
                rejected: failure.rejected_count,
            },
            byte_counts: ByteCounts { source: None, destination: None },
            rejected_records,
            destination_write: failure.destination_write.report_value(),
            execution,
            timings,
            exit_status: "failed",
            process_exit_code: 1,
            error_summary: Some(ErrorSummary { code: failure.code, message: failure.message }),
        }
    }
}

/// How a summary shows one entry: texts as they are, anything else in its
/// compact notation.
pub open spec fn entry_text(entry: (Seq<char>, JsonTree)) -> Seq<char> {
    entry.0 + "="@ + match entry.1 {
        JsonTree::Text(text) => text,
        other => rendered_json(other),
    }
}

/// How a summary is shown: its entries, or that there are none.
pub open spec fn summary_view(summary: JsonTree) -> Seq<char> {
    match summary {
        JsonTree::Object(entries) => if entries.len() == 0 {
            "not specified"@
        } else {
            separated(entries.map_values(|entry: (Seq<char>, JsonTree)| entry_text(entry)), ", "@)
        },
        other => rendered_json(other),
    }
}

/// Shows a summary.
pub fn summary_text(summary: &Value) -> (text: String)
    ensures
        text@ == summary_view(json_tree(*summary)),
{
    match into_object(copy_json(summary)) {
        None => render_json(summary),
        Some(object) => {
            let fields = object_fields(&object);
            let ghost entries = object_entries(object);
            assert(entry_trees(fields@).len() == fields@.len());
            if fields.len() == 0 {
                return "not specified".to_owned();
            }
            let mut parts: Vec<String> = Vec::new();
            let mut i: usize = 0;
            while i < fields.len()
                invariant
                    i <= fields.len(),
                    parts.len() == i,
                    entries == entry_trees(fields@),
                    forall|j: int| 0 <= j < i ==> (#[trigger] parts@[j])@ == entry_text(entries[j]),
                decreases fields.len() - i,
            {
                proof {
                    assert(entries[i as int] == (fields@[i as int].0@, json_tree(fields@[i as int].1)));
                }
                let value = match text_of(&fields[i].1) {
                    Some(text) => text,
                    None => render_json(&fields[i].1),
                };
                parts.push(fields[i].0.clone().concat("=").concat(value.as_str()));
                i = i + 1;
            }
            proof {
                assert(texts(parts@) =~= entries.map_values(
                    |entry: (Seq<char>, JsonTree)| entry_text(entry),
                ));
            }
            separated_text(&parts, ", ")
        },
    }
}

/// A labelled line.
pub open spec fn labelled(label: &'static str, text: Seq<char>) -> Seq<char> {
    label@ + text
}

fn labelled_text(label: &'static str, text: &str) -> (line: String)
    ensures
        line@ == labelled(label, text@),
{
    label.to_owned().concat(text)
}

/// The lines that a report is summed up in on the console.
pub open spec fn summary_lines_view(report: LoadReport) -> Seq<Seq<char>> {
    let always = seq![
        labelled("Data Spark load ", report.load_id@),
        labelled("Status: ", report.exit_status@),
        labelled("Load mode: ", report.load_mode@),
        labelled("Source: ", summary_view(json_tree(report.source_summary))),
        labelled("Destination: ", summary_view(json_tree(report.destination_summary))),
        labelled("Records read: ", decimal(report.row_counts.source as nat)),
        labelled("Records written: ", decimal(report.row_counts.written as nat)),
        labelled("Records rejected: ", decimal(report.row_counts.rejected as nat)),
        labelled("Artifact directory: ", report.artifact_dir@),
        labelled("Load report: ", joined_path(report.artifact_dir@, LOAD_REPORT_FILENAME@)),
    ];
    let artifact = match report.rejected_records.artifact {
        Some(path) => seq![labelled("Rejected records artifact: ", path@)],
        None => seq![],
    };
    let error = match report.error_summary {
        Some(error) => seq![labelled("Error: ", error.message@)],
        None => seq![],
    };
    always + artifact + error
}

fn with_line(lines: Vec<String>, line: String) -> (extended: Vec<String>)
    ensures
        texts(extended@) == texts(lines@).push(line@),
{
    let mut extended = lines;
    extended.push(line);
    assert(texts(extended@) =~= texts(lines@).push(line@));
    extended
}

/// The lines that a report is summed up in on the console.
pub fn summary_lines(report: &LoadReport) -> (lines: Vec<String>)
    ensures
        texts(lines@) == summary_lines_view(*report),
{
    let counts = &report.row_counts;
    let lines = with_line(
        Vec::new(),
        labelled_text("Data Spark load ", report.load_id.as_str()),
    );
    let lines = with_line(lines, labelled_text("Status: ", report.exit_status));
    let lines = with_line(lines, labelled_text("Load mode: ", report.load_mode.as_str()));
    let lines = with_line(
        lines,
        labelled_text("Source: ", summary_text(&report.source_summary).as_str()),
    );
    let lines = with_line(
        lines,
        labelled_text("Destination: ", summary_text(&report.destination_summary).as_str()),
    );
    let lines = with_line(
        lines,
        labelled_text("Records read: ", decimal_text(counts.source).as_str()),
    );
    let lines = with_line(
        lines,
        labelled_text("Records written: ", decimal_text(counts.written).as_str()),
    );
    let lines = with_line(
        lines,
        labelled_text("Records rejected: ", decimal_text(counts.rejected).as_str()),
    );
    let lines = with_line(
        lines,
        labelled_text("Artifact directory: ", report.artifact_dir.as_str()),
    );
    let report_path = join_path(report.artifact_dir.as_str(), LOAD_REPORT_FILENAME);
    let mut lines = with_line(lines, labelled_text("Load report: ", report_path.as_str()));
    if let Some(path) = &report.rejected_records.artifact {
        lines = with_line(lines, labelled_text("Rejected records artifact: ", path.as_str()));
    }
    if let Some(error) = &report.error_summary {
        lines = with_line(lines, labelled_text("Error: ", error.message.as_str()));
    }
    proof {
        assert(texts(lines@) =~= summary_lines_view(*report));
    }
    lines
}

/// The report of a load, however it ended.
pub fn load_report(
    load_id: String,
    artifact_dir: String,
    timings: Timings,
    executed: Result<ExecutionDetails, ReportableFailure>,
) -> (report: LoadReport)
    ensures
        report.load_id == load_id,
        report.artifact_dir == artifact_dir,
        report.timings == timings,
        report.report_version == LOAD_REPORT_VERSION,
        report.binary_version == BINARY_VERSION,
        match executed {
            Ok(details) => {
                &&& report.exit_status == "succeeded"
                &&& report.process_exit_code == 0
                &&& report.error_summary is None
                &&& report.source_summary == details.source_summary
                &&& report.destination_summary == details.destination_summary
                &&& report.dataset == details.dataset
                &&& report.load_mode == details.load_mode
                &&& report.schema_decision == details.schema_decision
                &&& report.row_counts == details.row_counts
                &&& report.byte_counts == details.byte_counts
                &&& report.execution == details.execution
                &&& report.states_rejections(details.rejected_count)
                &&& json_tree(report.destination_write) == facts_tree(details.destination_write)
            },
            Err(failure) => {
                &&& report.exit_status == "failed"
                &&& report.process_exit_code == 1
                &&& report.error_summary == Some(
                    ErrorSummary { code: failure.code, message: failure.message },
                )
                &&& report.source_summary == failure.source_summary
                &&& report.destination_summary == failure.destination_summary
                &&& report.dataset == failure.dataset
                &&& report.load_mode == failure.load_mode
                &&& report.schema_decision == failure.schema_decision
                &&& report.row_counts == (RowCounts {
                    source: failure.source_rows,
                    written: failure.written_records,
                    rejected: failure.rejected_count,
                })
                &&& report.byte_counts == (ByteCounts { source: None, destination: None })
                &&& report.states_rejections(failure.rejected_count)
                &&& json_tree(report.destination_write) == facts_tree(failure.destination_write)
                &&& json_tree(report.execution) == failed_execution_tree(failure)
            },
        },
{
    match executed {
        Ok(details) => LoadReport::from_success(load_id, artifact_dir, timings, details),
        Err(failure) => LoadReport::from_failure(load_id, artifact_dir, timings, failure),
    }
}

/// The duration of a load is the time between its start and its finish, and none
/// where the clock was set back.
pub proof fn law_duration_lies_between_start_and_finish(
    started_unix_ms: u128,
    finished_unix_ms: u128,
    timings: Timings,
)
    requires
        call_ensures(Timings::between, (started_unix_ms, finished_unix_ms), timings),
    ensures
        timings.started_unix_ms == started_unix_ms && timings.finished_unix_ms == finished_unix_ms,
        started_unix_ms <= finished_unix_ms ==> started_unix_ms + timings.duration_ms
            == finished_unix_ms,
        started_unix_ms > finished_unix_ms ==> timings.duration_ms == 0,
{
}

/// There is a rejected-records artifact exactly where a record was rejected, in the
/// artifact directory.
pub proof fn law_artifact_is_named_where_records_were_rejected(
    count: u64,
    artifact_dir: &str,
    facts: RejectedRecordFacts,
)
    requires
        call_ensures(RejectedRecordFacts::facts, (count, artifact_dir), facts),
    ensures
        facts.count == count,
        facts.artifact is Some <==> count > 0,
        facts.artifact matches Some(path) ==> path@ == joined_path(
            artifact_dir@,
            "rejected-records.jsonl"@,
        ),
{
}

/// A schema decision that was never made says so.
pub proof fn lemma_not_evaluated_shows()
    ensures
        shows(not_evaluated(), "mode"@, JsonTree::Text("not_evaluated"@)),
{
    let entries = seq![("mode"@, JsonTree::Text("not_evaluated"@))];
    lemma_object_shows_its_entries(entries);
    assert(entries[0].0 == "mode"@);
}

proof fn lemma_empty_object()
    ensures
        empty_object() == JsonTree::Object(Seq::empty()),
{
    let none = Seq::<(Seq<char>, JsonTree)>::empty();
    lemma_object_of_different_keys(none);
}

/// A failure before there was any definition tells its code and its message, and
/// otherwise that nothing is known and nothing was done.
pub proof fn law_failure_without_a_definition_knows_nothing(
    code: &'static str,
    message: String,
    failure: ReportableFailure,
)
    requires
        call_ensures(ReportableFailure::without_context, (code, message), failure),
    ensures
        failure.code@ == code@ && failure.message@ == message@,
        json_tree(failure.source_summary) == JsonTree::Object(Seq::empty()),
        json_tree(failure.destination_summary) == JsonTree::Object(Seq::empty()),
        failure.dataset is None && failure.load_mode@ == "full_refresh"@,
        shows(json_tree(failure.schema_decision), "mode"@, JsonTree::Text("not_evaluated"@)),
        failure.source_rows == 0 && failure.written_records == 0 && failure.rejected_count == 0,
        failure.committed_execution is None && failure.retry is None,
        failure.destination_write.atomicity@ == "not_applicable"@
            && failure.destination_write.strategy is None && failure.destination_write.merge
            is None,
{
    lemma_empty_object();
    lemma_not_evaluated_shows();
}

/// A definition file that cannot be read and one that does not parse are told
/// apart, each with its reason, and nothing was done for either.
pub proof fn law_unusable_definition_is_told(
    error: &str,
    unread: ReportableFailure,
    unparsed: ReportableFailure,
)
    requires
        call_ensures(ReportableFailure::definition_read_failure, (error,), unread),
        call_ensures(ReportableFailure::definition_parse_failure, (error,), unparsed),
    ensures
        unread.code@ == "load_definition_read_failed"@,
        unread.message@ == "failed to read load definition: "@ + error@,
        unparsed.code@ == "invalid_load_definition_yaml"@,
        unparsed.message@ == "failed to parse load definition: "@ + error@,
        forall|failure: ReportableFailure|
            failure == unread || failure == unparsed ==> {
                &&& #[trigger] json_tree(failure.source_summary) == JsonTree::Object(Seq::empty())
                &&& json_tree(failure.destination_summary) == JsonTree::Object(Seq::empty())
                &&& failure.dataset is None && failure.load_mode@ == "full_refresh"@
                &&& shows(
                    json_tree(failure.schema_decision),
                    "mode"@,
                    JsonTree::Text("not_evaluated"@),
                )
                &&& failure.source_rows == 0 && failure.written_records == 0
                    && failure.rejected_count == 0
                &&& failure.committed_execution is None && failure.retry is None
                &&& failure.destination_write.atomicity@ == "not_applicable"@
                    && failure.destination_write.strategy is None
                    && failure.destination_write.merge is None
            },
{
    lemma_empty_object();
    lemma_not_evaluated_shows();
}

/// The report shows of a source what its definition says: connector, path and
/// format, which is null where none is named; of no source it shows nothing.
pub proof fn law_source_is_summed_up_as_defined(
    definition: Option<&SourceDefinition>,
    summary: Value,
)
    requires
        call_ensures(source_summary, (definition,), summary),
    ensures
        definition is None ==> json_tree(summary) == JsonTree::Object(Seq::empty()),
        definition matches Some(source) ==> {
            let shown = json_tree(summary);
            &&& shown matches JsonTree::Object(entries) && entries.len() == 3 && entries[0].0
                == "connector"@ && entries[1].0 == "path"@ && entries[2].0 == "format"@
            &&& shows(shown, "connector"@, JsonTree::Text(source.connector@))
            &&& shows(shown, "path"@, JsonTree::Text(source.path@))
            &&& shows(
                shown,
                "format"@,
                match source.format {
                    Some(format) => JsonTree::Text(format@),
                    None => JsonTree::Null,
                },
            )
        },
{
    lemma_empty_object();
    if let Some(source) = definition {
        reveal_strlit("connector");
        reveal_strlit("path");
        reveal_strlit("format");
        let entries = seq![
            ("connector"@, JsonTree::Text(source.connector@)),
            ("path"@, JsonTree::Text(source.path@)),
            ("format"@, text_or_null(source.format)),
        ];
        assert forall|i: int, j: int| 0 <= i < j < entries.len() implies (#[trigger] entries[i]).0
            != (#[trigger] entries[j]).0 by {
            assert(entries[i].0.len() != entries[j].0.len());
        }
        lemma_object_shows_its_entries(entries);
        lemma_object_of_different_keys(entries);
        assert(entries[0].0 == "connector"@ && entries[1].0 == "path"@ && entries[2].0
            == "format"@);
    }
}

/// The report shows of a destination what its definition says. Of a SQL Server
/// destination that is every key of the block, with null for those that are not
/// set.
pub proof fn law_destination_is_summed_up_as_defined(
    definition: Option<&DestinationDefinition>,
    summary: Value,
)
    requires
        call_ensures(destination_summary, (definition,), summary),
    ensures
        definition is None ==> json_tree(summary) == JsonTree::Object(Seq::empty()),
        definition matches Some(DestinationDefinition::File(file)) ==> {
            &&& json_tree(summary) matches JsonTree::Object(entries) && entries.len() == 2
                && entries[0].0 == "connector"@ && entries[1].0 == "path"@
            &&& shows(json_tree(summary), "connector"@, JsonTree::Text(file.connector@))
            &&& shows(json_tree(summary), "path"@, JsonTree::Text(file.path@))
        },
        definition matches Some(DestinationDefinition::SqlServer(server)) ==> {
            let shown = json_tree(summary);
            let named = |text: Option<String>|
                match text {
                    Some(text) => JsonTree::Text(text@),
                    None => JsonTree::Null,
                };
            let switched = |switch: Option<bool>|
                match switch {
                    Some(on) => JsonTree::Bool(on),
                    None => JsonTree::Null,
                };
            &&& shown matches JsonTree::Object(entries) && entries.len() == 10
            &&& shows(shown, "connector"@, JsonTree::Text(server.connector@))
            &&& shows(shown, "host"@, named(server.host))
            &&& shows(
                shown,
                "port"@,
                match server.port {
                    Some(port) => JsonTree::Number(decimal(port.number() as nat)),
                    None => JsonTree::Null,
                },
            )
            &&& shows(shown, "database"@, named(server.database))
            &&& shows(shown, "schema"@, named(server.schema))
            &&& shows(shown, "user"@, named(server.user))
            &&& shows(shown, "password_env"@, named(server.password_env))
            &&& shows(shown, "encryption"@, named(server.encryption))
            &&& shows(
                shown,
                "trust_server_certificate"@,
                switched(server.trust_server_certificate),
            )
            &&& shows(
                shown,
                "accept_datetime_rounding"@,
                switched(server.accept_datetime_rounding),
            )
        },
{
    lemma_empty_object();
    reveal_strlit("connector");
    reveal_strlit("path");
    reveal_strlit("host");
    reveal_strlit("port");
    reveal_strlit("database");
    reveal_strlit("schema");
    reveal_strlit("user");
    reveal_strlit("password_env");
    reveal_strlit("encryption");
    reveal_strlit("trust_server_certificate");
    reveal_strlit("accept_datetime_rounding");
    match definition {
        Some(DestinationDefinition::File(file)) => {
            let entries = seq![
                ("connector"@, JsonTree::Text(file.connector@)),
                ("path"@, JsonTree::Text(file.path@)),
            ];
            assert(entries[0].0.len() != entries[1].0.len());
            lemma_object_shows_its_entries(entries);
            lemma_object_of_different_keys(entries);
            assert(entries[0].0 == "connector"@ && entries[1].0 == "path"@);
        },
        Some(DestinationDefinition::SqlServer(server)) => {
            let entries = seq![
                ("connector"@, JsonTree::Text(server.connector@)),
                ("host"@, text_or_null(server.host)),
                ("port"@, port_or_null(server.port)),
                ("database"@, text_or_null(server.database)),
                ("schema"@, text_or_null(server.schema)),
                ("user"@, text_or_null(server.user)),
                ("password_env"@, text_or_null(server.password_env)),
                ("encryption"@, text_or_null(server.encryption)),
                ("trust_server_certificate"@, switch_or_null(server.trust_server_certificate)),
                ("accept_datetime_rounding"@, switch_or_null(server.accept_datetime_rounding)),
            ];
            assert("host"@[0] == 'h' && "port"@[0] == 'p' && "user"@[0] == 'u');
            assert("trust_server_certificate"@[0] == 't' && "accept_datetime_rounding"@[0] == 'a');
            assert forall|i: int, j: int| 0 <= i < j < entries.len() implies (
            #[trigger] entries[i]).0 != (#[trigger] entries[j]).0 by {
                if entries[i].0.len() == entries[j].0.len() {
                    assert(entries[i].0[0] != entries[j].0[0]);
                }
            }
            lemma_object_shows_its_entries(entries);
            lemma_object_of_different_keys(entries);
            assert(entries[0].0 == "connector"@ && entries[1].0 == "host"@ && entries[2].0
                == "port"@ && entries[3].0 == "database"@ && entries[4].0 == "schema"@
                && entries[5].0 == "user"@ && entries[6].0 == "password_env"@ && entries[7].0
                == "encryption"@ && entries[8].0 == "trust_server_certificate"@ && entries[9].0
                == "accept_datetime_rounding"@);
        },
        None => {},
    }
}

/// The execution object of a write session shows each of its numbers under its
/// name.
pub proof fn lemma_execution_shows(
    batch_count: u64,
    chunk_rows: u64,
    parallelism: u64,
    limit: u64,
    retry: JsonTree,
)
    ensures
        ({
            let shown = execution_tree(batch_count, chunk_rows, parallelism, limit, retry);
            &&& shown matches JsonTree::Object(entries) && entries.len() == 6 && entries[0].0
                == "record_format"@ && entries[1].0 == "batch_count"@ && entries[2].0
                == "chunk_rows"@ && entries[3].0 == "parallelism"@ && entries[4].0
                == "connector_parallelism_limit"@ && entries[5].0 == "retry"@
            &&& shows(shown, "record_format"@, JsonTree::Text("arrow_record_batch"@))
            &&& shows(shown, "batch_count"@, number_tree(batch_count as nat))
            &&& shows(shown, "chunk_rows"@, number_tree(chunk_rows as nat))
            &&& shows(shown, "parallelism"@, number_tree(parallelism as nat))
            &&& shows(shown, "connector_parallelism_limit"@, number_tree(limit as nat))
            &&& shows(shown, "retry"@, retry)
        }),
{
    reveal_strlit("record_format");
    reveal_strlit("batch_count");
    reveal_strlit("chunk_rows");
    reveal_strlit("parallelism");
    reveal_strlit("connector_parallelism_limit");
    reveal_strlit("retry");
    let entries = seq![
        ("record_format"@, JsonTree::Text("arrow_record_batch"@)),
        ("batch_count"@, number_tree(batch_count as nat)),
        ("chunk_rows"@, number_tree(chunk_rows as nat)),
        ("parallelism"@, number_tree(parallelism as nat)),
        ("connector_parallelism_limit"@, number_tree(limit as nat)),
        ("retry"@, retry),
    ];
    assert("batch_count"@[0] == 'b' && "parallelism"@[0] == 'p');
    assert forall|i: int, j: int| 0 <= i < j < entries.len() implies (#[trigger] entries[i]).0 != (
    #[trigger] entries[j]).0 by {
        if entries[i].0.len() == entries[j].0.len() {
            assert(entries[i].0[0] != entries[j].0[0]);
        }
    }
    lemma_object_shows_its_entries(entries);
    lemma_object_of_different_keys(entries);
    assert(entries[0].0 == "record_format"@ && entries[1].0 == "batch_count"@ && entries[2].0
        == "chunk_rows"@ && entries[3].0 == "parallelism"@ && entries[4].0
        == "connector_parallelism_limit"@ && entries[5].0 == "retry"@);
}

/// The execution of a load is reported number by number: the chunks, their bound,
/// the parallelism and its limit, and the retry story.
pub proof fn law_execution_is_reported_number_by_number(
    batch_count: u64,
    chunk_rows: u64,
    parallelism: u64,
    limit: u64,
    retry: Value,
    value: Value,
)
    requires
        call_ensures(
            execution_value,
            (batch_count, chunk_rows, parallelism, limit, retry),
            value,
        ),
    ensures
        json_tree(value) matches JsonTree::Object(entries) && entries.len() == 6 && entries[0].0
            == "record_format"@ && entries[1].0 == "batch_count"@ && entries[2].0
            == "chunk_rows"@ && entries[3].0 == "parallelism"@ && entries[4].0
            == "connector_parallelism_limit"@ && entries[5].0 == "retry"@,
        shows(json_tree(value), "record_format"@, JsonTree::Text("arrow_record_batch"@)),
        shows(json_tree(value), "batch_count"@, JsonTree::Number(decimal(batch_count as nat))),
        shows(json_tree(value), "chunk_rows"@, JsonTree::Number(decimal(chunk_rows as nat))),
        shows(json_tree(value), "parallelism"@, JsonTree::Number(decimal(parallelism as nat))),
        shows(
            json_tree(value),
            "connector_parallelism_limit"@,
            JsonTree::Number(decimal(limit as nat)),
        ),
        shows(json_tree(value), "retry"@, json_tree(retry)),
{
    lemma_execution_shows(batch_count, chunk_rows, parallelism, limit, json_tree(retry));
}

proof fn lemma_not_started_shows(retry: Option<JsonTree>)
    ensures
        not_started_tree(retry) matches JsonTree::Object(entries) && entries.len() == 2 + (
        if retry is Some {
            1int
        } else {
            0
        }),
        shows(not_started_tree(retry), "record_format"@, JsonTree::Text("not_started"@)),
        shows(not_started_tree(retry), "batch_count"@, number_tree(0)),
        match retry {
            Some(story) => shows(not_started_tree(retry), "retry"@, story),
            None => lacks(not_started_tree(retry), "retry"@),
        },
{
    reveal_strlit("record_format");
    reveal_strlit("batch_count");
    reveal_strlit("retry");
    let started = seq![
        ("record_format"@, JsonTree::Text("not_started"@)),
        ("batch_count"@, number_tree(0)),
    ];
    let entries = match retry {
        None => started,
        Some(story) => started.push(("retry"@, story)),
    };
    assert(entries[0].0 == "record_format"@ && entries[1].0 == "batch_count"@);
    assert forall|i: int, j: int| 0 <= i < j < entries.len() implies (#[trigger] entries[i]).0 != (
    #[trigger] entries[j]).0 by {
        assert(entries[i].0.len() != entries[j].0.len());
    }
    lemma_object_shows_its_entries(entries);
    lemma_object_of_different_keys(entries);
    match retry {
        Some(story) => {
            assert(entries[2] == ("retry"@, story));
        },
        None => {
            assert forall|i: int| 0 <= i < entries.len() implies (#[trigger] entries[i]).0
                != "retry"@ by {
                assert(entries[i].0.len() != "retry"@.len());
            }
            assert(lacks(object_of(entries), "retry"@));
        },
    }
}

/// The report of a load that succeeded says so, carries no error, and states what
/// the load did: its counts, its decision, its execution, and the facts that the
/// destination gave on its write.
pub proof fn law_success_is_reported_with_what_was_done(
    load_id: String,
    artifact_dir: String,
    timings: Timings,
    details: ExecutionDetails,
    report: LoadReport,
    facts: Value,
)
    requires
        call_ensures(
            load_report,
            (
                load_id,
                artifact_dir,
                timings,
                Ok::<ExecutionDetails, ReportableFailure>(details),
            ),
            report,
        ),
        call_ensures(DestinationWriteFacts::report_value, (details.destination_write,), facts),
    ensures
        report.report_version == 1 && report.binary_version@ == "0.2.0"@,
        report.load_id@ == load_id@ && report.artifact_dir@ == artifact_dir@,
        report.timings == timings,
        report.exit_status@ == "succeeded"@ && report.process_exit_code == 0
            && report.error_summary is None,
        report.source_summary == details.source_summary,
        report.destination_summary == details.destination_summary,
        report.dataset == details.dataset && report.load_mode == details.load_mode,
        report.schema_decision == details.schema_decision,
        report.row_counts == details.row_counts && report.byte_counts == details.byte_counts,
        report.execution == details.execution,
        report.rejected_records.count == details.rejected_count,
        report.rejected_records.artifact is Some <==> details.rejected_count > 0,
        report.rejected_records.artifact matches Some(path) ==> path@ == joined_path(
            artifact_dir@,
            "rejected-records.jsonl"@,
        ),
        json_tree(report.destination_write) == json_tree(facts),
{
}

/// The report of a load that failed says so, and states the failure, what the
/// definition said, and what was established by then: the counts, the write facts,
/// and the execution, which never started where no session opened.
pub proof fn law_failure_is_reported_with_what_was_established(
    load_id: String,
    artifact_dir: String,
    timings: Timings,
    failure: ReportableFailure,
    report: LoadReport,
    facts: Value,
)
    requires
        call_ensures(
            load_report,
            (
                load_id,
                artifact_dir,
                timings,
                Err::<ExecutionDetails, ReportableFailure>(failure),
            ),
            report,
        ),
        call_ensures(DestinationWriteFacts::report_value, (failure.destination_write,), facts),
    ensures
        report.report_version == 1 && report.binary_version@ == "0.2.0"@,
        report.load_id@ == load_id@ && report.artifact_dir@ == artifact_dir@,
        report.timings == timings,
        report.exit_status@ == "failed"@ && report.process_exit_code == 1,
        report.error_summary matches Some(error) && error.code@ == failure.code@ && error.message@
            == failure.message@,
        report.source_summary == failure.source_summary,
        report.destination_summary == failure.destination_summary,
        report.dataset == failure.dataset && report.load_mode == failure.load_mode,
        report.schema_decision == failure.schema_decision,
        report.row_counts.source == failure.source_rows,
        report.row_counts.written == failure.written_records,
        report.row_counts.rejected == failure.rejected_count,
        report.byte_counts.source is None && report.byte_counts.destination is None,
        report.rejected_records.count == failure.rejected_count,
        report.rejected_records.artifact is Some <==> failure.rejected_count > 0,
        report.rejected_records.artifact matches Some(path) ==> path@ == joined_path(
            artifact_dir@,
            "rejected-records.jsonl"@,
        ),
        json_tree(report.destination_write) == json_tree(facts),
        failure.committed_execution matches Some(committed) ==> {
            let shown = json_tree(report.execution);
            &&& shown matches JsonTree::Object(entries) && entries.len() == 6
            &&& shows(shown, "record_format"@, JsonTree::Text("arrow_record_batch"@))
            &&& shows(
                shown,
                "batch_count"@,
                JsonTree::Number(decimal(committed.committed_chunks as nat)),
            )
            &&& shows(shown, "chunk_rows"@, JsonTree::Number(decimal(committed.chunk_rows as nat)))
            &&& shows(shown, "parallelism"@, JsonTree::Number(decimal(committed.parallelism as nat)))
            &&& shows(
                shown,
                "connector_parallelism_limit"@,
                JsonTree::Number(decimal(committed.connector_parallelism_limit as nat)),
            )
            &&& shows(shown, "retry"@, json_tree(committed.retry))
        },
        failure.committed_execution is None ==> {
            let shown = json_tree(report.execution);
            &&& shown matches JsonTree::Object(entries) && entries.len() == 2 + (
            if failure.retry is Some {
                1int
            } else {
                0
            })
            &&& shows(shown, "record_format"@, JsonTree::Text("not_started"@))
            &&& shows(shown, "batch_count"@, JsonTree::Number(decimal(0)))
            &&& failure.retry matches Some(story) ==> shows(shown, "retry"@, json_tree(story))
            &&& failure.retry is None ==> lacks(shown, "retry"@)
        },
{
    match failure.committed_execution {
        Some(committed) => {
            lemma_execution_shows(
                committed.committed_chunks,
                committed.chunk_rows,
                committed.parallelism,
                committed.connector_parallelism_limit,
                json_tree(committed.retry),
            );
        },
        None => {
            lemma_not_started_shows(
                match failure.retry {
                    Some(story) => Some(json_tree(story)),
                    None => None,
                },
            );
        },
    }
}

/// The report of a success and that of a failure are the ones that a load's outcome
/// leads to.
pub proof fn law_outcome_decides_the_report(
    load_id: String,
    artifact_dir: String,
    timings: Timings,
    details: ExecutionDetails,
    failure: ReportableFailure,
    success: LoadReport,
    failed: LoadReport,
)
    requires
        call_ensures(
            LoadReport::from_success,
            (load_id, artifact_dir, timings, details),
            success,
        ),
        call_ensures(
            LoadReport::from_failure,
            (load_id, artifact_dir, timings, failure),
            failed,
        ),
    ensures
        success.exit_status@ == "succeeded"@ && success.process_exit_code == 0
            && success.error_summary is None,
        failed.exit_status@ == "failed"@ && failed.process_exit_code == 1 && failed.error_summary
            is Some,
        success.report_version == 1 && failed.report_version == 1,
        success.load_id == load_id && failed.load_id == load_id,
        success.artifact_dir == artifact_dir && failed.artifact_dir == artifact_dir,
        success.timings == timings && failed.timings == timings,
        success.row_counts == details.row_counts && success.byte_counts == details.byte_counts,
        failed.row_counts.source == failure.source_rows && failed.row_counts.written
            == failure.written_records && failed.row_counts.rejected == failure.rejected_count,
        success.execution == details.execution,
        success.rejected_records.count == details.rejected_count
            && failed.rejected_records.count == failure.rejected_count,
{
}

/// A summary is shown as its entries, each as its key, an equals sign and its value,
/// with texts as they are and anything else in JSON notation. Without entries it is
/// not specified.
pub proof fn law_summary_shows_every_entry(summary: Value, text: String)
    requires
        call_ensures(summary_text, (&summary,), text),
    ensures
        json_tree(summary) matches JsonTree::Object(entries) ==> {
            &&& entries.len() == 0 ==> text@ == "not specified"@
            &&& entries.len() > 0 ==> text@ == separated(
                Seq::new(
                    entries.len(),
                    |i: int|
                        entries[i].0 + "="@ + match entries[i].1 {
                            JsonTree::Text(shown) => shown,
                            other => rendered_json(other),
                        },
                ),
                ", "@,
            )
        },
        !(json_tree(summary) is Object) ==> text@ == rendered_json(json_tree(summary)),
{
    if let JsonTree::Object(entries) = json_tree(summary) {
        assert(entries.map_values(|entry: (Seq<char>, JsonTree)| entry_text(entry)) =~= Seq::new(
            entries.len(),
            |i: int|
                entries[i].0 + "="@ + match entries[i].1 {
                    JsonTree::Text(shown) => shown,
                    other => rendered_json(other),
                },
        ));
    }
}

/// The console shows ten lines of every report, in a fixed order, then the artifact
/// of rejected records where there is one, and last the error where there is one.
pub proof fn law_console_shows_the_report(
    report: LoadReport,
    lines: Vec<String>,
    source: String,
    destination: String,
)
    requires
        call_ensures(summary_lines, (&report,), lines),
        call_ensures(summary_text, (&report.source_summary,), source),
        call_ensures(summary_text, (&report.destination_summary,), destination),
    ensures
        ({
            let artifact = if report.rejected_records.artifact is Some {
                1int
            } else {
                0
            };
            let error = if report.error_summary is Some {
                1int
            } else {
                0
            };
            &&& lines@.len() == 10 + artifact + error
            &&& lines@[0]@ == "Data Spark load "@ + report.load_id@
            &&& lines@[1]@ == "Status: "@ + report.exit_status@
            &&& lines@[2]@ == "Load mode: "@ + report.load_mode@
            &&& lines@[3]@ == "Source: "@ + source@
            &&& lines@[4]@ == "Destination: "@ + destination@
            &&& lines@[5]@ == "Records read: "@ + decimal(report.row_counts.source as nat)
            &&& lines@[6]@ == "Records written: "@ + decimal(report.row_counts.written as nat)
            &&& lines@[7]@ == "Records rejected: "@ + decimal(report.row_counts.rejected as nat)
            &&& lines@[8]@ == "Artifact directory: "@ + report.artifact_dir@
            &&& lines@[9]@ == "Load report: "@ + joined_path(
                report.artifact_dir@,
                "load-report.json"@,
            )
            &&& report.rejected_records.artifact matches Some(path) ==> lines@[10]@
                == "Rejected records artifact: "@ + path@
            &&& report.error_summary matches Some(failure) ==> lines@[10 + artifact]@ == "Error: "@
                + failure.message@
        }),
{
    let shown = texts(lines@);
    let view = summary_lines_view(report);
    assert(shown.len() == lines@.len());
    assert(shown == view);
    assert forall|i: int| 0 <= i < lines@.len() implies (#[trigger] lines@[i])@ == view[i] by {
        assert(shown[i] == lines@[i]@);
    }
}

/// The schema decision of a load that made none says just that.
pub proof fn law_missing_decision_says_so(value: Value)
    requires
        call_ensures(not_evaluated_schema_decision, (), value),
    ensures
        shows(json_tree(value), "mode"@, JsonTree::Text("not_evaluated"@)),
        json_tree(value) matches JsonTree::Object(entries) && entries.len() == 1,
{
    lemma_not_evaluated_shows();
    let entries = seq![("mode"@, JsonTree::Text("not_evaluated"@))];
    lemma_object_of_different_keys(entries);
}

} // verus!
