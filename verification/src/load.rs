//! A load from its definition to its outcome. Everything that reads or writes
//! outside is a function that the caller hands in; when each of them runs, on
//! what, and what its outcome means is decided here.
use crate::connector::{
    connector_outcome, declined, destination_connector, law_every_destination_is_serial,
    law_modes_of_the_destinations, lemma_connector_names_differ, names_credential,
    source_connector, DestinationConnector, DestinationPort,
};
use crate::count::NonZeroCount;
use crate::definition::{
    chunk_rows_of, is_policy_of, parallelism_of, resolve_chunk_rows, resolve_parallelism,
    resolve_retry_policy, DestinationDefinition, ExecutionConfig, LoadDefinition,
    SUPPORTED_LOAD_DEFINITION_VERSION,
};
use crate::destination::{
    facts_of, law_mode_names_are_distinct, lemma_facts_tree, mode_name, DestinationWrite,
    DestinationWriteFailure, LoadMode,
};
use crate::dispatch::{
    commit_in_session, commit_result, may_commit, DestinationWriter, WritePhaseFailure,
    WritePhaseOutcome, WrittenPhase,
};
use crate::failure::{
    bare_failure, failing, reject_threshold_failure, resolved_pre_write_failure, threshold_message,
    CommittedExecution, ExecutionFailure, FailureView, LoadFailure,
};
use crate::json::{entry_value, json_tree, lacks, shows, JsonTree};
use crate::local_file::{meant_format, resolved_source_format, LocalFileSource};
use crate::report::{
    destination_summary, destination_tree, empty_object, execution_tree, execution_value,
    lemma_execution_shows, lemma_not_evaluated_shows, load_report, not_evaluated,
    not_evaluated_schema_decision, source_summary, source_tree, ByteCounts, ExecutionDetails,
    LoadReport, ReportableFailure, RowCounts, Timings, DEFAULT_LOAD_MODE,
};
use crate::retry::{report_value, report_when_attempted, retry_tree, RetryAttempt, RetryPolicy};
use crate::schema::{
    directive_after_pin, directive_outcome, drift_policy_of, pinned_path_of,
    resolve_schema_directive, settings_failure, DriftPolicy, PinRead, PinnedSchemaWrite,
    SchemaDirective,
};
use crate::sqlserver::CredentialLookup;
use crate::text::{decimal, decimal_text, file_extension, text_view, texts};
use serde_json::Value;
use vstd::prelude::*;
use vstd::string::*;

verus! {

/// What a source hands back once it was read: the schema decision, the pinned
/// schema file to write, the measures of the source, and the chunks that its
/// second read gives.
pub struct SourceRead<C> {
    pub schema_decision: Value,
    pub pinned_schema_write: Option<PinnedSchemaWrite>,
    pub source_bytes: u64,
    pub source_rows: u64,
    pub rejected_count: u64,
    pub chunks: C,
}

/// A load that is valid as far as can be told without reading its source or
/// touching its destination.
pub struct LoadPlan<T, O, P> {
    pub load_mode: String,
    pub mode: LoadMode,
    pub source: LocalFileSource,
    pub destination: DestinationConnector,
    pub directive: SchemaDirective<T, O, P>,
    pub chunk_rows: u64,
    pub retry_policy: RetryPolicy,
    pub connector_parallelism_limit: NonZeroCount,
    pub parallelism: NonZeroCount,
    pub reject_threshold: u64,
}

/// A setting by reference.
pub open spec fn by_ref<T>(setting: Option<T>) -> Option<&'static T> {
    match setting {
        Some(value) => Some(&value),
        None => None,
    }
}

/// The load mode that a definition names.
pub open spec fn load_mode_text(load_mode: Option<String>) -> Seq<char> {
    match load_mode {
        Some(load_mode) => load_mode@,
        None => DEFAULT_LOAD_MODE@,
    }
}

fn load_mode_of(load_mode: &Option<String>) -> (text: String)
    ensures
        text@ == load_mode_text(*load_mode),
{
    match load_mode {
        Some(load_mode) => load_mode.clone(),
        None => DEFAULT_LOAD_MODE.to_owned(),
    }
}

/// The mode of a name.
pub open spec fn mode_of(name: Seq<char>) -> Option<LoadMode> {
    if name == mode_name(LoadMode::FullRefresh)@ {
        Some(LoadMode::FullRefresh)
    } else if name == mode_name(LoadMode::Append)@ {
        Some(LoadMode::Append)
    } else if name == mode_name(LoadMode::Merge)@ {
        Some(LoadMode::Merge)
    } else {
        None
    }
}

/// Whether planning was refused with this failure.
pub open spec fn refused<T>(planned: Result<T, LoadFailure>, view: FailureView) -> bool {
    planned matches Err(failure) && failure@ == view
}

/// Whether a plan is that of a definition, with this mode, destination and
/// directive.
pub open spec fn is_plan_of<D, E, T, O, P>(
    definition: LoadDefinition<D, E>,
    mode: LoadMode,
    destination: DestinationConnector,
    directive: SchemaDirective<T, O, P>,
    plan: LoadPlan<T, O, P>,
) -> bool {
    &&& plan.load_mode@ == load_mode_text(definition.load_mode)
    &&& plan.mode == mode
    &&& plan.source.path == definition.source->0.path
    &&& plan.source.format == definition.source->0.format
    &&& plan.destination == destination
    &&& plan.directive == directive
    &&& plan.chunk_rows == chunk_rows_of(by_ref(definition.execution))
    &&& is_policy_of(by_ref(definition.execution), plan.retry_policy)
    &&& plan.connector_parallelism_limit.number() == destination.limit(mode)
    &&& plan.parallelism == parallelism_of(
        by_ref(definition.execution),
        plan.connector_parallelism_limit,
    )
    &&& plan.reject_threshold == threshold_of(definition)
}

/// What planning comes to once the destination was selected: a mode that it
/// declines is refused, then what is wrong with the schema settings is.
pub open spec fn directed_plan<
    D,
    E,
    T,
    O,
    P,
    M: FnOnce(&str) -> Result<T, LoadFailure>,
    V: FnOnce() -> Result<O, LoadFailure>,
    R: FnOnce(&str) -> PinRead<P>,
>(
    definition: LoadDefinition<D, E>,
    mode: LoadMode,
    destination: DestinationConnector,
    make_transform: M,
    make_overrides: V,
    read_pin: R,
    planned: Result<LoadPlan<T, O, P>, LoadFailure>,
) -> bool {
    if !destination.modes().contains(mode) {
        refused(planned, declined(destination.name(), destination.modes(), mode))
    } else {
        exists|
            format: &str,
            transform: Result<T, LoadFailure>,
            overrides: Result<O, LoadFailure>,
            directive: Result<SchemaDirective<T, O, P>, LoadFailure>,
        |
            {
                &&& #[trigger] make_transform.ensures((format,), transform)
                &&& format@ == meant_format(
                    definition.source->0.path@,
                    text_view(definition.source->0.format),
                )
                &&& #[trigger] make_overrides.ensures((), overrides)
                &&& #[trigger] directive_outcome(
                    by_ref(definition.schema),
                    transform,
                    overrides,
                    read_pin,
                    directive,
                )
                &&& match directive {
                    Err(failure) => refused(planned, failure@),
                    Ok(directive) => planned matches Ok(plan) && is_plan_of(
                        definition,
                        mode,
                        destination,
                        directive,
                        plan,
                    ),
                }
            }
    }
}

/// What planning a load comes to. What is wrong is found in this order: a
/// missing source, a missing destination, the load mode, the source's
/// connector, the destination's, a mode it declines, the schema settings.
pub open spec fn plan_outcome<
    D,
    E,
    T,
    O,
    P,
    L: FnOnce(&str) -> CredentialLookup,
    M: FnOnce(&str) -> Result<T, LoadFailure>,
    V: FnOnce() -> Result<O, LoadFailure>,
    R: FnOnce(&str) -> PinRead<P>,
>(
    definition: LoadDefinition<D, E>,
    merge_keys: Seq<Seq<char>>,
    lookup: L,
    make_transform: M,
    make_overrides: V,
    read_pin: R,
    planned: Result<LoadPlan<T, O, P>, LoadFailure>,
) -> bool {
    let name = load_mode_text(definition.load_mode);
    if definition.source is None {
        refused(planned, failing("missing_source"@, "load definition source is required"@))
    } else if definition.destination is None {
        refused(
            planned,
            failing("missing_destination"@, "load definition destination is required"@),
        )
    } else if mode_of(name) is None {
        refused(
            planned,
            failing("unsupported_load_mode"@, "unsupported load mode: "@ + name),
        )
    } else if definition.source->0.connector@ != "local_file"@ {
        refused(
            planned,
            failing(
                "unsupported_source_connector"@,
                "unsupported source connector: "@ + definition.source->0.connector@,
            ),
        )
    } else {
        exists|connector: Result<DestinationConnector, LoadFailure>|
            {
                &&& #[trigger] connector_outcome(
                    definition.destination->0,
                    text_view(definition.dataset),
                    merge_keys,
                    lookup,
                    connector,
                )
                &&& match connector {
                    Err(failure) => refused(planned, failure@),
                    Ok(destination) => directed_plan(
                        definition,
                        mode_of(name)->0,
                        destination,
                        make_transform,
                        make_overrides,
                        read_pin,
                        planned,
                    ),
                }
            }
    }
}

/// Whether a definition names a source and a destination, a load mode, and a
/// source connector that there is.
pub open spec fn is_addressed<D, E>(definition: LoadDefinition<D, E>) -> bool {
    &&& definition.source is Some
    &&& definition.destination is Some
    &&& mode_of(load_mode_text(definition.load_mode)) is Some
    &&& definition.source->0.connector@ == "local_file"@
}

/// Whether a definition selects a destination that takes its load mode.
pub open spec fn is_accepted<D, E, L: FnOnce(&str) -> CredentialLookup>(
    definition: LoadDefinition<D, E>,
    merge_keys: Seq<Seq<char>>,
    lookup: L,
    destination: DestinationConnector,
) -> bool {
    &&& is_addressed(definition)
    &&& connector_outcome(
        definition.destination->0,
        text_view(definition.dataset),
        merge_keys,
        lookup,
        Ok(destination),
    )
    &&& destination.modes().contains(mode_of(load_mode_text(definition.load_mode))->0)
}

/// The format that the source of a definition is meant to have.
pub open spec fn source_format_of<D, E>(definition: LoadDefinition<D, E>) -> Seq<char> {
    meant_format(definition.source->0.path@, text_view(definition.source->0.format))
}

/// Whether the schema settings of a definition are valid with what was made of
/// its transform and its overrides.
pub open spec fn has_settings<
    D,
    E,
    T,
    O,
    M: FnOnce(&str) -> Result<T, LoadFailure>,
    V: FnOnce() -> Result<O, LoadFailure>,
>(
    definition: LoadDefinition<D, E>,
    make_transform: M,
    make_overrides: V,
    transform: Result<T, LoadFailure>,
    overrides: Result<O, LoadFailure>,
) -> bool {
    &&& exists|format: &str| #[trigger]
        make_transform.ensures((format,), transform) && format@ == source_format_of(definition)
    &&& make_overrides.ensures((), overrides)
    &&& settings_failure(by_ref(definition.schema), transform, overrides) is None
}

/// Plans a load: validates everything that can be validated before the source
/// is read. The pinned schema file is the one file that may be read.
pub fn plan_load<
    D,
    E,
    T,
    O,
    P,
    L: FnOnce(&str) -> CredentialLookup,
    M: FnOnce(&str) -> Result<T, LoadFailure>,
    V: FnOnce() -> Result<O, LoadFailure>,
    R: FnOnce(&str) -> PinRead<P>,
>(
    definition: &LoadDefinition<D, E>,
    merge_keys: &[String],
    lookup: L,
    make_transform: M,
    make_overrides: V,
    read_pin: R,
) -> (planned: Result<LoadPlan<T, O, P>, LoadFailure>)
    requires
        forall|name: &str|
            is_addressed(*definition) && names_credential(definition.destination->0, name@)
                ==> #[trigger] lookup.requires((name,)),
        forall|destination: DestinationConnector, format: &str| #[trigger]
            is_accepted(*definition, texts(merge_keys@), lookup, destination) && format@
                == source_format_of(*definition) ==> #[trigger] make_transform.requires((format,)),
        forall|destination: DestinationConnector, format: &str, transform: Result<T, LoadFailure>|
            #[trigger]
            is_accepted(*definition, texts(merge_keys@), lookup, destination) && format@
                == source_format_of(*definition) && #[trigger] make_transform.ensures(
                (format,),
                transform,
            ) ==> make_overrides.requires(()),
        forall|
            destination: DestinationConnector,
            transform: Result<T, LoadFailure>,
            overrides: Result<O, LoadFailure>,
            path: &str,
        |
            {
                &&& #[trigger] is_accepted(*definition, texts(merge_keys@), lookup, destination)
                &&& #[trigger] has_settings(
                    *definition,
                    make_transform,
                    make_overrides,
                    transform,
                    overrides,
                )
                &&& pinned_path_of(by_ref(definition.schema)) matches Some(pinned)
                &&& path@ == pinned@
            } ==> #[trigger] read_pin.requires((path,)),
    ensures
        plan_outcome(
            *definition,
            texts(merge_keys@),
            lookup,
            make_transform,
            make_overrides,
            read_pin,
            planned,
        ),
        planned matches Ok(plan) ==> plan.chunk_rows >= 1 && plan.parallelism.number()
            <= plan.connector_parallelism_limit.number(),
{
    let source = match &definition.source {
        Some(source) => source,
        None => {
            return Err(
                LoadFailure::new(
                    "missing_source",
                    "load definition source is required".to_owned(),
                ),
            );
        },
    };
    let destination = match &definition.destination {
        Some(destination) => destination,
        None => {
            return Err(
                LoadFailure::new(
                    "missing_destination",
                    "load definition destination is required".to_owned(),
                ),
            );
        },
    };
    let load_mode = load_mode_of(&definition.load_mode);
    let mode = match LoadMode::parse(load_mode.as_str()) {
        Ok(mode) => mode,
        Err(failure) => {
            proof {
                assert(mode_name(LoadMode::FullRefresh)@ != load_mode@);
                assert(mode_name(LoadMode::Append)@ != load_mode@);
                assert(mode_name(LoadMode::Merge)@ != load_mode@);
            }
            return Err(failure);
        },
    };
    proof {
        assert(mode_of(load_mode@) == Some(mode)) by {
            if mode_of(load_mode@) is Some {
                law_mode_names_are_distinct(mode, mode_of(load_mode@)->0);
            }
        }
    }
    let local_file = match source_connector(source) {
        Ok(local_file) => local_file,
        Err(failure) => {
            return Err(failure);
        },
    };
    let dataset = match &definition.dataset {
        Some(dataset) => Some(dataset.as_str()),
        None => None,
    };
    let selected = destination_connector(destination, dataset, merge_keys, lookup);
    proof {
        assert(connector_outcome(
            definition.destination->0,
            text_view(definition.dataset),
            texts(merge_keys@),
            lookup,
            selected,
        ));
    }
    let connector = match selected {
        Ok(connector) => connector,
        Err(failure) => {
            return Err(failure);
        },
    };
    match connector.validate_mode(mode) {
        Ok(_) => {},
        Err(failure) => {
            return Err(failure);
        },
    }
    let named_format = match &source.format {
        Some(format) => Some(format.as_str()),
        None => None,
    };
    let source_format = resolved_source_format(source.path.as_str(), named_format);
    let format = source_format.as_str();
    proof {
        assert(is_accepted(*definition, texts(merge_keys@), lookup, connector));
    }
    let transform = make_transform(format);
    proof {
        assert(make_transform.ensures((format,), transform));
    }
    let overrides = make_overrides();
    let schema_config = match &definition.schema {
        Some(config) => Some(config),
        None => None,
    };
    proof {
        assert(schema_config == by_ref(definition.schema));
        assert(make_overrides.ensures((), overrides));
    }
    let ghost made_transform = transform;
    let ghost made_overrides = overrides;
    proof {
        if settings_failure(schema_config, transform, overrides) is None {
            assert(has_settings(*definition, make_transform, make_overrides, transform, overrides));
        }
    }
    let resolved = resolve_schema_directive(schema_config, transform, overrides, read_pin);
    proof {
        assert(directive_outcome(
            by_ref(definition.schema),
            made_transform,
            made_overrides,
            read_pin,
            resolved,
        ));
    }
    let directive = match resolved {
        Ok(directive) => directive,
        Err(failure) => {
            return Err(failure);
        },
    };
    let execution = match &definition.execution {
        Some(execution) => Some(execution),
        None => None,
    };
    let limit = connector.parallelism_limit(mode);
    Ok(
        LoadPlan {
            load_mode,
            mode,
            source: local_file,
            destination: connector,
            directive,
            chunk_rows: resolve_chunk_rows(execution),
            retry_policy: resolve_retry_policy(execution),
            connector_parallelism_limit: limit,
            parallelism: resolve_parallelism(execution, limit),
            reject_threshold: match definition.reject_threshold {
                Some(threshold) => threshold,
                None => 0,
            },
        },
    )
}

/// What a read comes to under the reject threshold: a read within it is
/// admitted, and one beyond it fails with what it established.
pub open spec fn admission<C>(
    read: Result<SourceRead<C>, ExecutionFailure>,
    reject_threshold: u64,
    admitted: Result<SourceRead<C>, ExecutionFailure>,
) -> bool {
    match read {
        Err(failure) => admitted matches Err(held) && failure.holds_to(reject_threshold, held),
        Ok(read) => if read.rejected_count > reject_threshold {
            admitted matches Err(raised) && {
                &&& raised == (ExecutionFailure {
                    schema_decision: Some(read.schema_decision),
                    source_rows: Some(read.source_rows),
                    rejected_count: read.rejected_count,
                    ..bare_failure(raised.failure)
                })
                &&& raised.failure@ == failing(
                    "reject_threshold_exceeded"@,
                    threshold_message(
                        read.rejected_count as nat,
                        read.source_rows as nat,
                        reject_threshold as nat,
                    ),
                )
            }
        } else {
            admitted == Ok::<SourceRead<C>, ExecutionFailure>(read)
        },
    }
}

/// Holds a read to the reject threshold, while the load has changed nothing.
pub fn admit_read<C>(
    read: Result<SourceRead<C>, ExecutionFailure>,
    reject_threshold: u64,
) -> (admitted: Result<SourceRead<C>, ExecutionFailure>)
    ensures
        admission(read, reject_threshold, admitted),
{
    match read {
        Err(failure) => Err(failure.apply_pending_reject_threshold(reject_threshold)),
        Ok(read) => if read.rejected_count > reject_threshold {
            let failure = reject_threshold_failure(
                read.rejected_count,
                read.source_rows,
                reject_threshold,
            );
            Err(
                resolved_pre_write_failure(
                    failure,
                    read.schema_decision,
                    read.source_rows,
                    read.rejected_count,
                ),
            )
        } else {
            Ok(read)
        },
    }
}

/// What a read established, without its chunks.
pub struct ReadFacts {
    pub schema_decision: Value,
    pub source_bytes: u64,
    pub source_rows: u64,
    pub rejected_count: u64,
}

/// The facts of a read.
pub open spec fn facts_of_read<C>(read: SourceRead<C>) -> ReadFacts {
    ReadFacts {
        schema_decision: read.schema_decision,
        source_bytes: read.source_bytes,
        source_rows: read.source_rows,
        rejected_count: read.rejected_count,
    }
}

/// The failure of a load whose read was admitted, before any session opened.
pub open spec fn pre_write_failure(facts: ReadFacts, failure: LoadFailure) -> ExecutionFailure {
    ExecutionFailure {
        schema_decision: Some(facts.schema_decision),
        source_rows: Some(facts.source_rows),
        rejected_count: facts.rejected_count,
        ..bare_failure(failure)
    }
}

/// Whether details are those of a load whose every chunk was written: the
/// records written are those read less those rejected.
pub open spec fn are_details_of<D, E, T, O, P>(
    definition: LoadDefinition<D, E>,
    plan: LoadPlan<T, O, P>,
    facts: ReadFacts,
    outcome: WritePhaseOutcome,
    attempts: Seq<RetryAttempt>,
    details: ExecutionDetails,
) -> bool {
    &&& json_tree(details.source_summary) == source_tree(definition.source->0)
    &&& json_tree(details.destination_summary) == destination_tree(definition.destination->0)
    &&& details.dataset == definition.dataset
    &&& details.load_mode@ == plan.load_mode@
    &&& details.schema_decision == facts.schema_decision
    &&& details.row_counts == (RowCounts {
        source: facts.source_rows,
        written: (facts.source_rows - facts.rejected_count) as u64,
        rejected: facts.rejected_count,
    })
    &&& details.byte_counts == (ByteCounts {
        source: Some(facts.source_bytes),
        destination: outcome.bytes_written,
    })
    &&& details.rejected_count == facts.rejected_count
    &&& details.destination_write == outcome.facts
    &&& json_tree(details.execution) == execution_tree(
        outcome.chunk_count,
        plan.chunk_rows,
        plan.parallelism.number(),
        plan.connector_parallelism_limit.number(),
        retry_tree(plan.retry_policy, attempts),
    )
}

/// What a write phase makes of a load. A session that did not open leaves the
/// posture from before the write, with a retry story only where attempts were
/// logged; a failure within a session reports what the destination committed.
pub open spec fn conclusion<D, E, T, O, P>(
    definition: LoadDefinition<D, E>,
    plan: LoadPlan<T, O, P>,
    facts: ReadFacts,
    written: WrittenPhase,
    concluded: Result<ExecutionDetails, ExecutionFailure>,
) -> bool {
    match written.result {
        Ok(outcome) => concluded matches Ok(details) && are_details_of(
            definition,
            plan,
            facts,
            outcome,
            written.attempts@,
            details,
        ),
        Err(WritePhaseFailure::BeforeSession(raised)) => concluded matches Err(failure) && {
            &&& failure == (ExecutionFailure {
                failure: raised.failure,
                schema_decision: Some(facts.schema_decision),
                source_rows: Some(facts.source_rows),
                written_records: raised.written_records,
                rejected_count: facts.rejected_count,
                committed_execution: None,
                retry: failure.retry,
                destination_write: raised.facts,
            })
            &&& match failure.retry {
                Some(story) => written.attempts@.len() > 0 && json_tree(story) == retry_tree(
                    plan.retry_policy,
                    written.attempts@,
                ),
                None => written.attempts@.len() == 0,
            }
        },
        Err(WritePhaseFailure::InSession(raised)) => concluded matches Err(failure) && {
            &&& failure == (ExecutionFailure {
                failure: raised.failure,
                schema_decision: Some(facts.schema_decision),
                source_rows: Some(facts.source_rows),
                written_records: raised.written_records,
                rejected_count: facts.rejected_count,
                committed_execution: failure.committed_execution,
                retry: None,
                destination_write: raised.facts,
            })
            &&& failure.committed_execution matches Some(committed) && {
                &&& committed == (CommittedExecution {
                    committed_chunks: raised.committed_chunks,
                    chunk_rows: plan.chunk_rows,
                    parallelism: plan.parallelism.number(),
                    connector_parallelism_limit: plan.connector_parallelism_limit.number(),
                    retry: committed.retry,
                })
                &&& json_tree(committed.retry) == retry_tree(plan.retry_policy, written.attempts@)
            }
        },
    }
}

/// Concludes a load from its write phase.
pub fn conclude_write<D, E, T, O, P>(
    definition: &LoadDefinition<D, E>,
    plan: LoadPlan<T, O, P>,
    facts: ReadFacts,
    written: WrittenPhase,
) -> (concluded: Result<ExecutionDetails, ExecutionFailure>)
    requires
        definition.source is Some,
        definition.destination is Some,
        facts.rejected_count <= facts.source_rows,
    ensures
        conclusion(*definition, plan, facts, written, concluded),
{
    let attempts = written.attempts;
    match written.result {
        Ok(outcome) => {
            let source = match &definition.source {
                Some(source) => Some(source),
                None => None,
            };
            let destination = match &definition.destination {
                Some(destination) => Some(destination),
                None => None,
            };
            Ok(
                ExecutionDetails {
                    source_summary: source_summary(source),
                    destination_summary: destination_summary(destination),
                    dataset: match &definition.dataset {
                        Some(dataset) => Some(dataset.clone()),
                        None => None,
                    },
                    load_mode: plan.load_mode,
                    schema_decision: facts.schema_decision,
                    row_counts: RowCounts {
                        source: facts.source_rows,
                        written: facts.source_rows - facts.rejected_count,
                        rejected: facts.rejected_count,
                    },
                    byte_counts: ByteCounts {
                        source: Some(facts.source_bytes),
                        destination: outcome.bytes_written,
                    },
                    rejected_count: facts.rejected_count,
                    destination_write: outcome.facts,
                    execution: execution_value(
                        outcome.chunk_count,
                        plan.chunk_rows,
                        plan.parallelism.get(),
                        plan.connector_parallelism_limit.get(),
                        report_value(&plan.retry_policy, attempts.as_slice()),
                    ),
                },
            )
        },
        Err(WritePhaseFailure::BeforeSession(raised)) => Err(
            ExecutionFailure {
                failure: raised.failure,
                schema_decision: Some(facts.schema_decision),
                source_rows: Some(facts.source_rows),
                written_records: raised.written_records,
                rejected_count: facts.rejected_count,
                committed_execution: None,
                retry: report_when_attempted(&plan.retry_policy, attempts.as_slice()),
                destination_write: raised.facts,
            },
        ),
        Err(WritePhaseFailure::InSession(raised)) => Err(
            ExecutionFailure {
                failure: raised.failure,
                schema_decision: Some(facts.schema_decision),
                source_rows: Some(facts.source_rows),
                written_records: raised.written_records,
                rejected_count: facts.rejected_count,
                committed_execution: Some(
                    CommittedExecution {
                        committed_chunks: raised.committed_chunks,
                        chunk_rows: plan.chunk_rows,
                        parallelism: plan.parallelism.get(),
                        connector_parallelism_limit: plan.connector_parallelism_limit.get(),
                        retry: report_value(&plan.retry_policy, attempts.as_slice()),
                    },
                ),
                retry: None,
                destination_write: raised.facts,
            },
        ),
    }
}

/// Whether a read may be written: it rejected no more than it may.
pub open spec fn may_proceed<C>(read: SourceRead<C>, reject_threshold: u64) -> bool {
    read.rejected_count <= reject_threshold
}

/// Whether reading the source as planned may have given this read, and it
/// rejected no more than the plan allows.
pub open spec fn may_be_written<
    T,
    O,
    P,
    C,
    S: FnOnce(&LocalFileSource, &SchemaDirective<T, O, P>, u64) -> Result<
        SourceRead<C>,
        ExecutionFailure,
    >,
>(plan: LoadPlan<T, O, P>, read_source: S, read: SourceRead<C>) -> bool {
    &&& read_source.ensures((&plan.source, &plan.directive, plan.chunk_rows), Ok(read))
    &&& may_proceed(read, plan.reject_threshold)
}

/// Whether a read has this pinned schema file to write.
pub open spec fn names_pin<C>(read: SourceRead<C>, pin: PinnedSchemaWrite) -> bool {
    read.pinned_schema_write == Some(pin)
}

/// Whether a pinned schema file was handed to a function that writes it, which
/// wrote it.
pub open spec fn was_persisted<Q: FnOnce(&PinnedSchemaWrite) -> Result<(), LoadFailure>>(
    persist: Q,
    pin: PinnedSchemaWrite,
) -> bool {
    exists|persisted: Result<(), LoadFailure>| #[trigger]
        persist.ensures((&pin,), persisted) && persisted is Ok
}

/// What a load comes to once its read was admitted and its pin is in place:
/// the chunks are written, and the write phase decides.
pub open spec fn written_load<
    D,
    E,
    T,
    O,
    P,
    C,
    W: FnOnce(C, &DestinationConnector, LoadMode, NonZeroCount, &RetryPolicy) -> WrittenPhase,
>(
    definition: LoadDefinition<D, E>,
    plan: LoadPlan<T, O, P>,
    read: SourceRead<C>,
    write: W,
    result: Result<ExecutionDetails, ExecutionFailure>,
) -> bool {
    exists|written: WrittenPhase|
        {
            &&& #[trigger] write.ensures(
                (read.chunks, &plan.destination, plan.mode, plan.parallelism, &plan.retry_policy),
                written,
            )
            &&& conclusion(definition, plan, facts_of_read(read), written, result)
        }
}

/// What a load comes to once its read was admitted: the pinned schema file is
/// written first where there is one to write, and a failure of that ends the
/// load with the destination untouched.
pub open spec fn admitted_load<
    D,
    E,
    T,
    O,
    P,
    C,
    Q: FnOnce(&PinnedSchemaWrite) -> Result<(), LoadFailure>,
    W: FnOnce(C, &DestinationConnector, LoadMode, NonZeroCount, &RetryPolicy) -> WrittenPhase,
>(
    definition: LoadDefinition<D, E>,
    plan: LoadPlan<T, O, P>,
    read: SourceRead<C>,
    persist: Q,
    write: W,
    result: Result<ExecutionDetails, ExecutionFailure>,
) -> bool {
    match read.pinned_schema_write {
        None => written_load(definition, plan, read, write, result),
        Some(pin) => exists|persisted: Result<(), LoadFailure>|
            {
                &&& #[trigger] persist.ensures((&pin,), persisted)
                &&& match persisted {
                    Err(failure) => result == Err::<ExecutionDetails, _>(
                        pre_write_failure(facts_of_read(read), failure),
                    ),
                    Ok(_) => written_load(definition, plan, read, write, result),
                }
            },
    }
}

/// What a planned load comes to: its source is read, the read is held to the
/// reject threshold, and only then anything is written.
pub open spec fn executed_load<
    D,
    E,
    T,
    O,
    P,
    C,
    S: FnOnce(&LocalFileSource, &SchemaDirective<T, O, P>, u64) -> Result<
        SourceRead<C>,
        ExecutionFailure,
    >,
    Q: FnOnce(&PinnedSchemaWrite) -> Result<(), LoadFailure>,
    W: FnOnce(C, &DestinationConnector, LoadMode, NonZeroCount, &RetryPolicy) -> WrittenPhase,
>(
    definition: LoadDefinition<D, E>,
    plan: LoadPlan<T, O, P>,
    read_source: S,
    persist: Q,
    write: W,
    result: Result<ExecutionDetails, ExecutionFailure>,
) -> bool {
    exists|read: Result<SourceRead<C>, ExecutionFailure>, admitted: Result<
        SourceRead<C>,
        ExecutionFailure,
    >|
        {
            &&& #[trigger] read_source.ensures((&plan.source, &plan.directive, plan.chunk_rows), read)
            &&& #[trigger] admission(read, plan.reject_threshold, admitted)
            &&& match admitted {
                Err(failure) => result == Err::<ExecutionDetails, _>(failure),
                Ok(read) => admitted_load(definition, plan, read, persist, write, result),
            }
        }
}

/// Runs a load of a supported definition version. Each of the functions handed
/// in runs at most once, and only once what comes before it went well: a
/// credential is looked up for a definition that names a source, a destination
/// and a load mode; the transform and the overrides are made for a destination
/// that takes the mode; the pinned schema file is read for valid settings; the
/// source is read as planned; and on a read within the reject threshold the
/// pinned schema file is written, then the chunks.
pub fn execute_supported_load<
    D,
    E,
    T,
    O,
    P,
    C,
    L: FnOnce(&str) -> CredentialLookup,
    M: FnOnce(&str) -> Result<T, LoadFailure>,
    V: FnOnce() -> Result<O, LoadFailure>,
    R: FnOnce(&str) -> PinRead<P>,
    S: FnOnce(&LocalFileSource, &SchemaDirective<T, O, P>, u64) -> Result<
        SourceRead<C>,
        ExecutionFailure,
    >,
    Q: FnOnce(&PinnedSchemaWrite) -> Result<(), LoadFailure>,
    W: FnOnce(C, &DestinationConnector, LoadMode, NonZeroCount, &RetryPolicy) -> WrittenPhase,
>(
    definition: &LoadDefinition<D, E>,
    merge_keys: &[String],
    lookup: L,
    make_transform: M,
    make_overrides: V,
    read_pin: R,
    read_source: S,
    persist: Q,
    write: W,
) -> (result: Result<ExecutionDetails, ExecutionFailure>)
    requires
        forall|name: &str|
            is_addressed(*definition) && names_credential(definition.destination->0, name@)
                ==> #[trigger] lookup.requires((name,)),
        forall|destination: DestinationConnector, format: &str| #[trigger]
            is_accepted(*definition, texts(merge_keys@), lookup, destination) && format@
                == source_format_of(*definition) ==> #[trigger] make_transform.requires((format,)),
        forall|destination: DestinationConnector, format: &str, transform: Result<T, LoadFailure>|
            #[trigger]
            is_accepted(*definition, texts(merge_keys@), lookup, destination) && format@
                == source_format_of(*definition) && #[trigger] make_transform.ensures(
                (format,),
                transform,
            ) ==> make_overrides.requires(()),
        forall|
            destination: DestinationConnector,
            transform: Result<T, LoadFailure>,
            overrides: Result<O, LoadFailure>,
            path: &str,
        |
            {
                &&& #[trigger] is_accepted(*definition, texts(merge_keys@), lookup, destination)
                &&& #[trigger] has_settings(
                    *definition,
                    make_transform,
                    make_overrides,
                    transform,
                    overrides,
                )
                &&& pinned_path_of(by_ref(definition.schema)) matches Some(pinned)
                &&& path@ == pinned@
            } ==> #[trigger] read_pin.requires((path,)),
        forall|plan: LoadPlan<T, O, P>| #[trigger]
            plan_outcome(
                *definition,
                texts(merge_keys@),
                lookup,
                make_transform,
                make_overrides,
                read_pin,
                Ok(plan),
            ) && plan.chunk_rows >= 1 ==> read_source.requires(
                (&plan.source, &plan.directive, plan.chunk_rows),
            ),
        forall|
            source: &LocalFileSource,
            directive: &SchemaDirective<T, O, P>,
            chunk_rows: u64,
            read: SourceRead<C>,
        | #[trigger]
            read_source.ensures((source, directive, chunk_rows), Ok(read)) ==> read.rejected_count
                <= read.source_rows,
        forall|plan: LoadPlan<T, O, P>, read: SourceRead<C>, pin: &PinnedSchemaWrite|
            {
                &&& #[trigger] plan_outcome(
                    *definition,
                    texts(merge_keys@),
                    lookup,
                    make_transform,
                    make_overrides,
                    read_pin,
                    Ok(plan),
                )
                &&& #[trigger] may_be_written(plan, read_source, read)
                &&& #[trigger] names_pin(read, *pin)
            } ==> persist.requires((pin,)),
        forall|plan: LoadPlan<T, O, P>, read: SourceRead<C>|
            {
                &&& #[trigger] plan_outcome(
                    *definition,
                    texts(merge_keys@),
                    lookup,
                    make_transform,
                    make_overrides,
                    read_pin,
                    Ok(plan),
                )
                &&& #[trigger] may_be_written(plan, read_source, read)
                &&& read.pinned_schema_write matches Some(pin) ==> was_persisted(persist, pin)
            } ==> write.requires(
                (
                    read.chunks,
                    &plan.destination,
                    plan.mode,
                    plan.parallelism,
                    &plan.retry_policy,
                ),
            ),
    ensures
        exists|planned: Result<LoadPlan<T, O, P>, LoadFailure>|
            {
                &&& #[trigger] plan_outcome(
                    *definition,
                    texts(merge_keys@),
                    lookup,
                    make_transform,
                    make_overrides,
                    read_pin,
                    planned,
                )
                &&& match planned {
                    Err(failure) => result == Err::<ExecutionDetails, _>(bare_failure(failure)),
                    Ok(plan) => executed_load(
                        *definition,
                        plan,
                        read_source,
                        persist,
                        write,
                        result,
                    ),
                }
            },
{
    let planned = plan_load(
        definition,
        merge_keys,
        lookup,
        make_transform,
        make_overrides,
        read_pin,
    );
    proof {
        assert(plan_outcome(
            *definition,
            texts(merge_keys@),
            lookup,
            make_transform,
            make_overrides,
            read_pin,
            planned,
        ));
    }
    let plan = match planned {
        Ok(plan) => plan,
        Err(failure) => {
            return Err(ExecutionFailure::from(failure));
        },
    };
    let ghost settled = plan;
    let read = read_source(&plan.source, &plan.directive, plan.chunk_rows);
    let ghost given = read;
    proof {
        assert(read_source.ensures((&plan.source, &plan.directive, plan.chunk_rows), read));
    }
    let admitted = admit_read(read, plan.reject_threshold);
    let ghost held = admitted;
    proof {
        assert(admission(given, plan.reject_threshold, held));
    }
    let read = match admitted {
        Ok(read) => read,
        Err(failure) => {
            return Err(failure);
        },
    };
    let ghost kept = read;
    proof {
        assert(may_be_written(settled, read_source, kept));
    }
    if let Some(pin) = &read.pinned_schema_write {
        proof {
            assert(names_pin(kept, *pin));
        }
        let persisted = persist(pin);
        proof {
            assert(persist.ensures((pin,), persisted));
        }
        match persisted {
            Ok(_) => {
                proof {
                    assert(was_persisted(persist, *pin));
                }
            },
            Err(failure) => {
                return Err(
                    resolved_pre_write_failure(
                        failure,
                        read.schema_decision,
                        read.source_rows,
                        read.rejected_count,
                    ),
                );
            },
        }
    }
    let facts = ReadFacts {
        schema_decision: read.schema_decision,
        source_bytes: read.source_bytes,
        source_rows: read.source_rows,
        rejected_count: read.rejected_count,
    };
    let written = write(
        read.chunks,
        &plan.destination,
        plan.mode,
        plan.parallelism,
        &plan.retry_policy,
    );
    proof {
        assert(write.ensures(
            (
                kept.chunks,
                &settled.destination,
                settled.mode,
                settled.parallelism,
                &settled.retry_policy,
            ),
            written,
        ));
        assert(facts == facts_of_read(kept));
    }
    conclude_write(definition, plan, facts, written)
}

/// The reject threshold of a definition.
pub open spec fn threshold_of<D, E>(definition: LoadDefinition<D, E>) -> u64 {
    match definition.reject_threshold {
        Some(threshold) => threshold,
        None => 0,
    }
}

/// What a report says of a definition: its source, destination, dataset and
/// load mode.
pub open spec fn echoes<D, E>(
    definition: LoadDefinition<D, E>,
    failure: ReportableFailure,
) -> bool {
    &&& json_tree(failure.source_summary) == match definition.source {
        Some(source) => source_tree(source),
        None => empty_object(),
    }
    &&& json_tree(failure.destination_summary) == match definition.destination {
        Some(destination) => destination_tree(destination),
        None => empty_object(),
    }
    &&& failure.dataset == definition.dataset
    &&& failure.load_mode@ == load_mode_text(definition.load_mode)
}

/// Whether a reportable failure states what an execution failure established.
pub open spec fn reports(execution: ExecutionFailure, failure: ReportableFailure) -> bool {
    &&& match execution.schema_decision {
        Some(decision) => failure.schema_decision == decision,
        None => json_tree(failure.schema_decision) == not_evaluated(),
    }
    &&& failure.source_rows == match execution.source_rows {
        Some(rows) => rows,
        None => 0,
    }
    &&& failure.written_records == execution.written_records
    &&& failure.rejected_count == execution.rejected_count
    &&& failure.committed_execution == execution.committed_execution
    &&& failure.retry == execution.retry
    &&& failure.destination_write == execution.destination_write
    &&& failure.code@ == execution.failure.code@
    &&& failure.message@ == execution.failure.message@
}

/// What is wrong with a definition's version, if anything.
pub open spec fn version_failure(version: Option<u64>) -> Option<FailureView> {
    match version {
        None => Some(
            failing(
                "missing_load_definition_version"@,
                "load definition version is required"@,
            ),
        ),
        Some(version) => if version == SUPPORTED_LOAD_DEFINITION_VERSION {
            None
        } else {
            Some(
                failing(
                    "unsupported_load_definition_version"@,
                    "unsupported load definition version: "@ + decimal(version as nat),
                ),
            )
        },
    }
}

fn check_version(version: Option<u64>) -> (checked: Result<(), LoadFailure>)
    ensures
        match checked {
            Ok(_) => version_failure(version) is None,
            Err(failure) => version_failure(version) == Some(failure@),
        },
{
    match version {
        None => Err(
            LoadFailure::new(
                "missing_load_definition_version",
                "load definition version is required".to_owned(),
            ),
        ),
        Some(version) => if version == SUPPORTED_LOAD_DEFINITION_VERSION {
            Ok(())
        } else {
            Err(
                LoadFailure::new(
                    "unsupported_load_definition_version",
                    "unsupported load definition version: ".to_owned().concat(
                        decimal_text(version).as_str(),
                    ),
                ),
            )
        },
    }
}

/// Joins a failure with what its definition said.
pub fn reportable_failure<D, E>(
    definition: LoadDefinition<D, E>,
    failure: ExecutionFailure,
) -> (reportable: ReportableFailure)
    ensures
        echoes(definition, reportable),
        reports(failure, reportable),
{
    let source = source_summary(
        match &definition.source {
            Some(source) => Some(source),
            None => None,
        },
    );
    let destination = destination_summary(
        match &definition.destination {
            Some(destination) => Some(destination),
            None => None,
        },
    );
    ReportableFailure {
        source_summary: source,
        destination_summary: destination,
        load_mode: load_mode_of(&definition.load_mode),
        dataset: definition.dataset,
        schema_decision: match failure.schema_decision {
            Some(decision) => decision,
            None => not_evaluated_schema_decision(),
        },
        source_rows: match failure.source_rows {
            Some(rows) => rows,
            None => 0,
        },
        written_records: failure.written_records,
        rejected_count: failure.rejected_count,
        committed_execution: failure.committed_execution,
        retry: failure.retry,
        destination_write: failure.destination_write,
        code: failure.failure.code,
        message: failure.failure.message,
    }
}

/// Runs a load of any definition: only one of the supported version is
/// executed, and every failure is joined with what the definition said.
pub fn execute_load_definition<
    D,
    E,
    X: FnOnce(&LoadDefinition<D, E>) -> Result<ExecutionDetails, ExecutionFailure>,
>(definition: LoadDefinition<D, E>, execute: X) -> (result: Result<
    ExecutionDetails,
    ReportableFailure,
>)
    requires
        version_failure(definition.version) is None ==> execute.requires((&definition,)),
    ensures
        match version_failure(definition.version) {
            Some(view) => result matches Err(reportable) && echoes(definition, reportable) && exists|
                failure: LoadFailure,
            |
                failure@ == view && #[trigger] reports(bare_failure(failure), reportable),
            None => exists|executed: Result<ExecutionDetails, ExecutionFailure>|
                {
                    &&& #[trigger] execute.ensures((&definition,), executed)
                    &&& match executed {
                        Ok(details) => result == Ok::<_, ReportableFailure>(details),
                        Err(failure) => result matches Err(reportable) && echoes(
                            definition,
                            reportable,
                        ) && reports(failure, reportable),
                    }
                },
        },
{
    match check_version(definition.version) {
        Ok(_) => {},
        Err(failure) => {
            let ghost raised = failure;
            let reportable = reportable_failure(definition, ExecutionFailure::from(failure));
            proof {
                assert(reports(bare_failure(raised), reportable));
            }
            return Err(reportable);
        },
    }
    let executed = execute(&definition);
    let ghost outcome = executed;
    proof {
        assert(execute.ensures((&definition,), outcome));
    }
    match executed {
        Ok(details) => Ok(details),
        Err(failure) => Err(reportable_failure(definition, failure)),
    }
}

/// The root of a load's artifacts: the one the caller redirects to, else the
/// one the definition sets, else the default.
pub fn artifact_root<F>(redirected: Option<F>, configured: Option<F>, default_root: F) -> (root: F)
    ensures
        root == match (redirected, configured) {
            (Some(redirected), _) => redirected,
            (None, Some(configured)) => configured,
            (None, None) => default_root,
        },
{
    match redirected {
        Some(redirected) => redirected,
        None => match configured {
            Some(configured) => configured,
            None => default_root,
        },
    }
}

/// A load that succeeds accounts for every record of its source: each was
/// written or rejected.
pub proof fn law_every_record_is_written_or_rejected<D, E, T, O, P>(
    definition: LoadDefinition<D, E>,
    plan: LoadPlan<T, O, P>,
    facts: ReadFacts,
    outcome: WritePhaseOutcome,
    attempts: Seq<RetryAttempt>,
    details: ExecutionDetails,
)
    requires
        facts.rejected_count <= facts.source_rows,
        are_details_of(definition, plan, facts, outcome, attempts, details),
    ensures
        details.row_counts.written + details.row_counts.rejected == details.row_counts.source,
{
}

/// A load proceeds past its read exactly when it rejected no more records than
/// its threshold allows.
pub proof fn law_threshold_gates_the_load<C>(
    read: SourceRead<C>,
    reject_threshold: u64,
    admitted: Result<SourceRead<C>, ExecutionFailure>,
)
    requires
        admission(Ok::<SourceRead<C>, ExecutionFailure>(read), reject_threshold, admitted),
    ensures
        admitted is Ok <==> read.rejected_count <= reject_threshold,
{
}

/// Only a definition whose destination takes its load mode has a plan, so for
/// any other no source is read and nothing is written.
pub proof fn law_only_accepted_definitions_are_planned<
    D,
    E,
    T,
    O,
    P,
    L: FnOnce(&str) -> CredentialLookup,
    M: FnOnce(&str) -> Result<T, LoadFailure>,
    V: FnOnce() -> Result<O, LoadFailure>,
    R: FnOnce(&str) -> PinRead<P>,
>(
    definition: LoadDefinition<D, E>,
    merge_keys: Seq<Seq<char>>,
    lookup: L,
    make_transform: M,
    make_overrides: V,
    read_pin: R,
    plan: LoadPlan<T, O, P>,
)
    requires
        plan_outcome(
            definition,
            merge_keys,
            lookup,
            make_transform,
            make_overrides,
            read_pin,
            Ok(plan),
        ),
    ensures
        is_accepted(definition, merge_keys, lookup, plan.destination),
        plan.reject_threshold == threshold_of(definition),
{
    let name = load_mode_text(definition.load_mode);
    let connector = choose|connector: Result<DestinationConnector, LoadFailure>|
        {
            &&& #[trigger] connector_outcome(
                definition.destination->0,
                text_view(definition.dataset),
                merge_keys,
                lookup,
                connector,
            )
            &&& match connector {
                Err(failure) => refused(Ok::<LoadPlan<T, O, P>, LoadFailure>(plan), failure@),
                Ok(destination) => directed_plan(
                    definition,
                    mode_of(name)->0,
                    destination,
                    make_transform,
                    make_overrides,
                    read_pin,
                    Ok::<LoadPlan<T, O, P>, LoadFailure>(plan),
                ),
            }
        };
    assert(connector == Ok::<DestinationConnector, LoadFailure>(plan.destination));
}

/// A read that rejected more than its definition allows may not be written: its
/// pinned schema file is not, nor are its chunks.
pub proof fn law_breached_read_is_not_written<
    T,
    O,
    P,
    C,
    S: FnOnce(&LocalFileSource, &SchemaDirective<T, O, P>, u64) -> Result<
        SourceRead<C>,
        ExecutionFailure,
    >,
>(plan: LoadPlan<T, O, P>, read_source: S, read: SourceRead<C>)
    requires
        read.rejected_count > plan.reject_threshold,
    ensures
        !may_be_written(plan, read_source, read),
{
}

/// A load that its threshold stops reports that nothing was written.
pub proof fn law_stopped_load_wrote_nothing<C>(
    read: SourceRead<C>,
    reject_threshold: u64,
    stopped: ExecutionFailure,
)
    requires
        admission(
            Ok::<SourceRead<C>, ExecutionFailure>(read),
            reject_threshold,
            Err::<SourceRead<C>, ExecutionFailure>(stopped),
        ),
    ensures
        stopped.written_records == 0,
        stopped.committed_execution is None,
        stopped.destination_write == facts_of("not_applicable", None),
        stopped.rejected_count == read.rejected_count,
        stopped.source_rows == Some(read.source_rows),
{
}

/// By default a load tolerates no rejected record.
pub proof fn law_no_rejection_is_tolerated_by_default<D, E>(definition: LoadDefinition<D, E>)
    requires
        definition.reject_threshold is None,
    ensures
        threshold_of(definition) == 0,
{
}

/// A load succeeds exactly where its write phase did, and then states the write as
/// the destination handed it back: its atomicity, strategy and merge partition, and
/// the bytes. The other numbers are those of the read: what was not rejected was
/// written.
pub proof fn law_success_states_what_the_destination_committed<D, E, T, O, P>(
    definition: LoadDefinition<D, E>,
    plan: LoadPlan<T, O, P>,
    facts: ReadFacts,
    written: WrittenPhase,
    concluded: Result<ExecutionDetails, ExecutionFailure>,
    source: Value,
    destination: Value,
)
    requires
        call_ensures(
            conclude_write::<D, E, T, O, P>,
            (&definition, plan, facts, written),
            concluded,
        ),
        definition.source is Some,
        definition.destination is Some,
        facts.rejected_count <= facts.source_rows,
        call_ensures(source_summary, (Some(&definition.source->0),), source),
        call_ensures(destination_summary, (Some(&definition.destination->0),), destination),
    ensures
        concluded is Ok <==> written.result is Ok,
        concluded matches Ok(details) ==> {
            let outcome = written.result->Ok_0;
            &&& details.destination_write.atomicity@ == outcome.facts.atomicity@
            &&& details.destination_write.strategy == outcome.facts.strategy
            &&& details.destination_write.merge == outcome.facts.merge
            &&& details.byte_counts.destination == outcome.bytes_written
            &&& details.byte_counts.source == Some(facts.source_bytes)
            &&& details.row_counts.source == facts.source_rows
            &&& details.row_counts.rejected == facts.rejected_count
            &&& details.row_counts.written + facts.rejected_count == facts.source_rows
            &&& details.rejected_count == facts.rejected_count
            &&& details.schema_decision == facts.schema_decision
            &&& details.dataset == definition.dataset
            &&& details.load_mode@ == plan.load_mode@
            &&& json_tree(details.source_summary) == json_tree(source)
            &&& json_tree(details.destination_summary) == json_tree(destination)
        },
{
}

/// A load that succeeds reports its execution as it was: as many chunks as the write
/// phase wrote, and the plan's chunk bound, parallelism, limit and retries.
pub proof fn law_success_states_its_execution<D, E, T, O, P>(
    definition: LoadDefinition<D, E>,
    plan: LoadPlan<T, O, P>,
    facts: ReadFacts,
    written: WrittenPhase,
    details: ExecutionDetails,
    attempts: &[RetryAttempt],
    story: Value,
)
    requires
        call_ensures(
            conclude_write::<D, E, T, O, P>,
            (&definition, plan, facts, written),
            Ok::<ExecutionDetails, ExecutionFailure>(details),
        ),
        attempts@ == written.attempts@,
        call_ensures(report_value, (&plan.retry_policy, attempts), story),
    ensures
        ({
            let shown = json_tree(details.execution);
            &&& shows(
                shown,
                "batch_count"@,
                JsonTree::Number(decimal(written.result->Ok_0.chunk_count as nat)),
            )
            &&& shows(shown, "chunk_rows"@, JsonTree::Number(decimal(plan.chunk_rows as nat)))
            &&& shows(
                shown,
                "parallelism"@,
                JsonTree::Number(decimal(plan.parallelism.number() as nat)),
            )
            &&& shows(
                shown,
                "connector_parallelism_limit"@,
                JsonTree::Number(decimal(plan.connector_parallelism_limit.number() as nat)),
            )
            &&& shows(shown, "retry"@, json_tree(story))
        }),
{
    lemma_execution_shows(
        written.result->Ok_0.chunk_count,
        plan.chunk_rows,
        plan.parallelism.number(),
        plan.connector_parallelism_limit.number(),
        json_tree(story),
    );
}

/// A load whose write phase failed states that failure, what the destination holds
/// of the load by then, and what the read had established. Within a session it tells
/// the chunks that were committed and how the load executed; before one it tells the
/// retries, where there were any, and nothing of an execution.
pub proof fn law_failed_write_states_what_is_left<D, E, T, O, P>(
    definition: LoadDefinition<D, E>,
    plan: LoadPlan<T, O, P>,
    facts: ReadFacts,
    written: WrittenPhase,
    failure: ExecutionFailure,
    attempts: &[RetryAttempt],
    story: Value,
)
    requires
        call_ensures(
            conclude_write::<D, E, T, O, P>,
            (&definition, plan, facts, written),
            Err::<ExecutionDetails, ExecutionFailure>(failure),
        ),
        attempts@ == written.attempts@,
        call_ensures(report_value, (&plan.retry_policy, attempts), story),
    ensures
        failure.schema_decision == Some(facts.schema_decision),
        failure.source_rows == Some(facts.source_rows),
        failure.rejected_count == facts.rejected_count,
        written.result matches Err(WritePhaseFailure::BeforeSession(raised)) ==> {
            &&& failure.failure == raised.failure
            &&& failure.written_records == raised.written_records
            &&& failure.destination_write == raised.facts
            &&& failure.committed_execution is None
            &&& failure.retry is Some <==> written.attempts@.len() > 0
            &&& failure.retry matches Some(told) ==> json_tree(told) == json_tree(story)
        },
        written.result matches Err(WritePhaseFailure::InSession(raised)) ==> {
            &&& failure.failure == raised.failure
            &&& failure.written_records == raised.written_records
            &&& failure.destination_write == raised.facts
            &&& failure.retry is None
            &&& failure.committed_execution matches Some(committed)
            &&& committed.committed_chunks == raised.committed_chunks
            &&& committed.chunk_rows == plan.chunk_rows
            &&& committed.parallelism == plan.parallelism.number()
            &&& committed.connector_parallelism_limit
                == plan.connector_parallelism_limit.number()
            &&& json_tree(committed.retry) == json_tree(story)
        },
        written.result is Err,
{
}

/// What the destination said of its write reaches the report: a session that was
/// committed, a load concluded from it, and the report of that load all state the
/// same atomicity, strategy and merge partition.
pub proof fn law_committed_facts_reach_the_report<
    W: DestinationWriter,
    D,
    E,
    T,
    O,
    P,
>(
    writer: W,
    chunk_count: u64,
    outcome: WritePhaseOutcome,
    definition: LoadDefinition<D, E>,
    plan: LoadPlan<T, O, P>,
    facts: ReadFacts,
    written: WrittenPhase,
    details: ExecutionDetails,
    load_id: String,
    artifact_dir: String,
    timings: Timings,
    report: LoadReport,
)
    requires
        call_ensures(
            commit_in_session::<W>,
            (writer, chunk_count),
            Ok::<WritePhaseOutcome, WritePhaseFailure>(outcome),
        ),
        written.result == Ok::<WritePhaseOutcome, WritePhaseFailure>(outcome),
        call_ensures(
            conclude_write::<D, E, T, O, P>,
            (&definition, plan, facts, written),
            Ok::<ExecutionDetails, ExecutionFailure>(details),
        ),
        call_ensures(
            load_report,
            (
                load_id,
                artifact_dir,
                timings,
                Ok::<ExecutionDetails, ReportableFailure>(details),
            ),
            report,
        ),
    ensures
        exists|committed: DestinationWrite|
            {
                let shown = json_tree(report.destination_write);
                &&& #[trigger] call_ensures(
                    W::commit,
                    (writer,),
                    Ok::<DestinationWrite, DestinationWriteFailure>(committed),
                )
                &&& shows(shown, "atomicity"@, JsonTree::Text(committed.facts.atomicity@))
                &&& committed.facts.strategy matches Some(strategy) ==> shows(
                    shown,
                    "strategy"@,
                    JsonTree::Text(strategy@),
                )
                &&& committed.facts.strategy is None ==> lacks(shown, "strategy"@)
                &&& committed.facts.merge matches Some(merge) ==> (shown matches JsonTree::Object(
                    entries,
                ) && entry_value(entries, "merge"@) matches Some(counts) && shows(
                    counts,
                    "updated"@,
                    JsonTree::Number(decimal(merge.updated as nat)),
                ) && shows(counts, "inserted"@, JsonTree::Number(decimal(merge.inserted as nat))))
                &&& committed.facts.merge is None ==> lacks(shown, "merge"@)
            },
{
    let ended = choose|ended: Result<DestinationWrite, DestinationWriteFailure>|
        #[trigger] may_commit(writer, ended) && Ok::<WritePhaseOutcome, WritePhaseFailure>(outcome)
            == commit_result(ended, chunk_count);
    let committed = ended->Ok_0;
    assert(call_ensures(
        W::commit,
        (writer,),
        Ok::<DestinationWrite, DestinationWriteFailure>(committed),
    ));
    assert(details.destination_write == committed.facts);
    lemma_facts_tree(committed.facts);
}

/// A read is admitted exactly where it rejected no more records than the load
/// tolerates, and then as it is. One that is not stops the load with the schema
/// decision and the counts it came to, and nothing written.
pub proof fn law_reads_are_held_to_the_threshold<C>(
    read: SourceRead<C>,
    reject_threshold: u64,
    admitted: Result<SourceRead<C>, ExecutionFailure>,
)
    requires
        call_ensures(
            admit_read::<C>,
            (Ok::<SourceRead<C>, ExecutionFailure>(read), reject_threshold),
            admitted,
        ),
    ensures
        admitted is Ok <==> read.rejected_count <= reject_threshold,
        admitted matches Ok(kept) ==> kept == read,
        admitted matches Err(stopped) ==> {
            &&& stopped.failure.code@ == "reject_threshold_exceeded"@
            &&& stopped.failure.message@ == "rejected "@ + decimal(read.rejected_count as nat)
                + " of "@ + decimal(read.source_rows as nat)
                + " records, exceeding the reject threshold of "@ + decimal(
                reject_threshold as nat,
            )
            &&& stopped.schema_decision == Some(read.schema_decision)
            &&& stopped.source_rows == Some(read.source_rows)
            &&& stopped.rejected_count == read.rejected_count
            &&& stopped.written_records == 0
            &&& stopped.committed_execution is None && stopped.retry is None
            &&& stopped.destination_write.atomicity@ == "not_applicable"@
            &&& stopped.destination_write.strategy is None && stopped.destination_write.merge
                is None
        },
{
}

/// A read that failed stays failed. Its own failure is kept, unless no schema was
/// decided yet and more records were rejected than the load tolerates.
pub proof fn law_failed_read_is_held_to_the_threshold_too<C>(
    failure: ExecutionFailure,
    reject_threshold: u64,
    admitted: Result<SourceRead<C>, ExecutionFailure>,
)
    requires
        call_ensures(
            admit_read::<C>,
            (Err::<SourceRead<C>, ExecutionFailure>(failure), reject_threshold),
            admitted,
        ),
    ensures
        admitted matches Err(held) && {
            &&& failure.schema_decision is Some || failure.rejected_count <= reject_threshold
                ==> held == failure
            &&& failure.schema_decision is None && failure.rejected_count > reject_threshold ==> {
                &&& held.failure.code@ == "reject_threshold_exceeded"@
                &&& held.rejected_count == failure.rejected_count
                &&& held.written_records == failure.written_records
                &&& held.destination_write == failure.destination_write
                &&& failure.source_rows is Some ==> held.source_rows == failure.source_rows
                &&& failure.source_rows is None ==> held.source_rows == Some(
                    failure.rejected_count,
                )
            }
        },
{
}

/// The plan of a load is what its definition says: the load mode it names, a full
/// refresh where it names none; the file it reads; its chunk bound, retries and
/// reject threshold; and no more parallelism than the destination takes.
pub proof fn law_plan_is_what_the_definition_says<
    D,
    E,
    T,
    O,
    P,
    L: FnOnce(&str) -> CredentialLookup,
    M: FnOnce(&str) -> Result<T, LoadFailure>,
    V: FnOnce() -> Result<O, LoadFailure>,
    R: FnOnce(&str) -> PinRead<P>,
>(
    definition: LoadDefinition<D, E>,
    merge_keys: &[String],
    lookup: L,
    make_transform: M,
    make_overrides: V,
    read_pin: R,
    plan: LoadPlan<T, O, P>,
    execution: Option<&ExecutionConfig>,
    chunk_rows: u64,
    parallelism: NonZeroCount,
)
    requires
        call_ensures(
            plan_load::<D, E, T, O, P, L, M, V, R>,
            (&definition, merge_keys, lookup, make_transform, make_overrides, read_pin),
            Ok::<LoadPlan<T, O, P>, LoadFailure>(plan),
        ),
        definition.execution is Some ==> execution == Some(&definition.execution->0),
        definition.execution is None ==> execution is None,
        call_ensures(resolve_chunk_rows, (execution,), chunk_rows),
        call_ensures(
            resolve_parallelism,
            (execution, plan.connector_parallelism_limit),
            parallelism,
        ),
    ensures
        definition.source matches Some(source) && source.connector@ == "local_file"@
            && plan.source.path@ == source.path@ && plan.source.format == source.format,
        definition.destination is Some,
        definition.load_mode is None ==> plan.mode == LoadMode::FullRefresh && plan.load_mode@
            == "full_refresh"@,
        definition.load_mode matches Some(name) ==> plan.load_mode@ == name@,
        plan.mode == LoadMode::FullRefresh <==> plan.load_mode@ == "full_refresh"@,
        plan.mode == LoadMode::Append <==> plan.load_mode@ == "append"@,
        plan.mode == LoadMode::Merge <==> plan.load_mode@ == "merge"@,
        plan.mode == LoadMode::Merge ==> plan.destination is DuckDb,
        !(plan.destination is SqlServer),
        plan.chunk_rows == chunk_rows,
        plan.parallelism.number() == parallelism.number(),
        plan.connector_parallelism_limit.number() == 1,
        definition.reject_threshold matches Some(threshold) ==> plan.reject_threshold == threshold,
        definition.reject_threshold is None ==> plan.reject_threshold == 0,
{
    law_only_accepted_definitions_are_planned(
        definition,
        texts(merge_keys@),
        lookup,
        make_transform,
        make_overrides,
        read_pin,
        plan,
    );
    let name = load_mode_text(definition.load_mode);
    let connector = choose|connector: Result<DestinationConnector, LoadFailure>|
        {
            &&& #[trigger] connector_outcome(
                definition.destination->0,
                text_view(definition.dataset),
                texts(merge_keys@),
                lookup,
                connector,
            )
            &&& match connector {
                Err(failure) => refused(Ok::<LoadPlan<T, O, P>, LoadFailure>(plan), failure@),
                Ok(destination) => directed_plan(
                    definition,
                    mode_of(name)->0,
                    destination,
                    make_transform,
                    make_overrides,
                    read_pin,
                    Ok::<LoadPlan<T, O, P>, LoadFailure>(plan),
                ),
            }
        };
    lemma_mode_names_differ();
    assert(plan.mode == mode_of(name)->0);
    assert(plan.load_mode@ == name);
    law_modes_of_the_destinations(plan.destination);
    law_every_destination_is_serial(plan.destination, plan.mode);
    assert(plan.destination.modes().contains(plan.mode));
    match definition.execution {
        Some(config) => {
            assert(by_ref(definition.execution) == execution);
        },
        None => {
            assert(by_ref(definition.execution) == execution);
        },
    }
}

proof fn lemma_mode_names_differ()
    ensures
        "full_refresh"@ != "append"@,
        "full_refresh"@ != "merge"@,
        "append"@ != "merge"@,
{
    reveal_strlit("full_refresh");
    reveal_strlit("append");
    reveal_strlit("merge");
    assert("full_refresh"@.len() == 12 && "append"@.len() == 6 && "merge"@.len() == 5);
}

/// The retry policy of a plan is the one that its definition resolves to.
pub proof fn law_plan_retries_as_the_definition_says<
    D,
    E,
    T,
    O,
    P,
    L: FnOnce(&str) -> CredentialLookup,
    M: FnOnce(&str) -> Result<T, LoadFailure>,
    V: FnOnce() -> Result<O, LoadFailure>,
    R: FnOnce(&str) -> PinRead<P>,
>(
    definition: LoadDefinition<D, E>,
    merge_keys: &[String],
    lookup: L,
    make_transform: M,
    make_overrides: V,
    read_pin: R,
    plan: LoadPlan<T, O, P>,
    execution: Option<&ExecutionConfig>,
    policy: RetryPolicy,
)
    requires
        call_ensures(
            plan_load::<D, E, T, O, P, L, M, V, R>,
            (&definition, merge_keys, lookup, make_transform, make_overrides, read_pin),
            Ok::<LoadPlan<T, O, P>, LoadFailure>(plan),
        ),
        definition.execution is Some ==> execution == Some(&definition.execution->0),
        definition.execution is None ==> execution is None,
        call_ensures(resolve_retry_policy, (execution,), policy),
    ensures
        plan.retry_policy.max_attempts.number() == policy.max_attempts.number(),
        plan.retry_policy.initial_delay_ms == policy.initial_delay_ms,
        plan.retry_policy.max_delay_ms == policy.max_delay_ms,
{
    assert(by_ref(definition.execution) == execution);
}

/// What is wrong with a definition is told for the first fault in this order: no
/// source, no destination, a load mode that there is not, a source connector that
/// there is not.
pub proof fn law_unaddressed_definition_is_refused<
    D,
    E,
    T,
    O,
    P,
    L: FnOnce(&str) -> CredentialLookup,
    M: FnOnce(&str) -> Result<T, LoadFailure>,
    V: FnOnce() -> Result<O, LoadFailure>,
    R: FnOnce(&str) -> PinRead<P>,
>(
    definition: LoadDefinition<D, E>,
    merge_keys: &[String],
    lookup: L,
    make_transform: M,
    make_overrides: V,
    read_pin: R,
    planned: Result<LoadPlan<T, O, P>, LoadFailure>,
)
    requires
        call_ensures(
            plan_load::<D, E, T, O, P, L, M, V, R>,
            (&definition, merge_keys, lookup, make_transform, make_overrides, read_pin),
            planned,
        ),
    ensures
        ({
            let told = |code: Seq<char>, message: Seq<char>|
                planned matches Err(failure) && failure.code@ == code && failure.message@
                    == message;
            let mode = definition.load_mode;
            if definition.source is None {
                told("missing_source"@, "load definition source is required"@)
            } else if definition.destination is None {
                told("missing_destination"@, "load definition destination is required"@)
            } else if mode is Some && mode->0@ != "full_refresh"@ && mode->0@ != "append"@
                && mode->0@ != "merge"@ {
                told("unsupported_load_mode"@, "unsupported load mode: "@ + mode->0@)
            } else if definition.source->0.connector@ != "local_file"@ {
                told(
                    "unsupported_source_connector"@,
                    "unsupported source connector: "@ + definition.source->0.connector@,
                )
            } else {
                true
            }
        }),
{
    if let Err(failure) = planned {
        assert(failure@.code == failure.code@ && failure@.message == failure.message@);
    }
}

/// A failure is joined with what its definition said and loses nothing of what it
/// had established; a schema that was never decided is told as not evaluated, and
/// rows that were never counted as none.
pub proof fn law_reportable_failure_loses_nothing<D, E>(
    definition: LoadDefinition<D, E>,
    failure: ExecutionFailure,
    reportable: ReportableFailure,
    source: Value,
    destination: Value,
)
    requires
        call_ensures(reportable_failure::<D, E>, (definition, failure), reportable),
        call_ensures(
            source_summary,
            (
                if definition.source is Some {
                    Some(&definition.source->0)
                } else {
                    None
                },
            ),
            source,
        ),
        call_ensures(
            destination_summary,
            (
                if definition.destination is Some {
                    Some(&definition.destination->0)
                } else {
                    None
                },
            ),
            destination,
        ),
    ensures
        json_tree(reportable.source_summary) == json_tree(source),
        json_tree(reportable.destination_summary) == json_tree(destination),
        reportable.dataset == definition.dataset,
        definition.load_mode matches Some(name) ==> reportable.load_mode@ == name@,
        definition.load_mode is None ==> reportable.load_mode@ == "full_refresh"@,
        failure.schema_decision matches Some(decision) ==> reportable.schema_decision == decision,
        failure.schema_decision is None ==> shows(
            json_tree(reportable.schema_decision),
            "mode"@,
            JsonTree::Text("not_evaluated"@),
        ),
        failure.source_rows matches Some(rows) ==> reportable.source_rows == rows,
        failure.source_rows is None ==> reportable.source_rows == 0,
        reportable.written_records == failure.written_records,
        reportable.rejected_count == failure.rejected_count,
        reportable.committed_execution == failure.committed_execution,
        reportable.retry == failure.retry,
        reportable.destination_write == failure.destination_write,
        reportable.code@ == failure.failure.code@,
        reportable.message@ == failure.failure.message@,
{
    lemma_not_evaluated_shows();
}

/// Only a definition of version 1 is executed, and its outcome is what comes back,
/// a failure with everything it had established. Any other version, and none at
/// all, is refused with nothing done.
pub proof fn law_only_the_supported_version_is_executed<
    D,
    E,
    X: FnOnce(&LoadDefinition<D, E>) -> Result<ExecutionDetails, ExecutionFailure>,
>(
    definition: LoadDefinition<D, E>,
    execute: X,
    result: Result<ExecutionDetails, ReportableFailure>,
)
    requires
        call_ensures(execute_load_definition::<D, E, X>, (definition, execute), result),
    ensures
        definition.version == Some(1u64) ==> exists|
            executed: Result<ExecutionDetails, ExecutionFailure>,
        |
            {
                &&& #[trigger] execute.ensures((&definition,), executed)
                &&& executed matches Ok(details) ==> result == Ok::<_, ReportableFailure>(details)
                &&& executed matches Err(failure) ==> (result matches Err(reportable)
                    && reportable.code@ == failure.failure.code@ && reportable.message@
                    == failure.failure.message@ && reportable.written_records
                    == failure.written_records && reportable.rejected_count
                    == failure.rejected_count && reportable.destination_write
                    == failure.destination_write && reportable.committed_execution
                    == failure.committed_execution && reportable.retry == failure.retry)
            },
        definition.version != Some(1u64) ==> (result matches Err(reportable) && {
            &&& definition.version is None ==> reportable.code@
                == "missing_load_definition_version"@ && reportable.message@
                == "load definition version is required"@
            &&& definition.version matches Some(version) ==> reportable.code@
                == "unsupported_load_definition_version"@ && reportable.message@
                == "unsupported load definition version: "@ + decimal(version as nat)
            &&& reportable.written_records == 0 && reportable.rejected_count == 0
                && reportable.source_rows == 0
            &&& reportable.destination_write.atomicity@ == "not_applicable"@
            &&& reportable.committed_execution is None && reportable.retry is None
        }),
{
}

/// Artifacts go where the caller redirects them, else where the definition puts
/// them, else to the default root.
pub proof fn law_caller_redirects_the_artifacts<F>(
    redirected: Option<F>,
    configured: Option<F>,
    default_root: F,
    root: F,
)
    requires
        call_ensures(artifact_root::<F>, (redirected, configured, default_root), root),
    ensures
        redirected matches Some(chosen) ==> root == chosen,
        redirected is None && configured is Some ==> root == configured->0,
        redirected is None && configured is None ==> root == default_root,
{
}

/// A load succeeds only step by step: it was planned, its source was read as
/// planned with no more rejections than it tolerates, a schema to pin was written,
/// and then its chunks were, all of them. What it reports of the read and of the
/// write is what these steps gave.
pub proof fn law_successful_load_took_every_step<
    D,
    E,
    T,
    O,
    P,
    C,
    L: FnOnce(&str) -> CredentialLookup,
    M: FnOnce(&str) -> Result<T, LoadFailure>,
    V: FnOnce() -> Result<O, LoadFailure>,
    R: FnOnce(&str) -> PinRead<P>,
    S: FnOnce(&LocalFileSource, &SchemaDirective<T, O, P>, u64) -> Result<
        SourceRead<C>,
        ExecutionFailure,
    >,
    Q: FnOnce(&PinnedSchemaWrite) -> Result<(), LoadFailure>,
    W: FnOnce(C, &DestinationConnector, LoadMode, NonZeroCount, &RetryPolicy) -> WrittenPhase,
>(
    definition: LoadDefinition<D, E>,
    merge_keys: &[String],
    lookup: L,
    make_transform: M,
    make_overrides: V,
    read_pin: R,
    read_source: S,
    persist: Q,
    write: W,
    details: ExecutionDetails,
)
    requires
        call_ensures(
            execute_supported_load::<D, E, T, O, P, C, L, M, V, R, S, Q, W>,
            (
                &definition,
                merge_keys,
                lookup,
                make_transform,
                make_overrides,
                read_pin,
                read_source,
                persist,
                write,
            ),
            Ok::<ExecutionDetails, ExecutionFailure>(details),
        ),
    ensures
        exists|plan: LoadPlan<T, O, P>, read: SourceRead<C>, written: WrittenPhase|
            {
                &&& #[trigger] read_source.ensures(
                    (&plan.source, &plan.directive, plan.chunk_rows),
                    Ok(read),
                )
                &&& #[trigger] write.ensures(
                    (
                        read.chunks,
                        &plan.destination,
                        plan.mode,
                        plan.parallelism,
                        &plan.retry_policy,
                    ),
                    written,
                )
                &&& is_accepted(definition, texts(merge_keys@), lookup, plan.destination)
                &&& plan.source.path@ == definition.source->0.path@
                &&& read.rejected_count <= (if definition.reject_threshold is Some {
                    definition.reject_threshold->0
                } else {
                    0u64
                })
                &&& read.pinned_schema_write matches Some(pin) ==> exists|
                    persisted: Result<(), LoadFailure>,
                | #[trigger] persist.ensures((&pin,), persisted) && persisted is Ok
                &&& written.result matches Ok(outcome)
                &&& details.destination_write == outcome.facts
                &&& details.byte_counts.destination == outcome.bytes_written
                &&& details.byte_counts.source == Some(read.source_bytes)
                &&& details.row_counts.source == read.source_rows
                &&& details.row_counts.rejected == read.rejected_count
                &&& read.rejected_count <= read.source_rows ==> details.row_counts.written
                    + read.rejected_count == read.source_rows
                &&& details.schema_decision == read.schema_decision
            },
{
    let result = Ok::<ExecutionDetails, ExecutionFailure>(details);
    let planned = choose|planned: Result<LoadPlan<T, O, P>, LoadFailure>|
        {
            &&& #[trigger] plan_outcome(
                definition,
                texts(merge_keys@),
                lookup,
                make_transform,
                make_overrides,
                read_pin,
                planned,
            )
            &&& match planned {
                Err(failure) => result == Err::<ExecutionDetails, _>(bare_failure(failure)),
                Ok(plan) => executed_load(definition, plan, read_source, persist, write, result),
            }
        };
    let plan = planned->Ok_0;
    law_only_accepted_definitions_are_planned(
        definition,
        texts(merge_keys@),
        lookup,
        make_transform,
        make_overrides,
        read_pin,
        plan,
    );
    let (given, admitted) = choose|
        given: Result<SourceRead<C>, ExecutionFailure>,
        admitted: Result<SourceRead<C>, ExecutionFailure>,
    |
        {
            &&& #[trigger] read_source.ensures(
                (&plan.source, &plan.directive, plan.chunk_rows),
                given,
            )
            &&& #[trigger] admission(given, plan.reject_threshold, admitted)
            &&& match admitted {
                Err(failure) => result == Err::<ExecutionDetails, _>(failure),
                Ok(read) => admitted_load(definition, plan, read, persist, write, result),
            }
        };
    let read = admitted->Ok_0;
    assert(given == Ok::<SourceRead<C>, ExecutionFailure>(read));
    if let Some(pin) = read.pinned_schema_write {
        let persisted = choose|persisted: Result<(), LoadFailure>|
            {
                &&& #[trigger] persist.ensures((&pin,), persisted)
                &&& match persisted {
                    Err(failure) => result == Err::<ExecutionDetails, _>(
                        pre_write_failure(facts_of_read(read), failure),
                    ),
                    Ok(_) => written_load(definition, plan, read, write, result),
                }
            };
        assert(persist.ensures((&pin,), persisted) && persisted is Ok);
    }
    assert(written_load(definition, plan, read, write, result));
    let written = choose|written: WrittenPhase|
        {
            &&& #[trigger] write.ensures(
                (read.chunks, &plan.destination, plan.mode, plan.parallelism, &plan.retry_policy),
                written,
            )
            &&& conclusion(definition, plan, facts_of_read(read), written, result)
        };
    assert(read_source.ensures((&plan.source, &plan.directive, plan.chunk_rows), Ok(read)));
    assert(write.ensures(
        (read.chunks, &plan.destination, plan.mode, plan.parallelism, &plan.retry_policy),
        written,
    ));
    lemma_plan_reads_the_source(
        definition,
        texts(merge_keys@),
        lookup,
        make_transform,
        make_overrides,
        read_pin,
        plan,
    );
}

proof fn lemma_plan_reads_the_source<
    D,
    E,
    T,
    O,
    P,
    L: FnOnce(&str) -> CredentialLookup,
    M: FnOnce(&str) -> Result<T, LoadFailure>,
    V: FnOnce() -> Result<O, LoadFailure>,
    R: FnOnce(&str) -> PinRead<P>,
>(
    definition: LoadDefinition<D, E>,
    merge_keys: Seq<Seq<char>>,
    lookup: L,
    make_transform: M,
    make_overrides: V,
    read_pin: R,
    plan: LoadPlan<T, O, P>,
)
    requires
        plan_outcome(
            definition,
            merge_keys,
            lookup,
            make_transform,
            make_overrides,
            read_pin,
            Ok(plan),
        ),
    ensures
        plan.source.path == definition.source->0.path,
        plan.source.format == definition.source->0.format,
{
}

/// A plan goes to the destination that its definition names: the Parquet dataset or
/// the DuckDB table at its path, the table named after the dataset and with the merge
/// keys, all of them and in their order.
pub proof fn law_plan_goes_to_the_defined_destination<
    D,
    E,
    T,
    O,
    P,
    L: FnOnce(&str) -> CredentialLookup,
    M: FnOnce(&str) -> Result<T, LoadFailure>,
    V: FnOnce() -> Result<O, LoadFailure>,
    R: FnOnce(&str) -> PinRead<P>,
>(
    definition: LoadDefinition<D, E>,
    merge_keys: &[String],
    lookup: L,
    make_transform: M,
    make_overrides: V,
    read_pin: R,
    plan: LoadPlan<T, O, P>,
)
    requires
        call_ensures(
            plan_load::<D, E, T, O, P, L, M, V, R>,
            (&definition, merge_keys, lookup, make_transform, make_overrides, read_pin),
            Ok::<LoadPlan<T, O, P>, LoadFailure>(plan),
        ),
    ensures
        definition.destination matches Some(DestinationDefinition::File(file)) && {
            &&& file.connector@ == "parquet"@ || file.connector@ == "duckdb"@
            &&& file.connector@ == "parquet"@ ==> (plan.destination matches
                DestinationConnector::Parquet(destination) && destination.path@ == file.path@)
            &&& file.connector@ == "duckdb"@ ==> (plan.destination matches
                DestinationConnector::DuckDb(destination) && {
                &&& destination.table.path@ == file.path@
                &&& definition.dataset matches Some(dataset) && dataset@.len() > 0
                    && destination.table.dataset@ == dataset@
                &&& destination.merge_keys@.len() == merge_keys@.len()
                &&& forall|i: int|
                    0 <= i < merge_keys@.len() ==> (#[trigger] destination.merge_keys@[i])@
                        == merge_keys@[i]@
            })
        },
{
    let name = load_mode_text(definition.load_mode);
    let connector = choose|connector: Result<DestinationConnector, LoadFailure>|
        {
            &&& #[trigger] connector_outcome(
                definition.destination->0,
                text_view(definition.dataset),
                texts(merge_keys@),
                lookup,
                connector,
            )
            &&& match connector {
                Err(failure) => refused(Ok::<LoadPlan<T, O, P>, LoadFailure>(plan), failure@),
                Ok(destination) => directed_plan(
                    definition,
                    mode_of(name)->0,
                    destination,
                    make_transform,
                    make_overrides,
                    read_pin,
                    Ok::<LoadPlan<T, O, P>, LoadFailure>(plan),
                ),
            }
        };
    lemma_connector_names_differ();
    assert(connector == Ok::<DestinationConnector, LoadFailure>(plan.destination));
    law_modes_of_the_destinations(plan.destination);
    if let DestinationConnector::DuckDb(destination) = plan.destination {
        let kept = texts(destination.merge_keys@);
        let given = texts(merge_keys@);
        assert(kept == given);
        assert(kept.len() == destination.merge_keys@.len());
        assert(given.len() == merge_keys@.len());
        assert forall|i: int| 0 <= i < merge_keys@.len() implies (
        #[trigger] destination.merge_keys@[i])@ == merge_keys@[i]@ by {
            assert(kept[i] == destination.merge_keys@[i]@);
            assert(given[i] == merge_keys@[i]@);
        }
    }
}

/// The schema of a plan is resolved from what its definition says: the transform made
/// for the format of the source, the overrides, and the pinned file it names, with
/// the drift policy it names.
pub proof fn law_plan_resolves_the_defined_schema<
    D,
    E,
    T,
    O,
    P,
    L: FnOnce(&str) -> CredentialLookup,
    M: FnOnce(&str) -> Result<T, LoadFailure>,
    V: FnOnce() -> Result<O, LoadFailure>,
    R: FnOnce(&str) -> PinRead<P>,
>(
    definition: LoadDefinition<D, E>,
    merge_keys: &[String],
    lookup: L,
    make_transform: M,
    make_overrides: V,
    read_pin: R,
    plan: LoadPlan<T, O, P>,
)
    requires
        call_ensures(
            plan_load::<D, E, T, O, P, L, M, V, R>,
            (&definition, merge_keys, lookup, make_transform, make_overrides, read_pin),
            Ok::<LoadPlan<T, O, P>, LoadFailure>(plan),
        ),
    ensures
        exists|format: &str, transform: T, overrides: O|
            {
                let source = definition.source->0;
                &&& #[trigger] make_transform.ensures((format,), Ok(transform))
                &&& #[trigger] make_overrides.ensures((), Ok(overrides))
                &&& source.format matches Some(named) ==> format@ == named@
                &&& source.format is None && file_extension(source.path@) is Some ==> format@
                    == file_extension(source.path@)->0
                &&& source.format is None && file_extension(source.path@) is None ==> format@.len()
                    == 0
                &&& definition.schema is None || definition.schema->0.pinned_path is None
                    ==> (plan.directive matches SchemaDirective::Inferred {
                    transform: t,
                    overrides: o,
                } && t == transform && o == overrides)
                &&& definition.schema is Some && definition.schema->0.pinned_path is Some
                    ==> exists|path: &str, read: PinRead<P>|
                    {
                        &&& #[trigger] read_pin.ensures((path,), read)
                        &&& path@ == definition.schema->0.pinned_path->0@
                        &&& read is NotFound ==> (plan.directive matches
                            SchemaDirective::PinInferred { pinned_path, transform: t, overrides: o }
                            && pinned_path@ == path@ && t == transform && o == overrides)
                        &&& !(read is NotFound) ==> (plan.directive matches SchemaDirective::Pinned {
                            pinned_path,
                            pin,
                            drift_policy,
                            transform: t,
                            overrides: o,
                        } && pinned_path@ == path@ && read == PinRead::Text(
                            Ok::<P, LoadFailure>(pin),
                        ) && t == transform && o == overrides && (drift_policy
                            == DriftPolicy::AllowAdditiveNullable <==> (
                        definition.schema->0.drift_policy matches Some(policy) && policy@
                            == "allow_additive_nullable"@)))
                    }
            },
{
    let name = load_mode_text(definition.load_mode);
    let connector = choose|connector: Result<DestinationConnector, LoadFailure>|
        {
            &&& #[trigger] connector_outcome(
                definition.destination->0,
                text_view(definition.dataset),
                texts(merge_keys@),
                lookup,
                connector,
            )
            &&& match connector {
                Err(failure) => refused(Ok::<LoadPlan<T, O, P>, LoadFailure>(plan), failure@),
                Ok(destination) => directed_plan(
                    definition,
                    mode_of(name)->0,
                    destination,
                    make_transform,
                    make_overrides,
                    read_pin,
                    Ok::<LoadPlan<T, O, P>, LoadFailure>(plan),
                ),
            }
        };
    let (format, made_transform, made_overrides, directive) = choose|
        format: &str,
        transform: Result<T, LoadFailure>,
        overrides: Result<O, LoadFailure>,
        directive: Result<SchemaDirective<T, O, P>, LoadFailure>,
    |
        {
            &&& #[trigger] make_transform.ensures((format,), transform)
            &&& format@ == meant_format(
                definition.source->0.path@,
                text_view(definition.source->0.format),
            )
            &&& #[trigger] make_overrides.ensures((), overrides)
            &&& #[trigger] directive_outcome(
                by_ref(definition.schema),
                transform,
                overrides,
                read_pin,
                directive,
            )
            &&& match directive {
                Err(failure) => refused(Ok::<LoadPlan<T, O, P>, LoadFailure>(plan), failure@),
                Ok(directive) => Ok::<LoadPlan<T, O, P>, LoadFailure>(plan) matches Ok(kept)
                    && is_plan_of(
                    definition,
                    mode_of(name)->0,
                    connector->Ok_0,
                    directive,
                    kept,
                ),
            }
        };
    let transform = made_transform->Ok_0;
    let overrides = made_overrides->Ok_0;
    assert(make_transform.ensures((format,), Ok(transform)));
    assert(make_overrides.ensures((), Ok(overrides)));
    assert(directive == Ok::<SchemaDirective<T, O, P>, LoadFailure>(plan.directive));
    reveal_strlit("fail");
    reveal_strlit("allow_additive_nullable");
    assert("fail"@.len() == 4 && "allow_additive_nullable"@.len() == 23);
    if definition.schema is Some && definition.schema->0.pinned_path is Some {
        let pinned = definition.schema->0.pinned_path->0;
        assert(pinned_path_of(by_ref(definition.schema)) == Some(pinned));
        let (path, read) = choose|path: &str, read: PinRead<P>|
            {
                &&& #[trigger] read_pin.ensures((path,), read)
                &&& path@ == pinned@
                &&& directive_after_pin(
                    pinned@,
                    drift_policy_of(definition.schema->0.drift_policy)->0,
                    transform,
                    overrides,
                    read,
                    directive,
                )
            };
        assert(read_pin.ensures((path,), read));
    } else {
        assert(pinned_path_of(by_ref(definition.schema)) is None);
    }
}

/// A definition whose destination does not take its load mode is refused for that:
/// a merge into a Parquet dataset, and every load into a SQL Server table whose
/// address is complete.
pub proof fn law_declined_mode_is_refused<
    D,
    E,
    T,
    O,
    P,
    L: FnOnce(&str) -> CredentialLookup,
    M: FnOnce(&str) -> Result<T, LoadFailure>,
    V: FnOnce() -> Result<O, LoadFailure>,
    R: FnOnce(&str) -> PinRead<P>,
>(
    definition: LoadDefinition<D, E>,
    merge_keys: &[String],
    lookup: L,
    make_transform: M,
    make_overrides: V,
    read_pin: R,
    planned: Result<LoadPlan<T, O, P>, LoadFailure>,
)
    requires
        definition.source is Some,
        definition.source->0.connector@ == "local_file"@,
        call_ensures(
            plan_load::<D, E, T, O, P, L, M, V, R>,
            (&definition, merge_keys, lookup, make_transform, make_overrides, read_pin),
            planned,
        ),
    ensures
        definition.destination matches Some(DestinationDefinition::File(file)) && file.connector@
            == "parquet"@ && definition.load_mode is Some && definition.load_mode->0@ == "merge"@
            ==> planned is Err && planned->Err_0.code@ == "unsupported_load_mode_for_destination"@,
        definition.destination matches Some(DestinationDefinition::SqlServer(_)) ==> planned is Err,
{
    if definition.destination is Some && mode_of(load_mode_text(definition.load_mode)) is Some {
        let name = load_mode_text(definition.load_mode);
        let connector = choose|connector: Result<DestinationConnector, LoadFailure>|
            {
                &&& #[trigger] connector_outcome(
                    definition.destination->0,
                    text_view(definition.dataset),
                    texts(merge_keys@),
                    lookup,
                    connector,
                )
                &&& match connector {
                    Err(failure) => refused(planned, failure@),
                    Ok(destination) => directed_plan(
                        definition,
                        mode_of(name)->0,
                        destination,
                        make_transform,
                        make_overrides,
                        read_pin,
                        planned,
                    ),
                }
            };
        lemma_connector_names_differ();
        lemma_mode_names_differ();
        if connector is Ok {
            law_modes_of_the_destinations(connector->Ok_0);
        }
    }
    if let Err(failure) = planned {
        assert(failure@.code == failure.code@);
    }
}

/// A load that fails states how far it came. One that was not planned states nothing
/// but its fault. One whose read failed, or rejected more than is tolerated, states
/// what the read had established. One whose pinned schema could not be written states
/// its read and an untouched destination; and one whose write failed states the
/// failure of the write and what the destination holds.
pub proof fn law_failed_load_states_how_far_it_came<
    D,
    E,
    T,
    O,
    P,
    C,
    L: FnOnce(&str) -> CredentialLookup,
    M: FnOnce(&str) -> Result<T, LoadFailure>,
    V: FnOnce() -> Result<O, LoadFailure>,
    R: FnOnce(&str) -> PinRead<P>,
    S: FnOnce(&LocalFileSource, &SchemaDirective<T, O, P>, u64) -> Result<
        SourceRead<C>,
        ExecutionFailure,
    >,
    Q: FnOnce(&PinnedSchemaWrite) -> Result<(), LoadFailure>,
    W: FnOnce(C, &DestinationConnector, LoadMode, NonZeroCount, &RetryPolicy) -> WrittenPhase,
>(
    definition: LoadDefinition<D, E>,
    merge_keys: &[String],
    lookup: L,
    make_transform: M,
    make_overrides: V,
    read_pin: R,
    read_source: S,
    persist: Q,
    write: W,
    failure: ExecutionFailure,
)
    requires
        call_ensures(
            execute_supported_load::<D, E, T, O, P, C, L, M, V, R, S, Q, W>,
            (
                &definition,
                merge_keys,
                lookup,
                make_transform,
                make_overrides,
                read_pin,
                read_source,
                persist,
                write,
            ),
            Err::<ExecutionDetails, ExecutionFailure>(failure),
        ),
    ensures
        ({
            ||| {
                &&& failure.schema_decision is None && failure.source_rows is None
                &&& failure.written_records == 0 && failure.rejected_count == 0
                &&& failure.committed_execution is None && failure.retry is None
                &&& failure.destination_write.atomicity@ == "not_applicable"@
                &&& failure.destination_write.strategy is None && failure.destination_write.merge
                    is None
            }
            ||| exists|plan: LoadPlan<T, O, P>, read: Result<SourceRead<C>, ExecutionFailure>|
                {
                    &&& #[trigger] read_source.ensures(
                        (&plan.source, &plan.directive, plan.chunk_rows),
                        read,
                    )
                    &&& plan.source.path@ == definition.source->0.path@
                    &&& plan.reject_threshold == (if definition.reject_threshold is Some {
                        definition.reject_threshold->0
                    } else {
                        0u64
                    })
                    &&& read matches Err(raised) ==> {
                        if raised.schema_decision is None && raised.rejected_count
                            > plan.reject_threshold {
                            failure.failure.code@ == "reject_threshold_exceeded"@
                                && failure.rejected_count == raised.rejected_count
                        } else {
                            failure == raised
                        }
                    }
                    &&& read matches Ok(given) ==> {
                        &&& failure.schema_decision == Some(given.schema_decision)
                        &&& failure.source_rows == Some(given.source_rows)
                        &&& failure.rejected_count == given.rejected_count
                        &&& given.rejected_count > plan.reject_threshold ==> failure.failure.code@
                            == "reject_threshold_exceeded"@ && failure.written_records == 0
                            && failure.destination_write.atomicity@ == "not_applicable"@
                            && failure.committed_execution is None
                        &&& given.rejected_count <= plan.reject_threshold ==> {
                            ||| given.pinned_schema_write matches Some(pin) && exists|
                                persisted: Result<(), LoadFailure>,
                            |
                                {
                                    &&& #[trigger] persist.ensures((&pin,), persisted)
                                    &&& persisted is Err
                                    &&& failure.failure == persisted->Err_0
                                    &&& failure.written_records == 0
                                    &&& failure.committed_execution is None && failure.retry is None
                                    &&& failure.destination_write.atomicity@ == "not_applicable"@
                                }
                            ||| exists|written: WrittenPhase|
                                {
                                    &&& #[trigger] write.ensures(
                                        (
                                            given.chunks,
                                            &plan.destination,
                                            plan.mode,
                                            plan.parallelism,
                                            &plan.retry_policy,
                                        ),
                                        written,
                                    )
                                    &&& written.result matches Err(
                                        WritePhaseFailure::BeforeSession(raised),
                                    ) ==> failure.failure == raised.failure
                                        && failure.destination_write == raised.facts
                                        && failure.written_records == raised.written_records
                                    &&& written.result matches Err(
                                        WritePhaseFailure::InSession(raised),
                                    ) ==> failure.failure == raised.failure
                                        && failure.destination_write == raised.facts
                                        && failure.written_records == raised.written_records
                                        && failure.committed_execution is Some
                                    &&& written.result is Err
                                }
                        }
                    }
                }
        }),
{
    let result = Err::<ExecutionDetails, ExecutionFailure>(failure);
    let planned = choose|planned: Result<LoadPlan<T, O, P>, LoadFailure>|
        {
            &&& #[trigger] plan_outcome(
                definition,
                texts(merge_keys@),
                lookup,
                make_transform,
                make_overrides,
                read_pin,
                planned,
            )
            &&& match planned {
                Err(failure) => result == Err::<ExecutionDetails, _>(bare_failure(failure)),
                Ok(plan) => executed_load(definition, plan, read_source, persist, write, result),
            }
        };
    if planned is Ok {
        let plan = planned->Ok_0;
        lemma_plan_reads_the_source(
            definition,
            texts(merge_keys@),
            lookup,
            make_transform,
            make_overrides,
            read_pin,
            plan,
        );
        let (read, admitted) = choose|
            read: Result<SourceRead<C>, ExecutionFailure>,
            admitted: Result<SourceRead<C>, ExecutionFailure>,
        |
            {
                &&& #[trigger] read_source.ensures(
                    (&plan.source, &plan.directive, plan.chunk_rows),
                    read,
                )
                &&& #[trigger] admission(read, plan.reject_threshold, admitted)
                &&& match admitted {
                    Err(failure) => result == Err::<ExecutionDetails, _>(failure),
                    Ok(read) => admitted_load(definition, plan, read, persist, write, result),
                }
            };
        assert(read_source.ensures((&plan.source, &plan.directive, plan.chunk_rows), read));
        assert(failure.failure@.code == failure.failure.code@);
        if let Ok(given) = read {
            if given.rejected_count <= plan.reject_threshold {
                assert(admitted == read);
                assert(admitted_load(definition, plan, given, persist, write, result));
                if given.pinned_schema_write is None {
                    assert(written_load(definition, plan, given, write, result));
                }
            }
        }
    }
}

} // verus!
