//! The load definition: what a load moves, from where, to where, and how.
use crate::count::{NonZeroCount, NonZeroPort};
use crate::retry::{RetryPolicy, DEFAULT_INITIAL_DELAY_MS, DEFAULT_MAX_ATTEMPTS, DEFAULT_MAX_DELAY_MS};
use vstd::prelude::*;

verus! {

/// The definition version this tool runs.
pub const SUPPORTED_LOAD_DEFINITION_VERSION: u64 = 1;

/// The chunk bound of a definition that sets none.
pub const DEFAULT_CHUNK_ROWS: u64 = 65536;

/// A load definition. `T` is the configuration of its structural transform,
/// and `E` that of one schema override.
#[derive(Debug)]
pub struct LoadDefinition<T, E> {
    pub version: Option<u64>,
    pub source: Option<SourceDefinition>,
    pub destination: Option<DestinationDefinition>,
    pub dataset: Option<String>,
    pub load_mode: Option<String>,
    pub transform: Option<T>,
    pub schema: Option<SchemaConfig<E>>,
    pub artifacts: Option<ArtifactsConfig>,
    pub execution: Option<ExecutionConfig>,
    pub reject_threshold: Option<u64>,
}

/// How a load executes: the chunk bound, the window of concurrent writes, and
/// the retry policy.
#[derive(Debug)]
pub struct ExecutionConfig {
    pub chunk_rows: Option<NonZeroCount>,
    pub parallelism: Option<NonZeroCount>,
    pub retry: Option<RetryConfig>,
}

/// The retry policy of a definition; what it leaves open takes its default.
#[derive(Debug)]
pub struct RetryConfig {
    pub max_attempts: Option<NonZeroCount>,
    pub initial_delay_ms: Option<u64>,
    pub max_delay_ms: Option<u64>,
}

/// The root under which a load's artifact directory is created.
#[derive(Debug)]
pub struct ArtifactsConfig {
    pub dir: Option<String>,
}

/// The schema settings of a definition: the pinned schema file, what to do
/// when the source drifts from it, and overrides of inferred fields.
#[derive(Debug)]
pub struct SchemaConfig<E> {
    pub pinned_path: Option<String>,
    pub drift_policy: Option<String>,
    pub overrides: Option<Vec<E>>,
}

/// Where records come from.
#[derive(Debug)]
pub struct SourceDefinition {
    pub connector: String,
    pub path: String,
    pub format: Option<String>,
}

/// Where records go: a file-addressed destination, or a SQL Server one.
#[derive(Debug)]
pub enum DestinationDefinition {
    File(FileDestinationDefinition),
    SqlServer(SqlServerDestinationDefinition),
}

/// A destination that a path addresses.
#[derive(Debug)]
pub struct FileDestinationDefinition {
    pub connector: String,
    pub path: String,
}

/// A SQL Server destination. The password is never here, only the name of the
/// environment variable that holds it.
#[derive(Debug)]
pub struct SqlServerDestinationDefinition {
    pub connector: String,
    pub host: Option<String>,
    pub port: Option<NonZeroPort>,
    pub database: Option<String>,
    pub schema: Option<String>,
    pub user: Option<String>,
    pub password_env: Option<String>,
    pub encryption: Option<String>,
    pub trust_server_certificate: Option<bool>,
    pub accept_datetime_rounding: Option<bool>,
}

/// The chunk bound of a definition.
pub open spec fn chunk_rows_of(execution: Option<&ExecutionConfig>) -> u64 {
    match execution {
        Some(ExecutionConfig { chunk_rows: Some(count), .. }) => count.number(),
        _ => DEFAULT_CHUNK_ROWS,
    }
}

/// Whether a policy is that of a definition: every knob it sets, and 3
/// attempts, 200 ms and 5000 ms for those it does not.
pub open spec fn is_policy_of(execution: Option<&ExecutionConfig>, policy: RetryPolicy) -> bool {
    match execution {
        Some(ExecutionConfig { retry: Some(config), .. }) => {
            &&& policy.max_attempts.number() == match config.max_attempts {
                Some(count) => count.number(),
                None => DEFAULT_MAX_ATTEMPTS,
            }
            &&& policy.initial_delay_ms == match config.initial_delay_ms {
                Some(delay_ms) => delay_ms,
                None => DEFAULT_INITIAL_DELAY_MS,
            }
            &&& policy.max_delay_ms == match config.max_delay_ms {
                Some(delay_ms) => delay_ms,
                None => DEFAULT_MAX_DELAY_MS,
            }
        },
        _ => {
            &&& policy.max_attempts.number() == DEFAULT_MAX_ATTEMPTS
            &&& policy.initial_delay_ms == DEFAULT_INITIAL_DELAY_MS
            &&& policy.max_delay_ms == DEFAULT_MAX_DELAY_MS
        },
    }
}

/// The parallelism of a load: the destination's limit, or what the definition
/// sets where that is less.
pub open spec fn parallelism_of(
    execution: Option<&ExecutionConfig>,
    limit: NonZeroCount,
) -> NonZeroCount {
    match execution {
        Some(ExecutionConfig { parallelism: Some(configured), .. }) => if configured.number()
            <= limit.number() {
            *configured
        } else {
            limit
        },
        _ => limit,
    }
}

/// The limit of a destination is never exceeded, whatever a definition sets.
pub proof fn law_parallelism_respects_the_limit(
    execution: Option<&ExecutionConfig>,
    limit: NonZeroCount,
)
    ensures
        parallelism_of(execution, limit).number() <= limit.number(),
{
}

/// The chunk bound of a definition.
pub fn resolve_chunk_rows(execution: Option<&ExecutionConfig>) -> (rows: u64)
    ensures
        rows == chunk_rows_of(execution),
        rows >= 1,
{
    match execution {
        Some(execution) => match execution.chunk_rows {
            Some(count) => count.get(),
            None => DEFAULT_CHUNK_ROWS,
        },
        None => DEFAULT_CHUNK_ROWS,
    }
}

/// The retry policy of a definition.
pub fn resolve_retry_policy(execution: Option<&ExecutionConfig>) -> (policy: RetryPolicy)
    ensures
        is_policy_of(execution, policy),
{
    let defaults = RetryPolicy::default();
    let config = match execution {
        Some(execution) => match &execution.retry {
            Some(config) => config,
            None => {
                return defaults;
            },
        },
        None => {
            return defaults;
        },
    };
    RetryPolicy {
        max_attempts: match config.max_attempts {
            Some(count) => count,
            None => defaults.max_attempts,
        },
        initial_delay_ms: match config.initial_delay_ms {
            Some(delay_ms) => delay_ms,
            None => defaults.initial_delay_ms,
        },
        max_delay_ms: match config.max_delay_ms {
            Some(delay_ms) => delay_ms,
            None => defaults.max_delay_ms,
        },
    }
}

/// The parallelism of a load.
pub fn resolve_parallelism(
    execution: Option<&ExecutionConfig>,
    connector_parallelism_limit: NonZeroCount,
) -> (parallelism: NonZeroCount)
    ensures
        parallelism == parallelism_of(execution, connector_parallelism_limit),
        parallelism.number() <= connector_parallelism_limit.number(),
{
    match execution {
        Some(execution) => match execution.parallelism {
            Some(configured) => configured.at_most(connector_parallelism_limit),
            None => connector_parallelism_limit,
        },
        None => connector_parallelism_limit,
    }
}

/// A chunk holds as many records as the definition says, and 65536 where it says
/// nothing.
pub proof fn law_chunk_rows_are_the_configured_ones(execution: Option<&ExecutionConfig>, rows: u64)
    requires
        call_ensures(resolve_chunk_rows, (execution,), rows),
    ensures
        rows >= 1,
        execution is None || execution->0.chunk_rows is None ==> rows == 65536,
        execution is Some && execution->0.chunk_rows is Some ==> rows
            == execution->0.chunk_rows->0.number(),
{
}

/// Each knob of the retry policy is the definition's where it sets it. The others
/// are three attempts, and delays from 200 to 5000 milliseconds; each is decided by
/// itself.
pub proof fn law_retry_policy_is_the_configured_one(
    execution: Option<&ExecutionConfig>,
    policy: RetryPolicy,
)
    requires
        call_ensures(resolve_retry_policy, (execution,), policy),
    ensures
        execution is None || execution->0.retry is None ==> policy.max_attempts.number() == 3
            && policy.initial_delay_ms == 200 && policy.max_delay_ms == 5000,
        execution is Some && execution->0.retry is Some ==> {
            let config = execution->0.retry->0;
            &&& config.max_attempts matches Some(count) ==> policy.max_attempts.number()
                == count.number()
            &&& config.max_attempts is None ==> policy.max_attempts.number() == 3
            &&& config.initial_delay_ms matches Some(delay_ms) ==> policy.initial_delay_ms
                == delay_ms
            &&& config.initial_delay_ms is None ==> policy.initial_delay_ms == 200
            &&& config.max_delay_ms matches Some(delay_ms) ==> policy.max_delay_ms == delay_ms
            &&& config.max_delay_ms is None ==> policy.max_delay_ms == 5000
        },
{
}

/// A load writes as many chunks at once as its definition asks for, but never more
/// than the destination takes, and just as many as it takes where the definition
/// asks for nothing.
pub proof fn law_parallelism_is_the_smaller_of_both(
    execution: Option<&ExecutionConfig>,
    limit: NonZeroCount,
    parallelism: NonZeroCount,
)
    requires
        call_ensures(resolve_parallelism, (execution, limit), parallelism),
    ensures
        parallelism.number() <= limit.number(),
        execution is None || execution->0.parallelism is None ==> parallelism.number()
            == limit.number(),
        execution is Some && execution->0.parallelism is Some ==> {
            let asked = execution->0.parallelism->0.number();
            &&& parallelism.number() <= asked
            &&& parallelism.number() == asked || parallelism.number() == limit.number()
        },
{
}

} // verus!
