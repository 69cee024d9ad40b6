//! What the execution settings of a definition resolve to.
use data_spark::connector::{destination_connector, DestinationPort};
use data_spark::count::{NonZeroCount, NonZeroPort};
use data_spark::definition::{
    resolve_chunk_rows, resolve_parallelism, resolve_retry_policy, DestinationDefinition,
    ExecutionConfig, FileDestinationDefinition, RetryConfig,
};
use data_spark::destination::LoadMode;
use data_spark::sqlserver::CredentialLookup;

fn nonzero(value: u64) -> NonZeroCount {
    NonZeroCount::new(value).expect("nonzero")
}

fn execution(parallelism: Option<u64>, retry: Option<RetryConfig>) -> ExecutionConfig {
    ExecutionConfig {
        chunk_rows: None,
        parallelism: parallelism.map(nonzero),
        retry,
    }
}

fn retry(max_attempts: Option<u64>) -> RetryConfig {
    RetryConfig {
        max_attempts: max_attempts.map(nonzero),
        initial_delay_ms: None,
        max_delay_ms: None,
    }
}

#[test]
fn resolve_retry_policy_defaults_and_echoes_declared_knobs() {
    for config in [
        None,
        Some(execution(None, None)),
        Some(execution(None, Some(retry(None)))),
    ] {
        let policy = resolve_retry_policy(config.as_ref());
        assert_eq!(policy.max_attempts.get(), 3, "for {config:?}");
        assert_eq!(policy.initial_delay_ms, 200, "for {config:?}");
        assert_eq!(policy.max_delay_ms, 5000, "for {config:?}");
    }

    let config = execution(None, Some(retry(Some(5))));
    let policy = resolve_retry_policy(Some(&config));
    assert_eq!(policy.max_attempts.get(), 5);
    assert_eq!(policy.initial_delay_ms, 200);
    assert_eq!(policy.max_delay_ms, 5000);
}

#[test]
fn resolve_retry_policy_keeps_every_declared_delay() {
    let config = execution(
        None,
        Some(RetryConfig {
            max_attempts: None,
            initial_delay_ms: Some(50),
            max_delay_ms: Some(900),
        }),
    );
    let policy = resolve_retry_policy(Some(&config));
    assert_eq!(policy.max_attempts.get(), 3);
    assert_eq!(policy.initial_delay_ms, 50);
    assert_eq!(policy.max_delay_ms, 900);
}

#[test]
fn resolve_parallelism_defaults_to_the_connector_limit_and_clamps_configured_values() {
    for (config, limit, expected) in [
        (None, 1, 1),
        (Some(execution(None, None)), 4, 4),
        (Some(execution(Some(8), None)), 2, 2),
        (Some(execution(Some(1), None)), 4, 1),
        (Some(execution(Some(3), None)), 3, 3),
    ] {
        assert_eq!(
            resolve_parallelism(config.as_ref(), nonzero(limit)),
            nonzero(expected),
            "for {config:?} under limit {limit}"
        );
    }
}

#[test]
fn shipped_destinations_declare_the_serial_parallelism_limit_for_every_mode() {
    for connector in ["parquet", "duckdb"] {
        let destination = destination_connector(
            &DestinationDefinition::File(FileDestinationDefinition {
                connector: connector.to_string(),
                path: "customers".to_string(),
            }),
            Some("customers"),
            &[],
            |_| CredentialLookup::Present,
        )
        .expect("connector resolves");
        for mode in [LoadMode::FullRefresh, LoadMode::Append] {
            assert_eq!(destination.parallelism_limit(mode).get(), 1);
        }
    }
}

#[test]
fn resolve_chunk_rows_takes_the_declared_bound_or_the_default() {
    assert_eq!(resolve_chunk_rows(None), 65536);
    assert_eq!(resolve_chunk_rows(Some(&execution(None, None))), 65536);
    let config = ExecutionConfig {
        chunk_rows: Some(nonzero(10)),
        parallelism: None,
        retry: None,
    };
    assert_eq!(resolve_chunk_rows(Some(&config)), 10);
}

#[test]
fn counts_and_ports_are_never_zero() {
    assert!(NonZeroCount::new(0).is_none());
    assert_eq!(nonzero(7).get(), 7);
    assert_eq!(nonzero(7).at_most(nonzero(3)).get(), 3);
    assert!(NonZeroPort::new(0).is_none());
    assert_eq!(NonZeroPort::new(1433).expect("nonzero").get(), 1433);
}
