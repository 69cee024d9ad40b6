//! Connectors: what a definition can select, and what is refused without any
//! input or output.
use data_spark::connector::{
    destination_connector, source_connector, DestinationConnector, DestinationPort,
    DuckDbDestination, ParquetDestination, SqlServerDestination,
};
use data_spark::count::NonZeroPort;
use data_spark::definition::{
    DestinationDefinition, FileDestinationDefinition, SourceDefinition,
    SqlServerDestinationDefinition,
};
use data_spark::destination::LoadMode;
use data_spark::duckdb::DuckDbTable;
use data_spark::local_file::{resolved_source_format, LocalFileSource, SourceFormat};
use data_spark::sqlserver::{CredentialLookup, SqlServerConfig, SqlServerEncryption};

fn present(_: &str) -> CredentialLookup {
    CredentialLookup::Present
}

fn source_definition(connector: &str, path: &str, format: Option<&str>) -> SourceDefinition {
    SourceDefinition {
        connector: connector.to_string(),
        path: path.to_string(),
        format: format.map(str::to_string),
    }
}

fn destination_definition(connector: &str, path: &str) -> DestinationDefinition {
    DestinationDefinition::File(FileDestinationDefinition {
        connector: connector.to_string(),
        path: path.to_string(),
    })
}

fn sqlserver_definition() -> SqlServerDestinationDefinition {
    SqlServerDestinationDefinition {
        connector: "sqlserver".to_string(),
        host: Some("db.example.internal".to_string()),
        port: None,
        database: Some("analytics".to_string()),
        schema: None,
        user: Some("loader".to_string()),
        password_env: Some("MSSQL_PASSWORD".to_string()),
        encryption: None,
        trust_server_certificate: None,
        accept_datetime_rounding: None,
    }
}

fn merge_destination(database_path: &str, keys: &[&str]) -> DuckDbDestination {
    DuckDbDestination {
        table: DuckDbTable {
            path: database_path.to_string(),
            dataset: "customers".to_string(),
        },
        merge_keys: keys.iter().map(|key| key.to_string()).collect(),
    }
}

#[test]
fn source_connector_accepts_local_file_and_rejects_unknown() {
    assert!(source_connector(&source_definition("local_file", "data.csv", None)).is_ok());

    let error = source_connector(&source_definition("s3", "data.csv", None))
        .err()
        .expect("unknown source connector rejected");
    assert_eq!(error.code, "unsupported_source_connector");
    assert_eq!(error.message, "unsupported source connector: s3");
}

#[test]
fn destination_connector_accepts_parquet_and_rejects_unknown() {
    assert!(
        destination_connector(&destination_definition("parquet", "out"), None, &[], present).is_ok()
    );

    let error = destination_connector(&destination_definition("bigquery", "out"), None, &[], present)
        .err()
        .expect("unknown destination connector rejected");
    assert_eq!(error.code, "unsupported_destination_connector");
    assert_eq!(error.message, "unsupported destination connector: bigquery");
}

#[test]
fn destination_connector_requires_a_dataset_for_duckdb() {
    assert!(destination_connector(
        &destination_definition("duckdb", "customers.duckdb"),
        Some("customers"),
        &[],
        present
    )
    .is_ok());

    let error = destination_connector(
        &destination_definition("duckdb", "customers.duckdb"),
        None,
        &[],
        present,
    )
    .err()
    .expect("duckdb destination without a dataset rejected");
    assert_eq!(error.code, "missing_dataset");
    assert_eq!(
        error.message,
        "load definition dataset is required for a duckdb destination"
    );

    let error = destination_connector(
        &destination_definition("duckdb", "customers.duckdb"),
        Some(""),
        &[],
        present,
    )
    .err()
    .expect("duckdb destination with an empty dataset rejected");
    assert_eq!(error.code, "missing_dataset");
}


#[test]
fn sql_server_config_defaults_absent_optional_keys() {
    let config = SqlServerConfig::from_definition(&sqlserver_definition(), Some("customers"))
        .expect("minimal sqlserver block resolves");

    assert_eq!(config.host, "db.example.internal");
    assert_eq!(config.port, 1433);
    assert_eq!(config.database, "analytics");
    assert_eq!(config.schema, "dbo");
    assert_eq!(config.user, "loader");
    assert_eq!(config.password_env, "MSSQL_PASSWORD");
    assert_eq!(config.encryption, SqlServerEncryption::Required);
    assert!(!config.trust_server_certificate);
    assert!(!config.accept_datetime_rounding);
    assert_eq!(config.dataset, "customers");
}

#[test]
fn sql_server_config_keeps_explicit_values() {
    let mut definition = sqlserver_definition();
    definition.port = Some(NonZeroPort::new(14330).expect("nonzero port"));
    definition.schema = Some("sales".to_string());
    definition.encryption = Some("optional".to_string());
    definition.trust_server_certificate = Some(true);
    definition.accept_datetime_rounding = Some(true);

    let config = SqlServerConfig::from_definition(&definition, Some("customers"))
        .expect("explicit sqlserver block resolves");

    assert_eq!(config.port, 14330);
    assert_eq!(config.schema, "sales");
    assert_eq!(config.encryption, SqlServerEncryption::Optional);
    assert!(config.trust_server_certificate);
    assert!(config.accept_datetime_rounding);
}

type RequiredKeySetter = fn(&mut SqlServerDestinationDefinition, Option<String>);

#[test]
fn sql_server_config_requires_each_required_key_present_and_non_empty() {
    let setters: [(&str, RequiredKeySetter); 4] = [
        ("host", |definition, value| definition.host = value),
        ("database", |definition, value| definition.database = value),
        ("user", |definition, value| definition.user = value),
        ("password_env", |definition, value| {
            definition.password_env = value
        }),
    ];
    for (key, set) in setters {
        for value in [None, Some(String::new())] {
            let case = if value.is_none() { "missing" } else { "empty" };
            let mut definition = sqlserver_definition();
            set(&mut definition, value);
            let error = SqlServerConfig::from_definition(&definition, Some("customers"))
                .err()
                .unwrap_or_else(|| panic!("{case} {key} rejected"));
            assert_eq!(error.code, "invalid_destination_config", "code for {key}");
            assert!(
                error.message.contains(&format!("destination.{key}")),
                "message names destination.{key}: {}",
                error.message
            );
        }
    }
}

#[test]
fn sql_server_config_accepts_exactly_the_two_encryption_postures() {
    for (value, expected) in [
        ("required", SqlServerEncryption::Required),
        ("optional", SqlServerEncryption::Optional),
    ] {
        let mut definition = sqlserver_definition();
        definition.encryption = Some(value.to_string());
        let config = SqlServerConfig::from_definition(&definition, Some("customers"))
            .expect("valid encryption resolves");
        assert_eq!(config.encryption, expected, "encryption {value}");
    }

    let mut definition = sqlserver_definition();
    definition.encryption = Some("off".to_string());
    let error = SqlServerConfig::from_definition(&definition, Some("customers"))
        .err()
        .expect("unknown encryption value rejected");
    assert_eq!(error.code, "invalid_destination_config");
    assert!(
        error.message.contains("destination.encryption"),
        "message names destination.encryption: {}",
        error.message
    );
}

#[test]
fn sql_server_config_rejects_an_empty_or_dotted_schema() {
    for schema in ["", "dbo.sales"] {
        let mut definition = sqlserver_definition();
        definition.schema = Some(schema.to_string());
        let error = SqlServerConfig::from_definition(&definition, Some("customers"))
            .err()
            .expect("broken schema rejected");
        assert_eq!(
            error.code, "invalid_destination_config",
            "schema {schema:?}"
        );
        assert!(
            error.message.contains("destination.schema"),
            "message names destination.schema: {}",
            error.message
        );
    }
}

#[test]
fn sql_server_config_requires_a_dataset_like_duckdb() {
    for dataset in [None, Some("")] {
        let error = SqlServerConfig::from_definition(&sqlserver_definition(), dataset)
            .err()
            .expect("absent dataset rejected");
        assert_eq!(error.code, "missing_dataset");
        assert_eq!(
            error.message,
            "load definition dataset is required for a sqlserver destination"
        );
    }
}

#[test]
fn sql_server_config_rejects_a_dotted_dataset_pointing_at_schema() {
    let error =
        SqlServerConfig::from_definition(&sqlserver_definition(), Some("dbo.customers"))
            .err()
            .expect("dotted dataset rejected");
    assert_eq!(error.code, "invalid_dataset_name");
    assert!(
        error.message.contains("destination.schema"),
        "message points at destination.schema: {}",
        error.message
    );
}

#[test]
fn sql_server_destination_declines_every_load_mode_with_a_readable_message() {
    let config = SqlServerConfig::from_definition(&sqlserver_definition(), Some("customers"))
        .expect("valid sqlserver block resolves");
    let destination = SqlServerDestination { config };

    assert!(destination.supported_load_modes().is_empty());
    for mode in [LoadMode::FullRefresh, LoadMode::Append, LoadMode::Merge] {
        let error = destination
            .validate_mode(mode)
            .expect_err("every mode declined");
        assert_eq!(error.code, "unsupported_load_mode_for_destination");
        assert_eq!(
            error.message,
            format!(
                "sqlserver destination does not support load mode: {} \
                 (no load modes are supported for this destination yet)",
                mode.as_str()
            )
        );
    }
}

#[test]
fn destination_connector_fails_when_the_sqlserver_credential_reference_is_unset() {
    let mut definition = sqlserver_definition();
    definition.password_env = Some("DATA_SPARK_TEST_UNSET_CREDENTIAL_132".to_string());
    let error = destination_connector(
        &DestinationDefinition::SqlServer(definition),
        Some("customers"),
        &[],
        |_| CredentialLookup::Unset,
    )
    .err()
    .expect("unset credential reference rejected");
    assert_eq!(error.code, "unresolved_credential_reference");
    assert!(
        error
            .message
            .contains("DATA_SPARK_TEST_UNSET_CREDENTIAL_132"),
        "message names the unresolved variable: {}",
        error.message
    );
}

#[test]
fn local_file_source_rejects_unknown_format_before_touching_the_file() {
    let source = LocalFileSource {
        path: "/does/not/exist.xml".to_string(),
        format: Some("xml".to_string()),
    };
    let error = source.read_format().expect_err("unknown format rejected");
    assert_eq!(error.code, "unsupported_source_format");
}

#[test]
fn load_mode_parse_accepts_the_v1_mode_set_and_rejects_unknown() {
    assert!(matches!(
        LoadMode::parse("full_refresh"),
        Ok(LoadMode::FullRefresh)
    ));
    assert!(matches!(LoadMode::parse("append"), Ok(LoadMode::Append)));
    assert!(matches!(LoadMode::parse("merge"), Ok(LoadMode::Merge)));

    let error = LoadMode::parse("upsert")
        .err()
        .expect("unknown load mode rejected");
    assert_eq!(error.code, "unsupported_load_mode");
    assert_eq!(error.message, "unsupported load mode: upsert");
}

#[test]
fn parquet_destination_declines_merge_before_any_session() {
    let destination = ParquetDestination {
        path: "customers_dataset".to_string(),
    };

    let error = destination
        .validate_mode(LoadMode::Merge)
        .expect_err("parquet declines merge");
    assert_eq!(error.code, "unsupported_load_mode_for_destination");
    assert_eq!(
        error.message,
        "parquet destination does not support load mode: merge \
         (supported load modes: full_refresh, append)"
    );
}

#[test]
fn duckdb_destination_supports_every_v1_load_mode() {
    let destination = merge_destination("customers.duckdb", &["id"]);
    for mode in [LoadMode::FullRefresh, LoadMode::Append, LoadMode::Merge] {
        assert!(destination.validate_mode(mode).is_ok());
    }
}

#[test]
fn destination_connector_carries_the_table_and_the_merge_keys() {
    let keys = vec!["id".to_string(), "region".to_string()];
    let connector = destination_connector(
        &destination_definition("duckdb", "data/customers.duckdb"),
        Some("customers"),
        &keys,
        present,
    )
    .expect("duckdb destination resolves");
    match connector {
        DestinationConnector::DuckDb(destination) => {
            assert_eq!(destination.table.path, "data/customers.duckdb");
            assert_eq!(destination.table.dataset, "customers");
            assert_eq!(destination.merge_keys, keys);
        }
        other => panic!("another destination: {}", other.connector_name()),
    }
}

#[test]
fn destination_connector_looks_up_just_the_credential_a_valid_block_names() {
    let mut asked = Vec::new();
    let connector = destination_connector(
        &DestinationDefinition::SqlServer(sqlserver_definition()),
        Some("customers"),
        &[],
        |name| {
            asked.push(name.to_string());
            CredentialLookup::Present
        },
    )
    .expect("sqlserver destination resolves");
    assert_eq!(connector.connector_name(), "sqlserver");
    assert_eq!(asked, vec!["MSSQL_PASSWORD".to_string()]);

    let mut broken = sqlserver_definition();
    broken.host = None;
    let mut asked = false;
    let error = destination_connector(
        &DestinationDefinition::SqlServer(broken),
        Some("customers"),
        &[],
        |_| {
            asked = true;
            CredentialLookup::Present
        },
    )
    .expect_err("a block without a host is refused");
    assert_eq!(error.code, "invalid_destination_config");
    assert!(!asked, "an invalid block looks nothing up");
}

#[test]
fn destination_connector_refuses_an_empty_credential() {
    let error = destination_connector(
        &DestinationDefinition::SqlServer(sqlserver_definition()),
        Some("customers"),
        &[],
        |_| CredentialLookup::Empty,
    )
    .expect_err("an empty credential is refused");
    assert_eq!(error.code, "unresolved_credential_reference");
    assert_eq!(
        error.message,
        "environment variable MSSQL_PASSWORD named by destination.password_env is empty"
    );
}

#[test]
fn sql_server_config_quotes_a_dotted_dataset_in_its_message() {
    let error = SqlServerConfig::from_definition(&sqlserver_definition(), Some("dbo.\"x\""))
        .expect_err("dotted dataset rejected");
    assert_eq!(
        error.message,
        "load definition dataset \"dbo.\\\"x\\\"\" must not contain a dot for a sqlserver \
         destination: schema qualification lives in destination.schema"
    );
}

#[test]
fn sql_server_config_reports_the_first_of_several_faults() {
    let mut definition = sqlserver_definition();
    definition.user = None;
    definition.encryption = Some("off".to_string());
    definition.schema = Some(String::new());
    let error = SqlServerConfig::from_definition(&definition, None).expect_err("refused");
    assert_eq!(
        error.message,
        "destination.user is required for a sqlserver destination and must not be empty"
    );

    definition.user = Some("loader".to_string());
    let error = SqlServerConfig::from_definition(&definition, None).expect_err("refused");
    assert_eq!(
        error.message,
        "destination.encryption must be \"required\" or \"optional\", got: off"
    );
}

#[test]
fn every_destination_is_serial_in_every_mode() {
    let parquet = ParquetDestination { path: "out".to_string() };
    let duckdb = merge_destination("customers.duckdb", &["id"]);
    for mode in [LoadMode::FullRefresh, LoadMode::Append, LoadMode::Merge] {
        assert_eq!(parquet.parallelism_limit(mode).get(), 1);
        assert_eq!(duckdb.parallelism_limit(mode).get(), 1);
    }
}

#[test]
fn the_source_format_is_the_named_one_or_the_extension() {
    assert_eq!(resolved_source_format("data/customers.csv", None), "csv");
    assert_eq!(resolved_source_format("data/customers.csv", Some("jsonl")), "jsonl");
    assert_eq!(resolved_source_format("data.d/customers", None), "");
    assert_eq!(resolved_source_format("archive.tar.gz", None), "gz");
    assert_eq!(resolved_source_format("data/.csv", None), "");
    assert_eq!(resolved_source_format("data/customers.jsonl/", None), "jsonl");
    assert_eq!(resolved_source_format("data/customers.csv/.", None), "csv");
    assert_eq!(resolved_source_format("data/..", None), "");
    assert_eq!(resolved_source_format("customers.", None), "");
    assert_eq!(resolved_source_format("", None), "");
    assert_eq!(resolved_source_format("/", None), "");
}

#[test]
fn the_source_format_agrees_with_the_paths_of_std() {
    for path in [
        "a/b.csv", "a.b/c", "x.tar.gz", ".hidden", "a/.hidden.csv", "a/b.csv/", "a/b.csv/.",
        "a/b.csv/..", "..", ".", "/", "//", "a//b.jsonl", "./a.csv", "a/./b.c", "name.", "...",
        "..a", "a/...b",
    ] {
        let expected = std::path::Path::new(path)
            .extension()
            .and_then(|extension| extension.to_str())
            .unwrap_or("")
            .to_string();
        assert_eq!(resolved_source_format(path, None), expected, "extension of {path}");
    }
}

#[test]
fn a_local_file_is_read_as_csv_or_jsonl() {
    let source = |path: &str, format: Option<&str>| LocalFileSource {
        path: path.to_string(),
        format: format.map(str::to_string),
    };
    assert_eq!(source("a.csv", None).read_format().expect("csv"), SourceFormat::Csv);
    assert_eq!(source("a.jsonl", None).read_format().expect("jsonl"), SourceFormat::Jsonl);
    assert_eq!(source("a", Some("csv")).read_format().expect("csv"), SourceFormat::Csv);
    let error = source("a.CSV", None).read_format().expect_err("names are exact");
    assert_eq!(
        error.message,
        "only local CSV and JSONL sources are supported by this load path"
    );
}
