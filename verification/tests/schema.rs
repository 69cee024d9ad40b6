//! Schema settings and the directive they resolve to. The transform, the
//! overrides and the pin are plain texts here.
use data_spark::definition::SchemaConfig;
use data_spark::failure::LoadFailure;
use data_spark::schema::{
    pinned_schema_write_failure, resolve_schema_directive, DriftPolicy, PinRead, SchemaDirective,
};

type Directive = SchemaDirective<&'static str, Vec<&'static str>, String>;

fn schema_config(pinned_path: Option<&str>, drift_policy: Option<&str>) -> SchemaConfig<&'static str> {
    SchemaConfig {
        pinned_path: pinned_path.map(str::to_string),
        drift_policy: drift_policy.map(str::to_string),
        overrides: None,
    }
}

fn never_read(path: &str) -> PinRead<String> {
    panic!("the pinned schema {path} is not to be read")
}

fn absent(_: &str) -> PinRead<String> {
    PinRead::NotFound
}

fn existing(_: &str) -> PinRead<String> {
    PinRead::Text(Ok("id: int64".to_string()))
}

fn resolve(
    config: Option<&SchemaConfig<&'static str>>,
    read_pin: fn(&str) -> PinRead<String>,
) -> Result<Directive, LoadFailure> {
    let overrides = config.and_then(|config| config.overrides.clone()).unwrap_or_default();
    resolve_schema_directive(config, Ok("no transform"), Ok(overrides), read_pin)
}

fn invalid_transform() -> Result<&'static str, LoadFailure> {
    Err(LoadFailure {
        code: "invalid_transform_config",
        message: "transform.select must name at least one field".to_string(),
    })
}

#[test]
fn resolve_schema_directive_defaults_to_inference_without_a_schema_block() {
    assert!(matches!(resolve(None, never_read), Ok(SchemaDirective::Inferred { .. })));
}

#[test]
fn resolve_schema_directive_rejects_underspecified_schema_blocks() {
    let mut empty_overrides = schema_config(Some("p.yml"), None);
    empty_overrides.overrides = Some(Vec::new());
    for (config, expected_message_part) in [
        (
            schema_config(None, None),
            "a schema block must set schema.pinned_path or schema.overrides",
        ),
        (
            schema_config(None, Some("fail")),
            "schema.drift_policy requires schema.pinned_path",
        ),
        (
            schema_config(Some(""), None),
            "schema.pinned_path must not be empty",
        ),
        (
            empty_overrides,
            "schema.overrides must declare at least one override",
        ),
    ] {
        let error = resolve(Some(&config), never_read)
            .err()
            .expect("underspecified schema block rejected");
        assert_eq!(error.code, "invalid_schema_config");
        assert!(
            error.message.contains(expected_message_part),
            "message {:?} misses {expected_message_part:?}",
            error.message
        );
    }
}

#[test]
fn resolve_schema_directive_accepts_overrides_without_a_pinned_path() {
    let mut config = schema_config(None, None);
    config.overrides = Some(vec!["id: int64"]);
    match resolve(Some(&config), never_read).expect("standalone overrides resolve") {
        SchemaDirective::Inferred { overrides, .. } => assert!(!overrides.is_empty()),
        _ => panic!("expected the Inferred directive"),
    }
}

#[test]
fn resolve_schema_directive_carries_overrides_onto_pin_directives() {
    let mut config = schema_config(Some("customers.schema.yml"), None);
    config.overrides = Some(vec!["id: not null"]);
    match resolve(Some(&config), absent).expect("absent pin bootstraps") {
        SchemaDirective::PinInferred { overrides, .. } => assert!(!overrides.is_empty()),
        _ => panic!("expected the PinInferred directive"),
    }
    match resolve(Some(&config), existing).expect("existing pin loads") {
        SchemaDirective::Pinned { overrides, .. } => assert!(!overrides.is_empty()),
        _ => panic!("expected the Pinned directive"),
    }
}

#[test]
fn resolve_schema_directive_validates_the_transform_before_the_schema_block() {
    let mut config = schema_config(None, None);
    config.overrides = Some(Vec::new());
    let error = resolve_schema_directive(
        Some(&config),
        invalid_transform(),
        Ok(Vec::<&str>::new()),
        never_read,
    )
    .err()
    .expect("invalid transform rejected");
    assert_eq!(error.code, "invalid_transform_config");
}

#[test]
fn resolve_schema_directive_carries_the_transform_onto_every_directive() {
    match resolve(None, never_read).expect("transform-only resolves") {
        SchemaDirective::Inferred { transform, .. } => assert_eq!(transform, "no transform"),
        _ => panic!("expected the Inferred directive"),
    }
    let config = schema_config(Some("customers.schema.yml"), None);
    match resolve(Some(&config), absent).expect("absent pin bootstraps") {
        SchemaDirective::PinInferred { transform, .. } => assert_eq!(transform, "no transform"),
        _ => panic!("expected the PinInferred directive"),
    }
    match resolve(Some(&config), existing).expect("existing pin loads") {
        SchemaDirective::Pinned { transform, .. } => assert_eq!(transform, "no transform"),
        _ => panic!("expected the Pinned directive"),
    }
}

#[test]
fn resolve_schema_directive_rejects_unknown_drift_policies_before_reading_the_pin() {
    let config = schema_config(Some("/does/not/exist.schema.yml"), Some("relaxed"));
    let error = resolve(Some(&config), never_read)
        .err()
        .expect("unknown drift policy rejected");
    assert_eq!(error.code, "unsupported_drift_policy");
    assert_eq!(error.message, "unsupported drift policy: relaxed");
}

#[test]
fn resolve_schema_directive_bootstraps_when_the_pin_file_is_absent() {
    let config = schema_config(Some("/does/not/exist/customers.schema.yml"), Some("fail"));
    match resolve(Some(&config), absent).expect("absent pin bootstraps") {
        SchemaDirective::PinInferred { pinned_path, .. } => {
            assert_eq!(pinned_path, "/does/not/exist/customers.schema.yml");
        }
        _ => panic!("expected the PinInferred directive"),
    }
}

#[test]
fn resolve_schema_directive_surfaces_an_invalid_pinned_schema_file() {
    let config = schema_config(Some("customers.schema.yml"), None);
    let error = resolve(Some(&config), |_| {
        PinRead::Text(Err(LoadFailure {
            code: "invalid_pinned_schema",
            message: "unsupported pinned schema version: 7".to_string(),
        }))
    })
    .err()
    .expect("invalid pin rejected");
    assert_eq!(error.code, "invalid_pinned_schema");
    assert!(error.message.contains("unsupported pinned schema version: 7"));
}

#[test]
fn resolve_schema_directive_loads_an_existing_pin_with_the_declared_policy() {
    let config = schema_config(Some("customers.schema.yml"), Some("allow_additive_nullable"));
    match resolve(Some(&config), existing).expect("existing pin loads") {
        SchemaDirective::Pinned {
            pinned_path,
            pin,
            drift_policy: DriftPolicy::AllowAdditiveNullable,
            ..
        } => {
            assert_eq!(pinned_path, "customers.schema.yml");
            assert_eq!(pin, "id: int64");
        }
        _ => panic!("expected the Pinned directive with the additive policy"),
    }
}

#[test]
fn invalid_overrides_are_refused_before_the_pin_is_read() {
    let mut config = schema_config(Some("/does/not/exist.schema.yml"), None);
    config.overrides = Some(vec!["id"]);
    let error = resolve_schema_directive(
        Some(&config),
        Ok("no transform"),
        Err::<Vec<&str>, _>(LoadFailure {
            code: "invalid_schema_config",
            message: "schema.overrides entry \"id\" must set type or nullable".to_string(),
        }),
        never_read,
    )
    .err()
    .expect("invalid overrides rejected");
    assert_eq!(error.code, "invalid_schema_config");
}

#[test]
fn an_unreadable_pin_is_a_failure_of_its_own() {
    let config = schema_config(Some("customers.schema.yml"), None);
    let error = resolve(Some(&config), |_| PinRead::Failed("permission denied".to_string()))
        .err()
        .expect("unreadable pin rejected");
    assert_eq!(error.code, "pinned_schema_read_failed");
    assert_eq!(
        error.message,
        "failed to read pinned schema customers.schema.yml: permission denied"
    );
    let error = pinned_schema_write_failure("customers.schema.yml", "disk full");
    assert_eq!(error.code, "pinned_schema_write_failed");
    assert_eq!(
        error.message,
        "failed to persist pinned schema customers.schema.yml: disk full"
    );
}
