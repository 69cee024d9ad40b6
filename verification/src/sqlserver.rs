//! The SQL Server destination: its definition block is validated without any
//! connection, and no load mode is supported for it.
use crate::definition::SqlServerDestinationDefinition;
use crate::failure::{failing, FailureView, LoadFailure};
use crate::text::{contains_char, debug_notation, debug_text, same_text};
use vstd::prelude::*;
use vstd::string::*;

verus! {

/// The port of a definition that sets none.
pub const DEFAULT_PORT: u16 = 1433;

/// How the connection is encrypted. There is no unencrypted posture.
#[derive(Clone, Copy, Debug, PartialEq, Eq, Structural)]
pub enum SqlServerEncryption {
    Required,
    Optional,
}

/// The resolved address of a SQL Server destination.
#[derive(Debug)]
pub struct SqlServerConfig {
    pub host: String,
    pub port: u16,
    pub database: String,
    pub schema: String,
    pub user: String,
    pub password_env: String,
    pub encryption: SqlServerEncryption,
    pub trust_server_certificate: bool,
    pub accept_datetime_rounding: bool,
    pub dataset: String,
}

/// Whether a key is there and not empty.
pub open spec fn given(value: Option<String>) -> bool {
    value is Some && value->0@.len() > 0
}

/// The failure of a block.
pub open spec fn invalid_config(message: Seq<char>) -> FailureView {
    failing("invalid_destination_config"@, message)
}

/// The message of a required key that is missing or empty.
pub open spec fn required_message(key: Seq<char>) -> Seq<char> {
    "destination."@ + key + " is required for a sqlserver destination and must not be empty"@
}

/// What is wrong with a block and dataset, if anything: the first of the
/// required keys that is not given, then an unknown encryption, then an empty
/// or dotted schema, then a missing or dotted dataset.
pub open spec fn config_failure(
    definition: SqlServerDestinationDefinition,
    dataset: Option<Seq<char>>,
) -> Option<FailureView> {
    if !given(definition.host) {
        Some(invalid_config(required_message("host"@)))
    } else if !given(definition.database) {
        Some(invalid_config(required_message("database"@)))
    } else if !given(definition.user) {
        Some(invalid_config(required_message("user"@)))
    } else if !given(definition.password_env) {
        Some(invalid_config(required_message("password_env"@)))
    } else if definition.encryption is Some && definition.encryption->0@ != "required"@
        && definition.encryption->0@ != "optional"@ {
        Some(
            invalid_config(
                "destination.encryption must be \"required\" or \"optional\", got: "@
                    + definition.encryption->0@,
            ),
        )
    } else if definition.schema is Some && definition.schema->0@.len() == 0 {
        Some(
            invalid_config("destination.schema must not be empty for a sqlserver destination"@),
        )
    } else if definition.schema is Some && definition.schema->0@.contains('.') {
        Some(
            invalid_config(
                "destination.schema must be a single identifier without a dot, got: "@
                    + definition.schema->0@,
            ),
        )
    } else {
        match dataset {
            None => Some(missing_dataset()),
            Some(dataset) => if dataset.len() == 0 {
                Some(missing_dataset())
            } else if dataset.contains('.') {
                Some(
                    failing(
                        "invalid_dataset_name"@,
                        "load definition dataset "@ + debug_notation(dataset)
                            + " must not contain a dot for a sqlserver destination: schema qualification lives in destination.schema"@,
                    ),
                )
            } else {
                None
            },
        }
    }
}

/// The failure of a load without a dataset.
pub open spec fn missing_dataset() -> FailureView {
    failing(
        "missing_dataset"@,
        "load definition dataset is required for a sqlserver destination"@,
    )
}

/// Whether an address is what a block and dataset resolve to: the given keys,
/// with port 1433, schema `dbo`, required encryption and both switches off
/// for those that are not.
pub open spec fn resolves_to(
    definition: SqlServerDestinationDefinition,
    dataset: Seq<char>,
    config: SqlServerConfig,
) -> bool {
    &&& config.host@ == definition.host->0@
    &&& config.port == match definition.port {
        Some(port) => port.number(),
        None => DEFAULT_PORT,
    }
    &&& config.database@ == definition.database->0@
    &&& config.schema@ == match definition.schema {
        Some(schema) => schema@,
        None => "dbo"@,
    }
    &&& config.user@ == definition.user->0@
    &&& config.password_env@ == definition.password_env->0@
    &&& config.encryption == if definition.encryption is Some && definition.encryption->0@
        == "optional"@ {
        SqlServerEncryption::Optional
    } else {
        SqlServerEncryption::Required
    }
    &&& config.trust_server_certificate == (definition.trust_server_certificate == Some(true))
    &&& config.accept_datetime_rounding == (definition.accept_datetime_rounding == Some(true))
    &&& config.dataset@ == dataset
}

fn required(key: &'static str, value: &Option<String>) -> (checked: Result<String, LoadFailure>)
    ensures
        match checked {
            Ok(text) => given(*value) && text@ == value->0@,
            Err(failure) => !given(*value) && failure@ == invalid_config(required_message(key@)),
        },
{
    if let Some(text) = value {
        if !text.as_str().is_empty() {
            return Ok(text.clone());
        }
    }
    Err(
        LoadFailure::new(
            "invalid_destination_config",
            "destination.".to_owned().concat(key).concat(
                " is required for a sqlserver destination and must not be empty",
            ),
        ),
    )
}

impl SqlServerConfig {
    /// Validates and resolves a block and the load's dataset.
    pub fn from_definition(
        definition: &SqlServerDestinationDefinition,
        dataset: Option<&str>,
    ) -> (config: Result<SqlServerConfig, LoadFailure>)
        ensures
            ({
                let named = match dataset {
                    Some(dataset) => Some(dataset@),
                    None => None,
                };
                match config {
                    Ok(config) => config_failure(*definition, named) is None && resolves_to(
                        *definition,
                        named->0,
                        config,
                    ),
                    Err(failure) => config_failure(*definition, named) == Some(failure@),
                }
            }),
    {
        let host = match required("host", &definition.host) {
            Ok(host) => host,
            Err(failure) => {
                return Err(failure);
            },
        };
        let database = match required("database", &definition.database) {
            Ok(database) => database,
            Err(failure) => {
                return Err(failure);
            },
        };
        let user = match required("user", &definition.user) {
            Ok(user) => user,
            Err(failure) => {
                return Err(failure);
            },
        };
        let password_env = match required("password_env", &definition.password_env) {
            Ok(password_env) => password_env,
            Err(failure) => {
                return Err(failure);
            },
        };
        proof {
            lemma_encryption_names_differ();
        }
        let encryption = match &definition.encryption {
            None => SqlServerEncryption::Required,
            Some(encryption) => if same_text(encryption.as_str(), "required") {
                SqlServerEncryption::Required
            } else if same_text(encryption.as_str(), "optional") {
                SqlServerEncryption::Optional
            } else {
                return Err(
                    LoadFailure::new(
                        "invalid_destination_config",
                        "destination.encryption must be \"required\" or \"optional\", got: ".to_owned().concat(
                        encryption.as_str()),
                    ),
                );
            },
        };
        let schema = match &definition.schema {
            None => "dbo".to_owned(),
            Some(schema) => {
                if schema.as_str().is_empty() {
                    return Err(
                        LoadFailure::new(
                            "invalid_destination_config",
                            "destination.schema must not be empty for a sqlserver destination".to_owned(),
                        ),
                    );
                }
                if contains_char(schema.as_str(), '.') {
                    return Err(
                        LoadFailure::new(
                            "invalid_destination_config",
                            "destination.schema must be a single identifier without a dot, got: ".to_owned().concat(
                            schema.as_str()),
                        ),
                    );
                }
                schema.clone()
            },
        };
        let missing = LoadFailure::new(
            "missing_dataset",
            "load definition dataset is required for a sqlserver destination".to_owned(),
        );
        let dataset = match dataset {
            None => {
                return Err(missing);
            },
            Some(dataset) => dataset,
        };
        if dataset.is_empty() {
            return Err(missing);
        }
        if contains_char(dataset, '.') {
            return Err(
                LoadFailure::new(
                    "invalid_dataset_name",
                    "load definition dataset ".to_owned().concat(debug_text(dataset).as_str()).concat(
                        " must not contain a dot for a sqlserver destination: schema qualification lives in destination.schema",
                    ),
                ),
            );
        }
        Ok(
            SqlServerConfig {
                host,
                port: match definition.port {
                    Some(port) => port.get(),
                    None => DEFAULT_PORT,
                },
                database,
                schema,
                user,
                password_env,
                encryption,
                trust_server_certificate: match definition.trust_server_certificate {
                    Some(trust) => trust,
                    None => false,
                },
                accept_datetime_rounding: match definition.accept_datetime_rounding {
                    Some(accept) => accept,
                    None => false,
                },
                dataset: dataset.to_owned(),
            },
        )
    }
}

proof fn lemma_encryption_names_differ()
    ensures
        "required"@ != "optional"@,
{
    reveal_strlit("required");
    reveal_strlit("optional");
    assert("required"@[0] == 'r' && "optional"@[0] == 'o');
}

/// A resolved address names no dotted schema or dataset, and none of its
/// required keys is empty.
pub proof fn law_resolved_address_is_complete(
    definition: SqlServerDestinationDefinition,
    dataset: Seq<char>,
    config: SqlServerConfig,
)
    requires
        config_failure(definition, Some(dataset)) is None,
        resolves_to(definition, dataset, config),
    ensures
        config.host@.len() > 0 && config.database@.len() > 0 && config.user@.len() > 0,
        config.password_env@.len() > 0,
        config.schema@.len() > 0 && !config.schema@.contains('.'),
        config.dataset@.len() > 0 && !config.dataset@.contains('.'),
{
    reveal_strlit("dbo");
    assert("dbo"@ =~= seq!['d', 'b', 'o']);
}

/// What looking up an environment variable shows. The value itself is never
/// handed over.
#[derive(Clone, Copy, Debug, PartialEq, Eq, Structural)]
pub enum CredentialLookup {
    Unset,
    Empty,
    Present,
}

/// What is wrong with a credential reference, if anything.
pub open spec fn credential_failure(
    password_env: Seq<char>,
    lookup: CredentialLookup,
) -> Option<FailureView> {
    let named = "environment variable "@ + password_env
        + " named by destination.password_env is "@;
    match lookup {
        CredentialLookup::Unset => Some(
            failing("unresolved_credential_reference"@, named + "not set"@),
        ),
        CredentialLookup::Empty => Some(
            failing("unresolved_credential_reference"@, named + "empty"@),
        ),
        CredentialLookup::Present => None,
    }
}

/// Holds a credential reference to what looking it up showed: the variable
/// must be set and not empty.
pub fn resolve_credential_reference(password_env: &str, lookup: CredentialLookup) -> (resolved:
    Result<(), LoadFailure>)
    ensures
        match resolved {
            Ok(_) => credential_failure(password_env@, lookup) is None,
            Err(failure) => credential_failure(password_env@, lookup) == Some(failure@),
        },
{
    let named = "environment variable ".to_owned().concat(password_env).concat(
        " named by destination.password_env is ",
    );
    match lookup {
        CredentialLookup::Unset => Err(
            LoadFailure::new("unresolved_credential_reference", named.concat("not set")),
        ),
        CredentialLookup::Empty => Err(
            LoadFailure::new("unresolved_credential_reference", named.concat("empty")),
        ),
        CredentialLookup::Present => Ok(()),
    }
}

/// A definition block resolves to the address that it spells out. What it leaves
/// open is port 1433, the schema `dbo`, required encryption, a certificate that has
/// to be valid, and no rounding of timestamps; nothing is encrypted less than the
/// block says.
pub proof fn law_address_is_what_the_block_says(
    definition: SqlServerDestinationDefinition,
    dataset: Option<&str>,
    config: SqlServerConfig,
)
    requires
        call_ensures(
            SqlServerConfig::from_definition,
            (&definition, dataset),
            Ok::<SqlServerConfig, LoadFailure>(config),
        ),
    ensures
        definition.host matches Some(host) && config.host@ == host@ && host@.len() > 0,
        definition.database matches Some(database) && config.database@ == database@
            && database@.len() > 0,
        definition.user matches Some(user) && config.user@ == user@ && user@.len() > 0,
        definition.password_env matches Some(name) && config.password_env@ == name@ && name@.len()
            > 0,
        dataset matches Some(name) && config.dataset@ == name@ && name@.len() > 0
            && !name@.contains('.'),
        definition.port matches Some(port) ==> config.port == port.number(),
        definition.port is None ==> config.port == 1433,
        definition.schema matches Some(schema) ==> config.schema@ == schema@ && schema@.len() > 0
            && !schema@.contains('.'),
        definition.schema is None ==> config.schema@ == "dbo"@,
        definition.encryption is None ==> config.encryption == SqlServerEncryption::Required,
        definition.encryption matches Some(name) ==> {
            &&& name@ == "required"@ || name@ == "optional"@
            &&& config.encryption == SqlServerEncryption::Optional <==> name@ == "optional"@
        },
        config.trust_server_certificate <==> definition.trust_server_certificate == Some(true),
        config.accept_datetime_rounding <==> definition.accept_datetime_rounding == Some(true),
{
}

/// A block is refused exactly where a required key is missing or empty, the
/// encryption is unknown, the schema is empty or dotted, or the dataset is missing,
/// empty or dotted; the first of these faults is the one that is told.
pub proof fn law_faulty_block_is_refused_for_its_first_fault(
    definition: SqlServerDestinationDefinition,
    dataset: Option<&str>,
    config: Result<SqlServerConfig, LoadFailure>,
)
    requires
        call_ensures(SqlServerConfig::from_definition, (&definition, dataset), config),
    ensures
        ({
            let missing = |key: Option<String>| key is None || key->0@.len() == 0;
            let told = |code: Seq<char>, message: Seq<char>|
                config matches Err(failure) && failure.code@ == code && failure.message@ == message;
            let bad = "invalid_destination_config"@;
            let tail = " is required for a sqlserver destination and must not be empty"@;
            if missing(definition.host) {
                told(bad, "destination."@ + "host"@ + tail)
            } else if missing(definition.database) {
                told(bad, "destination."@ + "database"@ + tail)
            } else if missing(definition.user) {
                told(bad, "destination."@ + "user"@ + tail)
            } else if missing(definition.password_env) {
                told(bad, "destination."@ + "password_env"@ + tail)
            } else if definition.encryption is Some && definition.encryption->0@ != "required"@
                && definition.encryption->0@ != "optional"@ {
                told(
                    bad,
                    "destination.encryption must be \"required\" or \"optional\", got: "@
                        + definition.encryption->0@,
                )
            } else if definition.schema is Some && definition.schema->0@.len() == 0 {
                told(bad, "destination.schema must not be empty for a sqlserver destination"@)
            } else if definition.schema is Some && definition.schema->0@.contains('.') {
                told(
                    bad,
                    "destination.schema must be a single identifier without a dot, got: "@
                        + definition.schema->0@,
                )
            } else if dataset is None || dataset->0@.len() == 0 {
                told(
                    "missing_dataset"@,
                    "load definition dataset is required for a sqlserver destination"@,
                )
            } else if dataset->0@.contains('.') {
                told(
                    "invalid_dataset_name"@,
                    "load definition dataset "@ + debug_notation(dataset->0@)
                        + " must not contain a dot for a sqlserver destination: schema qualification lives in destination.schema"@,
                )
            } else {
                config is Ok
            }
        }),
{
    if let Err(failure) = config {
        assert(failure@.code == failure.code@ && failure@.message == failure.message@);
    }
}

/// A password reference holds exactly where its variable is set and not empty. The
/// failure names the variable.
pub proof fn law_credential_must_be_set(
    password_env: &str,
    lookup: CredentialLookup,
    resolved: Result<(), LoadFailure>,
)
    requires
        call_ensures(resolve_credential_reference, (password_env, lookup), resolved),
    ensures
        resolved is Ok <==> lookup == CredentialLookup::Present,
        resolved matches Err(failure) ==> {
            &&& failure.code@ == "unresolved_credential_reference"@
            &&& failure.message@ == "environment variable "@ + password_env@
                + " named by destination.password_env is "@ + (if lookup
                == CredentialLookup::Unset {
                "not set"@
            } else {
                "empty"@
            })
        },
{
    if let Err(failure) = resolved {
        assert(failure@.code == failure.code@ && failure@.message == failure.message@);
    }
}

} // verus!
