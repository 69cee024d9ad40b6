//! The connectors a definition selects its source and destination by. What
//! can be checked of them without any input or output is checked here.
use crate::count::NonZeroCount;
use crate::definition::{
    DestinationDefinition, FileDestinationDefinition, SourceDefinition,
    SqlServerDestinationDefinition,
};
use crate::destination::{mode_name, LoadMode};
use crate::duckdb::DuckDbTable;
use crate::failure::{failing, FailureView, LoadFailure};
use crate::local_file::LocalFileSource;
use crate::sqlserver::{
    config_failure, credential_failure, resolve_credential_reference, resolves_to,
    CredentialLookup, SqlServerConfig,
};
use crate::text::{same_text, separated, separated_text, texts};
use vstd::prelude::*;
use vstd::string::*;

verus! {

/// The clause on what a destination does support.
pub open spec fn supported_clause(modes: Seq<LoadMode>) -> Seq<char> {
    if modes.len() == 0 {
        "no load modes are supported for this destination yet"@
    } else {
        "supported load modes: "@ + separated(
            modes.map_values(|mode: LoadMode| mode_name(mode)@),
            ", "@,
        )
    }
}

/// The failure of a load mode that a destination declines.
pub open spec fn declined(name: Seq<char>, modes: Seq<LoadMode>, mode: LoadMode) -> FailureView {
    failing(
        "unsupported_load_mode_for_destination"@,
        name + " destination does not support load mode: "@ + mode_name(mode)@ + " ("@
            + supported_clause(modes) + ")"@,
    )
}

fn declined_mode(name: &str, modes: &Vec<LoadMode>, mode: LoadMode) -> (failure: LoadFailure)
    ensures
        failure@ == declined(name@, modes@, mode),
{
    let mut names: Vec<String> = Vec::new();
    let mut i: usize = 0;
    while i < modes.len()
        invariant
            i <= modes.len(),
            names.len() == i,
            forall|j: int| 0 <= j < i ==> (#[trigger] names@[j])@ == mode_name(modes@[j])@,
        decreases modes.len() - i,
    {
        names.push(modes[i].as_str().to_owned());
        i = i + 1;
    }
    proof {
        assert(texts(names@) =~= modes@.map_values(|mode: LoadMode| mode_name(mode)@));
    }
    let clause = if modes.len() == 0 {
        "no load modes are supported for this destination yet".to_owned()
    } else {
        "supported load modes: ".to_owned().concat(separated_text(&names, ", ").as_str())
    };
    LoadFailure::new(
        "unsupported_load_mode_for_destination",
        name.to_owned().concat(" destination does not support load mode: ").concat(
            mode.as_str(),
        ).concat(" (").concat(clause.as_str()).concat(")"),
    )
}

/// What every destination declares: its name, its load modes, and how many
/// writes it takes at once in each of them.
pub trait DestinationPort {
    /// The name a definition selects the destination by.
    spec fn name(&self) -> Seq<char>;

    /// The load modes the destination supports.
    spec fn modes(&self) -> Seq<LoadMode>;

    /// How many writes the destination takes at once in a mode.
    spec fn limit(&self, mode: LoadMode) -> nat;

    fn connector_name(&self) -> (name: &'static str)
        ensures
            name@ == self.name(),
    ;

    fn supported_load_modes(&self) -> (modes: Vec<LoadMode>)
        ensures
            modes@ == self.modes(),
    ;

    fn parallelism_limit(&self, mode: LoadMode) -> (limit: NonZeroCount)
        ensures
            limit.number() == self.limit(mode),
    ;

    /// Declines a load mode that the destination does not support.
    fn validate_mode(&self, mode: LoadMode) -> (validated: Result<(), LoadFailure>)
        ensures
            match validated {
                Ok(_) => self.modes().contains(mode),
                Err(failure) => !self.modes().contains(mode) && failure@ == declined(
                    self.name(),
                    self.modes(),
                    mode,
                ),
            },
    {
        let modes = self.supported_load_modes();
        let mut i: usize = 0;
        while i < modes.len()
            invariant
                i <= modes.len(),
                modes@ == self.modes(),
                forall|j: int| 0 <= j < i ==> modes@[j] != mode,
            decreases modes.len() - i,
        {
            if modes[i] == mode {
                return Ok(());
            }
            i = i + 1;
        }
        Err(declined_mode(self.connector_name(), &modes, mode))
    }
}

/// A local Parquet directory.
#[derive(Debug)]
pub struct ParquetDestination {
    pub path: String,
}

impl DestinationPort for ParquetDestination {
    open spec fn name(&self) -> Seq<char> {
        "parquet"@
    }

    open spec fn modes(&self) -> Seq<LoadMode> {
        seq![LoadMode::FullRefresh, LoadMode::Append]
    }

    open spec fn limit(&self, mode: LoadMode) -> nat {
        1
    }

    fn connector_name(&self) -> &'static str {
        "parquet"
    }

    fn supported_load_modes(&self) -> Vec<LoadMode> {
        let modes = vec![LoadMode::FullRefresh, LoadMode::Append];
        assert(modes@ =~= self.modes());
        modes
    }

    fn parallelism_limit(&self, mode: LoadMode) -> NonZeroCount {
        NonZeroCount::one()
    }
}

/// A table of a local DuckDB database, with the merge keys of the load.
#[derive(Debug)]
pub struct DuckDbDestination {
    pub table: DuckDbTable,
    pub merge_keys: Vec<String>,
}

impl DestinationPort for DuckDbDestination {
    open spec fn name(&self) -> Seq<char> {
        "duckdb"@
    }

    open spec fn modes(&self) -> Seq<LoadMode> {
        seq![LoadMode::FullRefresh, LoadMode::Append, LoadMode::Merge]
    }

    open spec fn limit(&self, mode: LoadMode) -> nat {
        1
    }

    fn connector_name(&self) -> &'static str {
        "duckdb"
    }

    fn supported_load_modes(&self) -> Vec<LoadMode> {
        let modes = vec![LoadMode::FullRefresh, LoadMode::Append, LoadMode::Merge];
        assert(modes@ =~= self.modes());
        modes
    }

    fn parallelism_limit(&self, mode: LoadMode) -> NonZeroCount {
        NonZeroCount::one()
    }
}

/// A SQL Server table.
#[derive(Debug)]
pub struct SqlServerDestination {
    pub config: SqlServerConfig,
}

impl DestinationPort for SqlServerDestination {
    open spec fn name(&self) -> Seq<char> {
        "sqlserver"@
    }

    open spec fn modes(&self) -> Seq<LoadMode> {
        seq![]
    }

    open spec fn limit(&self, mode: LoadMode) -> nat {
        1
    }

    fn connector_name(&self) -> &'static str {
        "sqlserver"
    }

    fn supported_load_modes(&self) -> Vec<LoadMode> {
        let modes: Vec<LoadMode> = Vec::new();
        assert(modes@ =~= self.modes());
        modes
    }

    fn parallelism_limit(&self, mode: LoadMode) -> NonZeroCount {
        NonZeroCount::one()
    }
}

/// The destination a definition selects.
#[derive(Debug)]
pub enum DestinationConnector {
    Parquet(ParquetDestination),
    DuckDb(DuckDbDestination),
    SqlServer(SqlServerDestination),
}

impl DestinationPort for DestinationConnector {
    open spec fn name(&self) -> Seq<char> {
        match self {
            DestinationConnector::Parquet(destination) => destination.name(),
            DestinationConnector::DuckDb(destination) => destination.name(),
            DestinationConnector::SqlServer(destination) => destination.name(),
        }
    }

    open spec fn modes(&self) -> Seq<LoadMode> {
        match self {
            DestinationConnector::Parquet(destination) => destination.modes(),
            DestinationConnector::DuckDb(destination) => destination.modes(),
            DestinationConnector::SqlServer(destination) => destination.modes(),
        }
    }

    open spec fn limit(&self, mode: LoadMode) -> nat {
        match self {
            DestinationConnector::Parquet(destination) => destination.limit(mode),
            DestinationConnector::DuckDb(destination) => destination.limit(mode),
            DestinationConnector::SqlServer(destination) => destination.limit(mode),
        }
    }

    fn connector_name(&self) -> &'static str {
        match self {
            DestinationConnector::Parquet(destination) => destination.connector_name(),
            DestinationConnector::DuckDb(destination) => destination.connector_name(),
            DestinationConnector::SqlServer(destination) => destination.connector_name(),
        }
    }

    fn supported_load_modes(&self) -> Vec<LoadMode> {
        match self {
            DestinationConnector::Parquet(destination) => destination.supported_load_modes(),
            DestinationConnector::DuckDb(destination) => destination.supported_load_modes(),
            DestinationConnector::SqlServer(destination) => destination.supported_load_modes(),
        }
    }

    fn parallelism_limit(&self, mode: LoadMode) -> NonZeroCount {
        match self {
            DestinationConnector::Parquet(destination) => destination.parallelism_limit(mode),
            DestinationConnector::DuckDb(destination) => destination.parallelism_limit(mode),
            DestinationConnector::SqlServer(destination) => destination.parallelism_limit(mode),
        }
    }
}

/// Every destination takes one write at a time, in every mode.
pub proof fn law_every_destination_is_serial(destination: DestinationConnector, mode: LoadMode)
    ensures
        destination.limit(mode) == 1,
{
}

/// Only DuckDB merges, and SQL Server takes no load at all.
pub proof fn law_modes_of_the_destinations(destination: DestinationConnector)
    ensures
        destination.modes().contains(LoadMode::Merge) <==> destination is DuckDb,
        destination is SqlServer <==> destination.modes().len() == 0,
{
    if destination is DuckDb {
        assert(destination.modes()[2] == LoadMode::Merge);
    }
}

/// Resolves the source of a definition, without touching it.
pub fn source_connector(definition: &SourceDefinition) -> (source: Result<
    LocalFileSource,
    LoadFailure,
>)
    ensures
        match source {
            Ok(source) => {
                &&& definition.connector@ == "local_file"@
                &&& source.path == definition.path
                &&& source.format == definition.format
            },
            Err(failure) => definition.connector@ != "local_file"@ && failure@ == failing(
                "unsupported_source_connector"@,
                "unsupported source connector: "@ + definition.connector@,
            ),
        },
{
    if same_text(definition.connector.as_str(), "local_file") {
        Ok(
            LocalFileSource {
                path: definition.path.clone(),
                format: match &definition.format {
                    Some(format) => Some(format.clone()),
                    None => None,
                },
            },
        )
    } else {
        Err(
            LoadFailure::new(
                "unsupported_source_connector",
                "unsupported source connector: ".to_owned().concat(definition.connector.as_str()),
            ),
        )
    }
}

/// The characters of a dataset name, where there is one.
pub open spec fn dataset_view(dataset: Option<&str>) -> Option<Seq<char>> {
    match dataset {
        Some(dataset) => Some(dataset@),
        None => None,
    }
}

/// What is wrong with a destination definition, if anything, where a
/// credential it names was looked up so.
pub open spec fn destination_failure(
    definition: DestinationDefinition,
    dataset: Option<Seq<char>>,
    lookup: CredentialLookup,
) -> Option<FailureView> {
    match definition {
        DestinationDefinition::File(file) => if file.connector@ == "parquet"@ {
            None
        } else if file.connector@ == "duckdb"@ {
            if dataset is None || dataset->0.len() == 0 {
                Some(
                    failing(
                        "missing_dataset"@,
                        "load definition dataset is required for a duckdb destination"@,
                    ),
                )
            } else {
                None
            }
        } else {
            Some(
                failing(
                    "unsupported_destination_connector"@,
                    "unsupported destination connector: "@ + file.connector@,
                ),
            )
        },
        DestinationDefinition::SqlServer(server) => match config_failure(server, dataset) {
            Some(failure) => Some(failure),
            None => credential_failure(server.password_env->0@, lookup),
        },
    }
}

/// Whether a connector is the one that a definition selects.
pub open spec fn selects(
    definition: DestinationDefinition,
    dataset: Option<Seq<char>>,
    merge_keys: Seq<Seq<char>>,
    connector: DestinationConnector,
) -> bool {
    match definition {
        DestinationDefinition::File(file) => if file.connector@ == "parquet"@ {
            connector matches DestinationConnector::Parquet(destination) && destination.path
                == file.path
        } else {
            connector matches DestinationConnector::DuckDb(destination) && destination.table.path
                == file.path && destination.table.dataset@ == dataset->0 && texts(
                destination.merge_keys@,
            ) == merge_keys
        },
        DestinationDefinition::SqlServer(server) => connector matches
            DestinationConnector::SqlServer(destination) && resolves_to(
            server,
            dataset->0,
            destination.config,
        ),
    }
}

/// The name of the variable that a definition's password is in.
pub open spec fn names_credential(definition: DestinationDefinition, name: Seq<char>) -> bool {
    definition matches DestinationDefinition::SqlServer(server) && server.password_env is Some
        && server.password_env->0@ == name
}

/// What selecting the destination of a definition comes to, given what looking
/// up its credential may show.
pub open spec fn connector_outcome<L: FnOnce(&str) -> CredentialLookup>(
    definition: DestinationDefinition,
    dataset: Option<Seq<char>>,
    merge_keys: Seq<Seq<char>>,
    lookup: L,
    connector: Result<DestinationConnector, LoadFailure>,
) -> bool {
    let looks_up = definition is SqlServer && config_failure(definition->SqlServer_0, dataset)
        is None;
    if looks_up {
        exists|name: &str, found: CredentialLookup|
            {
                &&& #[trigger] lookup.ensures((name,), found)
                &&& names_credential(definition, name@)
                &&& selection(definition, dataset, merge_keys, found, connector)
            }
    } else {
        selection(definition, dataset, merge_keys, CredentialLookup::Present, connector)
    }
}

/// What selecting the destination of a definition comes to, where a credential
/// it names was looked up so.
pub open spec fn selection(
    definition: DestinationDefinition,
    dataset: Option<Seq<char>>,
    merge_keys: Seq<Seq<char>>,
    lookup: CredentialLookup,
    connector: Result<DestinationConnector, LoadFailure>,
) -> bool {
    match destination_failure(definition, dataset, lookup) {
        Some(view) => connector matches Err(failure) && failure@ == view,
        None => connector matches Ok(selected) && selects(
            definition,
            dataset,
            merge_keys,
            selected,
        ),
    }
}

fn copied_texts(items: &[String]) -> (copied: Vec<String>)
    ensures
        texts(copied@) == texts(items@),
{
    let mut copied: Vec<String> = Vec::new();
    let mut i: usize = 0;
    while i < items.len()
        invariant
            i <= items.len(),
            copied.len() == i,
            forall|j: int| 0 <= j < i ==> copied@[j] == items@[j],
        decreases items.len() - i,
    {
        copied.push(items[i].clone());
        i = i + 1;
    }
    proof {
        assert(texts(copied@) =~= texts(items@));
    }
    copied
}

/// Resolves the destination of a definition, without touching it. The
/// credential of a SQL Server destination is looked up once its block is
/// valid, and only the one it names; `merge_keys` are those of a merge, and
/// empty for any other load.
pub fn destination_connector<L: FnOnce(&str) -> CredentialLookup>(
    definition: &DestinationDefinition,
    dataset: Option<&str>,
    merge_keys: &[String],
    lookup: L,
) -> (connector: Result<DestinationConnector, LoadFailure>)
    requires
        forall|name: &str|
            names_credential(*definition, name@) ==> #[trigger] lookup.requires((name,)),
    ensures
        connector_outcome(*definition, dataset_view(dataset), texts(merge_keys@), lookup, connector),
{
    match definition {
        DestinationDefinition::File(file) => {
            if same_text(file.connector.as_str(), "parquet") {
                return Ok(
                    DestinationConnector::Parquet(ParquetDestination { path: file.path.clone() }),
                );
            }
            if same_text(file.connector.as_str(), "duckdb") {
                if let Some(dataset) = dataset {
                    if !dataset.is_empty() {
                        return Ok(
                            DestinationConnector::DuckDb(
                                DuckDbDestination {
                                    table: DuckDbTable {
                                        path: file.path.clone(),
                                        dataset: dataset.to_owned(),
                                    },
                                    merge_keys: copied_texts(merge_keys),
                                },
                            ),
                        );
                    }
                }
                return Err(
                    LoadFailure::new(
                        "missing_dataset",
                        "load definition dataset is required for a duckdb destination".to_owned(),
                    ),
                );
            }
            Err(
                LoadFailure::new(
                    "unsupported_destination_connector",
                    "unsupported destination connector: ".to_owned().concat(
                        file.connector.as_str(),
                    ),
                ),
            )
        },
        DestinationDefinition::SqlServer(server) => {
            let config = match SqlServerConfig::from_definition(server, dataset) {
                Ok(config) => config,
                Err(failure) => {
                    return Err(failure);
                },
            };
            let name = config.password_env.as_str();
            proof {
                assert(names_credential(*definition, name@));
            }
            let found = lookup(name);
            proof {
                assert(lookup.ensures((name,), found));
            }
            match resolve_credential_reference(name, found) {
                Ok(_) => {},
                Err(failure) => {
                    return Err(failure);
                },
            }
            Ok(DestinationConnector::SqlServer(SqlServerDestination { config }))
        },
    }
}

/// The only source is a local file, taken with the path and the format of its
/// definition.
pub proof fn law_source_is_the_local_file_it_names(
    definition: SourceDefinition,
    source: Result<LocalFileSource, LoadFailure>,
)
    requires
        call_ensures(source_connector, (&definition,), source),
    ensures
        source is Ok <==> definition.connector@ == "local_file"@,
        source matches Ok(file) ==> file.path@ == definition.path@ && match (
            file.format,
            definition.format,
        ) {
            (Some(format), Some(named)) => format@ == named@,
            (None, None) => true,
            _ => false,
        },
        source matches Err(failure) ==> failure.code@ == "unsupported_source_connector"@
            && failure.message@ == "unsupported source connector: "@ + definition.connector@,
{
}

/// The connectors of the file destinations go by different names.
pub proof fn lemma_connector_names_differ()
    ensures
        "parquet"@ != "duckdb"@,
{
    reveal_strlit("parquet");
    reveal_strlit("duckdb");
    assert("parquet"@.len() == 7 && "duckdb"@.len() == 6);
}

/// A file destination is the Parquet dataset or the DuckDB table at its path. A
/// table needs a dataset to be named after, and gets the merge keys of the load, all
/// of them and in their order. Any other connector is refused.
pub proof fn law_file_destination_is_the_one_it_names<L: FnOnce(&str) -> CredentialLookup>(
    file: FileDestinationDefinition,
    dataset: Option<&str>,
    merge_keys: &[String],
    lookup: L,
    connector: Result<DestinationConnector, LoadFailure>,
)
    requires
        call_ensures(
            destination_connector::<L>,
            (&DestinationDefinition::File(file), dataset, merge_keys, lookup),
            connector,
        ),
    ensures
        file.connector@ == "parquet"@ ==> (connector matches Ok(DestinationConnector::Parquet(
            destination,
        )) && destination.path@ == file.path@),
        file.connector@ == "duckdb"@ && dataset is Some && dataset->0@.len() > 0 ==> (
        connector matches Ok(DestinationConnector::DuckDb(destination)) && {
            &&& destination.table.path@ == file.path@
            &&& destination.table.dataset@ == dataset->0@
            &&& destination.merge_keys@.len() == merge_keys@.len()
            &&& forall|i: int|
                0 <= i < merge_keys@.len() ==> (#[trigger] destination.merge_keys@[i])@
                    == merge_keys@[i]@
        }),
        file.connector@ == "duckdb"@ && (dataset is None || dataset->0@.len() == 0) ==> (
        connector matches Err(failure) && failure.code@ == "missing_dataset"@ && failure.message@
            == "load definition dataset is required for a duckdb destination"@),
        file.connector@ != "parquet"@ && file.connector@ != "duckdb"@ ==> (connector matches Err(
            failure,
        ) && failure.code@ == "unsupported_destination_connector"@ && failure.message@
            == "unsupported destination connector: "@ + file.connector@),
{
    lemma_connector_names_differ();
    if let Ok(DestinationConnector::DuckDb(destination)) = connector {
        let kept = texts(destination.merge_keys@);
        let given = texts(merge_keys@);
        if file.connector@ == "duckdb"@ && dataset is Some && dataset->0@.len() > 0 {
            assert(kept == given);
            assert(kept.len() == destination.merge_keys@.len());
            assert(given.len() == merge_keys@.len());
            assert forall|i: int| 0 <= i < merge_keys@.len() implies (
            #[trigger] destination.merge_keys@[i])@ == merge_keys@[i]@ by {
                assert(kept[i] == destination.merge_keys@[i]@);
                assert(given[i] == merge_keys@[i]@);
            }
        }
    }
}

/// A SQL Server destination is the address that its block resolves to, and needs the
/// password variable that the block names to be set and not empty. No other variable
/// is ever looked up, and none for a block that is at fault.
pub proof fn law_server_destination_needs_its_credential<L: FnOnce(&str) -> CredentialLookup>(
    server: SqlServerDestinationDefinition,
    dataset: Option<&str>,
    merge_keys: &[String],
    lookup: L,
    config: Result<SqlServerConfig, LoadFailure>,
    connector: Result<DestinationConnector, LoadFailure>,
)
    requires
        call_ensures(SqlServerConfig::from_definition, (&server, dataset), config),
        call_ensures(
            destination_connector::<L>,
            (&DestinationDefinition::SqlServer(server), dataset, merge_keys, lookup),
            connector,
        ),
    ensures
        config matches Err(fault) ==> (connector matches Err(failure) && failure.code@
            == fault.code@ && failure.message@ == fault.message@),
        config matches Ok(address) ==> exists|name: &str, found: CredentialLookup|
            {
                &&& #[trigger] lookup.ensures((name,), found)
                &&& server.password_env matches Some(named) && name@ == named@
                &&& connector is Ok <==> found == CredentialLookup::Present
                &&& connector matches Err(failure) ==> failure.code@
                    == "unresolved_credential_reference"@ && failure.message@
                    == "environment variable "@ + name@
                    + " named by destination.password_env is "@ + (if found
                    == CredentialLookup::Unset {
                    "not set"@
                } else {
                    "empty"@
                })
                &&& connector matches Ok(selected) ==> (selected matches
                    DestinationConnector::SqlServer(destination) && destination.config.host@
                    == address.host@ && destination.config.port == address.port
                    && destination.config.database@ == address.database@
                    && destination.config.schema@ == address.schema@ && destination.config.user@
                    == address.user@ && destination.config.password_env@ == address.password_env@
                    && destination.config.encryption == address.encryption
                    && destination.config.trust_server_certificate
                    == address.trust_server_certificate
                    && destination.config.accept_datetime_rounding
                    == address.accept_datetime_rounding && destination.config.dataset@
                    == address.dataset@)
            },
{
    if let Err(fault) = config {
        assert(connector->Err_0@ == fault@);
        assert(fault@.code == fault.code@ && fault@.message == fault.message@);
    }
    if config is Ok {
        let definition = DestinationDefinition::SqlServer(server);
        let (name, found) = choose|name: &str, found: CredentialLookup|
            {
                &&& #[trigger] lookup.ensures((name,), found)
                &&& names_credential(definition, name@)
                &&& selection(
                    definition,
                    dataset_view(dataset),
                    texts(merge_keys@),
                    found,
                    connector,
                )
            };
        assert(lookup.ensures((name,), found));
        if let Err(failure) = connector {
            assert(failure@.code == failure.code@ && failure@.message == failure.message@);
        }
    }
}

/// Parquet takes full refreshes and appends, DuckDB merges besides, and SQL Server
/// nothing yet. Each goes by its name and takes one write at a time.
pub proof fn law_destinations_declare_their_modes(
    connector: DestinationConnector,
    mode: LoadMode,
    name: &'static str,
    modes: Vec<LoadMode>,
    limit: NonZeroCount,
    validated: Result<(), LoadFailure>,
)
    requires
        call_ensures(DestinationConnector::connector_name, (&connector,), name),
        call_ensures(DestinationConnector::supported_load_modes, (&connector,), modes),
        call_ensures(DestinationConnector::parallelism_limit, (&connector, mode), limit),
        call_ensures(DestinationConnector::validate_mode, (&connector, mode), validated),
    ensures
        limit.number() == 1,
        connector is Parquet ==> name@ == "parquet"@ && modes@ == seq![
            LoadMode::FullRefresh,
            LoadMode::Append,
        ],
        connector is DuckDb ==> name@ == "duckdb"@ && modes@ == seq![
            LoadMode::FullRefresh,
            LoadMode::Append,
            LoadMode::Merge,
        ],
        connector is SqlServer ==> name@ == "sqlserver"@ && modes@.len() == 0,
        validated is Ok <==> connector is DuckDb || (connector is Parquet && mode
            != LoadMode::Merge),
        validated matches Err(failure) ==> {
            &&& failure.code@ == "unsupported_load_mode_for_destination"@
            &&& connector is SqlServer ==> failure.message@ == "sqlserver"@
                + " destination does not support load mode: "@ + mode_name(mode)@ + " ("@
                + "no load modes are supported for this destination yet"@ + ")"@
            &&& connector is Parquet ==> failure.message@ == "parquet"@
                + " destination does not support load mode: "@ + "merge"@ + " ("@ + (
            "supported load modes: "@ + ("full_refresh"@ + ", "@ + "append"@)) + ")"@
        },
{
    let all = connector.modes();
    if connector is DuckDb {
        assert(all[0] == LoadMode::FullRefresh && all[1] == LoadMode::Append && all[2]
            == LoadMode::Merge);
    }
    if connector is Parquet {
        assert(all[0] == LoadMode::FullRefresh && all[1] == LoadMode::Append);
        let names = all.map_values(|mode: LoadMode| mode_name(mode)@);
        assert(names.drop_last() =~= seq!["full_refresh"@]);
        assert(names.last() == "append"@);
        assert(separated(names.drop_last(), ", "@) == "full_refresh"@);
        assert(separated(names, ", "@) == "full_refresh"@ + ", "@ + "append"@);
    }
    if let Err(failure) = validated {
        assert(failure@.code == failure.code@ && failure@.message == failure.message@);
    }
}

} // verus!
