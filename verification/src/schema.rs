//! How a definition says what schema its load has: inferred, pinned by a file,
//! or inferred and then pinned. The transform, the overrides and the pin
//! itself are values of the schema engine, which this module only carries.
use crate::definition::SchemaConfig;
use crate::failure::{failing, FailureView, LoadFailure};
use crate::text::same_text;
use vstd::prelude::*;
use vstd::string::*;

verus! {

/// What a load does when its source no longer fits the pinned schema.
#[derive(Clone, Copy, Debug, PartialEq, Eq, Structural)]
pub enum DriftPolicy {
    Fail,
    AllowAdditiveNullable,
}

/// The schema a load materializes its records under.
#[derive(Debug)]
pub enum SchemaDirective<T, O, P> {
    /// Infer the schema.
    Inferred { transform: T, overrides: O },
    /// Infer the schema and write it as the new pin.
    PinInferred { pinned_path: String, transform: T, overrides: O },
    /// Hold the source to an existing pin.
    Pinned { pinned_path: String, pin: P, drift_policy: DriftPolicy, transform: T, overrides: O },
}

/// A pinned schema file that a load writes.
#[derive(Debug)]
pub struct PinnedSchemaWrite {
    pub pinned_path: String,
    pub yaml: String,
}

/// What reading a pinned schema file gave: its schema or why its text is none,
/// that there is no such file, or the text of a failure to read it.
pub enum PinRead<P> {
    Text(Result<P, LoadFailure>),
    NotFound,
    Failed(String),
}

/// The failure of a schema block.
pub open spec fn invalid_schema_config(message: Seq<char>) -> FailureView {
    failing("invalid_schema_config"@, message)
}

/// The drift policy of a name; there is one by default.
pub open spec fn drift_policy_of(name: Option<String>) -> Option<DriftPolicy> {
    match name {
        None => Some(DriftPolicy::Fail),
        Some(name) => if name@ == "fail"@ {
            Some(DriftPolicy::Fail)
        } else if name@ == "allow_additive_nullable"@ {
            Some(DriftPolicy::AllowAdditiveNullable)
        } else {
            None
        },
    }
}

/// What is wrong with a schema block, if anything, apart from its overrides.
pub open spec fn block_failure<E>(config: SchemaConfig<E>) -> Option<FailureView> {
    if config.pinned_path is Some && config.pinned_path->0@.len() == 0 {
        Some(invalid_schema_config("schema.pinned_path must not be empty"@))
    } else if config.overrides is Some && config.overrides->0@.len() == 0 {
        Some(invalid_schema_config("schema.overrides must declare at least one override"@))
    } else if config.pinned_path is None && config.drift_policy is Some {
        Some(invalid_schema_config("schema.drift_policy requires schema.pinned_path"@))
    } else if config.pinned_path is None && config.overrides is None {
        Some(
            invalid_schema_config(
                "a schema block must set schema.pinned_path or schema.overrides"@,
            ),
        )
    } else if drift_policy_of(config.drift_policy) is None {
        Some(
            failing(
                "unsupported_drift_policy"@,
                "unsupported drift policy: "@ + config.drift_policy->0@,
            ),
        )
    } else {
        None
    }
}

/// What is wrong with the schema settings of a definition before any file is
/// read: the transform first, then the block, then the overrides.
pub open spec fn settings_failure<E, T, O>(
    config: Option<&SchemaConfig<E>>,
    transform: Result<T, LoadFailure>,
    overrides: Result<O, LoadFailure>,
) -> Option<FailureView> {
    match transform {
        Err(failure) => Some(failure@),
        Ok(_) => match config {
            Some(config) if block_failure(*config) is Some => block_failure(*config),
            _ => match overrides {
                Err(failure) => Some(failure@),
                Ok(_) => None,
            },
        },
    }
}

/// The pinned schema file that a definition names.
pub open spec fn pinned_path_of<E>(config: Option<&SchemaConfig<E>>) -> Option<String> {
    match config {
        Some(config) => config.pinned_path,
        None => None,
    }
}

/// What a directive comes to once the pinned schema file was read.
pub open spec fn directive_after_pin<T, O, P>(
    path: Seq<char>,
    drift_policy: DriftPolicy,
    transform: T,
    overrides: O,
    read: PinRead<P>,
    resolved: Result<SchemaDirective<T, O, P>, LoadFailure>,
) -> bool {
    match read {
        PinRead::Text(Ok(pin)) => resolved matches Ok(SchemaDirective::Pinned {
            pinned_path,
            pin: kept,
            drift_policy: policy,
            transform: t,
            overrides: o,
        }) && pinned_path@ == path && kept == pin && policy == drift_policy && t == transform && o
            == overrides,
        PinRead::Text(Err(failure)) => resolved matches Err(raised) && raised == failure,
        PinRead::NotFound => resolved matches Ok(SchemaDirective::PinInferred {
            pinned_path,
            transform: t,
            overrides: o,
        }) && pinned_path@ == path && t == transform && o == overrides,
        PinRead::Failed(error) => resolved matches Err(raised) && raised@ == failing(
            "pinned_schema_read_failed"@,
            "failed to read pinned schema "@ + path + ": "@ + error@,
        ),
    }
}

/// What the schema settings of a definition come to, given what reading the
/// pinned schema file may give.
pub open spec fn directive_outcome<E, T, O, P, R: FnOnce(&str) -> PinRead<P>>(
    config: Option<&SchemaConfig<E>>,
    transform: Result<T, LoadFailure>,
    overrides: Result<O, LoadFailure>,
    read_pin: R,
    resolved: Result<SchemaDirective<T, O, P>, LoadFailure>,
) -> bool {
    match settings_failure(config, transform, overrides) {
        Some(view) => resolved matches Err(failure) && failure@ == view,
        None => match pinned_path_of(config) {
            None => resolved matches Ok(SchemaDirective::Inferred { transform: t, overrides: o })
                && t == transform->Ok_0 && o == overrides->Ok_0,
            Some(pinned) => exists|path: &str, read: PinRead<P>|
                {
                    &&& #[trigger] read_pin.ensures((path,), read)
                    &&& path@ == pinned@
                    &&& directive_after_pin(
                        pinned@,
                        drift_policy_of(config->0.drift_policy)->0,
                        transform->Ok_0,
                        overrides->Ok_0,
                        read,
                        resolved,
                    )
                },
        },
    }
}

fn check_block<E>(config: &SchemaConfig<E>) -> (policy: Result<DriftPolicy, LoadFailure>)
    ensures
        match policy {
            Ok(policy) => block_failure(*config) is None && drift_policy_of(config.drift_policy)
                == Some(policy),
            Err(failure) => block_failure(*config) == Some(failure@),
        },
{
    if let Some(path) = &config.pinned_path {
        if path.as_str().is_empty() {
            return Err(
                LoadFailure::new(
                    "invalid_schema_config",
                    "schema.pinned_path must not be empty".to_owned(),
                ),
            );
        }
    }
    if let Some(overrides) = &config.overrides {
        if overrides.len() == 0 {
            return Err(
                LoadFailure::new(
                    "invalid_schema_config",
                    "schema.overrides must declare at least one override".to_owned(),
                ),
            );
        }
    }
    if config.pinned_path.is_none() {
        if config.drift_policy.is_some() {
            return Err(
                LoadFailure::new(
                    "invalid_schema_config",
                    "schema.drift_policy requires schema.pinned_path".to_owned(),
                ),
            );
        }
        if config.overrides.is_none() {
            return Err(
                LoadFailure::new(
                    "invalid_schema_config",
                    "a schema block must set schema.pinned_path or schema.overrides".to_owned(),
                ),
            );
        }
    }
    match &config.drift_policy {
        None => Ok(DriftPolicy::Fail),
        Some(name) => if same_text(name.as_str(), "fail") {
            Ok(DriftPolicy::Fail)
        } else if same_text(name.as_str(), "allow_additive_nullable") {
            Ok(DriftPolicy::AllowAdditiveNullable)
        } else {
            Err(
                LoadFailure::new(
                    "unsupported_drift_policy",
                    "unsupported drift policy: ".to_owned().concat(name.as_str()),
                ),
            )
        },
    }
}

/// Resolves the schema settings of a definition into a directive. `transform`
/// and `overrides` are what the schema engine made of the definition's; a
/// definition without overrides has the empty ones. The pinned schema file is
/// read only once everything else is valid.
pub fn resolve_schema_directive<E, T, O, P, R: FnOnce(&str) -> PinRead<P>>(
    schema_config: Option<&SchemaConfig<E>>,
    transform: Result<T, LoadFailure>,
    overrides: Result<O, LoadFailure>,
    read_pin: R,
) -> (resolved: Result<SchemaDirective<T, O, P>, LoadFailure>)
    requires
        settings_failure(schema_config, transform, overrides) is None && pinned_path_of(
            schema_config,
        ) is Some ==> forall|path: &str|
            path@ == pinned_path_of(schema_config)->0@ ==> #[trigger] read_pin.requires((path,)),
    ensures
        directive_outcome(schema_config, transform, overrides, read_pin, resolved),
{
    let transform = match transform {
        Ok(transform) => transform,
        Err(failure) => {
            return Err(failure);
        },
    };
    let config = match schema_config {
        Some(config) => config,
        None => {
            return match overrides {
                Ok(overrides) => Ok(SchemaDirective::Inferred { transform, overrides }),
                Err(failure) => Err(failure),
            };
        },
    };
    let drift_policy = match check_block(config) {
        Ok(drift_policy) => drift_policy,
        Err(failure) => {
            return Err(failure);
        },
    };
    let overrides = match overrides {
        Ok(overrides) => overrides,
        Err(failure) => {
            return Err(failure);
        },
    };
    let pinned = match &config.pinned_path {
        Some(pinned) => pinned,
        None => {
            return Ok(SchemaDirective::Inferred { transform, overrides });
        },
    };
    let path = pinned.as_str();
    let read = read_pin(path);
    proof {
        assert(read_pin.ensures((path,), read));
    }
    match read {
        PinRead::Text(Ok(pin)) => Ok(
            SchemaDirective::Pinned {
                pinned_path: pinned.clone(),
                pin,
                drift_policy,
                transform,
                overrides,
            },
        ),
        PinRead::Text(Err(failure)) => Err(failure),
        PinRead::NotFound => Ok(
            SchemaDirective::PinInferred { pinned_path: pinned.clone(), transform, overrides },
        ),
        PinRead::Failed(error) => Err(
            LoadFailure::new(
                "pinned_schema_read_failed",
                "failed to read pinned schema ".to_owned().concat(path).concat(": ").concat(
                    error.as_str(),
                ),
            ),
        ),
    }
}

/// The failure of writing a pinned schema file.
pub fn pinned_schema_write_failure(pinned_path: &str, error: &str) -> (failure: LoadFailure)
    ensures
        failure@ == failing(
            "pinned_schema_write_failed"@,
            "failed to persist pinned schema "@ + pinned_path@ + ": "@ + error@,
        ),
{
    LoadFailure::new(
        "pinned_schema_write_failed",
        "failed to persist pinned schema ".to_owned().concat(pinned_path).concat(": ").concat(error),
    )
}

proof fn lemma_drift_policy_names_differ()
    ensures
        "fail"@ != "allow_additive_nullable"@,
{
    reveal_strlit("fail");
    reveal_strlit("allow_additive_nullable");
    assert("fail"@.len() == 4 && "allow_additive_nullable"@.len() == 23);
}

/// A load that is held to a pinned schema admits new nullable fields exactly where
/// its definition names that policy. Where it names none, or the one that fails,
/// drift fails the load.
pub proof fn law_drift_is_admitted_only_by_name<E, T, O, P, R: FnOnce(&str) -> PinRead<P>>(
    config: Option<&SchemaConfig<E>>,
    transform: Result<T, LoadFailure>,
    overrides: Result<O, LoadFailure>,
    read_pin: R,
    resolved: Result<SchemaDirective<T, O, P>, LoadFailure>,
)
    requires
        call_ensures(
            resolve_schema_directive::<E, T, O, P, R>,
            (config, transform, overrides, read_pin),
            resolved,
        ),
    ensures
        resolved matches Ok(SchemaDirective::Pinned { drift_policy, .. }) ==> {
            &&& config is Some
            &&& drift_policy == DriftPolicy::AllowAdditiveNullable <==> (
            config->0.drift_policy matches Some(name) && name@ == "allow_additive_nullable"@)
            &&& drift_policy == DriftPolicy::Fail <==> (config->0.drift_policy is None
                || config->0.drift_policy->0@ == "fail"@)
        },
{
    lemma_drift_policy_names_differ();
}

/// A load without a pinned schema file infers its schema. With one it is held to
/// what the file holds, or infers and pins its schema where there is no such file
/// yet; a file that cannot be read, or holds no schema, fails the load. The file is
/// the one the definition names, and what was made of the transform and of the
/// overrides is carried along as it is.
pub proof fn law_directive_follows_the_pinned_file<E, T, O, P, R: FnOnce(&str) -> PinRead<P>>(
    config: Option<&SchemaConfig<E>>,
    transform: T,
    overrides: O,
    read_pin: R,
    resolved: Result<SchemaDirective<T, O, P>, LoadFailure>,
)
    requires
        call_ensures(
            resolve_schema_directive::<E, T, O, P, R>,
            (
                config,
                Ok::<T, LoadFailure>(transform),
                Ok::<O, LoadFailure>(overrides),
                read_pin,
            ),
            resolved,
        ),
        config matches Some(block) ==> {
            &&& block.pinned_path matches Some(path) ==> path@.len() > 0
            &&& block.overrides matches Some(listed) ==> listed@.len() > 0
            &&& block.drift_policy matches Some(name) ==> block.pinned_path is Some && (name@
                == "fail"@ || name@ == "allow_additive_nullable"@)
            &&& block.pinned_path is Some || block.overrides is Some
        },
    ensures
        config is None || config->0.pinned_path is None ==> resolved == Ok::<
            SchemaDirective<T, O, P>,
            LoadFailure,
        >(SchemaDirective::Inferred { transform, overrides }),
        config is Some && config->0.pinned_path is Some ==> exists|path: &str, read: PinRead<P>|
            {
                let pinned = config->0.pinned_path->0@;
                &&& #[trigger] read_pin.ensures((path,), read)
                &&& path@ == pinned
                &&& read matches PinRead::Text(Ok(held)) ==> (resolved matches Ok(
                    SchemaDirective::Pinned {
                        pinned_path,
                        pin,
                        drift_policy,
                        transform: t,
                        overrides: o,
                    },
                ) && pinned_path@ == pinned && pin == held && t == transform && o == overrides)
                &&& read matches PinRead::Text(Err(failure)) ==> resolved == Err::<
                    SchemaDirective<T, O, P>,
                    LoadFailure,
                >(failure)
                &&& read is NotFound ==> (resolved matches Ok(SchemaDirective::PinInferred {
                    pinned_path,
                    transform: t,
                    overrides: o,
                }) && pinned_path@ == pinned && t == transform && o == overrides)
                &&& read matches PinRead::Failed(error) ==> (resolved matches Err(failure)
                    && failure.code@ == "pinned_schema_read_failed"@ && failure.message@
                    == "failed to read pinned schema "@ + pinned + ": "@ + error@)
            },
{
    lemma_drift_policy_names_differ();
}

/// What is wrong with the schema settings refuses the load before any file is read,
/// in this order: the transform, an empty path, no overrides in a list of them, a
/// drift policy without a pinned file, an empty block, a policy that there is not,
/// and the overrides.
pub proof fn law_faulty_schema_settings_are_refused<E, T, O, P, R: FnOnce(&str) -> PinRead<P>>(
    config: Option<&SchemaConfig<E>>,
    transform: Result<T, LoadFailure>,
    overrides: Result<O, LoadFailure>,
    read_pin: R,
    resolved: Result<SchemaDirective<T, O, P>, LoadFailure>,
)
    requires
        call_ensures(
            resolve_schema_directive::<E, T, O, P, R>,
            (config, transform, overrides, read_pin),
            resolved,
        ),
    ensures
        transform matches Err(failure) ==> (resolved matches Err(raised) && raised.code@
            == failure.code@ && raised.message@ == failure.message@),
        transform is Ok && config is None && overrides is Err ==> (resolved matches Err(raised)
            && raised.code@ == overrides->Err_0.code@ && raised.message@
            == overrides->Err_0.message@),
        transform is Ok && config is Some ==> {
            let block = *config->0;
            let unpinned = block.pinned_path is None;
            if !unpinned && block.pinned_path->0@.len() == 0 {
                resolved matches Err(raised) && raised.code@ == "invalid_schema_config"@
                    && raised.message@ == "schema.pinned_path must not be empty"@
            } else if block.overrides is Some && block.overrides->0@.len() == 0 {
                resolved matches Err(raised) && raised.code@ == "invalid_schema_config"@
                    && raised.message@ == "schema.overrides must declare at least one override"@
            } else if unpinned && block.drift_policy is Some {
                resolved matches Err(raised) && raised.code@ == "invalid_schema_config"@
                    && raised.message@ == "schema.drift_policy requires schema.pinned_path"@
            } else if unpinned && block.overrides is None {
                resolved matches Err(raised) && raised.code@ == "invalid_schema_config"@
                    && raised.message@
                    == "a schema block must set schema.pinned_path or schema.overrides"@
            } else if block.drift_policy is Some && block.drift_policy->0@ != "fail"@
                && block.drift_policy->0@ != "allow_additive_nullable"@ {
                resolved matches Err(raised) && raised.code@ == "unsupported_drift_policy"@
                    && raised.message@ == "unsupported drift policy: "@ + block.drift_policy->0@
            } else {
                overrides is Err ==> (resolved matches Err(raised) && raised.code@
                    == overrides->Err_0.code@ && raised.message@ == overrides->Err_0.message@)
            }
        },
{
    match transform {
        Err(failure) => {
            assert(resolved->Err_0@ == failure@);
        },
        Ok(_) => {
            match overrides {
                Err(failure) => {
                    assert(failure@.code == failure.code@ && failure@.message == failure.message@);
                },
                Ok(_) => {},
            }
        },
    }
}

/// A pinned schema file that cannot be written is named, with the reason.
pub proof fn law_unwritten_pin_is_named(pinned_path: &str, error: &str, failure: LoadFailure)
    requires
        call_ensures(pinned_schema_write_failure, (pinned_path, error), failure),
    ensures
        failure.code@ == "pinned_schema_write_failed"@,
        failure.message@ == "failed to persist pinned schema "@ + pinned_path@ + ": "@ + error@,
{
}

} // verus!
