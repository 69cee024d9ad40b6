//! What destinations have in common: load modes, write facts, and write
//! failures.
use crate::failure::{failing, FailureView, LoadFailure};
use crate::json::{
    entry_value, json_number, json_object, json_text, json_tree, lemma_key_found,
    lemma_key_missing, lemma_object_of_different_keys, number_tree, object_of, with_field,
    JsonTree,
};
use crate::text::same_text;
use serde_json::Value;
use vstd::prelude::*;
use vstd::std_specs::convert::FromSpecImpl;
use vstd::string::*;

verus! {

/// How a committed merge partitioned its records: `updated` replaced a record
/// with the same key, `inserted` had none to replace.
#[derive(Clone, Copy, Debug)]
pub struct MergeWriteCounts {
    pub updated: u64,
    pub inserted: u64,
}

/// What a destination states of its write: how atomic it is, the strategy
/// behind it, and the partition of a committed merge.
#[derive(Clone, Copy, Debug)]
pub struct DestinationWriteFacts {
    pub atomicity: &'static str,
    pub strategy: Option<&'static str>,
    pub merge: Option<MergeWriteCounts>,
}

/// The facts with an atomicity and a strategy, and no merge.
pub open spec fn facts_of(
    atomicity: &'static str,
    strategy: Option<&'static str>,
) -> DestinationWriteFacts {
    DestinationWriteFacts { atomicity, strategy, merge: None }
}

/// The report object of write facts: the atomicity, then the strategy and the
/// merge partition where there are any.
pub open spec fn facts_tree(facts: DestinationWriteFacts) -> JsonTree {
    let atomicity = seq![("atomicity"@, JsonTree::Text(facts.atomicity@))];
    let strategy = match facts.strategy {
        Some(strategy) => seq![("strategy"@, JsonTree::Text(strategy@))],
        None => seq![],
    };
    let merge = match facts.merge {
        Some(merge) => seq![
            (
                "merge"@,
                object_of(
                    seq![
                        ("updated"@, number_tree(merge.updated as nat)),
                        ("inserted"@, number_tree(merge.inserted as nat)),
                    ],
                ),
            ),
        ],
        None => seq![],
    };
    object_of(atomicity + strategy + merge)
}

impl DestinationWriteFacts {
    /// The destination was never changed.
    pub fn not_applicable() -> (facts: Self)
        ensures
            facts == facts_of("not_applicable", None),
    {
        DestinationWriteFacts { atomicity: "not_applicable", strategy: None, merge: None }
    }

    /// The write is all or nothing.
    pub fn atomic(strategy: &'static str) -> (facts: Self)
        ensures
            facts == facts_of("atomic", Some(strategy)),
    {
        DestinationWriteFacts { atomicity: "atomic", strategy: Some(strategy), merge: None }
    }

    /// A failed write may leave the destination changed.
    pub fn best_effort(strategy: &'static str) -> (facts: Self)
        ensures
            facts == facts_of("best_effort", Some(strategy)),
    {
        DestinationWriteFacts { atomicity: "best_effort", strategy: Some(strategy), merge: None }
    }

    /// The same facts with a merge partition.
    pub fn with_merge_counts(self, updated: u64, inserted: u64) -> (facts: Self)
        ensures
            facts == (DestinationWriteFacts {
                merge: Some(MergeWriteCounts { updated, inserted }),
                ..self
            }),
    {
        DestinationWriteFacts {
            atomicity: self.atomicity,
            strategy: self.strategy,
            merge: Some(MergeWriteCounts { updated, inserted }),
        }
    }

    /// The facts as the report states them.
    pub fn report_value(self) -> (value: Value)
        ensures
            json_tree(value) == facts_tree(self),
    {
        let mut fields = with_field(Vec::new(), "atomicity", json_text(self.atomicity.to_owned()));
        let ghost mut listed = seq![("atomicity"@, JsonTree::Text(self.atomicity@))];
        assert(crate::json::entry_trees(fields@) =~= listed);
        if let Some(strategy) = self.strategy {
            fields = with_field(fields, "strategy", json_text(strategy.to_owned()));
            proof {
                listed = listed + seq![("strategy"@, JsonTree::Text(strategy@))];
                assert(crate::json::entry_trees(fields@) =~= listed);
            }
        }
        if let Some(merge) = self.merge {
            let counts = with_field(Vec::new(), "updated", json_number(merge.updated));
            let counts = with_field(counts, "inserted", json_number(merge.inserted));
            assert(crate::json::entry_trees(counts@) =~= seq![
                ("updated"@, number_tree(merge.updated as nat)),
                ("inserted"@, number_tree(merge.inserted as nat)),
            ]);
            fields = with_field(fields, "merge", json_object(counts));
        }
        proof {
            let strategy = match self.strategy {
                Some(strategy) => seq![("strategy"@, JsonTree::Text(strategy@))],
                None => seq![],
            };
            let atomicity = seq![("atomicity"@, JsonTree::Text(self.atomicity@))];
            assert(listed =~= atomicity + strategy);
            match self.merge {
                Some(merge) => {
                    let counts = object_of(
                        seq![
                            ("updated"@, number_tree(merge.updated as nat)),
                            ("inserted"@, number_tree(merge.inserted as nat)),
                        ],
                    );
                    assert(crate::json::entry_trees(fields@) =~= atomicity + strategy + seq![
                        ("merge"@, counts),
                    ]);
                },
                None => {
                    assert(crate::json::entry_trees(fields@) =~= atomicity + strategy + seq![]);
                },
            }
        }
        json_object(fields)
    }
}

/// What a destination hands back of a committed session: the bytes it wrote,
/// where it can measure them, and its facts.
pub struct DestinationWrite {
    pub bytes_written: Option<u64>,
    pub facts: DestinationWriteFacts,
}

/// What an abandoned session leaves: the chunks and records already
/// committed, and the facts that state them.
pub struct AbandonedWrite {
    pub committed_chunks: u64,
    pub written_records: u64,
    pub facts: DestinationWriteFacts,
}

/// A session that leaves nothing behind.
pub open spec fn nothing_abandoned() -> AbandonedWrite {
    AbandonedWrite {
        committed_chunks: 0,
        written_records: 0,
        facts: facts_of("not_applicable", None),
    }
}

/// What an abandoned session leaves that commits chunk by chunk: its strategy
/// is stated once a chunk was committed.
pub fn append_abandoned(
    strategy: &'static str,
    committed_chunks: u64,
    written_records: u64,
) -> (abandoned: AbandonedWrite)
    ensures
        abandoned == (AbandonedWrite {
            committed_chunks,
            written_records,
            facts: if committed_chunks > 0 {
                facts_of("best_effort", Some(strategy))
            } else {
                facts_of("not_applicable", None)
            },
        }),
{
    AbandonedWrite {
        facts: if committed_chunks > 0 {
            DestinationWriteFacts::best_effort(strategy)
        } else {
            DestinationWriteFacts::not_applicable()
        },
        committed_chunks,
        written_records,
    }
}

/// Whether a failed write may be attempted again. Only the destination that
/// raised a failure may call it transient, and only when the failed attempt
/// committed nothing.
#[derive(Clone, Copy, Debug, PartialEq, Eq, Structural)]
pub enum Transience {
    Transient,
    Terminal,
}

/// A destination failure with what the destination had committed by then.
#[derive(Debug)]
pub struct DestinationWriteFailure {
    pub failure: LoadFailure,
    pub facts: DestinationWriteFacts,
    pub written_records: u64,
    pub committed_chunks: u64,
    pub transience: Transience,
}

/// The failure of writing to a destination.
pub open spec fn write_failed(message: Seq<char>) -> FailureView {
    failing("destination_write_failed"@, message)
}

/// A terminal failure before any destination-visible change.
pub open spec fn unchanged_destination(failure: LoadFailure) -> DestinationWriteFailure {
    DestinationWriteFailure {
        failure,
        facts: facts_of("not_applicable", None),
        written_records: 0,
        committed_chunks: 0,
        transience: Transience::Terminal,
    }
}

impl DestinationWriteFailure {
    /// A terminal failure of an atomic write, with no chunk committed.
    pub fn atomic(
        failure: LoadFailure,
        strategy: &'static str,
        written_records: u64,
    ) -> (raised: Self)
        ensures
            raised == (DestinationWriteFailure {
                facts: facts_of("atomic", Some(strategy)),
                written_records,
                ..unchanged_destination(failure)
            }),
    {
        DestinationWriteFailure {
            failure,
            facts: DestinationWriteFacts::atomic(strategy),
            written_records,
            committed_chunks: 0,
            transience: Transience::Terminal,
        }
    }

    /// A terminal failure of a best-effort write, with no chunk committed.
    pub fn best_effort(
        failure: LoadFailure,
        strategy: &'static str,
        written_records: u64,
    ) -> (raised: Self)
        ensures
            raised == (DestinationWriteFailure {
                facts: facts_of("best_effort", Some(strategy)),
                written_records,
                ..unchanged_destination(failure)
            }),
    {
        DestinationWriteFailure {
            failure,
            facts: DestinationWriteFacts::best_effort(strategy),
            written_records,
            committed_chunks: 0,
            transience: Transience::Terminal,
        }
    }
}

impl From<LoadFailure> for DestinationWriteFailure {
    fn from(failure: LoadFailure) -> (lifted: Self) {
        DestinationWriteFailure {
            failure,
            facts: DestinationWriteFacts::not_applicable(),
            written_records: 0,
            committed_chunks: 0,
            transience: Transience::Terminal,
        }
    }
}

impl FromSpecImpl<LoadFailure> for DestinationWriteFailure {
    open spec fn obeys_from_spec() -> bool {
        true
    }

    open spec fn from_spec(failure: LoadFailure) -> Self {
        unchanged_destination(failure)
    }
}

/// The rule that decides how a load changes the destination dataset.
#[derive(Clone, Copy, Debug, PartialEq, Eq, Structural)]
pub enum LoadMode {
    FullRefresh,
    Append,
    Merge,
}

/// The name a definition selects a load mode by.
pub open spec fn mode_name(mode: LoadMode) -> &'static str {
    match mode {
        LoadMode::FullRefresh => "full_refresh",
        LoadMode::Append => "append",
        LoadMode::Merge => "merge",
    }
}

impl LoadMode {
    /// The load mode of a name; a name that no mode has is refused.
    pub fn parse(load_mode: &str) -> (parsed: Result<Self, LoadFailure>)
        ensures
            match parsed {
                Ok(mode) => mode_name(mode)@ == load_mode@,
                Err(failure) => {
                    &&& forall|named: LoadMode| (#[trigger] mode_name(named))@ != load_mode@
                    &&& failure@ == failing(
                        "unsupported_load_mode"@,
                        "unsupported load mode: "@ + load_mode@,
                    )
                },
            },
    {
        if same_text(load_mode, "full_refresh") {
            Ok(LoadMode::FullRefresh)
        } else if same_text(load_mode, "append") {
            Ok(LoadMode::Append)
        } else if same_text(load_mode, "merge") {
            Ok(LoadMode::Merge)
        } else {
            Err(
                LoadFailure::new(
                    "unsupported_load_mode",
                    "unsupported load mode: ".to_owned().concat(load_mode),
                ),
            )
        }
    }

    /// The name of the mode.
    pub fn as_str(self) -> (name: &'static str)
        ensures
            name == mode_name(self),
    {
        match self {
            LoadMode::FullRefresh => "full_refresh",
            LoadMode::Append => "append",
            LoadMode::Merge => "merge",
        }
    }
}

/// No two load modes share a name, so parsing a mode's name gives that mode.
pub proof fn law_mode_names_are_distinct(a: LoadMode, b: LoadMode)
    requires
        mode_name(a)@ == mode_name(b)@,
    ensures
        a == b,
{
    reveal_strlit("full_refresh");
    reveal_strlit("append");
    reveal_strlit("merge");
    assert("full_refresh"@.len() == 12 && "append"@.len() == 6 && "merge"@.len() == 5);
    assert(mode_name(a)@.len() == mode_name(b)@.len());
}

/// Write facts state the atomicity they are named after, the strategy they were
/// given, and a merge partition only where one was added, which changes nothing
/// else.
pub proof fn law_write_facts_state_what_they_were_given(
    strategy: &'static str,
    updated: u64,
    inserted: u64,
    untouched: DestinationWriteFacts,
    atomic: DestinationWriteFacts,
    best_effort: DestinationWriteFacts,
    facts: DestinationWriteFacts,
    merged: DestinationWriteFacts,
)
    requires
        call_ensures(DestinationWriteFacts::not_applicable, (), untouched),
        call_ensures(DestinationWriteFacts::atomic, (strategy,), atomic),
        call_ensures(DestinationWriteFacts::best_effort, (strategy,), best_effort),
        call_ensures(
            DestinationWriteFacts::with_merge_counts,
            (facts, updated, inserted),
            merged,
        ),
    ensures
        untouched.atomicity@ == "not_applicable"@ && untouched.strategy is None && untouched.merge
            is None,
        atomic.atomicity@ == "atomic"@ && atomic.strategy == Some(strategy) && atomic.merge is None,
        best_effort.atomicity@ == "best_effort"@ && best_effort.strategy == Some(strategy)
            && best_effort.merge is None,
        merged.atomicity == facts.atomicity && merged.strategy == facts.strategy,
        merged.merge matches Some(counts) && counts.updated == updated && counts.inserted
            == inserted,
{
}

/// The object of write facts shows each of them under its name.
pub proof fn lemma_facts_tree(facts: DestinationWriteFacts)
    ensures
        facts_tree(facts) matches JsonTree::Object(entries) && {
            &&& entries.len() == 1 + (if facts.strategy is Some {
                1int
            } else {
                0
            }) + (if facts.merge is Some {
                1int
            } else {
                0
            })
            &&& entry_value(entries, "atomicity"@) == Some(JsonTree::Text(facts.atomicity@))
            &&& entry_value(entries, "strategy"@) == match facts.strategy {
                Some(strategy) => Some(JsonTree::Text(strategy@)),
                None => None,
            }
            &&& match facts.merge {
                Some(merge) => entry_value(entries, "merge"@) matches Some(JsonTree::Object(counts))
                    && counts.len() == 2 && entry_value(counts, "updated"@) == Some(number_tree(merge.updated as nat))
                    && entry_value(counts, "inserted"@) == Some(number_tree(merge.inserted as nat)),
                None => entry_value(entries, "merge"@) is None,
            }
        },
{
    reveal_strlit("atomicity");
    reveal_strlit("strategy");
    reveal_strlit("merge");
    reveal_strlit("updated");
    reveal_strlit("inserted");
    assert("atomicity"@.len() == 9 && "strategy"@.len() == 8 && "merge"@.len() == 5);
    assert("updated"@.len() == 7 && "inserted"@.len() == 8);
    let atomicity = seq![("atomicity"@, JsonTree::Text(facts.atomicity@))];
    let strategy = match facts.strategy {
        Some(strategy) => seq![("strategy"@, JsonTree::Text(strategy@))],
        None => seq![],
    };
    let merge = match facts.merge {
        Some(merge) => {
            let counts = seq![
                ("updated"@, number_tree(merge.updated as nat)),
                ("inserted"@, number_tree(merge.inserted as nat)),
            ];
            seq![("merge"@, object_of(counts))]
        },
        None => seq![],
    };
    if let Some(merge) = facts.merge {
        let counts = seq![
            ("updated"@, number_tree(merge.updated as nat)),
            ("inserted"@, number_tree(merge.inserted as nat)),
        ];
        assert(counts[0].0.len() != counts[1].0.len());
        lemma_object_of_different_keys(counts);
        lemma_key_found(counts, 0);
        lemma_key_found(counts, 1);
    }
    let entries = atomicity + strategy + merge;
    assert(entries[0] == atomicity[0]);
    if facts.strategy is Some {
        assert(entries[1] == strategy[0]);
    }
    if facts.merge is Some {
        assert(entries[entries.len() - 1] == merge[0]);
    }
    assert forall|i: int, j: int| 0 <= i < j < entries.len() implies (#[trigger] entries[i]).0 != (
    #[trigger] entries[j]).0 by {
        assert(entries[i].0.len() != entries[j].0.len());
    }
    lemma_object_of_different_keys(entries);
    lemma_key_found(entries, 0);
    if facts.strategy is Some {
        lemma_key_found(entries, 1);
    } else {
        assert forall|i: int| 0 <= i < entries.len() implies (#[trigger] entries[i]).0
            != "strategy"@ by {
            assert(entries[i].0.len() != 8);
        }
        lemma_key_missing(entries, "strategy"@);
    }
    if facts.merge is Some {
        lemma_key_found(entries, entries.len() - 1);
    } else {
        assert forall|i: int| 0 <= i < entries.len() implies (#[trigger] entries[i]).0 != "merge"@ by {
            assert(entries[i].0.len() != 5);
        }
        lemma_key_missing(entries, "merge"@);
    }
}

/// The report shows write facts under their names: always the atomicity, and the
/// strategy and the merge partition exactly where there are any.
pub proof fn law_reported_facts_are_the_facts(facts: DestinationWriteFacts, value: Value)
    requires
        call_ensures(DestinationWriteFacts::report_value, (facts,), value),
    ensures
        json_tree(value) matches JsonTree::Object(entries) && {
            &&& entries.len() == 1 + (if facts.strategy is Some {
                1int
            } else {
                0
            }) + (if facts.merge is Some {
                1int
            } else {
                0
            })
            &&& entry_value(entries, "atomicity"@) == Some(JsonTree::Text(facts.atomicity@))
            &&& entry_value(entries, "strategy"@) == match facts.strategy {
                Some(strategy) => Some(JsonTree::Text(strategy@)),
                None => None,
            }
            &&& match facts.merge {
                Some(merge) => entry_value(entries, "merge"@) matches Some(JsonTree::Object(counts))
                    && counts.len() == 2 && entry_value(counts, "updated"@) == Some(number_tree(merge.updated as nat))
                    && entry_value(counts, "inserted"@) == Some(number_tree(merge.inserted as nat)),
                None => entry_value(entries, "merge"@) is None,
            }
        },
{
    lemma_facts_tree(facts);
}

/// An abandoned session that commits chunk by chunk leaves what it committed, and
/// states its strategy exactly where that is anything.
pub proof fn law_abandoned_append_leaves_its_chunks(
    strategy: &'static str,
    committed_chunks: u64,
    written_records: u64,
    abandoned: AbandonedWrite,
)
    requires
        call_ensures(append_abandoned, (strategy, committed_chunks, written_records), abandoned),
    ensures
        abandoned.committed_chunks == committed_chunks,
        abandoned.written_records == written_records,
        abandoned.facts.merge is None,
        committed_chunks > 0 ==> abandoned.facts.atomicity@ == "best_effort"@
            && abandoned.facts.strategy == Some(strategy),
        committed_chunks == 0 ==> abandoned.facts.atomicity@ == "not_applicable"@
            && abandoned.facts.strategy is None,
{
}

/// A write failure is terminal and has committed no chunk unless its destination
/// says otherwise, and the failure itself is kept as it is.
pub proof fn law_write_failures_are_terminal_by_default(
    failure: LoadFailure,
    strategy: &'static str,
    written_records: u64,
    atomic: DestinationWriteFailure,
    best_effort: DestinationWriteFailure,
    lifted: DestinationWriteFailure,
)
    requires
        call_ensures(
            DestinationWriteFailure::atomic,
            (failure, strategy, written_records),
            atomic,
        ),
        call_ensures(
            DestinationWriteFailure::best_effort,
            (failure, strategy, written_records),
            best_effort,
        ),
        call_ensures(<DestinationWriteFailure as From<LoadFailure>>::from, (failure,), lifted),
    ensures
        atomic.failure == failure && best_effort.failure == failure && lifted.failure == failure,
        atomic.transience == Transience::Terminal && best_effort.transience == Transience::Terminal
            && lifted.transience == Transience::Terminal,
        atomic.committed_chunks == 0 && best_effort.committed_chunks == 0
            && lifted.committed_chunks == 0,
        atomic.written_records == written_records && best_effort.written_records == written_records
            && lifted.written_records == 0,
        atomic.facts.atomicity@ == "atomic"@ && atomic.facts.strategy == Some(strategy),
        best_effort.facts.atomicity@ == "best_effort"@ && best_effort.facts.strategy == Some(
            strategy,
        ),
        lifted.facts.atomicity@ == "not_applicable"@ && lifted.facts.strategy is None,
        atomic.facts.merge is None && best_effort.facts.merge is None && lifted.facts.merge is None,
{
}

/// Each load mode has the one name that definitions call it by; a name selects the
/// mode it belongs to, and any other text selects none.
pub proof fn law_load_modes_go_by_their_names(
    mode: LoadMode,
    name: &'static str,
    load_mode: &str,
    parsed: Result<LoadMode, LoadFailure>,
)
    requires
        call_ensures(LoadMode::as_str, (mode,), name),
        call_ensures(LoadMode::parse, (load_mode,), parsed),
    ensures
        mode == LoadMode::FullRefresh ==> name@ == "full_refresh"@,
        mode == LoadMode::Append ==> name@ == "append"@,
        mode == LoadMode::Merge ==> name@ == "merge"@,
        load_mode@ == name@ ==> parsed == Ok::<LoadMode, LoadFailure>(mode),
        parsed is Ok <==> load_mode@ == "full_refresh"@ || load_mode@ == "append"@ || load_mode@
            == "merge"@,
        parsed matches Err(failure) ==> failure.code@ == "unsupported_load_mode"@
            && failure.message@ == "unsupported load mode: "@ + load_mode@,
{
    if load_mode@ == name@ {
        match parsed {
            Ok(found) => {
                law_mode_names_are_distinct(found, mode);
            },
            Err(_) => {
                assert(mode_name(mode)@ != load_mode@);
            },
        }
    }
    if parsed is Err {
        assert(mode_name(LoadMode::FullRefresh)@ != load_mode@);
        assert(mode_name(LoadMode::Append)@ != load_mode@);
        assert(mode_name(LoadMode::Merge)@ != load_mode@);
    }
}

} // verus!
