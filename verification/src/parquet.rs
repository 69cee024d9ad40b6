//! The Parquet destination: the names of its parts, what a session has
//! written, and the schema of the parts that are already there.
use crate::destination::{
    append_abandoned, facts_of, nothing_abandoned, unchanged_destination, write_failed,
    AbandonedWrite, DestinationWrite, DestinationWriteFacts, DestinationWriteFailure, Transience,
};
use crate::failure::{FailureView, LoadFailure};
use crate::text::{
    decimal, decimal_text, decimal_value, file_extension, lemma_decimal_reads_back, path_extension,
    same_text,
};
use arrow_schema::SchemaRef;
use vstd::prelude::*;
use vstd::std_specs::iter::IteratorSpec;
use vstd::string::*;

verus! {

/// `arrow_schema::Schema`, known only through its equality and through
/// `schema_shape`.
#[verifier::external_type_specification]
#[verifier::external_body]
pub struct ExSchema(arrow_schema::Schema);

/// `Schema`'s `PartialEq` tells whether two schemas are the same.
#[verifier::external_body]
fn same_schema(a: &SchemaRef, b: &SchemaRef) -> (same: bool)
    ensures
        same == (*a == *b),
{
    a.as_ref() == b.as_ref()
}

/// The message of a step of writing to a path that failed.
pub open spec fn path_message(action: Seq<char>, path: Seq<char>, error: Seq<char>) -> Seq<char> {
    "failed to "@ + action + " "@ + path + ": "@ + error
}

/// The failure of a step of writing to a path.
pub fn path_failure(action: &str, path: &str, error: &str) -> (failure: LoadFailure)
    ensures
        failure@ == write_failed(path_message(action@, path@, error@)),
{
    LoadFailure::new(
        "destination_write_failed",
        "failed to ".to_owned().concat(action).concat(" ").concat(path).concat(": ").concat(error),
    )
}

/// The failure of a step that concerns no path.
pub fn step_failure(action: &str, error: &str) -> (failure: LoadFailure)
    ensures
        failure@ == write_failed("failed to "@ + action@ + ": "@ + error@),
{
    LoadFailure::new(
        "destination_write_failed",
        "failed to ".to_owned().concat(action).concat(": ").concat(error),
    )
}

/// The failure of records whose columns do not match the dataset's.
pub fn parquet_schema_mismatch(destination_path: &str) -> (failure: LoadFailure)
    ensures
        failure@ == write_failed(
            "append schema does not match Parquet destination "@ + destination_path@,
        ),
{
    LoadFailure::new(
        "destination_write_failed",
        "append schema does not match Parquet destination ".to_owned().concat(destination_path),
    )
}

/// Whether a file is a part of a dataset.
pub fn is_parquet_part(path: &str) -> (is: bool)
    ensures
        is == (file_extension(path@) == Some("parquet"@)),
{
    match path_extension(path) {
        Some(extension) => same_text(extension.as_str(), "parquet"),
        None => false,
    }
}

/// The failure of a dataset whose parts disagree.
pub open spec fn inconsistent_parts(destination_path: Seq<char>) -> FailureView {
    write_failed(
        "Parquet destination "@ + destination_path + " contains inconsistent schemas"@,
    )
}

/// What the parts of a dataset come to: the schema that all of them have, none
/// where there are no parts, or the failure of the first part that cannot be
/// read or differs from the first.
pub open spec fn parts_schema(
    parts: Seq<Result<SchemaRef, LoadFailure>>,
    destination_path: Seq<char>,
    expected: Option<SchemaRef>,
) -> Result<Option<SchemaRef>, FailureView>
    decreases parts.len(),
{
    if parts.len() == 0 {
        Ok(expected)
    } else {
        match parts[0] {
            Err(failure) => Err(failure@),
            Ok(schema) => match expected {
                None => parts_schema(parts.drop_first(), destination_path, Some(schema)),
                Some(first) => if first == schema {
                    parts_schema(parts.drop_first(), destination_path, expected)
                } else {
                    Err(inconsistent_parts(destination_path))
                },
            },
        }
    }
}

/// The schema of an existing dataset, from those of its parts.
pub fn existing_parquet_schema<I: Iterator<Item = Result<SchemaRef, LoadFailure>>>(
    parts: I,
    destination_path: &str,
) -> (existing: Result<Option<SchemaRef>, LoadFailure>)
    requires
        parts.obeys_prophetic_iter_laws(),
        parts.decrease() is Some,
    ensures
        match existing {
            Ok(schema) => parts_schema(parts.remaining(), destination_path@, None) == Ok::<
                _,
                FailureView,
            >(schema),
            Err(failure) => parts_schema(parts.remaining(), destination_path@, None) == Err::<
                Option<SchemaRef>,
                _,
            >(failure@),
        },
{
    let ghost all = parts.remaining();
    let mut rest = parts;
    let mut expected: Option<SchemaRef> = None;
    loop
        invariant
            rest.obeys_prophetic_iter_laws(),
            rest.decrease() is Some,
            all == parts.remaining(),
            parts_schema(rest.remaining(), destination_path@, expected) == parts_schema(
                all,
                destination_path@,
                None,
            ),
        decreases rest.decrease()->0,
    {
        match rest.next() {
            None => {
                return Ok(expected);
            },
            Some(Err(failure)) => {
                return Err(failure);
            },
            Some(Ok(schema)) => {
                let consistent = match &expected {
                    None => true,
                    Some(first) => same_schema(first, &schema),
                };
                if !consistent {
                    return Err(
                        LoadFailure::new(
                            "destination_write_failed",
                            "Parquet destination ".to_owned().concat(destination_path).concat(
                                " contains inconsistent schemas",
                            ),
                        ),
                    );
                }
                if expected.is_none() {
                    expected = Some(schema);
                }
            },
        }
    }
}

/// All parts of a dataset that has a schema have that schema.
pub proof fn law_parts_share_the_schema(
    parts: Seq<Result<SchemaRef, LoadFailure>>,
    destination_path: Seq<char>,
    expected: Option<SchemaRef>,
)
    requires
        parts_schema(parts, destination_path, expected) is Ok,
    ensures
        ({
            let schema = parts_schema(parts, destination_path, expected)->Ok_0;
            &&& schema is None <==> expected is None && parts.len() == 0
            &&& expected is Some ==> schema == expected
            &&& forall|i: int|
                0 <= i < parts.len() ==> (#[trigger] parts[i]) is Ok && schema == Some(
                    parts[i]->Ok_0,
                )
        }),
    decreases parts.len(),
{
    if parts.len() > 0 {
        let rest = parts.drop_first();
        let known = match expected {
            None => Some(parts[0]->Ok_0),
            Some(_) => expected,
        };
        law_parts_share_the_schema(rest, destination_path, known);
        let schema = parts_schema(parts, destination_path, expected)->Ok_0;
        assert forall|i: int| 0 <= i < parts.len() implies (#[trigger] parts[i]) is Ok && schema
            == Some(parts[i]->Ok_0) by {
            if i > 0 {
                assert(rest[i - 1] == parts[i]);
            }
        }
    }
}

/// A number in decimal notation, with zeros in front up to a width.
pub open spec fn padded(n: nat, width: nat) -> Seq<char> {
    let digits = decimal(n);
    if digits.len() >= width {
        digits
    } else {
        Seq::new((width - digits.len()) as nat, |i: int| '0') + digits
    }
}

fn padded_text(n: u64, width: usize) -> (text: String)
    ensures
        text@ == padded(n as nat, width as nat),
{
    let digits = decimal_text(n);
    let len: usize = digits.as_str().unicode_len();
    let mut text = String::new();
    let mut written: usize = len;
    while written < width
        invariant
            len == digits@.len(),
            len <= written,
            written <= width || written == len,
            text@ == Seq::new((written - len) as nat, |i: int| '0'),
        decreases width - written,
    {
        text.push('0');
        written = written + 1;
        proof {
            assert(text@ =~= Seq::new((written - len) as nat, |i: int| '0'));
        }
    }
    text.append(digits.as_str());
    proof {
        if len >= width {
            assert(text@ =~= digits@);
        } else {
            assert(text@ =~= padded(n as nat, width as nat));
        }
    }
    text
}

/// What a full refresh has staged. Nothing of it is visible before the
/// terminal rename.
pub struct ParquetFullRefreshProgress {
    pub parts: u64,
    pub bytes_written: u64,
}

/// A failure of replacing the destination.
pub open spec fn staged_replace_failed(
    message: Seq<char>,
    raised: DestinationWriteFailure,
) -> bool {
    &&& raised == (DestinationWriteFailure {
        facts: facts_of("best_effort", Some("staging_then_replace")),
        ..unchanged_destination(raised.failure)
    })
    &&& raised.failure@ == write_failed(message)
}

impl ParquetFullRefreshProgress {
    /// A session with nothing staged.
    pub fn new() -> (progress: ParquetFullRefreshProgress)
        ensures
            progress.parts == 0,
            progress.bytes_written == 0,
    {
        ParquetFullRefreshProgress { parts: 0, bytes_written: 0 }
    }

    /// The file name of the next part.
    pub fn part_name(&self) -> (name: String)
        ensures
            name@ == "part-"@ + padded(self.parts as nat, 5) + ".parquet"@,
    {
        "part-".to_owned().concat(padded_text(self.parts, 5).as_str()).concat(".parquet")
    }

    /// Counts a staged part.
    pub fn part_staged(&mut self, bytes: u64)
        requires
            old(self).parts < u64::MAX,
            old(self).bytes_written + bytes <= u64::MAX,
        ensures
            final(self).parts == old(self).parts + 1,
            final(self).bytes_written == old(self).bytes_written + bytes,
    {
        self.parts = self.parts + 1;
        self.bytes_written = self.bytes_written + bytes;
    }

    /// Ends the session, given how removing the old destination went: the
    /// staged one is renamed into its place only once it is gone.
    pub fn committed<R: FnOnce() -> Result<(), String>>(
        self,
        destination_path: &str,
        removed: Result<(), String>,
        rename: R,
    ) -> (write: Result<DestinationWrite, DestinationWriteFailure>)
        requires
            removed is Ok ==> rename.requires(()),
        ensures
            match removed {
                Err(error) => write matches Err(raised) && staged_replace_failed(
                    path_message("replace existing destination"@, destination_path@, error@),
                    raised,
                ),
                Ok(_) => exists|renamed: Result<(), String>|
                    {
                        &&& #[trigger] rename.ensures((), renamed)
                        &&& match renamed {
                            Err(error) => write matches Err(raised) && staged_replace_failed(
                                path_message(
                                    "commit Parquet destination"@,
                                    destination_path@,
                                    error@,
                                ),
                                raised,
                            ),
                            Ok(_) => write == Ok::<_, DestinationWriteFailure>(
                                DestinationWrite {
                                    bytes_written: Some(self.bytes_written),
                                    facts: facts_of("best_effort", Some("staging_then_replace")),
                                },
                            ),
                        }
                    },
            },
    {
        if let Err(error) = removed {
            return Err(
                DestinationWriteFailure::best_effort(
                    path_failure(
                        "replace existing destination",
                        destination_path,
                        error.as_str(),
                    ),
                    "staging_then_replace",
                    0,
                ),
            );
        }
        let renamed = rename();
        proof {
            assert(rename.ensures((), renamed));
        }
        match renamed {
            Err(error) => Err(
                DestinationWriteFailure::best_effort(
                    path_failure("commit Parquet destination", destination_path, error.as_str()),
                    "staging_then_replace",
                    0,
                ),
            ),
            Ok(_) => Ok(
                DestinationWrite {
                    bytes_written: Some(self.bytes_written),
                    facts: DestinationWriteFacts::best_effort("staging_then_replace"),
                },
            ),
        }
    }

    /// Ends the session without a commit: nothing was visible before it.
    pub fn abandon(self) -> (abandoned: AbandonedWrite)
        ensures
            abandoned == nothing_abandoned(),
    {
        AbandonedWrite {
            committed_chunks: 0,
            written_records: 0,
            facts: DestinationWriteFacts::not_applicable(),
        }
    }
}

/// Whether a function that clears what was staged has run.
pub open spec fn cleared<U: FnOnce()>(unstage: U) -> bool {
    exists|done: ()| #[trigger] unstage.ensures((), done)
}

/// What an append session has committed, part by part.
pub struct ParquetAppendProgress {
    pub committed_chunks: u64,
    pub written_records: u64,
    pub bytes_written: u64,
}

impl ParquetAppendProgress {
    /// A session that has committed nothing.
    pub fn new() -> (progress: ParquetAppendProgress)
        ensures
            progress.committed_chunks == 0,
            progress.written_records == 0,
            progress.bytes_written == 0,
    {
        ParquetAppendProgress { committed_chunks: 0, written_records: 0, bytes_written: 0 }
    }

    /// A failure of this session that reports what it has committed.
    pub open spec fn reporting(self, failure: LoadFailure) -> DestinationWriteFailure {
        DestinationWriteFailure {
            failure,
            facts: facts_of("best_effort", Some("staged_part_append")),
            written_records: self.written_records,
            committed_chunks: self.committed_chunks,
            transience: Transience::Terminal,
        }
    }

    /// A failure of a chunk before its part was committed: once a chunk has been
    /// committed, the destination has changed, and the failure says so.
    pub open spec fn failing_before_commit(self, failure: LoadFailure) -> DestinationWriteFailure {
        if self.committed_chunks > 0 {
            self.reporting(failure)
        } else {
            unchanged_destination(failure)
        }
    }

    /// The failure of a chunk before its part was committed.
    pub fn chunk_failure(&self, failure: LoadFailure) -> (raised: DestinationWriteFailure)
        ensures
            raised == self.failing_before_commit(failure),
    {
        if self.committed_chunks > 0 {
            DestinationWriteFailure {
                failure,
                facts: DestinationWriteFacts::best_effort("staged_part_append"),
                written_records: self.written_records,
                committed_chunks: self.committed_chunks,
                transience: Transience::Terminal,
            }
        } else {
            DestinationWriteFailure::from(failure)
        }
    }

    /// The failure of renaming a staged part into the dataset.
    pub fn part_failure(&self, part_path: &str, error: &str) -> (raised: DestinationWriteFailure)
        ensures
            raised == self.reporting(raised.failure),
            raised.failure@ == write_failed(
                path_message("commit Parquet part"@, part_path@, error@),
            ),
    {
        DestinationWriteFailure {
            failure: path_failure("commit Parquet part", part_path, error),
            facts: DestinationWriteFacts::best_effort("staged_part_append"),
            written_records: self.written_records,
            committed_chunks: self.committed_chunks,
            transience: Transience::Terminal,
        }
    }

    /// What writing a chunk as a part comes to, given what its steps may give:
    /// a chunk that does not align, or cannot be staged, fails before its part
    /// could be seen, and renaming it is what commits it.
    pub open spec fn part_outcome<
        B,
        A: FnOnce() -> Result<B, LoadFailure>,
        G: FnOnce(&B) -> Result<u64, LoadFailure>,
        R: FnOnce() -> Result<(), String>,
        U: FnOnce(),
    >(
        self,
        part_path: Seq<char>,
        align: A,
        stage: G,
        rename: R,
        unstage: U,
        written: Result<u64, DestinationWriteFailure>,
    ) -> bool {
        exists|aligned: Result<B, LoadFailure>|
            {
                &&& #[trigger] align.ensures((), aligned)
                &&& match aligned {
                    Err(failure) => written == Err::<u64, _>(self.failing_before_commit(failure)),
                    Ok(batch) => exists|staged: Result<u64, LoadFailure>|
                        {
                            &&& #[trigger] stage.ensures((&batch,), staged)
                            &&& match staged {
                                Err(failure) => written == Err::<u64, _>(
                                    self.failing_before_commit(failure),
                                ) && cleared(unstage),
                                Ok(bytes) => exists|renamed: Result<(), String>|
                                    {
                                        &&& #[trigger] rename.ensures((), renamed)
                                        &&& match renamed {
                                            Ok(_) => written == Ok::<_, DestinationWriteFailure>(
                                                bytes,
                                            ),
                                            Err(error) => cleared(unstage) && (written matches Err(
                                                raised,
                                            ) && raised == self.reporting(raised.failure)
                                                && raised.failure@ == write_failed(
                                                path_message(
                                                    "commit Parquet part"@,
                                                    part_path,
                                                    error@,
                                                ),
                                            )),
                                        }
                                    },
                            }
                        },
                }
            }
    }

    /// Writes a chunk as a part: aligns it, stages it, and renames it into the
    /// dataset. Where staging or renaming fails, `unstage` clears what was
    /// staged. The result is the bytes of the part.
    pub fn write_part<
        B,
        A: FnOnce() -> Result<B, LoadFailure>,
        G: FnOnce(&B) -> Result<u64, LoadFailure>,
        R: FnOnce() -> Result<(), String>,
        U: FnOnce(),
    >(&self, part_path: &str, align: A, stage: G, rename: R, unstage: U) -> (written: Result<
        u64,
        DestinationWriteFailure,
    >)
        requires
            align.requires(()),
            forall|batch: B| #[trigger]
                align.ensures((), Ok(batch)) ==> stage.requires((&batch,)),
            forall|batch: B, bytes: u64| #[trigger]
                align.ensures((), Ok(batch)) && #[trigger] stage.ensures((&batch,), Ok(bytes))
                    ==> rename.requires(()),
            forall|batch: B, failure: LoadFailure| #[trigger]
                align.ensures((), Ok(batch)) && #[trigger] stage.ensures((&batch,), Err(failure))
                    ==> unstage.requires(()),
            forall|error: String| #[trigger]
                rename.ensures((), Err(error)) ==> unstage.requires(()),
        ensures
            self.part_outcome(part_path@, align, stage, rename, unstage, written),
    {
        let aligned = align();
        proof {
            assert(align.ensures((), aligned));
        }
        let batch = match aligned {
            Ok(batch) => batch,
            Err(failure) => {
                return Err(self.chunk_failure(failure));
            },
        };
        let staged = stage(&batch);
        proof {
            assert(stage.ensures((&batch,), staged));
        }
        let bytes: u64 = match staged {
            Ok(bytes) => bytes,
            Err(failure) => {
                let gone = unstage();
                proof {
                    assert(unstage.ensures((), gone));
                }
                return Err(self.chunk_failure(failure));
            },
        };
        let renamed = rename();
        proof {
            assert(rename.ensures((), renamed));
        }
        match renamed {
            Ok(_) => Ok(bytes),
            Err(error) => {
                let gone = unstage();
                proof {
                    assert(unstage.ensures((), gone));
                }
                Err(self.part_failure(part_path, error.as_str()))
            },
        }
    }

    /// Counts a committed part.
    pub fn part_committed(&mut self, rows: u64, bytes: u64)
        requires
            old(self).committed_chunks < u64::MAX,
            old(self).written_records + rows <= u64::MAX,
            old(self).bytes_written + bytes <= u64::MAX,
        ensures
            final(self).committed_chunks == old(self).committed_chunks + 1,
            final(self).written_records == old(self).written_records + rows,
            final(self).bytes_written == old(self).bytes_written + bytes,
    {
        self.committed_chunks = self.committed_chunks + 1;
        self.written_records = self.written_records + rows;
        self.bytes_written = self.bytes_written + bytes;
    }

    /// Ends the session; every part was committed already.
    pub fn committed(self) -> (write: DestinationWrite)
        ensures
            write == (DestinationWrite {
                bytes_written: Some(self.bytes_written),
                facts: facts_of("best_effort", Some("staged_part_append")),
            }),
    {
        DestinationWrite {
            bytes_written: Some(self.bytes_written),
            facts: DestinationWriteFacts::best_effort("staged_part_append"),
        }
    }

    /// Ends the session early: the committed parts stay.
    pub fn abandon(self) -> (abandoned: AbandonedWrite)
        ensures
            abandoned == (AbandonedWrite {
                committed_chunks: self.committed_chunks,
                written_records: self.written_records,
                facts: if self.committed_chunks > 0 {
                    facts_of("best_effort", Some("staged_part_append"))
                } else {
                    facts_of("not_applicable", None)
                },
            }),
    {
        append_abandoned("staged_part_append", self.committed_chunks, self.written_records)
    }
}

/// No failure of writing a part calls for another attempt: an append to a
/// Parquet dataset is never retried.
pub proof fn law_part_failures_are_terminal<
    B,
    A: FnOnce() -> Result<B, LoadFailure>,
    G: FnOnce(&B) -> Result<u64, LoadFailure>,
    R: FnOnce() -> Result<(), String>,
    U: FnOnce(),
>(
    progress: ParquetAppendProgress,
    part_path: Seq<char>,
    align: A,
    stage: G,
    rename: R,
    unstage: U,
    written: Result<u64, DestinationWriteFailure>,
)
    requires
        progress.part_outcome(part_path, align, stage, rename, unstage, written),
        written is Err,
    ensures
        written->Err_0.transience == Transience::Terminal,
        written->Err_0.committed_chunks == progress.committed_chunks
            || progress.committed_chunks == 0,
{
}

/// A failed append reports exactly the chunks and records it has committed.
pub proof fn law_reported_prefix_is_the_committed_one(
    progress: ParquetAppendProgress,
    failure: LoadFailure,
)
    requires
        progress.committed_chunks == 0 ==> progress.written_records == 0,
    ensures
        progress.failing_before_commit(failure).committed_chunks == progress.committed_chunks,
        progress.failing_before_commit(failure).written_records == progress.written_records,
{
}

/// The parts of a full refresh are numbered in the order in which they are staged,
/// with at least five digits, so that no two have one name.
pub proof fn law_parts_are_numbered_in_order(
    earlier: ParquetFullRefreshProgress,
    later: ParquetFullRefreshProgress,
    first: String,
    second: String,
)
    requires
        call_ensures(ParquetFullRefreshProgress::part_name, (&earlier,), first),
        call_ensures(ParquetFullRefreshProgress::part_name, (&later,), second),
    ensures
        first@ == second@ <==> earlier.parts == later.parts,
        exists|number: Seq<char>|
            {
                &&& first@ == "part-"@ + number + ".parquet"@
                &&& #[trigger] decimal_value(number) == earlier.parts
                &&& number.len() >= 5
                &&& number.len() > 5 ==> number[0] != '0'
            },
{
    lemma_padded(earlier.parts);
    lemma_padded(later.parts);
    let a = padded(earlier.parts as nat, 5);
    let b = padded(later.parts as nat, 5);
    reveal_strlit("part-");
    reveal_strlit(".parquet");
    assert(first@.subrange(5, first@.len() - 8) =~= a);
    assert(second@.subrange(5, second@.len() - 8) =~= b);
    if first@ == second@ {
        assert(decimal_value(a) == decimal_value(b));
    }
}

proof fn lemma_zeros_in_front(zeros: nat, digits: Seq<char>)
    ensures
        decimal_value(Seq::new(zeros, |i: int| '0') + digits) == decimal_value(digits),
    decreases digits.len(), zeros,
{
    let text = Seq::new(zeros, |i: int| '0') + digits;
    if digits.len() > 0 {
        assert(text.drop_last() =~= Seq::new(zeros, |i: int| '0') + digits.drop_last());
        lemma_zeros_in_front(zeros, digits.drop_last());
        assert(text.last() == digits.last());
    } else if zeros > 0 {
        assert(text.drop_last() =~= Seq::new((zeros - 1) as nat, |i: int| '0') + digits);
        lemma_zeros_in_front((zeros - 1) as nat, digits);
        assert(text.last() == '0');
        assert(decimal_value(digits) == 0);
    } else {
        assert(text =~= digits);
    }
}

proof fn lemma_padded(n: u64)
    ensures
        decimal_value(padded(n as nat, 5)) == n,
        padded(n as nat, 5).len() >= 5,
        padded(n as nat, 5).len() > 5 ==> padded(n as nat, 5)[0] != '0',
{
    lemma_decimal_reads_back(n as nat);
    let digits = decimal(n as nat);
    if digits.len() < 5 {
        lemma_zeros_in_front((5 - digits.len()) as nat, digits);
    }
}

/// A file is a part of a dataset exactly where its extension is `parquet`.
pub proof fn law_parts_have_the_parquet_extension(
    path: &str,
    extension: Option<String>,
    is: bool,
)
    requires
        call_ensures(path_extension, (path,), extension),
        call_ensures(is_parquet_part, (path,), is),
    ensures
        is <==> (extension matches Some(text) && text@ == "parquet"@),
{
}

proof fn lemma_parts_schema(
    parts: Seq<Result<SchemaRef, LoadFailure>>,
    destination_path: Seq<char>,
    expected: Option<SchemaRef>,
)
    ensures
        parts_schema(parts, destination_path, expected) matches Err(failure) ==> exists|at: int|
            {
                &&& 0 <= at < parts.len()
                &&& match #[trigger] parts[at] {
                    Err(raised) => failure == raised@,
                    Ok(schema) => failure == inconsistent_parts(destination_path) && (
                    expected is Some && expected->0 != schema || expected is None && at > 0
                        && parts[0] is Ok && parts[0]->Ok_0 != schema),
                }
                &&& forall|i: int|
                    0 <= i < at ==> #[trigger] parts[i] is Ok && (if expected is Some {
                        parts[i]->Ok_0 == expected->0
                    } else {
                        parts[i]->Ok_0 == parts[0]->Ok_0
                    })
            },
    decreases parts.len(),
{
    if parts.len() > 0 && parts_schema(parts, destination_path, expected) is Err {
        let failure = parts_schema(parts, destination_path, expected)->Err_0;
        let rest = parts.drop_first();
        let known = match expected {
            None => if parts[0] is Ok {
                Some(parts[0]->Ok_0)
            } else {
                None
            },
            Some(_) => expected,
        };
        if parts[0] is Err || (expected is Some && expected->0 != parts[0]->Ok_0) {
            let at = 0int;
            assert(match parts[at] {
                Err(raised) => failure == raised@,
                Ok(schema) => failure == inconsistent_parts(destination_path),
            });
        } else {
            lemma_parts_schema(rest, destination_path, known);
            let k = choose|k: int|
                {
                    &&& 0 <= k < rest.len()
                    &&& match #[trigger] rest[k] {
                        Err(raised) => failure == raised@,
                        Ok(schema) => failure == inconsistent_parts(destination_path) && (
                        known is Some && known->0 != schema || known is None && k > 0 && rest[0]
                            is Ok && rest[0]->Ok_0 != schema),
                    }
                    &&& forall|i: int|
                        0 <= i < k ==> #[trigger] rest[i] is Ok && (if known is Some {
                            rest[i]->Ok_0 == known->0
                        } else {
                            rest[i]->Ok_0 == rest[0]->Ok_0
                        })
                };
            assert(parts[k + 1] == rest[k]);
            assert forall|i: int| 0 <= i < k + 1 implies #[trigger] parts[i] is Ok && (
            if expected is Some {
                parts[i]->Ok_0 == expected->0
            } else {
                parts[i]->Ok_0 == parts[0]->Ok_0
            }) by {
                if i > 0 {
                    assert(rest[i - 1] == parts[i]);
                }
            }
        }
    }
}

/// A dataset has the schema that all of its parts have, and none without parts. It
/// has no schema at all where a part cannot be read or differs from the first: the
/// first such part is the one that is told.
pub proof fn law_dataset_has_the_schema_of_its_parts<
    I: Iterator<Item = Result<SchemaRef, LoadFailure>>,
>(parts: I, destination_path: &str, existing: Result<Option<SchemaRef>, LoadFailure>)
    requires
        call_ensures(existing_parquet_schema::<I>, (parts, destination_path), existing),
    ensures
        existing matches Ok(None) ==> parts.remaining().len() == 0,
        existing matches Ok(Some(schema)) ==> parts.remaining().len() > 0 && forall|i: int|
            0 <= i < parts.remaining().len() ==> (#[trigger] parts.remaining()[i]) is Ok
                && parts.remaining()[i]->Ok_0 == schema,
        existing matches Err(failure) ==> exists|at: int|
            {
                &&& 0 <= at < parts.remaining().len()
                &&& match #[trigger] parts.remaining()[at] {
                    Err(raised) => failure.code@ == raised.code@ && failure.message@
                        == raised.message@,
                    Ok(schema) => failure.code@ == "destination_write_failed"@ && failure.message@
                        == "Parquet destination "@ + destination_path@
                        + " contains inconsistent schemas"@ && parts.remaining()[0]->Ok_0 != schema,
                }
                &&& forall|i: int|
                    0 <= i < at ==> #[trigger] parts.remaining()[i] is Ok
                        && parts.remaining()[i]->Ok_0 == parts.remaining()[0]->Ok_0
            },
{
    let all = parts.remaining();
    match existing {
        Ok(schema) => {
            law_parts_share_the_schema(all, destination_path@, None);
        },
        Err(failure) => {
            lemma_parts_schema(all, destination_path@, None);
            let at = choose|at: int|
                {
                    &&& 0 <= at < all.len()
                    &&& match #[trigger] all[at] {
                        Err(raised) => failure@ == raised@,
                        Ok(schema) => failure@ == inconsistent_parts(destination_path@) && at > 0
                            && all[0] is Ok && all[0]->Ok_0 != schema,
                    }
                    &&& forall|i: int|
                        0 <= i < at ==> #[trigger] all[i] is Ok && all[i]->Ok_0 == all[0]->Ok_0
                };
            assert(failure@.code == failure.code@ && failure@.message == failure.message@);
            if let Err(raised) = all[at] {
                assert(raised@.code == raised.code@ && raised@.message == raised.message@);
            }
        },
    }
}

/// A full refresh counts its parts and their bytes, from none.
pub proof fn law_refresh_counts_its_parts(
    fresh: ParquetFullRefreshProgress,
    progress: &mut ParquetFullRefreshProgress,
    bytes: u64,
)
    requires
        call_ensures(ParquetFullRefreshProgress::new, (), fresh),
        call_ensures(ParquetFullRefreshProgress::part_staged, (progress, bytes), ()),
    ensures
        fresh.parts == 0 && fresh.bytes_written == 0,
        final(progress).parts == old(progress).parts + 1,
        final(progress).bytes_written == old(progress).bytes_written + bytes,
{
}

/// A full refresh of a Parquet dataset takes the place of the old one once that is
/// gone, and reports all the bytes it staged. Where either step fails it failed,
/// with nothing written.
pub proof fn law_refresh_replaces_the_dataset_last<R: FnOnce() -> Result<(), String>>(
    progress: ParquetFullRefreshProgress,
    destination_path: &str,
    removed: Result<(), String>,
    rename: R,
    write: Result<DestinationWrite, DestinationWriteFailure>,
)
    requires
        call_ensures(
            ParquetFullRefreshProgress::committed::<R>,
            (progress, destination_path, removed, rename),
            write,
        ),
    ensures
        removed matches Err(error) ==> (write matches Err(raised) && raised.failure.message@
            == "failed to "@ + "replace existing destination"@ + " "@ + destination_path@ + ": "@
            + error@),
        removed is Ok ==> exists|renamed: Result<(), String>|
            {
                &&& #[trigger] rename.ensures((), renamed)
                &&& renamed is Ok <==> write is Ok
                &&& renamed matches Err(error) ==> write->Err_0.failure.message@ == "failed to "@
                    + "commit Parquet destination"@ + " "@ + destination_path@ + ": "@ + error@
            },
        write matches Ok(done) ==> {
            &&& done.bytes_written == Some(progress.bytes_written)
            &&& done.facts.atomicity@ == "best_effort"@
            &&& done.facts.strategy matches Some(strategy) && strategy@ == "staging_then_replace"@
            &&& done.facts.merge is None
        },
        write matches Err(raised) ==> {
            &&& raised.failure.code@ == "destination_write_failed"@
            &&& raised.written_records == 0 && raised.committed_chunks == 0
            &&& raised.facts.atomicity@ == "best_effort"@
            &&& raised.facts.strategy matches Some(strategy) && strategy@
                == "staging_then_replace"@
            &&& raised.transience == Transience::Terminal
        },
{
}

/// An abandoned full refresh leaves nothing, whatever it had staged.
pub proof fn law_abandoned_refresh_leaves_nothing(
    progress: ParquetFullRefreshProgress,
    abandoned: AbandonedWrite,
)
    requires
        call_ensures(ParquetFullRefreshProgress::abandon, (progress,), abandoned),
    ensures
        abandoned.committed_chunks == 0 && abandoned.written_records == 0,
        abandoned.facts.atomicity@ == "not_applicable"@ && abandoned.facts.strategy is None
            && abandoned.facts.merge is None,
{
}

/// An append counts its parts, their records and their bytes, from none.
pub proof fn law_append_counts_its_parts(
    fresh: ParquetAppendProgress,
    progress: &mut ParquetAppendProgress,
    rows: u64,
    bytes: u64,
)
    requires
        call_ensures(ParquetAppendProgress::new, (), fresh),
        call_ensures(ParquetAppendProgress::part_committed, (progress, rows, bytes), ()),
    ensures
        fresh.committed_chunks == 0 && fresh.written_records == 0 && fresh.bytes_written == 0,
        final(progress).committed_chunks == old(progress).committed_chunks + 1,
        final(progress).written_records == old(progress).written_records + rows,
        final(progress).bytes_written == old(progress).bytes_written + bytes,
{
}

/// A chunk becomes a part step by step: it is aligned, staged as it was aligned, and
/// renamed into the dataset. It is committed exactly where all three went well, and
/// then its bytes are those that were staged; what a failed step had staged is
/// cleared.
pub proof fn law_part_is_aligned_staged_and_renamed<
    B,
    A: FnOnce() -> Result<B, LoadFailure>,
    G: FnOnce(&B) -> Result<u64, LoadFailure>,
    R: FnOnce() -> Result<(), String>,
    U: FnOnce(),
>(
    progress: ParquetAppendProgress,
    part_path: &str,
    align: A,
    stage: G,
    rename: R,
    unstage: U,
    written: Result<u64, DestinationWriteFailure>,
)
    requires
        call_ensures(
            ParquetAppendProgress::write_part::<B, A, G, R, U>,
            (&progress, part_path, align, stage, rename, unstage),
            written,
        ),
    ensures
        exists|aligned: Result<B, LoadFailure>|
            {
                &&& #[trigger] align.ensures((), aligned)
                &&& aligned matches Err(failure) ==> (written matches Err(raised) && raised.failure
                    == failure)
                &&& aligned matches Ok(batch) ==> exists|staged: Result<u64, LoadFailure>|
                    {
                        &&& #[trigger] stage.ensures((&batch,), staged)
                        &&& staged matches Err(failure) ==> (written matches Err(raised)
                            && raised.failure == failure) && exists|done: ()|
                            #[trigger] unstage.ensures((), done)
                        &&& staged matches Ok(bytes) ==> exists|renamed: Result<(), String>|
                            {
                                &&& #[trigger] rename.ensures((), renamed)
                                &&& renamed is Ok ==> written == Ok::<u64, DestinationWriteFailure>(
                                    bytes,
                                )
                                &&& renamed matches Err(error) ==> {
                                    &&& exists|done: ()| #[trigger] unstage.ensures((), done)
                                    &&& written matches Err(raised)
                                    &&& raised.failure.code@ == "destination_write_failed"@
                                    &&& raised.failure.message@ == "failed to "@
                                        + "commit Parquet part"@ + " "@ + part_path@ + ": "@
                                        + error@
                                    &&& raised.committed_chunks == progress.committed_chunks
                                    &&& raised.written_records == progress.written_records
                                }
                            }
                    }
            },
        written matches Err(raised) ==> raised.transience == Transience::Terminal && (
        progress.committed_chunks > 0 ==> raised.committed_chunks == progress.committed_chunks
            && raised.written_records == progress.written_records && raised.facts.atomicity@
            == "best_effort"@ && raised.facts.strategy is Some && raised.facts.strategy->0@
            == "staged_part_append"@),
{
}

/// However an append ends, it states what it has committed: the parts, the records,
/// and that they were appended on a best effort. Without a committed part the
/// destination was not changed.
pub proof fn law_append_states_its_parts(
    progress: ParquetAppendProgress,
    failure: LoadFailure,
    raised: DestinationWriteFailure,
    write: DestinationWrite,
    abandoned: AbandonedWrite,
)
    requires
        progress.committed_chunks == 0 ==> progress.written_records == 0,
        call_ensures(ParquetAppendProgress::chunk_failure, (&progress, failure), raised),
        call_ensures(ParquetAppendProgress::committed, (progress,), write),
        call_ensures(ParquetAppendProgress::abandon, (progress,), abandoned),
    ensures
        raised.failure == failure && raised.transience == Transience::Terminal,
        raised.committed_chunks == progress.committed_chunks && raised.written_records
            == progress.written_records,
        abandoned.committed_chunks == progress.committed_chunks && abandoned.written_records
            == progress.written_records,
        write.bytes_written == Some(progress.bytes_written),
        write.facts.atomicity@ == "best_effort"@ && write.facts.merge is None,
        write.facts.strategy matches Some(strategy) && strategy@ == "staged_part_append"@,
        progress.committed_chunks == 0 ==> raised.facts.atomicity@ == "not_applicable"@
            && raised.facts.strategy is None && abandoned.facts.atomicity@ == "not_applicable"@
            && abandoned.facts.strategy is None,
        progress.committed_chunks > 0 ==> raised.facts.atomicity@ == "best_effort"@
            && raised.facts.strategy is Some && raised.facts.strategy->0@ == "staged_part_append"@
            && abandoned.facts.atomicity@ == "best_effort"@ && abandoned.facts.strategy is Some
            && abandoned.facts.strategy->0@ == "staged_part_append"@,
{
}

/// Every failure around a Parquet dataset is one of writing to the destination, and
/// says what failed, where, and why.
pub proof fn law_parquet_failures_say_what_failed(
    action: &str,
    path: &str,
    error: &str,
    at_path: LoadFailure,
    step: LoadFailure,
    mismatch: LoadFailure,
)
    requires
        call_ensures(path_failure, (action, path, error), at_path),
        call_ensures(step_failure, (action, error), step),
        call_ensures(parquet_schema_mismatch, (path,), mismatch),
    ensures
        at_path.code@ == "destination_write_failed"@,
        at_path.message@ == "failed to "@ + action@ + " "@ + path@ + ": "@ + error@,
        step.code@ == "destination_write_failed"@,
        step.message@ == "failed to "@ + action@ + ": "@ + error@,
        mismatch.code@ == "destination_write_failed"@,
        mismatch.message@ == "append schema does not match Parquet destination "@ + path@,
{
}

/// A part that cannot be committed is named with the reason, and the failure tells
/// what was committed before it.
pub proof fn law_failed_part_tells_what_is_left(
    progress: ParquetAppendProgress,
    part_path: &str,
    error: &str,
    raised: DestinationWriteFailure,
)
    requires
        call_ensures(ParquetAppendProgress::part_failure, (&progress, part_path, error), raised),
    ensures
        raised.failure.code@ == "destination_write_failed"@,
        raised.failure.message@ == "failed to "@ + "commit Parquet part"@ + " "@ + part_path@
            + ": "@ + error@,
        raised.facts.atomicity@ == "best_effort"@ && raised.facts.merge is None,
        raised.facts.strategy is Some && raised.facts.strategy->0@ == "staged_part_append"@,
        raised.written_records == progress.written_records,
        raised.committed_chunks == progress.committed_chunks,
        raised.transience == Transience::Terminal,
{
    assert(raised.failure@.code == raised.failure.code@ && raised.failure@.message
        == raised.failure.message@);
}

} // verus!
