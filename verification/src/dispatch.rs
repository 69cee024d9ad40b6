//! The write phase of a load: one destination session that takes the source
//! chunks in stream order, one at a time or through a bounded window of
//! concurrent writes, and ends in one commit or one abandonment.
use crate::count::NonZeroCount;
use crate::destination::{
    AbandonedWrite, DestinationWrite, DestinationWriteFacts, DestinationWriteFailure, LoadMode,
    Transience,
};
use crate::failure::LoadFailure;
use crate::retry::{
    backoff_ms, in_report_order, law_ordered_log_is_reported_as_written, law_unit_log_is_ordered, not_after,
    ordered, outcomes_of, report_position, run_unit, unit_attempts, unit_log, unit_outcomes,
    unit_waits, Attempt, Operation, RetryAttempt, RetryPolicy, RetryUnit, Sleeper,
};
use crate::session::{may_open, LoadSession, SessionEnd, SessionOpener, WriteSession};
use vstd::prelude::*;
use vstd::std_specs::iter::IteratorSpec;

verus! {

/// One destination write session. Chunks are written one by one, and the
/// session ends in exactly one commit or abandonment.
pub trait DestinationWriter: Sized {
    type Batch;

    fn write_chunk(&self, batch: &Self::Batch) -> Result<(), DestinationWriteFailure>;

    fn commit(self) -> Result<DestinationWrite, DestinationWriteFailure>;

    fn abandon(self) -> AbandonedWrite;
}

/// Opens the write session of one load in a load mode.
pub trait Destination {
    type Writer: DestinationWriter;

    fn begin(&self, mode: LoadMode) -> Result<Self::Writer, DestinationWriteFailure>;
}

/// The outcome of a write phase whose every chunk was written.
pub struct WritePhaseOutcome {
    pub bytes_written: Option<u64>,
    pub facts: DestinationWriteFacts,
    pub chunk_count: u64,
}

/// A write phase failure, before the destination session opened or within it.
#[derive(Debug)]
pub enum WritePhaseFailure {
    BeforeSession(DestinationWriteFailure),
    InSession(DestinationWriteFailure),
}

/// Whether opening a session in a mode may end so.
pub open spec fn may_begin<D: Destination>(
    destination: &D,
    mode: LoadMode,
    opened: Result<D::Writer, DestinationWriteFailure>,
) -> bool {
    call_ensures(D::begin, (destination, mode), opened)
}

/// Whether writing a chunk may end so.
pub open spec fn may_write<W: DestinationWriter>(
    writer: &W,
    batch: &W::Batch,
    written: Result<(), DestinationWriteFailure>,
) -> bool {
    call_ensures(W::write_chunk, (writer, batch), written)
}

/// Whether committing the session may end so.
pub open spec fn may_commit<W: DestinationWriter>(
    writer: W,
    committed: Result<DestinationWrite, DestinationWriteFailure>,
) -> bool {
    call_ensures(W::commit, (writer,), committed)
}

/// Whether abandoning the session may leave this.
pub open spec fn may_abandon<W: DestinationWriter>(writer: W, abandoned: AbandonedWrite) -> bool {
    call_ensures(W::abandon, (writer,), abandoned)
}

/// The outcomes of the attempts at writing one chunk: each comes of writing
/// that chunk, and together they follow the policy.
pub open spec fn chunk_run<W: DestinationWriter>(
    writer: &W,
    batch: &W::Batch,
    policy: RetryPolicy,
    outcomes: Seq<Result<(), DestinationWriteFailure>>,
) -> bool {
    &&& unit_outcomes(policy, outcomes)
    &&& forall|k: int|
        0 <= k < outcomes.len() ==> may_write(writer, batch, #[trigger] outcomes[k])
}

/// What writing the chunks in order came to: the runs of a prefix of the
/// chunks, each one but the last ending in success.
pub open spec fn serial_runs<W: DestinationWriter>(
    writer: &W,
    chunks: Seq<Result<W::Batch, LoadFailure>>,
    policy: RetryPolicy,
    runs: Seq<Seq<Result<(), DestinationWriteFailure>>>,
) -> bool {
    &&& runs.len() <= chunks.len()
    &&& forall|i: int|
        0 <= i < runs.len() ==> #[trigger] chunks[i] is Ok && chunk_run(
            writer,
            &chunks[i]->Ok_0,
            policy,
            runs[i],
        )
    &&& forall|i: int| 0 <= i < runs.len() - 1 ==> (#[trigger] runs[i]).last() is Ok
}

/// What the runs add to the retry log, chunk after chunk.
pub open spec fn serial_log(
    policy: RetryPolicy,
    runs: Seq<Seq<Result<(), DestinationWriteFailure>>>,
) -> Seq<RetryAttempt>
    decreases runs.len(),
{
    if runs.len() == 0 {
        seq![]
    } else {
        serial_log(policy, runs.drop_last()) + unit_log(
            policy,
            RetryUnit::WriteChunk { chunk_index: (runs.len() - 1) as u64 },
            runs.last(),
        )
    }
}

/// The waits within the runs, chunk after chunk.
pub open spec fn serial_waits(
    policy: RetryPolicy,
    runs: Seq<Seq<Result<(), DestinationWriteFailure>>>,
) -> Seq<u64>
    decreases runs.len(),
{
    if runs.len() == 0 {
        seq![]
    } else {
        serial_waits(policy, runs.drop_last()) + unit_waits(policy, runs.last().len())
    }
}

/// The writes of the runs, chunk after chunk: each chunk as often as it was
/// attempted, and each attempt after the waits before it.
pub open spec fn serial_attempts<W: DestinationWriter>(
    writer: W,
    chunks: Seq<Result<W::Batch, LoadFailure>>,
    policy: RetryPolicy,
    waits: Seq<u64>,
    runs: Seq<Seq<Result<(), DestinationWriteFailure>>>,
) -> Seq<Attempt<(W, W::Batch), ()>>
    decreases runs.len(),
{
    if runs.len() == 0 {
        seq![]
    } else {
        serial_attempts(writer, chunks, policy, waits, runs.drop_last()) + unit_attempts(
            policy,
            (writer, chunks[runs.len() - 1]->Ok_0),
            waits + serial_waits(policy, runs.drop_last()),
            runs.last(),
        )
    }
}

/// The failure of an abandoned session: the failure that halted it, joined
/// with what the destination holds.
pub open spec fn abandoned_failure(
    abandoned: AbandonedWrite,
    failure: LoadFailure,
) -> WritePhaseFailure {
    WritePhaseFailure::InSession(
        DestinationWriteFailure {
            failure,
            facts: abandoned.facts,
            written_records: abandoned.written_records,
            committed_chunks: abandoned.committed_chunks,
            transience: Transience::Terminal,
        },
    )
}

/// What a commit makes of the write phase.
pub open spec fn commit_result(
    committed: Result<DestinationWrite, DestinationWriteFailure>,
    chunk_count: u64,
) -> Result<WritePhaseOutcome, WritePhaseFailure> {
    match committed {
        Ok(write) => Ok(
            WritePhaseOutcome {
                bytes_written: write.bytes_written,
                facts: write.facts,
                chunk_count,
            },
        ),
        Err(failure) => Err(WritePhaseFailure::InSession(failure)),
    }
}

/// How the runs end the phase: a chunk that could not be written surfaces its
/// last failure; a chunk that could not be read abandons the session; and
/// with every chunk written the session is committed.
pub open spec fn serial_end<W: DestinationWriter>(
    writer: W,
    chunks: Seq<Result<W::Batch, LoadFailure>>,
    runs: Seq<Seq<Result<(), DestinationWriteFailure>>>,
    ended: Option<SessionEnd>,
    result: Result<WritePhaseOutcome, WritePhaseFailure>,
) -> bool {
    if runs.len() > 0 && runs.last().last() is Err {
        &&& ended is None
        &&& result == Err::<WritePhaseOutcome, _>(
            WritePhaseFailure::InSession(runs.last().last()->Err_0),
        )
    } else if runs.len() < chunks.len() {
        &&& chunks[runs.len() as int] is Err
        &&& ended matches Some(SessionEnd::Abandoned(abandoned))
        &&& may_abandon(writer, abandoned)
        &&& result == Err::<WritePhaseOutcome, _>(
            abandoned_failure(abandoned, chunks[runs.len() as int]->Err_0),
        )
    } else {
        &&& ended matches Some(SessionEnd::Committed(committed))
        &&& may_commit(writer, committed)
        &&& result == commit_result(committed, chunks.len() as u64)
    }
}

/// Whether a serial write phase over these chunks may take a session from one
/// state to another and end so, with this log and these waits after those
/// before it.
pub open spec fn serial_phase<W: DestinationWriter>(
    before: WriteSession<W>,
    after: WriteSession<W>,
    chunks: Seq<Result<W::Batch, LoadFailure>>,
    policy: RetryPolicy,
    log: Seq<RetryAttempt>,
    waits_before: Seq<u64>,
    waits: Seq<u64>,
    result: Result<WritePhaseOutcome, WritePhaseFailure>,
) -> bool {
    exists|runs: Seq<Seq<Result<(), DestinationWriteFailure>>>|
        {
            &&& #[trigger] serial_runs(&before.writer(), chunks, policy, runs)
            &&& serial_end(before.writer(), chunks, runs, after.ended(), result)
            &&& after.writer() == before.writer()
            &&& after.attempted() == before.attempted() + serial_attempts(
                before.writer(),
                chunks,
                policy,
                waits_before,
                runs,
            )
            &&& log == serial_log(policy, runs)
            &&& waits == serial_waits(policy, runs)
        }
}

/// Joins the failure that halted a session with what the destination holds.
fn join_abandoned(abandoned: AbandonedWrite, failure: LoadFailure) -> (surfaced: WritePhaseFailure)
    ensures
        surfaced == abandoned_failure(abandoned, failure),
{
    WritePhaseFailure::InSession(
        DestinationWriteFailure {
            failure,
            facts: abandoned.facts,
            written_records: abandoned.written_records,
            committed_chunks: abandoned.committed_chunks,
            transience: Transience::Terminal,
        },
    )
}

/// What a commit makes of the write phase.
fn conclude_commit(
    committed: Result<DestinationWrite, DestinationWriteFailure>,
    chunk_count: u64,
) -> (result: Result<WritePhaseOutcome, WritePhaseFailure>)
    ensures
        result == commit_result(committed, chunk_count),
{
    match committed {
        Ok(write) => Ok(
            WritePhaseOutcome {
                bytes_written: write.bytes_written,
                facts: write.facts,
                chunk_count,
            },
        ),
        Err(failure) => Err(WritePhaseFailure::InSession(failure)),
    }
}

/// Ends a halted session and joins the failure with what the destination
/// holds.
pub fn abandon_in_session<W: DestinationWriter>(
    writer: W,
    failure: LoadFailure,
) -> (surfaced: WritePhaseFailure)
    ensures
        exists|abandoned: AbandonedWrite|
            #[trigger] may_abandon(writer, abandoned) && surfaced == abandoned_failure(
                abandoned,
                failure,
            ),
{
    let abandoned = writer.abandon();
    proof {
        assert(may_abandon(writer, abandoned));
    }
    join_abandoned(abandoned, failure)
}

/// Commits a session whose every chunk was written.
pub fn commit_in_session<W: DestinationWriter>(writer: W, chunk_count: u64) -> (result: Result<
    WritePhaseOutcome,
    WritePhaseFailure,
>)
    ensures
        exists|committed: Result<DestinationWrite, DestinationWriteFailure>|
            #[trigger] may_commit(writer, committed) && result == commit_result(
                committed,
                chunk_count,
            ),
{
    let committed = writer.commit();
    proof {
        assert(may_commit(writer, committed));
    }
    conclude_commit(committed, chunk_count)
}

/// The sequential write phase: one chunk at a time, in stream order, each as
/// a retry unit of its own.
pub fn run_serial_write_phase<
    W: DestinationWriter,
    I: Iterator<Item = Result<W::Batch, LoadFailure>>,
    S: Sleeper,
>(
    chunks: I,
    session: &mut WriteSession<W>,
    retry_policy: &RetryPolicy,
    sleeper: &mut S,
    retry_attempts: &mut Vec<RetryAttempt>,
) -> (result: Result<WritePhaseOutcome, WritePhaseFailure>)
    requires
        old(session).is_open(),
        old(session).ended() is None,
        chunks.obeys_prophetic_iter_laws(),
        chunks.decrease() is Some,
        chunks.remaining().len() <= u64::MAX,
    ensures
        exists|log: Seq<RetryAttempt>, waits: Seq<u64>|
            {
                &&& #[trigger] serial_phase(
                    *old(session),
                    *final(session),
                    chunks.remaining(),
                    *retry_policy,
                    log,
                    old(sleeper).waits(),
                    waits,
                    result,
                )
                &&& final(retry_attempts)@ == old(retry_attempts)@ + log
                &&& final(sleeper).waits() == old(sleeper).waits() + waits
            },
{
    let ghost all = chunks.remaining();
    let ghost policy = *retry_policy;
    let ghost opened = *session;
    let ghost writer = session.writer();
    let ghost waited = sleeper.waits();
    let mut source = chunks;
    let mut chunk_count: u64 = 0;
    let ghost mut runs: Seq<Seq<Result<(), DestinationWriteFailure>>> = seq![];
    proof {
        assert(old(retry_attempts)@ =~= old(retry_attempts)@ + serial_log(policy, runs));
        assert(old(sleeper).waits() =~= old(sleeper).waits() + serial_waits(policy, runs));
        assert(opened.attempted() =~= opened.attempted() + serial_attempts(
            writer,
            all,
            policy,
            waited,
            runs,
        ));
        assert(all.skip(0) =~= all);
    }
    loop
        invariant
            source.obeys_prophetic_iter_laws(),
            source.decrease() is Some,
            all == chunks.remaining(),
            all.len() <= u64::MAX,
            chunk_count <= all.len(),
            chunk_count == runs.len(),
            policy == *retry_policy,
            opened == *old(session),
            writer == opened.writer(),
            waited == old(sleeper).waits(),
            session.is_open(),
            session.ended() is None,
            session.writer() == writer,
            session.attempted() == opened.attempted() + serial_attempts(
                writer,
                all,
                policy,
                waited,
                runs,
            ),
            source.remaining() == all.skip(chunk_count as int),
            serial_runs(&writer, all, policy, runs),
            runs.len() > 0 ==> runs.last().last() is Ok,
            retry_attempts@ == old(retry_attempts)@ + serial_log(policy, runs),
            sleeper.waits() == waited + serial_waits(policy, runs),
        ensures
            chunk_count == all.len(),
        decreases source.decrease()->0,
    {
        match source.next() {
            None => {
                break;
            },
            Some(Ok(batch)) => {
                proof {
                    assert(all[chunk_count as int] == Ok::<W::Batch, LoadFailure>(batch));
                }
                let ghost log_before = retry_attempts@;
                let ghost waits_before = sleeper.waits();
                let ghost made_before = session.attempted();
                session.take_chunk(batch);
                let unit = RetryUnit::WriteChunk { chunk_index: chunk_count };
                let written = run_unit(retry_policy, unit, retry_attempts, sleeper, session);
                let ghost runs_before = runs;
                proof {
                    let outcomes = choose|outcomes: Seq<Result<(), DestinationWriteFailure>>|
                        {
                            &&& #[trigger] unit_outcomes(policy, outcomes)
                            &&& outcomes_of::<(), WriteSession<W>>((writer, batch), outcomes)
                            &&& written == outcomes.last()
                            &&& session.attempted() == made_before + unit_attempts(
                                policy,
                                (writer, batch),
                                waits_before,
                                outcomes,
                            )
                            &&& retry_attempts@ == log_before + unit_log(policy, unit, outcomes)
                            &&& sleeper.waits() == waits_before + unit_waits(
                                policy,
                                outcomes.len(),
                            )
                        };
                    assert forall|k: int| 0 <= k < outcomes.len() implies may_write(
                        &writer,
                        &batch,
                        #[trigger] outcomes[k],
                    ) by {
                        assert(<WriteSession<W> as Operation<()>>::may_give(
                            (writer, batch),
                            outcomes[k],
                        ));
                    }
                    runs = runs_before.push(outcomes);
                    assert(runs.drop_last() =~= runs_before);
                    assert(serial_runs(&writer, all, policy, runs)) by {
                        assert forall|i: int| 0 <= i < runs.len() implies #[trigger] all[i] is Ok
                            && chunk_run(&writer, &all[i]->Ok_0, policy, runs[i]) by {
                            if i < runs_before.len() {
                                assert(runs[i] == runs_before[i]);
                            }
                        }
                        assert forall|i: int| 0 <= i < runs.len() - 1 implies (
                        #[trigger] runs[i]).last() is Ok by {
                            assert(runs[i] == runs_before[i]);
                        }
                    }
                    assert(retry_attempts@ =~= old(retry_attempts)@ + serial_log(policy, runs));
                    assert(sleeper.waits() =~= waited + serial_waits(policy, runs));
                    assert(session.attempted() =~= opened.attempted() + serial_attempts(
                        writer,
                        all,
                        policy,
                        waited,
                        runs,
                    ));
                }
                match written {
                    Ok(_) => {
                        proof {
                            assert(all.skip(chunk_count as int + 1) =~= all.skip(
                                chunk_count as int,
                            ).drop_first());
                        }
                        chunk_count = chunk_count + 1;
                    },
                    Err(failure) => {
                        let result = Err(WritePhaseFailure::InSession(failure));
                        proof {
                            assert(serial_end(writer, all, runs, session.ended(), result));
                            assert(serial_phase(
                                opened,
                                *session,
                                all,
                                policy,
                                serial_log(policy, runs),
                                waited,
                                serial_waits(policy, runs),
                                result,
                            ));
                        }
                        return result;
                    },
                }
            },
            Some(Err(source_failure)) => {
                proof {
                    assert(all[chunk_count as int] == Err::<W::Batch, LoadFailure>(source_failure));
                }
                let result = Err(join_abandoned(session.abandon(), source_failure));
                proof {
                    assert(serial_end(writer, all, runs, session.ended(), result));
                    assert(serial_phase(
                        opened,
                        *session,
                        all,
                        policy,
                        serial_log(policy, runs),
                        waited,
                        serial_waits(policy, runs),
                        result,
                    ));
                }
                return result;
            },
        }
    }
    let result = conclude_commit(session.commit(), chunk_count);
    proof {
        assert(serial_end(writer, all, runs, session.ended(), result));
        assert(serial_phase(
            opened,
            *session,
            all,
            policy,
            serial_log(policy, runs),
            waited,
            serial_waits(policy, runs),
            result,
        ));
    }
    result
}

/// What a write phase hands back: how it ended, and the failed attempts of its
/// retried units.
pub struct WrittenPhase {
    pub result: Result<WritePhaseOutcome, WritePhaseFailure>,
    pub attempts: Vec<RetryAttempt>,
}

/// The outcomes of the attempts at opening the session.
pub open spec fn begin_run<D: Destination>(
    destination: D,
    mode: LoadMode,
    policy: RetryPolicy,
    outcomes: Seq<Result<WriteSession<D::Writer>, DestinationWriteFailure>>,
) -> bool {
    &&& unit_outcomes(policy, outcomes)
    &&& forall|k: int|
        0 <= k < outcomes.len() ==> may_open(destination, mode, #[trigger] outcomes[k])
}

/// Whether the write phase may end so once a session is open, and leave the
/// session as `after`. `stream` is what `chunks` yields.
pub open spec fn session_phase<
    W: DestinationWriter,
    I: Iterator<Item = Result<W::Batch, LoadFailure>>,
    P: FnOnce(I, WriteSession<W>, NonZeroCount) -> WrittenPhase,
>(
    session: WriteSession<W>,
    after: Option<WriteSession<W>>,
    chunks: I,
    stream: Seq<Result<W::Batch, LoadFailure>>,
    parallelism: NonZeroCount,
    policy: RetryPolicy,
    windowed: P,
    log: Seq<RetryAttempt>,
    waits_before: Seq<u64>,
    waits: Seq<u64>,
    result: Result<WritePhaseOutcome, WritePhaseFailure>,
) -> bool {
    if parallelism.number() == 1 {
        &&& after matches Some(after)
        &&& serial_phase(session, after, stream, policy, log, waits_before, waits, result)
    } else {
        &&& after is None
        &&& exists|write: WrittenPhase|
            {
                &&& #[trigger] windowed.ensures((chunks, session, parallelism), write)
                &&& result == write.result
                &&& log == write.attempts@
                &&& waits == Seq::<u64>::empty()
            }
    }
}

/// Runs the write phase of a load. Opening the session is a retry unit of its
/// own; at a parallelism of one the chunks are written one by one, and above
/// it they go through the window that `windowed` runs.
pub fn run_write_phase<
    D: Destination,
    I: Iterator<Item = Result<<D::Writer as DestinationWriter>::Batch, LoadFailure>>,
    S: Sleeper,
    P: FnOnce(I, WriteSession<D::Writer>, NonZeroCount) -> WrittenPhase,
>(
    chunks: I,
    load: &mut LoadSession<D>,
    parallelism: NonZeroCount,
    retry_policy: &RetryPolicy,
    sleeper: &mut S,
    retry_attempts: &mut Vec<RetryAttempt>,
    windowed: P,
) -> (result: Result<WritePhaseOutcome, WritePhaseFailure>)
    requires
        old(load).session is None,
        parallelism.number() == 1 ==> {
            &&& chunks.obeys_prophetic_iter_laws()
            &&& chunks.decrease() is Some
            &&& chunks.remaining().len() <= u64::MAX
        },
        parallelism.number() != 1 ==> forall|session: WriteSession<D::Writer>|
            session.is_fresh() ==> #[trigger] windowed.requires((chunks, session, parallelism)),
    ensures
        final(load).opener.target() == old(load).opener.target(),
        exists|opening: Seq<Result<WriteSession<D::Writer>, DestinationWriteFailure>>|
            {
                &&& #[trigger] begin_run(
                    old(load).opener.target().0,
                    old(load).opener.target().1,
                    *retry_policy,
                    opening,
                )
                &&& final(load).opener.attempted() == old(load).opener.attempted() + unit_attempts(
                    *retry_policy,
                    old(load).opener.target(),
                    old(sleeper).waits(),
                    opening,
                )
                &&& match opening.last() {
                    Err(failure) => {
                        &&& final(load).session is None
                        &&& result == Err::<WritePhaseOutcome, _>(
                            WritePhaseFailure::BeforeSession(failure),
                        )
                        &&& final(retry_attempts)@ == old(retry_attempts)@ + unit_log(
                            *retry_policy,
                            RetryUnit::Begin,
                            opening,
                        )
                        &&& final(sleeper).waits() == old(sleeper).waits() + unit_waits(
                            *retry_policy,
                            opening.len(),
                        )
                    },
                    Ok(session) => exists|log: Seq<RetryAttempt>, waits: Seq<u64>|
                        {
                            &&& #[trigger] session_phase(
                                session,
                                final(load).session,
                                chunks,
                                chunks.remaining(),
                                parallelism,
                                *retry_policy,
                                windowed,
                                log,
                                old(sleeper).waits() + unit_waits(*retry_policy, opening.len()),
                                waits,
                                result,
                            )
                            &&& final(retry_attempts)@ == old(retry_attempts)@ + unit_log(
                                *retry_policy,
                                RetryUnit::Begin,
                                opening,
                            ) + log
                            &&& final(sleeper).waits() == old(sleeper).waits() + unit_waits(
                                *retry_policy,
                                opening.len(),
                            ) + waits
                        },
                }
            },
{
    let ghost policy = *retry_policy;
    let ghost target = load.opener.target();
    let opened = run_unit(
        retry_policy,
        RetryUnit::Begin,
        retry_attempts,
        sleeper,
        &mut load.opener,
    );
    let ghost opening = choose|
        opening: Seq<Result<WriteSession<D::Writer>, DestinationWriteFailure>>,
    |
        {
            &&& #[trigger] unit_outcomes(policy, opening)
            &&& outcomes_of::<WriteSession<D::Writer>, SessionOpener<D>>(target, opening)
            &&& opened == opening.last()
            &&& load.opener.attempted() == old(load).opener.attempted() + unit_attempts(
                policy,
                target,
                old(sleeper).waits(),
                opening,
            )
            &&& retry_attempts@ == old(retry_attempts)@ + unit_log(
                policy,
                RetryUnit::Begin,
                opening,
            )
            &&& sleeper.waits() == old(sleeper).waits() + unit_waits(policy, opening.len())
        };
    proof {
        assert forall|k: int| 0 <= k < opening.len() implies may_open(
            target.0,
            target.1,
            #[trigger] opening[k],
        ) by {
            assert(<SessionOpener<D> as Operation<WriteSession<D::Writer>>>::may_give(
                target,
                opening[k],
            ));
        }
        assert(begin_run(target.0, target.1, policy, opening));
    }
    match opened {
        Err(failure) => Err(WritePhaseFailure::BeforeSession(failure)),
        Ok(session) => {
            let ghost log_before = retry_attempts@;
            let ghost waits_before = sleeper.waits();
            let ghost begun = session;
            if parallelism.get() == 1 {
                let mut session_now = session;
                let result = run_serial_write_phase(
                    chunks,
                    &mut session_now,
                    retry_policy,
                    sleeper,
                    retry_attempts,
                );
                let ghost after = session_now;
                load.session = Some(session_now);
                proof {
                    let (log, waits) = choose|log: Seq<RetryAttempt>, waits: Seq<u64>|
                        {
                            &&& #[trigger] serial_phase(
                                begun,
                                after,
                                chunks.remaining(),
                                policy,
                                log,
                                waits_before,
                                waits,
                                result,
                            )
                            &&& retry_attempts@ == log_before + log
                            &&& sleeper.waits() == waits_before + waits
                        };
                    assert(session_phase(
                        begun,
                        load.session,
                        chunks,
                        chunks.remaining(),
                        parallelism,
                        policy,
                        windowed,
                        log,
                        waits_before,
                        waits,
                        result,
                    ));
                }
                result
            } else {
                let mut write = windowed(chunks, session, parallelism);
                let ghost handed = write;
                retry_attempts.append(&mut write.attempts);
                proof {
                    let none = Seq::<u64>::empty();
                    assert(windowed.ensures((chunks, begun, parallelism), handed));
                    assert(session_phase(
                        begun,
                        load.session,
                        chunks,
                        chunks.remaining(),
                        parallelism,
                        policy,
                        windowed,
                        handed.attempts@,
                        waits_before,
                        none,
                        write.result,
                    ));
                    assert(sleeper.waits() =~= sleeper.waits() + none);
                }
                write.result
            }
        },
    }
}

/// A serial load logs its retries in report order: first those of opening the
/// session, then chunk by chunk. So its report lists them as they happened.
pub proof fn law_serial_log_is_reported_as_written<W>(
    policy: RetryPolicy,
    opening: Seq<Result<W, DestinationWriteFailure>>,
    runs: Seq<Seq<Result<(), DestinationWriteFailure>>>,
)
    requires
        unit_outcomes(policy, opening),
        forall|i: int| 0 <= i < runs.len() ==> unit_outcomes(policy, #[trigger] runs[i]),
        runs.len() <= u64::MAX,
    ensures
        ({
            let log = unit_log(policy, RetryUnit::Begin, opening) + serial_log(policy, runs);
            &&& ordered(log)
            &&& in_report_order(log) == log
        }),
{
    let begun = unit_log(policy, RetryUnit::Begin, opening);
    let written = serial_log(policy, runs);
    let log = begun + written;
    law_unit_log_is_ordered(policy, RetryUnit::Begin, opening);
    lemma_serial_log_is_ordered(policy, runs);
    assert forall|i: int, j: int| 0 <= i < j < log.len() implies not_after(
        report_position(#[trigger] log[i]),
        report_position(#[trigger] log[j]),
    ) by {
        if j < begun.len() {
            assert(not_after(report_position(begun[i]), report_position(begun[j])));
        } else if i < begun.len() {
            assert(report_position(log[i]).0 == 0);
            assert(log[j] == written[j - begun.len()]);
        } else {
            assert(log[i] == written[i - begun.len()]);
            assert(log[j] == written[j - begun.len()]);
        }
    }
    law_ordered_log_is_reported_as_written(log);
}

proof fn lemma_serial_log_is_ordered(
    policy: RetryPolicy,
    runs: Seq<Seq<Result<(), DestinationWriteFailure>>>,
)
    requires
        forall|i: int| 0 <= i < runs.len() ==> unit_outcomes(policy, #[trigger] runs[i]),
        runs.len() <= u64::MAX,
    ensures
        ordered(serial_log(policy, runs)),
        forall|i: int|
            0 <= i < serial_log(policy, runs).len() ==> {
                let position = report_position(#[trigger] serial_log(policy, runs)[i]);
                position.0 == 1 && position.1 < runs.len()
            },
    decreases runs.len(),
{
    if runs.len() > 0 {
        let shorter = runs.drop_last();
        assert forall|i: int| 0 <= i < shorter.len() implies unit_outcomes(
            policy,
            #[trigger] shorter[i],
        ) by {
            assert(unit_outcomes(policy, runs[i]));
        }
        assert(unit_outcomes(policy, runs[runs.len() - 1]));
        lemma_serial_log_is_ordered(policy, shorter);
        let unit = RetryUnit::WriteChunk { chunk_index: (runs.len() - 1) as u64 };
        let before = serial_log(policy, shorter);
        let added = unit_log(policy, unit, runs.last());
        law_unit_log_is_ordered(policy, unit, runs.last());
        let log = serial_log(policy, runs);
        assert(log == before + added);
        assert forall|i: int| 0 <= i < log.len() implies ({
            let position = report_position(#[trigger] log[i]);
            position.0 == 1 && position.1 < runs.len()
        }) by {
            if i < before.len() {
                assert(log[i] == before[i]);
            } else {
                assert(log[i] == added[i - before.len()]);
            }
        }
        assert forall|i: int, j: int| 0 <= i < j < log.len() implies not_after(
            report_position(#[trigger] log[i]),
            report_position(#[trigger] log[j]),
        ) by {
            if j < before.len() {
                assert(log[i] == before[i] && log[j] == before[j]);
            } else if i < before.len() {
                assert(log[i] == before[i]);
                assert(log[j] == added[j - before.len()]);
                assert(report_position(before[i]).1 < shorter.len());
            } else {
                assert(log[i] == added[i - before.len()]);
                assert(log[j] == added[j - before.len()]);
            }
        }
    }
}

/// A commit that went well is handed on as it is, with the chunks that were written;
/// one that failed is a failure within the session.
pub proof fn law_commit_is_handed_on<W: DestinationWriter>(
    writer: W,
    chunk_count: u64,
    result: Result<WritePhaseOutcome, WritePhaseFailure>,
)
    requires
        call_ensures(commit_in_session::<W>, (writer, chunk_count), result),
    ensures
        exists|committed: Result<DestinationWrite, DestinationWriteFailure>|
            {
                &&& #[trigger] call_ensures(W::commit, (writer,), committed)
                &&& committed matches Ok(write) ==> (result matches Ok(outcome)
                    && outcome.bytes_written == write.bytes_written && outcome.facts == write.facts
                    && outcome.chunk_count == chunk_count)
                &&& committed matches Err(failure) ==> (result matches Err(
                    WritePhaseFailure::InSession(raised),
                ) && raised == failure)
            },
{
    let committed = choose|committed: Result<DestinationWrite, DestinationWriteFailure>|
        #[trigger] may_commit(writer, committed) && result == commit_result(committed, chunk_count);
    assert(call_ensures(W::commit, (writer,), committed));
}

/// A halted session surfaces the failure that halted it, with what the destination
/// holds of the load once the session was abandoned, and is not attempted again.
pub proof fn law_abandoned_session_tells_what_is_left<W: DestinationWriter>(
    writer: W,
    failure: LoadFailure,
    surfaced: WritePhaseFailure,
)
    requires
        call_ensures(abandon_in_session::<W>, (writer, failure), surfaced),
    ensures
        exists|abandoned: AbandonedWrite|
            {
                &&& #[trigger] call_ensures(W::abandon, (writer,), abandoned)
                &&& surfaced matches WritePhaseFailure::InSession(raised)
                &&& raised.failure == failure
                &&& raised.facts == abandoned.facts
                &&& raised.written_records == abandoned.written_records
                &&& raised.committed_chunks == abandoned.committed_chunks
                &&& raised.transience == Transience::Terminal
            },
{
    let abandoned = choose|abandoned: AbandonedWrite|
        #[trigger] may_abandon(writer, abandoned) && surfaced == abandoned_failure(
            abandoned,
            failure,
        );
    assert(call_ensures(W::abandon, (writer,), abandoned));
}

/// How many attempts the first runs hold.
pub open spec fn attempts_before(
    runs: Seq<Seq<Result<(), DestinationWriteFailure>>>,
    i: int,
) -> nat
    decreases i,
{
    if i <= 0 {
        0
    } else {
        attempts_before(runs, i - 1) + runs[i - 1].len()
    }
}

proof fn lemma_attempts_before(
    runs: Seq<Seq<Result<(), DestinationWriteFailure>>>,
    more: Seq<Result<(), DestinationWriteFailure>>,
    i: int,
)
    requires
        0 <= i <= runs.len(),
    ensures
        attempts_before(runs.push(more), i) == attempts_before(runs, i),
    decreases i,
{
    if i > 0 {
        lemma_attempts_before(runs, more, i - 1);
        assert(runs.push(more)[i - 1] == runs[i - 1]);
    }
}

proof fn lemma_serial_waits(
    policy: RetryPolicy,
    runs: Seq<Seq<Result<(), DestinationWriteFailure>>>,
)
    requires
        forall|i: int| 0 <= i < runs.len() ==> (#[trigger] runs[i]).len() >= 1,
    ensures
        serial_waits(policy, runs).len() == attempts_before(runs, runs.len() as int) - runs.len(),
    decreases runs.len(),
{
    if runs.len() > 0 {
        let shorter = runs.drop_last();
        let last = runs.len() - 1;
        assert(shorter.push(runs.last()) =~= runs);
        assert forall|i: int| 0 <= i < shorter.len() implies (#[trigger] shorter[i]).len() >= 1 by {
            assert(shorter[i] == runs[i]);
        }
        lemma_serial_waits(policy, shorter);
        lemma_attempts_before(shorter, runs.last(), last);
        assert(runs[last].len() >= 1);
        assert(unit_waits(policy, runs.last().len()).len() == runs.last().len() - 1);
    }
}

proof fn lemma_serial_attempts<W: DestinationWriter>(
    writer: W,
    chunks: Seq<Result<W::Batch, LoadFailure>>,
    policy: RetryPolicy,
    waits: Seq<u64>,
    runs: Seq<Seq<Result<(), DestinationWriteFailure>>>,
)
    requires
        forall|i: int| 0 <= i < runs.len() ==> (#[trigger] runs[i]).len() >= 1,
    ensures
        ({
            let made = serial_attempts(writer, chunks, policy, waits, runs);
            &&& made.len() == attempts_before(runs, runs.len() as int)
            &&& forall|i: int, k: int|
                #![trigger runs[i][k]]
                0 <= i < runs.len() && 0 <= k < runs[i].len() ==> {
                    let at = attempts_before(runs, i) + k;
                    &&& at < made.len()
                    &&& made[at].target == (writer, chunks[i]->Ok_0)
                    &&& made[at].outcome == runs[i][k]
                    &&& made[at].waits.len() == waits.len() + attempts_before(runs, i) - i + k
                    &&& k > 0 ==> made[at].waits.last() == backoff_ms(policy, (k + 1) as nat)
                }
        }),
    decreases runs.len(),
{
    if runs.len() > 0 {
        let shorter = runs.drop_last();
        let last = runs.len() - 1;
        assert(shorter.push(runs.last()) =~= runs);
        assert forall|i: int| 0 <= i < shorter.len() implies (#[trigger] shorter[i]).len()
            >= 1 by {
            assert(shorter[i] == runs[i]);
        }
        lemma_serial_waits(policy, shorter);
        lemma_serial_attempts(writer, chunks, policy, waits, shorter);
        lemma_attempts_before(shorter, runs.last(), last);
        let before = serial_attempts(writer, chunks, policy, waits, shorter);
        let made = serial_attempts(writer, chunks, policy, waits, runs);
        assert(made.len() == before.len() + runs.last().len());
        assert forall|i: int, k: int|
            #![trigger runs[i][k]]
            0 <= i < runs.len() && 0 <= k < runs[i].len() implies ({
            let at = attempts_before(runs, i) + k;
            &&& at < made.len()
            &&& made[at].target == (writer, chunks[i]->Ok_0)
            &&& made[at].outcome == runs[i][k]
            &&& made[at].waits.len() == waits.len() + attempts_before(runs, i) - i + k
            &&& k > 0 ==> made[at].waits.last() == backoff_ms(policy, (k + 1) as nat)
        }) by {
            lemma_attempts_before(shorter, runs.last(), i);
            let at = attempts_before(runs, i) + k;
            if i < last {
                assert(shorter[i] == runs[i]);
                assert(shorter[i][k] == runs[i][k]);
                assert(made[at] == before[at]);
            } else {
                let waited = waits + serial_waits(policy, shorter);
                assert(made[at] == unit_attempts(
                    policy,
                    (writer, chunks[last]->Ok_0),
                    waited,
                    runs.last(),
                )[k]);
                assert(made[at].waits == waited + unit_waits(policy, (k + 1) as nat));
            }
        }
    }
}

/// Whether each of these runs writes its chunk: once at least and no more often than
/// the policy allows, again only after a transient failure, and no chunk after one
/// that failed for good.
pub open spec fn runs_write_their_chunks<W: DestinationWriter>(
    writer: W,
    all: Seq<Result<W::Batch, LoadFailure>>,
    policy: RetryPolicy,
    runs: Seq<Seq<Result<(), DestinationWriteFailure>>>,
) -> bool {
    &&& runs.len() <= all.len()
    &&& forall|i: int|
        #![trigger runs[i]]
        0 <= i < runs.len() ==> all[i] is Ok && 1 <= runs[i].len() <= policy.max_attempts.number()
    &&& forall|i: int, k: int|
        #![trigger runs[i][k]]
        0 <= i < runs.len() && 0 <= k < runs[i].len() ==> call_ensures(
            W::write_chunk,
            (&writer, &all[i]->Ok_0),
            runs[i][k],
        )
    &&& forall|i: int, k: int|
        #![trigger runs[i][k]]
        0 <= i < runs.len() && 0 <= k < runs[i].len() - 1 ==> runs[i][k] is Err
            && runs[i][k]->Err_0.transience == Transience::Transient
    &&& forall|i: int|
        #![trigger runs[i]]
        0 <= i < runs.len() - 1 ==> runs[i][runs[i].len() - 1] is Ok
    &&& forall|i: int|
        #![trigger runs[i]]
        0 <= i < runs.len() && runs[i].last() is Err && runs[i].last()->Err_0.transience
            == Transience::Transient ==> runs[i].len() == policy.max_attempts.number()
}

/// Whether the attempts of these runs were made one after another, chunk by chunk,
/// behind those made before, and each but the first of a chunk after its wait.
pub open spec fn runs_follow_the_stream<W: DestinationWriter>(
    writer: W,
    all: Seq<Result<W::Batch, LoadFailure>>,
    policy: RetryPolicy,
    waits_before: Seq<u64>,
    before: Seq<Attempt<(W, W::Batch), ()>>,
    made: Seq<Attempt<(W, W::Batch), ()>>,
    runs: Seq<Seq<Result<(), DestinationWriteFailure>>>,
) -> bool {
    let start = before.len();
    &&& made.len() == start + attempts_before(runs, runs.len() as int)
    &&& made.take(start as int) == before
    &&& forall|i: int, k: int|
        #![trigger runs[i][k]]
        0 <= i < runs.len() && 0 <= k < runs[i].len() ==> {
            let at = start + attempts_before(runs, i) + k;
            &&& made[at].target == (writer, all[i]->Ok_0)
            &&& made[at].outcome == runs[i][k]
            &&& made[at].waits.len() == waits_before.len() + attempts_before(runs, i) - i + k
            &&& k > 0 ==> made[at].waits.last() == backoff_ms(policy, (k + 1) as nat)
        }
}

/// Whether a serial load ends so after these runs: with the last failure of a chunk
/// that cannot be written, with what an abandoned session leaves where a chunk cannot
/// be read, and with the commit where every chunk was written.
pub open spec fn runs_end_so<W: DestinationWriter>(
    writer: W,
    all: Seq<Result<W::Batch, LoadFailure>>,
    runs: Seq<Seq<Result<(), DestinationWriteFailure>>>,
    ended: Option<SessionEnd>,
    result: Result<WritePhaseOutcome, WritePhaseFailure>,
) -> bool {
    if runs.len() > 0 && runs.last().last() is Err {
        &&& ended is None
        &&& result matches Err(WritePhaseFailure::InSession(raised)) && raised
            == runs.last().last()->Err_0
    } else if runs.len() < all.len() {
        &&& all[runs.len() as int] is Err
        &&& ended matches Some(SessionEnd::Abandoned(left))
        &&& call_ensures(W::abandon, (writer,), left)
        &&& result matches Err(WritePhaseFailure::InSession(raised))
        &&& raised.failure == all[runs.len() as int]->Err_0
        &&& raised.facts == left.facts
        &&& raised.written_records == left.written_records
        &&& raised.committed_chunks == left.committed_chunks
        &&& raised.transience == Transience::Terminal
    } else {
        &&& ended matches Some(SessionEnd::Committed(committed))
        &&& call_ensures(W::commit, (writer,), committed)
        &&& committed matches Ok(write) ==> (result matches Ok(outcome) && outcome.bytes_written
            == write.bytes_written && outcome.facts == write.facts && outcome.chunk_count
            == all.len())
        &&& committed matches Err(failure) ==> (result matches Err(
            WritePhaseFailure::InSession(raised),
        ) && raised == failure)
    }
}

proof fn lemma_runs_write_their_chunks<W: DestinationWriter>(
    writer: W,
    all: Seq<Result<W::Batch, LoadFailure>>,
    policy: RetryPolicy,
    runs: Seq<Seq<Result<(), DestinationWriteFailure>>>,
)
    requires
        serial_runs(&writer, all, policy, runs),
    ensures
        runs_write_their_chunks(writer, all, policy, runs),
{
    assert forall|i: int| #![trigger runs[i]] 0 <= i < runs.len() implies all[i] is Ok && 1
        <= runs[i].len() <= policy.max_attempts.number() by {
        assert(all[i] is Ok && chunk_run(&writer, &all[i]->Ok_0, policy, runs[i]));
    }
    assert forall|i: int, k: int|
        #![trigger runs[i][k]]
        0 <= i < runs.len() && 0 <= k < runs[i].len() implies call_ensures(
        W::write_chunk,
        (&writer, &all[i]->Ok_0),
        runs[i][k],
    ) by {
        assert(all[i] is Ok && chunk_run(&writer, &all[i]->Ok_0, policy, runs[i]));
        assert(may_write(&writer, &all[i]->Ok_0, runs[i][k]));
    }
    assert forall|i: int, k: int|
        #![trigger runs[i][k]]
        0 <= i < runs.len() && 0 <= k < runs[i].len() - 1 implies runs[i][k] is Err
        && runs[i][k]->Err_0.transience == Transience::Transient by {
        assert(all[i] is Ok && chunk_run(&writer, &all[i]->Ok_0, policy, runs[i]));
    }
    assert forall|i: int| #![trigger runs[i]] 0 <= i < runs.len() - 1 implies runs[i][runs[i].len()
        - 1] is Ok by {
        assert(runs[i].last() is Ok);
    }
    assert forall|i: int|
        #![trigger runs[i]]
        0 <= i < runs.len() && runs[i].last() is Err && runs[i].last()->Err_0.transience
            == Transience::Transient implies runs[i].len() == policy.max_attempts.number() by {
        assert(all[i] is Ok && chunk_run(&writer, &all[i]->Ok_0, policy, runs[i]));
    }
}

proof fn lemma_runs_follow_the_stream<W: DestinationWriter>(
    writer: W,
    all: Seq<Result<W::Batch, LoadFailure>>,
    policy: RetryPolicy,
    waits: Seq<u64>,
    before: Seq<Attempt<(W, W::Batch), ()>>,
    runs: Seq<Seq<Result<(), DestinationWriteFailure>>>,
)
    requires
        forall|i: int| 0 <= i < runs.len() ==> (#[trigger] runs[i]).len() >= 1,
    ensures
        runs_follow_the_stream(
            writer,
            all,
            policy,
            waits,
            before,
            before + serial_attempts(writer, all, policy, waits, runs),
            runs,
        ),
{
    lemma_serial_attempts(writer, all, policy, waits, runs);
    let block = serial_attempts(writer, all, policy, waits, runs);
    let made = before + block;
    let start = before.len() as int;
    assert(made.take(start) =~= before);
    assert forall|i: int, k: int|
        #![trigger runs[i][k]]
        0 <= i < runs.len() && 0 <= k < runs[i].len() implies ({
        let at = start + attempts_before(runs, i) + k;
        &&& made[at].target == (writer, all[i]->Ok_0)
        &&& made[at].outcome == runs[i][k]
        &&& made[at].waits.len() == waits.len() + attempts_before(runs, i) - i + k
        &&& k > 0 ==> made[at].waits.last() == backoff_ms(policy, (k + 1) as nat)
    }) by {
        let at = attempts_before(runs, i) + k;
        assert(made[start + at] == block[at]);
    }
}

/// How many attempts of a run failed and are told in the log: none of a run without a
/// retry.
pub open spec fn told_of(run: Seq<Result<(), DestinationWriteFailure>>) -> nat {
    if run.len() <= 1 {
        0
    } else if run.last() is Ok {
        (run.len() - 1) as nat
    } else {
        run.len()
    }
}

/// How many attempts of the first runs are told in the log.
pub open spec fn told_before(
    runs: Seq<Seq<Result<(), DestinationWriteFailure>>>,
    i: int,
) -> nat
    decreases i,
{
    if i <= 0 {
        0
    } else {
        told_before(runs, i - 1) + told_of(runs[i - 1])
    }
}

proof fn lemma_told_before(
    runs: Seq<Seq<Result<(), DestinationWriteFailure>>>,
    more: Seq<Result<(), DestinationWriteFailure>>,
    i: int,
)
    requires
        0 <= i <= runs.len(),
    ensures
        told_before(runs.push(more), i) == told_before(runs, i),
    decreases i,
{
    if i > 0 {
        lemma_told_before(runs, more, i - 1);
        assert(runs.push(more)[i - 1] == runs[i - 1]);
    }
}

proof fn lemma_serial_log(
    policy: RetryPolicy,
    runs: Seq<Seq<Result<(), DestinationWriteFailure>>>,
)
    requires
        runs.len() <= u64::MAX,
        forall|i: int|
            0 <= i < runs.len() ==> 1 <= (#[trigger] runs[i]).len() <= policy.max_attempts.number(),
    ensures
        ({
            let log = serial_log(policy, runs);
            &&& log.len() == told_before(runs, runs.len() as int)
            &&& forall|i: int, k: int|
                #![trigger runs[i][k]]
                0 <= i < runs.len() && 0 <= k < told_of(runs[i]) ==> {
                    let at = told_before(runs, i) + k;
                    let failure = runs[i][k]->Err_0.failure;
                    &&& at < log.len()
                    &&& log[at].unit == (RetryUnit::WriteChunk { chunk_index: i as u64 })
                    &&& log[at].attempt == k + 1
                    &&& log[at].code@ == failure.code@
                    &&& log[at].message@ == failure.message@
                    &&& k + 1 < runs[i].len() ==> log[at].delay_before_retry_ms == Some(
                        backoff_ms(policy, (k + 2) as nat),
                    )
                    &&& k + 1 == runs[i].len() ==> log[at].delay_before_retry_ms is None
                }
        }),
    decreases runs.len(),
{
    if runs.len() > 0 {
        let shorter = runs.drop_last();
        let last = runs.len() - 1;
        assert(shorter.push(runs.last()) =~= runs);
        assert forall|i: int| 0 <= i < shorter.len() implies 1 <= (#[trigger] shorter[i]).len()
            <= policy.max_attempts.number() by {
            assert(shorter[i] == runs[i]);
        }
        lemma_serial_log(policy, shorter);
        lemma_told_before(shorter, runs.last(), last);
        let before = serial_log(policy, shorter);
        let log = serial_log(policy, runs);
        assert(1 <= runs[last].len() <= policy.max_attempts.number());
        assert(log.len() == before.len() + told_of(runs.last()));
        assert forall|i: int, k: int|
            #![trigger runs[i][k]]
            0 <= i < runs.len() && 0 <= k < told_of(runs[i]) implies ({
            let at = told_before(runs, i) + k;
            let failure = runs[i][k]->Err_0.failure;
            &&& at < log.len()
            &&& log[at].unit == (RetryUnit::WriteChunk { chunk_index: i as u64 })
            &&& log[at].attempt == k + 1
            &&& log[at].code@ == failure.code@
            &&& log[at].message@ == failure.message@
            &&& k + 1 < runs[i].len() ==> log[at].delay_before_retry_ms == Some(
                backoff_ms(policy, (k + 2) as nat),
            )
            &&& k + 1 == runs[i].len() ==> log[at].delay_before_retry_ms is None
        }) by {
            lemma_told_before(shorter, runs.last(), i);
            let at = told_before(runs, i) + k;
            if i < last {
                assert(shorter[i] == runs[i]);
                assert(shorter[i][k] == runs[i][k]);
                assert(log[at] == before[at]);
            } else {
                assert(log[at] == unit_log(
                    policy,
                    RetryUnit::WriteChunk { chunk_index: last as u64 },
                    runs.last(),
                )[k]);
            }
        }
    }
}

/// Whether the log tells these runs, behind what it told before: every failed attempt
/// of a chunk that was retried, chunk by chunk in stream order, with the place of the
/// chunk in the stream, the number of the attempt, its failure, and the wait that
/// followed it, if any did.
pub open spec fn runs_are_logged(
    policy: RetryPolicy,
    runs: Seq<Seq<Result<(), DestinationWriteFailure>>>,
    before: Seq<RetryAttempt>,
    log: Seq<RetryAttempt>,
) -> bool {
    let start = before.len();
    &&& log.len() == start + told_before(runs, runs.len() as int)
    &&& log.take(start as int) == before
    &&& forall|i: int, k: int|
        #![trigger runs[i][k]]
        0 <= i < runs.len() && 0 <= k < told_of(runs[i]) ==> {
            let entry = log[start + told_before(runs, i) + k];
            let failure = runs[i][k]->Err_0.failure;
            &&& entry.unit == (RetryUnit::WriteChunk { chunk_index: i as u64 })
            &&& entry.attempt == k + 1
            &&& entry.code@ == failure.code@
            &&& entry.message@ == failure.message@
            &&& k + 1 < runs[i].len() ==> entry.delay_before_retry_ms == Some(
                backoff_ms(policy, (k + 2) as nat),
            )
            &&& k + 1 == runs[i].len() ==> entry.delay_before_retry_ms is None
        }
}

proof fn lemma_runs_are_logged(
    policy: RetryPolicy,
    runs: Seq<Seq<Result<(), DestinationWriteFailure>>>,
    before: Seq<RetryAttempt>,
)
    requires
        runs.len() <= u64::MAX,
        forall|i: int|
            0 <= i < runs.len() ==> 1 <= (#[trigger] runs[i]).len() <= policy.max_attempts.number(),
    ensures
        runs_are_logged(policy, runs, before, before + serial_log(policy, runs)),
{
    lemma_serial_log(policy, runs);
    let added = serial_log(policy, runs);
    let log = before + added;
    let start = before.len() as int;
    assert(log.take(start) =~= before);
    assert forall|i: int, k: int|
        #![trigger runs[i][k]]
        0 <= i < runs.len() && 0 <= k < told_of(runs[i]) implies ({
        let entry = log[start + told_before(runs, i) + k];
        let failure = runs[i][k]->Err_0.failure;
        &&& entry.unit == (RetryUnit::WriteChunk { chunk_index: i as u64 })
        &&& entry.attempt == k + 1
        &&& entry.code@ == failure.code@
        &&& entry.message@ == failure.message@
        &&& k + 1 < runs[i].len() ==> entry.delay_before_retry_ms == Some(
            backoff_ms(policy, (k + 2) as nat),
        )
        &&& k + 1 == runs[i].len() ==> entry.delay_before_retry_ms is None
    }) by {
        let at = told_before(runs, i) + k;
        assert(log[start + at] == added[at]);
    }
}

proof fn lemma_serial_phase_tells<W: DestinationWriter>(
    before: WriteSession<W>,
    after: WriteSession<W>,
    all: Seq<Result<W::Batch, LoadFailure>>,
    policy: RetryPolicy,
    added: Seq<RetryAttempt>,
    waits_before: Seq<u64>,
    waits: Seq<u64>,
    result: Result<WritePhaseOutcome, WritePhaseFailure>,
    log: Seq<RetryAttempt>,
)
    requires
        all.len() <= u64::MAX,
        serial_phase(before, after, all, policy, added, waits_before, waits, result),
    ensures
        after.writer() == before.writer(),
        exists|runs: Seq<Seq<Result<(), DestinationWriteFailure>>>|
            {
                &&& #[trigger] runs_write_their_chunks(before.writer(), all, policy, runs)
                &&& runs_follow_the_stream(
                    before.writer(),
                    all,
                    policy,
                    waits_before,
                    before.attempted(),
                    after.attempted(),
                    runs,
                )
                &&& runs_end_so(before.writer(), all, runs, after.ended(), result)
                &&& runs_are_logged(policy, runs, log, log + added)
            },
{
    let writer = before.writer();
    let runs = choose|runs: Seq<Seq<Result<(), DestinationWriteFailure>>>|
        {
            &&& #[trigger] serial_runs(&writer, all, policy, runs)
            &&& serial_end(writer, all, runs, after.ended(), result)
            &&& after.writer() == writer
            &&& after.attempted() == before.attempted() + serial_attempts(
                writer,
                all,
                policy,
                waits_before,
                runs,
            )
            &&& added == serial_log(policy, runs)
            &&& waits == serial_waits(policy, runs)
        };
    lemma_runs_write_their_chunks(writer, all, policy, runs);
    lemma_runs_follow_the_stream(writer, all, policy, waits_before, before.attempted(), runs);
    assert(runs_end_so(writer, all, runs, after.ended(), result));
    lemma_runs_are_logged(policy, runs, log);
}

/// A serial load writes its chunks one after another in stream order, each as often
/// as it takes and none after one that failed. With every chunk written it commits,
/// and succeeds exactly where that does, with the number of its chunks. A chunk that
/// cannot be written fails the load with its last failure; one that cannot be read
/// abandons the session, and the load fails with what is left of it. The log tells
/// every attempt of a retried chunk that failed.
pub proof fn law_serial_phase_writes_every_chunk_in_order<
    W: DestinationWriter,
    I: Iterator<Item = Result<W::Batch, LoadFailure>>,
    S: Sleeper,
>(
    chunks: I,
    session: &mut WriteSession<W>,
    policy: RetryPolicy,
    sleeper: &mut S,
    log: &mut Vec<RetryAttempt>,
    result: Result<WritePhaseOutcome, WritePhaseFailure>,
)
    requires
        chunks.remaining().len() <= u64::MAX,
        call_ensures(
            run_serial_write_phase::<W, I, S>,
            (chunks, session, &policy, sleeper, log),
            result,
        ),
    ensures
        final(session).writer() == old(session).writer(),
        exists|runs: Seq<Seq<Result<(), DestinationWriteFailure>>>|
            {
                &&& #[trigger] runs_write_their_chunks(
                    old(session).writer(),
                    chunks.remaining(),
                    policy,
                    runs,
                )
                &&& runs_follow_the_stream(
                    old(session).writer(),
                    chunks.remaining(),
                    policy,
                    old(sleeper).waits(),
                    old(session).attempted(),
                    final(session).attempted(),
                    runs,
                )
                &&& runs_end_so(
                    old(session).writer(),
                    chunks.remaining(),
                    runs,
                    final(session).ended(),
                    result,
                )
                &&& runs_are_logged(policy, runs, old(log)@, final(log)@)
            },
{
    let all = chunks.remaining();
    let writer = old(session).writer();
    let (added, waits) = choose|added: Seq<RetryAttempt>, waits: Seq<u64>|
        {
            &&& #[trigger] serial_phase(
                *old(session),
                *final(session),
                all,
                policy,
                added,
                old(sleeper).waits(),
                waits,
                result,
            )
            &&& final(log)@ == old(log)@ + added
            &&& final(sleeper).waits() == old(sleeper).waits() + waits
        };
    lemma_serial_phase_tells(
        *old(session),
        *final(session),
        all,
        policy,
        added,
        old(sleeper).waits(),
        waits,
        result,
        old(log)@,
    );
}

/// Nothing is written before a session is open: where opening it fails for good the
/// load failed before its session, with the last failure. Once it is open, a load
/// that takes one chunk at a time commits or abandons that very session, and one
/// that takes more goes through the window, once, with it.
pub proof fn law_write_phase_opens_its_session_first<
    D: Destination,
    I: Iterator<Item = Result<<D::Writer as DestinationWriter>::Batch, LoadFailure>>,
    S: Sleeper,
    P: FnOnce(I, WriteSession<D::Writer>, NonZeroCount) -> WrittenPhase,
>(
    chunks: I,
    load: &mut LoadSession<D>,
    parallelism: NonZeroCount,
    policy: RetryPolicy,
    sleeper: &mut S,
    log: &mut Vec<RetryAttempt>,
    windowed: P,
    result: Result<WritePhaseOutcome, WritePhaseFailure>,
)
    requires
        call_ensures(
            run_write_phase::<D, I, S, P>,
            (chunks, load, parallelism, &policy, sleeper, log, windowed),
            result,
        ),
    ensures
        ({
            let start = old(load).opener.attempted().len() as int;
            let made = final(load).opener.attempted();
            let count = made.len() - start;
            &&& 1 <= count <= policy.max_attempts.number()
            &&& forall|i: int| start <= i < made.len() ==> (#[trigger] made[i]).target
                == old(load).opener.target()
            &&& forall|i: int|
                start <= i < made.len() ==> ((#[trigger] made[i]).outcome matches Ok(session)
                    ==> session.is_open() && session.ended() is None && session.attempted().len()
                    == 0 && call_ensures(
                    D::begin,
                    (&old(load).opener.target().0, old(load).opener.target().1),
                    Ok::<D::Writer, DestinationWriteFailure>(session.writer()),
                ))
            &&& forall|i: int|
                start <= i < made.len() - 1 ==> (#[trigger] made[i]).outcome is Err
                    && made[i].outcome->Err_0.transience == Transience::Transient
            &&& made.last().outcome matches Err(failure) ==> final(load).session is None && (
            result matches Err(WritePhaseFailure::BeforeSession(raised)) && raised == failure)
            &&& made.last().outcome is Err && made.last().outcome->Err_0.transience
                == Transience::Transient ==> count == policy.max_attempts.number()
            &&& made.last().outcome matches Ok(session) ==> {
                &&& parallelism.number() == 1 ==> {
                    &&& final(load).session matches Some(after)
                    &&& after.writer() == session.writer()
                    &&& !(result matches Err(WritePhaseFailure::BeforeSession(_)))
                    &&& result matches Ok(outcome) ==> (after.ended() matches Some(
                        SessionEnd::Committed(Ok(write)),
                    ) && outcome.facts == write.facts && outcome.bytes_written
                        == write.bytes_written)
                }
                &&& parallelism.number() != 1 ==> exists|write: WrittenPhase|
                    {
                        &&& #[trigger] windowed.ensures((chunks, session, parallelism), write)
                        &&& result == write.result
                    }
            }
        }),
{
    let opening = choose|opening: Seq<Result<WriteSession<D::Writer>, DestinationWriteFailure>>|
        {
            &&& #[trigger] begin_run(
                old(load).opener.target().0,
                old(load).opener.target().1,
                policy,
                opening,
            )
            &&& final(load).opener.attempted() == old(load).opener.attempted() + unit_attempts(
                policy,
                old(load).opener.target(),
                old(sleeper).waits(),
                opening,
            )
            &&& match opening.last() {
                Err(failure) => {
                    &&& final(load).session is None
                    &&& result == Err::<WritePhaseOutcome, _>(
                        WritePhaseFailure::BeforeSession(failure),
                    )
                    &&& final(log)@ == old(log)@ + unit_log(policy, RetryUnit::Begin, opening)
                    &&& final(sleeper).waits() == old(sleeper).waits() + unit_waits(
                        policy,
                        opening.len(),
                    )
                },
                Ok(session) => exists|added: Seq<RetryAttempt>, waits: Seq<u64>|
                    {
                        &&& #[trigger] session_phase(
                            session,
                            final(load).session,
                            chunks,
                            chunks.remaining(),
                            parallelism,
                            policy,
                            windowed,
                            added,
                            old(sleeper).waits() + unit_waits(policy, opening.len()),
                            waits,
                            result,
                        )
                        &&& final(log)@ == old(log)@ + unit_log(policy, RetryUnit::Begin, opening)
                            + added
                        &&& final(sleeper).waits() == old(sleeper).waits() + unit_waits(
                            policy,
                            opening.len(),
                        ) + waits
                    },
            }
        };
    let start = old(load).opener.attempted().len() as int;
    let made = final(load).opener.attempted();
    assert forall|i: int| start <= i < made.len() implies (#[trigger] made[i]).target
        == old(load).opener.target() && made[i].outcome == opening[i - start] by {}
    assert forall|i: int| start <= i < made.len() implies ((#[trigger] made[i]).outcome matches Ok(
        session,
    ) ==> session.is_open() && session.ended() is None && session.attempted().len() == 0
        && call_ensures(
        D::begin,
        (&old(load).opener.target().0, old(load).opener.target().1),
        Ok::<D::Writer, DestinationWriteFailure>(session.writer()),
    )) by {
        assert(may_open(
            old(load).opener.target().0,
            old(load).opener.target().1,
            opening[i - start],
        ));
    }
    assert(made.last() == made[made.len() - 1]);
    assert(made.last().outcome == opening.last());
    assert forall|i: int| start <= i < made.len() - 1 implies (#[trigger] made[i]).outcome is Err
        && made[i].outcome->Err_0.transience == Transience::Transient by {
        assert(opening[i - start] is Err);
    }
}

/// How many attempts of a unit are told in the log: none where there was no retry,
/// else every one that failed.
pub open spec fn told_attempts(attempts: int, ended_well: bool) -> int {
    if attempts <= 1 {
        0
    } else if ended_well {
        attempts - 1
    } else {
        attempts
    }
}

/// The log of a write phase tells the failed attempts at opening its session before
/// anything else, and as such. At a parallelism of one the chunks are then written
/// to that session, and logged, as in a serial load; above it the window's own log
/// follows.
pub proof fn law_write_phase_logs_its_opening_first<
    D: Destination,
    I: Iterator<Item = Result<<D::Writer as DestinationWriter>::Batch, LoadFailure>>,
    S: Sleeper,
    P: FnOnce(I, WriteSession<D::Writer>, NonZeroCount) -> WrittenPhase,
>(
    chunks: I,
    load: &mut LoadSession<D>,
    parallelism: NonZeroCount,
    policy: RetryPolicy,
    sleeper: &mut S,
    log: &mut Vec<RetryAttempt>,
    windowed: P,
    result: Result<WritePhaseOutcome, WritePhaseFailure>,
)
    requires
        chunks.remaining().len() <= u64::MAX,
        call_ensures(
            run_write_phase::<D, I, S, P>,
            (chunks, load, parallelism, &policy, sleeper, log, windowed),
            result,
        ),
    ensures
        ({
            let start = old(load).opener.attempted().len() as int;
            let made = final(load).opener.attempted();
            let logged = old(log)@.len() as int;
            let opened = logged + told_attempts(made.len() - start, made.last().outcome is Ok);
            &&& opened <= final(log)@.len()
            &&& final(log)@.take(logged) == old(log)@
            &&& forall|i: int|
                logged <= i < opened ==> {
                    let entry = #[trigger] final(log)@[i];
                    let failure = made[start + i - logged].outcome->Err_0.failure;
                    &&& entry.unit == RetryUnit::Begin
                    &&& entry.attempt == i - logged + 1
                    &&& entry.code@ == failure.code@
                    &&& entry.message@ == failure.message@
                }
            &&& made.last().outcome is Err ==> final(log)@.len() == opened
            &&& made.last().outcome matches Ok(session) ==> {
                &&& parallelism.number() == 1 ==> exists|
                    runs: Seq<Seq<Result<(), DestinationWriteFailure>>>,
                |
                    {
                        &&& #[trigger] runs_write_their_chunks(
                            session.writer(),
                            chunks.remaining(),
                            policy,
                            runs,
                        )
                        &&& runs_follow_the_stream(
                            session.writer(),
                            chunks.remaining(),
                            policy,
                            made.last().waits,
                            session.attempted(),
                            final(load).session->0.attempted(),
                            runs,
                        )
                        &&& runs_end_so(
                            session.writer(),
                            chunks.remaining(),
                            runs,
                            final(load).session->0.ended(),
                            result,
                        )
                        &&& runs_are_logged(
                            policy,
                            runs,
                            final(log)@.take(opened),
                            final(log)@,
                        )
                    }
                &&& parallelism.number() != 1 ==> final(load).session is None && exists|
                    write: WrittenPhase,
                |
                    {
                        &&& #[trigger] windowed.ensures((chunks, session, parallelism), write)
                        &&& result == write.result
                        &&& final(log)@.skip(opened) == write.attempts@
                    }
            }
        }),
{
    let opening = choose|opening: Seq<Result<WriteSession<D::Writer>, DestinationWriteFailure>>|
        {
            &&& #[trigger] begin_run(
                old(load).opener.target().0,
                old(load).opener.target().1,
                policy,
                opening,
            )
            &&& final(load).opener.attempted() == old(load).opener.attempted() + unit_attempts(
                policy,
                old(load).opener.target(),
                old(sleeper).waits(),
                opening,
            )
            &&& match opening.last() {
                Err(failure) => {
                    &&& final(load).session is None
                    &&& result == Err::<WritePhaseOutcome, _>(
                        WritePhaseFailure::BeforeSession(failure),
                    )
                    &&& final(log)@ == old(log)@ + unit_log(policy, RetryUnit::Begin, opening)
                    &&& final(sleeper).waits() == old(sleeper).waits() + unit_waits(
                        policy,
                        opening.len(),
                    )
                },
                Ok(session) => exists|added: Seq<RetryAttempt>, waits: Seq<u64>|
                    {
                        &&& #[trigger] session_phase(
                            session,
                            final(load).session,
                            chunks,
                            chunks.remaining(),
                            parallelism,
                            policy,
                            windowed,
                            added,
                            old(sleeper).waits() + unit_waits(policy, opening.len()),
                            waits,
                            result,
                        )
                        &&& final(log)@ == old(log)@ + unit_log(policy, RetryUnit::Begin, opening)
                            + added
                        &&& final(sleeper).waits() == old(sleeper).waits() + unit_waits(
                            policy,
                            opening.len(),
                        ) + waits
                    },
            }
        };
    let start = old(load).opener.attempted().len() as int;
    let made = final(load).opener.attempted();
    assert forall|i: int| start <= i < made.len() implies (#[trigger] made[i]).outcome == opening[i
        - start] by {}
    assert(made.last() == made[made.len() - 1]);
    assert(made.last().outcome == opening.last());
    let told = unit_log(policy, RetryUnit::Begin, opening);
    let known = old(log)@ + told;
    let logged = old(log)@.len() as int;
    let opened = logged + told_attempts(made.len() - start, made.last().outcome is Ok);
    assert(opening.len() <= policy.max_attempts.number());
    assert(known.len() == opened);
    assert forall|i: int| logged <= i < opened implies ({
        let entry = #[trigger] known[i];
        let failure = made[start + i - logged].outcome->Err_0.failure;
        &&& entry.unit == RetryUnit::Begin
        &&& entry.attempt == i - logged + 1
        &&& entry.code@ == failure.code@
        &&& entry.message@ == failure.message@
    }) by {
        assert(known[i] == told[i - logged]);
        assert(made[start + i - logged].outcome == opening[i - logged]);
    }
    match opening.last() {
        Err(_) => {
            assert(final(log)@.take(logged) =~= old(log)@);
        },
        Ok(session) => {
            let (added, waits) = choose|added: Seq<RetryAttempt>, waits: Seq<u64>|
                {
                    &&& #[trigger] session_phase(
                        session,
                        final(load).session,
                        chunks,
                        chunks.remaining(),
                        parallelism,
                        policy,
                        windowed,
                        added,
                        old(sleeper).waits() + unit_waits(policy, opening.len()),
                        waits,
                        result,
                    )
                    &&& final(log)@ == old(log)@ + unit_log(policy, RetryUnit::Begin, opening)
                        + added
                    &&& final(sleeper).waits() == old(sleeper).waits() + unit_waits(
                        policy,
                        opening.len(),
                    ) + waits
                };
            assert(final(log)@ == known + added);
            assert(final(log)@.take(logged) =~= old(log)@);
            assert(final(log)@.take(opened) =~= known);
            assert(final(log)@.skip(opened) =~= added);
            assert forall|i: int| logged <= i < opened implies #[trigger] final(log)@[i]
                == known[i] by {}
            if parallelism.number() == 1 {
                lemma_serial_phase_tells(
                    session,
                    final(load).session->0,
                    chunks.remaining(),
                    policy,
                    added,
                    old(sleeper).waits() + unit_waits(policy, opening.len()),
                    waits,
                    result,
                    known,
                );
            }
        },
    }
}

} // verus!
