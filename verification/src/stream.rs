//! The second read of a source: it reproduces what the first read decided,
//! and hands out the surviving records in bounded chunks.
use crate::failure::{failing, FailureView, LoadFailure};
use crate::text::{decimal, decimal_text};
use std::collections::HashSet;
use vstd::prelude::*;
use vstd::std_specs::iter::IteratorSpec;
use vstd::string::*;

verus! {

broadcast use vstd::std_specs::hash::group_hash_axioms;

/// The failure of a source that is no longer what the first read saw.
pub open spec fn changed(path: Seq<char>, detail: Seq<char>) -> FailureView {
    failing(
        "source_changed_during_load"@,
        "source "@ + path + " changed during the load: "@ + detail,
    )
}

/// The failure of a source that changed, with what changed.
pub fn source_changed(path: &str, detail: &str) -> (failure: LoadFailure)
    ensures
        failure@ == changed(path@, detail@),
{
    LoadFailure::new(
        "source_changed_during_load",
        "source ".to_owned().concat(path).concat(" changed during the load: ").concat(detail),
    )
}

/// What becomes of a record that the second read sees as the first one did.
#[derive(Clone, Copy, Debug, PartialEq, Eq, Structural)]
pub enum RecordDisposition {
    Survives,
    Skips,
}

/// What the first read established and the second must reproduce: the lines
/// of the rejected records, the number of records, and the byte hash.
pub struct PassOneExpectations {
    pub rejected_lines: HashSet<u64>,
    pub records: u64,
    pub hash: u64,
}

/// The detail of a record whose outcome differs from the first read.
pub open spec fn outcome_detail(line: u64) -> Seq<char> {
    "the record at line "@ + decimal(line as nat) + " no longer matches its first-pass outcome"@
}

/// What the end of input shows: another number of records, then other bytes,
/// then no change.
pub open spec fn end_check(
    path: Seq<char>,
    records: nat,
    hash: u64,
    seen: nat,
    seen_hash: u64,
) -> Option<FailureView> {
    if seen != records {
        Some(
            changed(
                path,
                "it now has "@ + decimal(seen) + " records instead of "@ + decimal(records),
            ),
        )
    } else if seen_hash != hash {
        Some(changed(path, "its bytes no longer match the first pass"@))
    } else {
        None
    }
}

impl PassOneExpectations {
    /// The expectations of a first read that rejected the records at these
    /// lines.
    pub fn new(rejected: &Vec<u64>, records: u64, hash: u64) -> (expectations: PassOneExpectations)
        ensures
            expectations.rejected_lines@ == rejected@.to_set(),
            expectations.records == records,
            expectations.hash == hash,
    {
        let mut rejected_lines: HashSet<u64> = HashSet::new();
        let mut i: usize = 0;
        proof {
            assert(rejected@.take(0).to_set() =~= Set::empty());
        }
        while i < rejected.len()
            invariant
                i <= rejected.len(),
                rejected_lines@ == rejected@.take(i as int).to_set(),
            decreases rejected.len() - i,
        {
            rejected_lines.insert(rejected[i]);
            proof {
                let taken = rejected@.take(i as int);
                assert(rejected@.take(i as int + 1) =~= taken.push(rejected@[i as int]));
                taken.lemma_push_to_set_commute(rejected@[i as int]);
            }
            i = i + 1;
        }
        proof {
            assert(rejected@.take(i as int) =~= rejected@);
        }
        PassOneExpectations { rejected_lines, records, hash }
    }

    /// Holds a record's outcome to that of the first read.
    pub fn cross_check(&self, path: &str, line: u64, rejected_now: bool) -> (checked: Result<
        RecordDisposition,
        LoadFailure,
    >)
        ensures
            match checked {
                Ok(RecordDisposition::Skips) => rejected_now && self.rejected_lines@.contains(line),
                Ok(RecordDisposition::Survives) => !rejected_now && !self.rejected_lines@.contains(
                    line,
                ),
                Err(failure) => {
                    &&& rejected_now != self.rejected_lines@.contains(line)
                    &&& failure@ == changed(path@, outcome_detail(line))
                },
            },
    {
        let rejected_then = self.rejected_lines.contains(&line);
        if rejected_now && rejected_then {
            Ok(RecordDisposition::Skips)
        } else if !rejected_now && !rejected_then {
            Ok(RecordDisposition::Survives)
        } else {
            let detail = "the record at line ".to_owned().concat(
                decimal_text(line).as_str(),
            ).concat(" no longer matches its first-pass outcome");
            Err(source_changed(path, detail.as_str()))
        }
    }

    /// Holds the end of input to that of the first read.
    pub fn verify_end_of_input(&self, path: &str, seen: u64, hash: u64) -> (verified: Result<
        (),
        LoadFailure,
    >)
        ensures
            match verified {
                Ok(_) => end_check(
                    path@,
                    self.records as nat,
                    self.hash,
                    seen as nat,
                    hash,
                ) is None,
                Err(failure) => end_check(
                    path@,
                    self.records as nat,
                    self.hash,
                    seen as nat,
                    hash,
                ) == Some(failure@),
            },
    {
        if seen != self.records {
            let detail = "it now has ".to_owned().concat(decimal_text(seen).as_str()).concat(
                " records instead of ",
            ).concat(decimal_text(self.records).as_str());
            return Err(source_changed(path, detail.as_str()));
        }
        if hash != self.hash {
            return Err(source_changed(path, "its bytes no longer match the first pass"));
        }
        Ok(())
    }
}

/// One item of the second read: white space, a record that does not parse, or
/// a record with whether it is rejected now.
pub enum SourceItem<R> {
    Blank,
    Rejected { line: u64 },
    Record { line: u64, rejected_now: bool, record: R },
}

/// Where a chunk stream stands.
#[derive(Clone, Copy, Debug, PartialEq, Eq, Structural)]
pub enum ChunkPhase {
    NotStarted,
    Streaming,
    FinalCheck,
    Done,
}

/// How reading items for one chunk ends.
pub enum ScanEnd<R> {
    /// The chunk is full.
    Full { survivors: Seq<R>, seen: nat, rest: Seq<Result<SourceItem<R>, LoadFailure>> },
    /// The input ended before the chunk was full.
    Exhausted { survivors: Seq<R>, seen: nat },
    /// Reading failed, or a record's outcome differs from the first read.
    Failed { failure: FailureView, seen: nat, rest: Seq<Result<SourceItem<R>, LoadFailure>> },
}

/// Reads items until the chunk is full, the input ends, or the read fails.
pub open spec fn scan<R>(
    path: Seq<char>,
    rejected_lines: Set<u64>,
    chunk_rows: nat,
    items: Seq<Result<SourceItem<R>, LoadFailure>>,
    survivors: Seq<R>,
    seen: nat,
) -> ScanEnd<R>
    decreases items.len(),
{
    if items.len() == 0 {
        ScanEnd::Exhausted { survivors, seen }
    } else {
        let rest = items.drop_first();
        match items[0] {
            Err(failure) => ScanEnd::Failed { failure: failure@, seen, rest },
            Ok(SourceItem::Blank) => scan(path, rejected_lines, chunk_rows, rest, survivors, seen),
            Ok(SourceItem::Rejected { line }) => if rejected_lines.contains(line) {
                scan(path, rejected_lines, chunk_rows, rest, survivors, seen + 1)
            } else {
                ScanEnd::Failed { failure: changed(path, outcome_detail(line)), seen: seen + 1, rest }
            },
            Ok(SourceItem::Record { line, rejected_now, record }) => if rejected_now
                != rejected_lines.contains(line) {
                ScanEnd::Failed { failure: changed(path, outcome_detail(line)), seen: seen + 1, rest }
            } else if rejected_now {
                scan(path, rejected_lines, chunk_rows, rest, survivors, seen + 1)
            } else if survivors.len() + 1 == chunk_rows {
                ScanEnd::Full { survivors: survivors.push(record), seen: seen + 1, rest }
            } else {
                scan(path, rejected_lines, chunk_rows, rest, survivors.push(record), seen + 1)
            },
        }
    }
}

/// The second read of a source as a stream of chunks of at most `chunk_rows`
/// surviving records. A source without survivors still gives one empty chunk.
pub struct ChunkStream {
    path: String,
    chunk_rows: usize,
    expectations: PassOneExpectations,
    seen: u64,
    yielded_any: bool,
    phase: ChunkPhase,
}

/// A chunk stream as its mathematical state.
pub struct StreamView {
    pub path: Seq<char>,
    pub chunk_rows: nat,
    pub rejected_lines: Set<u64>,
    pub records: nat,
    pub hash: u64,
    pub seen: nat,
    pub yielded_any: bool,
    pub phase: ChunkPhase,
}

impl View for ChunkStream {
    type V = StreamView;

    closed spec fn view(&self) -> StreamView {
        StreamView {
            path: self.path@,
            chunk_rows: self.chunk_rows as nat,
            rejected_lines: self.expectations.rejected_lines@,
            records: self.expectations.records as nat,
            hash: self.expectations.hash,
            seen: self.seen as nat,
            yielded_any: self.yielded_any,
            phase: self.phase,
        }
    }
}

impl StreamView {
    /// The items that the next chunk is read from.
    pub open spec fn scanned<R>(self, items: Seq<Result<SourceItem<R>, LoadFailure>>) -> ScanEnd<
        R,
    > {
        scan(self.path, self.rejected_lines, self.chunk_rows, items, Seq::empty(), self.seen)
    }

    /// What the end of input shows of this stream.
    pub open spec fn verdict(self, hash: u64) -> Option<FailureView> {
        end_check(self.path, self.records, self.hash, self.seen, hash)
    }

    /// The stream after the end-of-input check, whatever it showed.
    pub open spec fn closed(self) -> StreamView {
        StreamView { phase: ChunkPhase::Done, ..self }
    }
}

/// What one pull of a streaming stream comes to.
pub enum Pull<R> {
    /// A chunk, the stream after it, and the items that are left.
    Chunk { records: Seq<R>, after: StreamView, rest: Seq<Result<SourceItem<R>, LoadFailure>> },
    /// The input has ended without another chunk.
    Ended { ended: StreamView },
    /// The stream failed.
    Failed {
        failure: FailureView,
        after: StreamView,
        rest: Seq<Result<SourceItem<R>, LoadFailure>>,
    },
}

/// Pulls the next chunk of a stream from these items. The last chunk, which may
/// be empty where it is the only one, leaves the stream to its final check.
pub open spec fn pull<R>(
    stream: StreamView,
    items: Seq<Result<SourceItem<R>, LoadFailure>>,
) -> Pull<R> {
    match stream.scanned(items) {
        ScanEnd::Full { survivors, seen, rest } => Pull::Chunk {
            records: survivors,
            after: StreamView { seen, yielded_any: true, ..stream },
            rest,
        },
        ScanEnd::Failed { failure, seen, rest } => Pull::Failed {
            failure,
            after: (StreamView { seen, ..stream }).closed(),
            rest,
        },
        ScanEnd::Exhausted { survivors, seen } => if survivors.len() == 0 && stream.yielded_any {
            Pull::Ended { ended: StreamView { seen, ..stream } }
        } else {
            Pull::Chunk {
                records: survivors,
                after: StreamView {
                    seen,
                    yielded_any: true,
                    phase: ChunkPhase::FinalCheck,
                    ..stream
                },
                rest: Seq::empty(),
            }
        },
    }
}

/// Whether a check of the end of input came out so.
pub open spec fn verdict_is<R>(
    verdict: Option<FailureView>,
    result: Result<Option<Vec<R>>, LoadFailure>,
) -> bool {
    match verdict {
        None => result matches Ok(None),
        Some(view) => result matches Err(failure) && failure@ == view,
    }
}

impl ChunkStream {
    /// A stream that has not opened its source yet.
    pub fn new(
        path: String,
        chunk_rows: usize,
        expectations: PassOneExpectations,
    ) -> (stream: ChunkStream)
        requires
            chunk_rows >= 1,
        ensures
            stream@ == (StreamView {
                path: path@,
                chunk_rows: chunk_rows as nat,
                rejected_lines: expectations.rejected_lines@,
                records: expectations.records as nat,
                hash: expectations.hash,
                seen: 0,
                yielded_any: false,
                phase: ChunkPhase::NotStarted,
            }),
    {
        ChunkStream {
            path,
            chunk_rows,
            expectations,
            seen: 0,
            yielded_any: false,
            phase: ChunkPhase::NotStarted,
        }
    }

    /// Where the stream stands.
    pub fn phase(&self) -> (phase: ChunkPhase)
        ensures
            phase == self@.phase,
    {
        self.phase
    }

    /// Notes that the source was opened again.
    pub fn opened(&mut self)
        requires
            old(self)@.phase == ChunkPhase::NotStarted,
        ensures
            final(self)@ == (StreamView { phase: ChunkPhase::Streaming, ..old(self)@ }),
    {
        self.phase = ChunkPhase::Streaming;
    }

    /// Ends the stream after a failure outside of it.
    pub fn halt(&mut self)
        ensures
            final(self)@ == old(self)@.closed(),
    {
        self.phase = ChunkPhase::Done;
    }

    fn close<R>(&mut self, hash: u64) -> (result: Result<Option<Vec<R>>, LoadFailure>)
        ensures
            final(self)@ == old(self)@.closed(),
            verdict_is(old(self)@.verdict(hash), result),
    {
        self.phase = ChunkPhase::Done;
        match self.expectations.verify_end_of_input(self.path.as_str(), self.seen, hash) {
            Ok(_) => Ok(None),
            Err(failure) => Err(failure),
        }
    }

    /// The next chunk of surviving records, in source order. The last chunk is
    /// handed out before the end of input is held to the first read, which
    /// happens on the pull after it; any failure ends the stream.
    pub fn next_chunk<R, I: Iterator<Item = Result<SourceItem<R>, LoadFailure>>, H: FnOnce() -> u64>(
        &mut self,
        items: &mut I,
        hash: H,
    ) -> (result: Result<Option<Vec<R>>, LoadFailure>)
        requires
            old(self)@.phase != ChunkPhase::NotStarted,
            old(self)@.chunk_rows >= 1,
            <I as IteratorSpec>::obeys_prophetic_iter_laws(old(items)),
            <I as IteratorSpec>::decrease(old(items)) is Some,
            old(self)@.seen + <I as IteratorSpec>::remaining(old(items)).len() <= u64::MAX,
            old(self)@.phase == ChunkPhase::FinalCheck || pull(
                old(self)@,
                <I as IteratorSpec>::remaining(old(items)),
            ) is Ended ==> hash.requires(()),
        ensures
            match old(self)@.phase {
                ChunkPhase::FinalCheck => exists|h: u64|
                    {
                        &&& #[trigger] hash.ensures((), h)
                        &&& final(self)@ == old(self)@.closed()
                        &&& verdict_is(old(self)@.verdict(h), result)
                    },
                ChunkPhase::Streaming => match pull(
                    old(self)@,
                    <I as IteratorSpec>::remaining(old(items)),
                ) {
                    Pull::Chunk { records, after, rest } => {
                        &&& result matches Ok(Some(chunk)) && chunk@ == records
                        &&& <I as IteratorSpec>::remaining(final(items)) == rest
                        &&& final(self)@ == after
                    },
                    Pull::Failed { failure, after, rest } => {
                        &&& result matches Err(raised) && raised@ == failure
                        &&& <I as IteratorSpec>::remaining(final(items)) == rest
                        &&& final(self)@ == after
                    },
                    Pull::Ended { ended } => {
                        &&& <I as IteratorSpec>::remaining(final(items)).len() == 0
                        &&& exists|h: u64|
                            {
                                &&& #[trigger] hash.ensures((), h)
                                &&& final(self)@ == ended.closed()
                                &&& verdict_is(ended.verdict(h), result)
                            }
                    },
                },
                _ => {
                    &&& result matches Ok(None)
                    &&& final(self)@ == old(self)@
                },
            },
            <I as IteratorSpec>::obeys_prophetic_iter_laws(final(items)),
            <I as IteratorSpec>::decrease(final(items)) is Some,
    {
        match self.phase {
            ChunkPhase::FinalCheck => {
                let h: u64 = hash();
                return self.close(h);
            },
            ChunkPhase::Streaming => {},
            _ => {
                return Ok(None);
            },
        }
        let ghost all = <I as IteratorSpec>::remaining(items);
        let ghost before = self@;
        let mut survivors: Vec<R> = Vec::new();
        loop
            invariant
                <I as IteratorSpec>::obeys_prophetic_iter_laws(items),
                <I as IteratorSpec>::decrease(items) is Some,
                before == old(self)@,
                before.phase == ChunkPhase::Streaming,
                before.chunk_rows >= 1,
                self.chunk_rows == before.chunk_rows,
                self@ == (StreamView { seen: self.seen as nat, ..before }),
                self.seen + <I as IteratorSpec>::remaining(items).len() <= u64::MAX,
                survivors@.len() < before.chunk_rows,
                all == <I as IteratorSpec>::remaining(old(items)),
                before.scanned(all) == scan(
                    before.path,
                    before.rejected_lines,
                    before.chunk_rows,
                    <I as IteratorSpec>::remaining(items),
                    survivors@,
                    self.seen as nat,
                ),
                pull(before, all) is Ended ==> hash.requires(()),
            decreases <I as IteratorSpec>::decrease(items)->0,
        {
            let next = items.next();
            match next {
                None => {
                    if survivors.len() == 0 && self.yielded_any {
                        let h: u64 = hash();
                        return self.close(h);
                    }
                    self.phase = ChunkPhase::FinalCheck;
                    self.yielded_any = true;
                    return Ok(Some(survivors));
                },
                Some(Err(failure)) => {
                    self.phase = ChunkPhase::Done;
                    return Err(failure);
                },
                Some(Ok(SourceItem::Blank)) => {},
                Some(Ok(SourceItem::Rejected { line })) => {
                    self.seen = self.seen + 1;
                    match self.expectations.cross_check(self.path.as_str(), line, true) {
                        Ok(_) => {},
                        Err(failure) => {
                            self.phase = ChunkPhase::Done;
                            return Err(failure);
                        },
                    }
                },
                Some(Ok(SourceItem::Record { line, rejected_now, record })) => {
                    self.seen = self.seen + 1;
                    match self.expectations.cross_check(self.path.as_str(), line, rejected_now) {
                        Ok(RecordDisposition::Skips) => {},
                        Ok(RecordDisposition::Survives) => {
                            survivors.push(record);
                            if survivors.len() == self.chunk_rows {
                                self.yielded_any = true;
                                return Ok(Some(survivors));
                            }
                        },
                        Err(failure) => {
                            self.phase = ChunkPhase::Done;
                            return Err(failure);
                        },
                    }
                },
            }
        }
    }
}

/// The records among the items that are not rejected, in source order.
pub open spec fn survivors_of<R>(items: Seq<Result<SourceItem<R>, LoadFailure>>) -> Seq<R>
    decreases items.len(),
{
    if items.len() == 0 {
        Seq::empty()
    } else {
        let rest = survivors_of(items.drop_first());
        match items[0] {
            Ok(SourceItem::Record { line, rejected_now, record }) => if rejected_now {
                rest
            } else {
                seq![record] + rest
            },
            _ => rest,
        }
    }
}

/// The number of items that are records, rejected or not.
pub open spec fn records_in<R>(items: Seq<Result<SourceItem<R>, LoadFailure>>) -> nat
    decreases items.len(),
{
    if items.len() == 0 {
        0
    } else {
        let rest = records_in(items.drop_first());
        match items[0] {
            Ok(SourceItem::Blank) => rest,
            _ => rest + 1,
        }
    }
}

/// The chunks that pulling a stream until it ends hands out.
pub struct StreamRun<R> {
    pub chunks: Seq<Seq<R>>,
    /// The records seen, or the failure that ended the stream.
    pub end: Result<nat, FailureView>,
}

/// Pulls a stream until its input ends or it fails, before the end-of-input
/// check.
pub open spec fn stream_run<R>(
    stream: StreamView,
    items: Seq<Result<SourceItem<R>, LoadFailure>>,
) -> StreamRun<R>
    decreases items.len(),
{
    match stream.scanned(items) {
        ScanEnd::Full { survivors, seen, rest } => if rest.len() < items.len() {
            let later = stream_run(StreamView { seen, yielded_any: true, ..stream }, rest);
            StreamRun { chunks: seq![survivors] + later.chunks, end: later.end }
        } else {
            StreamRun { chunks: seq![survivors], end: Ok(seen) }
        },
        ScanEnd::Exhausted { survivors, seen } => if survivors.len() == 0 && stream.yielded_any {
            StreamRun { chunks: seq![], end: Ok(seen) }
        } else {
            StreamRun { chunks: seq![survivors], end: Ok(seen) }
        },
        ScanEnd::Failed { failure, .. } => StreamRun { chunks: seq![], end: Err(failure) },
    }
}

proof fn lemma_scan<R>(
    path: Seq<char>,
    rejected_lines: Set<u64>,
    chunk_rows: nat,
    items: Seq<Result<SourceItem<R>, LoadFailure>>,
    survivors: Seq<R>,
    seen: nat,
)
    requires
        survivors.len() < chunk_rows,
    ensures
        match scan(path, rejected_lines, chunk_rows, items, survivors, seen) {
            ScanEnd::Full { survivors: chunk, seen: after, rest } => {
                &&& chunk.len() == chunk_rows
                &&& rest.len() < items.len()
                &&& survivors + survivors_of(items) == chunk + survivors_of(rest)
                &&& seen + records_in(items) == after + records_in(rest)
            },
            ScanEnd::Exhausted { survivors: chunk, seen: after } => {
                &&& chunk.len() < chunk_rows
                &&& survivors + survivors_of(items) == chunk
                &&& seen + records_in(items) == after
            },
            ScanEnd::Failed { failure, .. } => true,
        },
    decreases items.len(),
{
    if items.len() == 0 {
        assert(survivors + survivors_of(items) =~= survivors);
    } else {
        let rest = items.drop_first();
        match items[0] {
            Err(failure) => {},
            Ok(SourceItem::Blank) => {
                lemma_scan(path, rejected_lines, chunk_rows, rest, survivors, seen);
            },
            Ok(SourceItem::Rejected { line }) => {
                lemma_scan(path, rejected_lines, chunk_rows, rest, survivors, seen + 1);
            },
            Ok(SourceItem::Record { line, rejected_now, record }) => {
                if rejected_now {
                    lemma_scan(path, rejected_lines, chunk_rows, rest, survivors, seen + 1);
                } else {
                    let grown = survivors.push(record);
                    assert(survivors + (seq![record] + survivors_of(rest)) =~= grown + survivors_of(
                        rest,
                    ));
                    if grown.len() < chunk_rows {
                        lemma_scan(path, rejected_lines, chunk_rows, rest, grown, seen + 1);
                    }
                }
            },
        }
    }
}

/// A stream that does not fail hands out exactly the surviving records, in
/// source order, and has seen every record.
pub proof fn law_chunks_hold_exactly_the_survivors<R>(
    stream: StreamView,
    items: Seq<Result<SourceItem<R>, LoadFailure>>,
)
    requires
        stream.chunk_rows >= 1,
        stream_run(stream, items).end is Ok,
    ensures
        stream_run(stream, items).chunks.flatten() == survivors_of(items),
        stream_run(stream, items).end->Ok_0 == stream.seen + records_in(items),
    decreases items.len(),
{
    lemma_scan(
        stream.path,
        stream.rejected_lines,
        stream.chunk_rows,
        items,
        Seq::<R>::empty(),
        stream.seen,
    );
    assert(Seq::<R>::empty() + survivors_of(items) =~= survivors_of(items));
    let run = stream_run(stream, items);
    match stream.scanned(items) {
        ScanEnd::Full { survivors, seen, rest } => {
            let next = StreamView { seen, yielded_any: true, ..stream };
            law_chunks_hold_exactly_the_survivors(next, rest);
            let later = stream_run(next, rest);
            seq![survivors].lemma_flatten_one_element();
            assert(run.chunks.drop_first() =~= later.chunks);
        },
        ScanEnd::Exhausted { survivors, seen } => {
            if survivors.len() == 0 && stream.yielded_any {
                assert(run.chunks.flatten() =~= survivors);
            } else {
                run.chunks.lemma_flatten_one_element();
            }
        },
        ScanEnd::Failed { failure, .. } => {},
    }
}

/// How a stream that was pulled until now ends: at its final check, or with the
/// pull that gives no more chunk.
pub open spec fn pulls_end<R>(
    stream: StreamView,
    items: Seq<Result<SourceItem<R>, LoadFailure>>,
) -> Option<Result<nat, FailureView>> {
    if stream.phase == ChunkPhase::FinalCheck {
        Some(Ok(stream.seen))
    } else {
        match pull(stream, items) {
            Pull::Chunk { .. } => None,
            Pull::Ended { ended } => Some(Ok(ended.seen)),
            Pull::Failed { failure, .. } => Some(Err(failure)),
        }
    }
}

/// Pulling a stream again and again, each time from where the pull before left
/// it, hands out the chunks of its run and ends as the run does.
pub proof fn law_pulls_give_the_run<R>(
    streams: Seq<StreamView>,
    inputs: Seq<Seq<Result<SourceItem<R>, LoadFailure>>>,
    chunks: Seq<Seq<R>>,
)
    requires
        streams.len() == chunks.len() + 1,
        inputs.len() == chunks.len() + 1,
        streams[0].chunk_rows >= 1,
        streams[0].phase == ChunkPhase::Streaming,
        forall|i: int|
            0 <= i < chunks.len() ==> streams[i].phase == ChunkPhase::Streaming && pull(
                streams[i],
                inputs[i],
            ) == (Pull::Chunk {
                records: #[trigger] chunks[i],
                after: streams[i + 1],
                rest: inputs[i + 1],
            }),
        pulls_end(streams.last(), inputs.last()) is Some,
    ensures
        stream_run(streams[0], inputs[0]).chunks == chunks,
        Some(stream_run(streams[0], inputs[0]).end) == pulls_end(streams.last(), inputs.last()),
    decreases chunks.len(),
{
    let first = streams[0];
    lemma_scan(
        first.path,
        first.rejected_lines,
        first.chunk_rows,
        inputs[0],
        Seq::<R>::empty(),
        first.seen,
    );
    let run = stream_run(first, inputs[0]);
    if chunks.len() == 0 {
        assert(run.chunks =~= chunks);
    } else {
        assert(pull(streams[0], inputs[0]) == (Pull::Chunk {
            records: chunks[0],
            after: streams[1],
            rest: inputs[1],
        }));
        match first.scanned(inputs[0]) {
            ScanEnd::Full { survivors, seen, rest } => {
                let later = streams.drop_first();
                let left = inputs.drop_first();
                let others = chunks.drop_first();
                assert forall|i: int| 0 <= i < others.len() implies later[i].phase
                    == ChunkPhase::Streaming && pull(later[i], left[i]) == (Pull::Chunk {
                    records: #[trigger] others[i],
                    after: later[i + 1],
                    rest: left[i + 1],
                }) by {
                    assert(others[i] == chunks[i + 1]);
                }
                if others.len() > 0 {
                    assert(others[0] == chunks[1]);
                }
                law_pulls_give_the_run(later, left, others);
                assert(run.chunks =~= seq![chunks[0]] + others);
                assert(chunks =~= seq![chunks[0]] + others);
            },
            _ => {
                assert(streams[1].phase == ChunkPhase::FinalCheck);
                if chunks.len() > 1 {
                    assert(pull(streams[1], inputs[1]) == (Pull::Chunk {
                        records: chunks[1],
                        after: streams[2],
                        rest: inputs[2],
                    }));
                }
                assert(run.chunks =~= chunks);
            },
        }
    }
}

/// How many chunks of `chunk_rows` records it takes to hold a number of them.
pub open spec fn chunks_for(records: nat, chunk_rows: nat) -> nat {
    ((records + chunk_rows - 1) / chunk_rows as int) as nat
}

/// A stream that does not fail hands out as few chunks as hold its survivors,
/// and one where there is none.
pub proof fn law_chunk_count<R>(stream: StreamView, items: Seq<Result<SourceItem<R>, LoadFailure>>)
    requires
        stream.chunk_rows >= 1,
        stream_run(stream, items).end is Ok,
    ensures
        ({
            let needed = chunks_for(survivors_of(items).len(), stream.chunk_rows);
            stream_run(stream, items).chunks.len() == if needed == 0 && !stream.yielded_any {
                1
            } else {
                needed
            }
        }),
    decreases items.len(),
{
    lemma_scan(
        stream.path,
        stream.rejected_lines,
        stream.chunk_rows,
        items,
        Seq::<R>::empty(),
        stream.seen,
    );
    assert(Seq::<R>::empty() + survivors_of(items) =~= survivors_of(items));
    let rows = stream.chunk_rows as int;
    let count = survivors_of(items).len();
    match stream.scanned(items) {
        ScanEnd::Full { survivors, seen, rest } => {
            law_chunk_count(StreamView { seen, yielded_any: true, ..stream }, rest);
            let left = survivors_of(rest).len();
            assert(count == rows + left);
            vstd::arithmetic::div_mod::lemma_div_plus_one(left + rows - 1, rows);
            assert((left + rows - 1) / rows >= 0) by {
                vstd::arithmetic::div_mod::lemma_div_pos_is_pos(left + rows - 1, rows);
            }
        },
        ScanEnd::Exhausted { survivors, seen } => {
            if count == 0 {
                vstd::arithmetic::div_mod::lemma_basic_div(rows - 1, rows);
            } else {
                vstd::arithmetic::div_mod::lemma_div_plus_one(count - 1, rows);
                vstd::arithmetic::div_mod::lemma_basic_div(count - 1, rows);
            }
        },
        ScanEnd::Failed { failure, .. } => {},
    }
}

/// No chunk holds more than `chunk_rows` records, every chunk but the last
/// holds exactly that many, and only a stream without survivors hands out an
/// empty chunk, its only one.
pub proof fn law_chunks_are_bounded<R>(
    stream: StreamView,
    items: Seq<Result<SourceItem<R>, LoadFailure>>,
)
    requires
        stream.chunk_rows >= 1,
    ensures
        ({
            let chunks = stream_run(stream, items).chunks;
            &&& forall|i: int| 0 <= i < chunks.len() ==> (#[trigger] chunks[i]).len()
                <= stream.chunk_rows
            &&& forall|i: int|
                0 <= i < chunks.len() - 1 ==> (#[trigger] chunks[i]).len() == stream.chunk_rows
            &&& forall|i: int|
                0 <= i < chunks.len() && (#[trigger] chunks[i]).len() == 0 ==> chunks.len() == 1
                    && !stream.yielded_any
        }),
    decreases items.len(),
{
    lemma_scan(
        stream.path,
        stream.rejected_lines,
        stream.chunk_rows,
        items,
        Seq::<R>::empty(),
        stream.seen,
    );
    match stream.scanned(items) {
        ScanEnd::Full { survivors, seen, rest } => {
            let next = StreamView { seen, yielded_any: true, ..stream };
            law_chunks_are_bounded(next, rest);
            let later = stream_run(next, rest).chunks;
            let chunks = stream_run(stream, items).chunks;
            assert forall|i: int| 0 <= i < chunks.len() implies (#[trigger] chunks[i]).len()
                <= stream.chunk_rows by {
                if i > 0 {
                    assert(chunks[i] == later[i - 1]);
                }
            }
            assert forall|i: int| 0 <= i < chunks.len() - 1 implies (#[trigger] chunks[i]).len()
                == stream.chunk_rows by {
                if i > 0 {
                    assert(chunks[i] == later[i - 1]);
                }
            }
            assert forall|i: int| 0 <= i < chunks.len() && (#[trigger] chunks[i]).len()
                == 0 implies chunks.len() == 1 && !stream.yielded_any by {
                if i > 0 {
                    assert(chunks[i] == later[i - 1]);
                }
            }
        },
        _ => {},
    }
}

/// A fresh stream that does not fail hands out at least one chunk, so that an
/// empty dataset still gets its schema.
pub proof fn law_fresh_stream_yields_a_chunk<R>(
    stream: StreamView,
    items: Seq<Result<SourceItem<R>, LoadFailure>>,
)
    requires
        stream.chunk_rows >= 1,
        !stream.yielded_any,
        stream_run(stream, items).end is Ok,
    ensures
        stream_run(stream, items).chunks.len() >= 1,
{
}

/// A source passes the end-of-input check only with the number of records
/// and the bytes of the first read.
pub proof fn law_changed_source_is_noticed(stream: StreamView, hash: u64)
    ensures
        stream.verdict(hash) is None <==> stream.seen == stream.records && hash == stream.hash,
{
}

/// Whether the second read sees an item as the first one did.
pub open spec fn agrees<R>(
    item: Result<SourceItem<R>, LoadFailure>,
    rejected_lines: Set<u64>,
) -> bool {
    match item {
        Err(_) => false,
        Ok(SourceItem::Blank) => true,
        Ok(SourceItem::Rejected { line }) => rejected_lines.contains(line),
        Ok(SourceItem::Record { line, rejected_now, record }) => rejected_now
            == rejected_lines.contains(line),
    }
}

/// Whether the second read sees every item as the first one did.
pub open spec fn all_agree<R>(
    items: Seq<Result<SourceItem<R>, LoadFailure>>,
    rejected_lines: Set<u64>,
) -> bool {
    forall|i: int| 0 <= i < items.len() ==> agrees(#[trigger] items[i], rejected_lines)
}

proof fn lemma_scan_agreement<R>(
    path: Seq<char>,
    rejected_lines: Set<u64>,
    chunk_rows: nat,
    items: Seq<Result<SourceItem<R>, LoadFailure>>,
    survivors: Seq<R>,
    seen: nat,
)
    ensures
        match scan(path, rejected_lines, chunk_rows, items, survivors, seen) {
            ScanEnd::Full { survivors: chunk, seen: after, rest } => {
                &&& rest.len() <= items.len()
                &&& all_agree(items, rejected_lines) <==> all_agree(rest, rejected_lines)
            },
            ScanEnd::Exhausted { survivors: chunk, seen: after } => all_agree(
                items,
                rejected_lines,
            ),
            ScanEnd::Failed { failure, .. } => !all_agree(items, rejected_lines),
        },
    decreases items.len(),
{
    if items.len() > 0 {
        let rest = items.drop_first();
        assert(all_agree(items, rejected_lines) <==> agrees(items[0], rejected_lines) && all_agree(
            rest,
            rejected_lines,
        )) by {
            if all_agree(items, rejected_lines) {
                assert(agrees(items[0], rejected_lines));
                assert forall|i: int| 0 <= i < rest.len() implies agrees(
                    #[trigger] rest[i],
                    rejected_lines,
                ) by {
                    assert(agrees(items[i + 1], rejected_lines));
                }
            }
            if agrees(items[0], rejected_lines) && all_agree(rest, rejected_lines) {
                assert forall|i: int| 0 <= i < items.len() implies agrees(
                    #[trigger] items[i],
                    rejected_lines,
                ) by {
                    if i > 0 {
                        assert(agrees(rest[i - 1], rejected_lines));
                    }
                }
            }
        }
        match items[0] {
            Err(failure) => {},
            Ok(SourceItem::Blank) => {
                lemma_scan_agreement(path, rejected_lines, chunk_rows, rest, survivors, seen);
            },
            Ok(SourceItem::Rejected { line }) => {
                lemma_scan_agreement(path, rejected_lines, chunk_rows, rest, survivors, seen + 1);
            },
            Ok(SourceItem::Record { line, rejected_now, record }) => {
                if rejected_now {
                    lemma_scan_agreement(
                        path,
                        rejected_lines,
                        chunk_rows,
                        rest,
                        survivors,
                        seen + 1,
                    );
                } else {
                    lemma_scan_agreement(
                        path,
                        rejected_lines,
                        chunk_rows,
                        rest,
                        survivors.push(record),
                        seen + 1,
                    );
                }
            },
        }
    }
}

/// A stream runs to the end of its input exactly when the second read sees
/// every item as the first one did.
pub proof fn law_stream_ends_well_exactly_when_the_reads_agree<R>(
    stream: StreamView,
    items: Seq<Result<SourceItem<R>, LoadFailure>>,
)
    requires
        stream.chunk_rows >= 1,
    ensures
        stream_run(stream, items).end is Ok <==> all_agree(items, stream.rejected_lines),
    decreases items.len(),
{
    lemma_scan_agreement(
        stream.path,
        stream.rejected_lines,
        stream.chunk_rows,
        items,
        Seq::<R>::empty(),
        stream.seen,
    );
    lemma_scan(
        stream.path,
        stream.rejected_lines,
        stream.chunk_rows,
        items,
        Seq::<R>::empty(),
        stream.seen,
    );
    match stream.scanned(items) {
        ScanEnd::Full { survivors, seen, rest } => {
            let next = StreamView { seen, yielded_any: true, ..stream };
            law_stream_ends_well_exactly_when_the_reads_agree(next, rest);
        },
        _ => {},
    }
}

/// Whether an item is rejected, and at which line.
pub open spec fn rejected_at<R>(item: Result<SourceItem<R>, LoadFailure>, at: u64) -> bool {
    match item {
        Ok(SourceItem::Rejected { line }) => line == at,
        Ok(SourceItem::Record { line, rejected_now, record }) => rejected_now && line == at,
        _ => false,
    }
}

/// Whether an item survives, and at which line.
pub open spec fn survives_at<R>(item: Result<SourceItem<R>, LoadFailure>, at: u64) -> bool {
    match item {
        Ok(SourceItem::Record { line, rejected_now, record }) => !rejected_now && line == at,
        _ => false,
    }
}

/// A source that did not change streams through: where the first read rejected
/// just the items that are rejected now, and no surviving record shares the
/// line of a rejected one, the second read hands out exactly the survivors and
/// passes the end-of-input check.
pub proof fn law_unchanged_source_streams_through<R>(
    stream: StreamView,
    items: Seq<Result<SourceItem<R>, LoadFailure>>,
)
    requires
        stream.chunk_rows >= 1,
        stream.seen == 0,
        stream.records == records_in(items),
        forall|i: int| 0 <= i < items.len() ==> #[trigger] items[i] is Ok,
        forall|line: u64| #[trigger]
            stream.rejected_lines.contains(line) <==> exists|i: int|
                0 <= i < items.len() && rejected_at(#[trigger] items[i], line),
        forall|i: int, j: int, line: u64|
            0 <= i < items.len() && 0 <= j < items.len() && #[trigger] rejected_at(items[i], line)
                ==> !#[trigger] survives_at(items[j], line),
    ensures
        stream_run(stream, items).end == Ok::<nat, FailureView>(stream.records),
        stream_run(stream, items).chunks.flatten() == survivors_of(items),
        end_check(stream.path, stream.records, stream.hash, stream.records, stream.hash) is None,
{
    assert forall|i: int| 0 <= i < items.len() implies agrees(
        #[trigger] items[i],
        stream.rejected_lines,
    ) by {
        match items[i] {
            Ok(SourceItem::Rejected { line }) => {
                assert(rejected_at(items[i], line));
            },
            Ok(SourceItem::Record { line, rejected_now, record }) => {
                if rejected_now {
                    assert(rejected_at(items[i], line));
                } else {
                    assert(survives_at(items[i], line));
                    if stream.rejected_lines.contains(line) {
                        let k = choose|k: int|
                            0 <= k < items.len() && rejected_at(#[trigger] items[k], line);
                        assert(rejected_at(items[k], line));
                    }
                }
            },
            _ => {},
        }
    }
    law_stream_ends_well_exactly_when_the_reads_agree(stream, items);
    law_chunks_hold_exactly_the_survivors(stream, items);
}

/// A source that changed is named, with what changed.
pub proof fn law_changed_source_is_named(path: &str, detail: &str, failure: LoadFailure)
    requires
        call_ensures(source_changed, (path, detail), failure),
    ensures
        failure.code@ == "source_changed_during_load"@,
        failure.message@ == "source "@ + path@ + " changed during the load: "@ + detail@,
{
}

/// The second read expects rejections at just the lines where the first one had
/// them, and the records and the bytes that it had.
pub proof fn law_expectations_are_the_first_read(
    rejected: Vec<u64>,
    records: u64,
    hash: u64,
    expectations: PassOneExpectations,
)
    requires
        call_ensures(PassOneExpectations::new, (&rejected, records, hash), expectations),
    ensures
        forall|line: u64| #[trigger]
            expectations.rejected_lines@.contains(line) <==> exists|i: int|
                0 <= i < rejected@.len() && #[trigger] rejected@[i] == line,
        expectations.records == records,
        expectations.hash == hash,
{
    assert forall|line: u64| #[trigger]
        expectations.rejected_lines@.contains(line) <==> exists|i: int|
            0 <= i < rejected@.len() && #[trigger] rejected@[i] == line by {
        assert(rejected@.to_set().contains(line) <==> rejected@.contains(line));
    }
}

/// A record survives where neither read rejects it and is skipped where both do.
/// Where they disagree the source has changed, at that line.
pub proof fn law_records_are_judged_as_before(
    expectations: PassOneExpectations,
    path: &str,
    line: u64,
    rejected_now: bool,
    checked: Result<RecordDisposition, LoadFailure>,
)
    requires
        call_ensures(
            PassOneExpectations::cross_check,
            (&expectations, path, line, rejected_now),
            checked,
        ),
    ensures
        ({
            let rejected_then = expectations.rejected_lines@.contains(line);
            &&& checked == Ok::<RecordDisposition, LoadFailure>(RecordDisposition::Survives)
                <==> !rejected_now && !rejected_then
            &&& checked == Ok::<RecordDisposition, LoadFailure>(RecordDisposition::Skips)
                <==> rejected_now && rejected_then
            &&& checked is Err <==> rejected_now != rejected_then
            &&& checked matches Err(failure) ==> failure.code@ == "source_changed_during_load"@
                && failure.message@ == "source "@ + path@ + " changed during the load: "@ + (
            "the record at line "@ + decimal(line as nat)
                + " no longer matches its first-pass outcome"@)
        }),
{
}

/// The end of input passes exactly with the records and the bytes of the first read.
/// A wrong number of records is told before wrong bytes.
pub proof fn law_end_of_input_is_held_to_the_first_read(
    expectations: PassOneExpectations,
    path: &str,
    seen: u64,
    hash: u64,
    verified: Result<(), LoadFailure>,
)
    requires
        call_ensures(
            PassOneExpectations::verify_end_of_input,
            (&expectations, path, seen, hash),
            verified,
        ),
    ensures
        verified is Ok <==> seen == expectations.records && hash == expectations.hash,
        verified matches Err(failure) ==> {
            &&& failure.code@ == "source_changed_during_load"@
            &&& failure.message@ == "source "@ + path@ + " changed during the load: "@ + (if seen
                != expectations.records {
                "it now has "@ + decimal(seen as nat) + " records instead of "@ + decimal(
                    expectations.records as nat,
                )
            } else {
                "its bytes no longer match the first pass"@
            })
        },
{
    if let Err(failure) = verified {
        assert(failure@.code == failure.code@ && failure@.message == failure.message@);
    }
}

/// A new stream has seen nothing and waits for its source to be opened; halting it
/// ends it.
pub proof fn law_stream_starts_and_ends(
    path: String,
    chunk_rows: usize,
    expectations: PassOneExpectations,
    fresh: ChunkStream,
    opening: &mut ChunkStream,
    halting: &mut ChunkStream,
)
    requires
        call_ensures(ChunkStream::new, (path, chunk_rows, expectations), fresh),
        call_ensures(ChunkStream::opened, (opening,), ()),
        call_ensures(ChunkStream::halt, (halting,), ()),
    ensures
        fresh@.path == path@ && fresh@.chunk_rows == chunk_rows,
        fresh@.rejected_lines == expectations.rejected_lines@,
        fresh@.records == expectations.records && fresh@.hash == expectations.hash,
        fresh@.seen == 0 && !fresh@.yielded_any && fresh@.phase == ChunkPhase::NotStarted,
        final(opening)@.phase == ChunkPhase::Streaming,
        final(opening)@.seen == old(opening)@.seen && final(opening)@.rejected_lines
            == old(opening)@.rejected_lines && final(opening)@.chunk_rows
            == old(opening)@.chunk_rows && final(opening)@.records == old(opening)@.records
            && final(opening)@.hash == old(opening)@.hash && final(opening)@.yielded_any
            == old(opening)@.yielded_any,
        final(halting)@.phase == ChunkPhase::Done,
        final(halting)@.seen == old(halting)@.seen,
{
}

/// A pull hands out the next surviving records in source order and leaves the rest:
/// as many as a chunk holds, or all that are left once the input ends. Every record
/// that was passed is counted, rejected or not. An empty chunk comes only as the
/// first one, and a pull without a chunk only once nothing is left and the source
/// proved unchanged.
pub proof fn law_pull_hands_out_the_next_survivors<
    R,
    I: Iterator<Item = Result<SourceItem<R>, LoadFailure>>,
    H: FnOnce() -> u64,
>(
    stream: &mut ChunkStream,
    items: &mut I,
    hash: H,
    result: Result<Option<Vec<R>>, LoadFailure>,
)
    requires
        old(stream)@.phase == ChunkPhase::Streaming,
        old(stream)@.chunk_rows >= 1,
        call_ensures(ChunkStream::next_chunk::<R, I, H>, (stream, items, hash), result),
    ensures
        ({
            let before = <I as IteratorSpec>::remaining(old(items));
            let after = <I as IteratorSpec>::remaining(final(items));
            &&& result matches Ok(Some(chunk)) ==> {
                &&& chunk@.len() <= old(stream)@.chunk_rows
                &&& survivors_of(before) == chunk@ + survivors_of(after)
                &&& old(stream)@.seen + records_in(before) == final(stream)@.seen + records_in(
                    after,
                )
                &&& chunk@.len() < old(stream)@.chunk_rows ==> after.len() == 0
                    && final(stream)@.phase == ChunkPhase::FinalCheck
                &&& chunk@.len() == 0 ==> !old(stream)@.yielded_any
                &&& final(stream)@.yielded_any
                &&& final(stream)@.phase != ChunkPhase::Done
            }
            &&& result matches Ok(None) ==> {
                &&& survivors_of(before).len() == 0 && old(stream)@.yielded_any
                &&& after.len() == 0 && final(stream)@.phase == ChunkPhase::Done
                &&& final(stream)@.seen == old(stream)@.seen + records_in(before)
                &&& final(stream)@.seen == old(stream)@.records
                &&& exists|h: u64| #[trigger] hash.ensures((), h) && h == old(stream)@.hash
            }
            &&& result is Err ==> final(stream)@.phase == ChunkPhase::Done
            &&& final(stream)@.rejected_lines == old(stream)@.rejected_lines
            &&& final(stream)@.chunk_rows == old(stream)@.chunk_rows
            &&& final(stream)@.records == old(stream)@.records && final(stream)@.hash
                == old(stream)@.hash
        }),
{
    let before = <I as IteratorSpec>::remaining(old(items));
    let from = old(stream)@;
    lemma_scan(
        from.path,
        from.rejected_lines,
        from.chunk_rows,
        before,
        Seq::<R>::empty(),
        from.seen,
    );
    assert(Seq::<R>::empty() + survivors_of(before) =~= survivors_of(before));
    if let Ok(Some(chunk)) = result {
        let after = <I as IteratorSpec>::remaining(final(items));
        if after.len() == 0 {
            assert(after =~= Seq::empty());
            assert(survivors_of(after) =~= Seq::<R>::empty());
            assert(chunk@ + survivors_of(after) =~= chunk@);
        }
    }
}

/// A stream whose last chunk was handed out ends well exactly where it has seen the
/// records of the first read and the bytes hash alike. A stream that has ended hands
/// out nothing more.
pub proof fn law_last_chunk_is_followed_by_the_check<
    R,
    I: Iterator<Item = Result<SourceItem<R>, LoadFailure>>,
    H: FnOnce() -> u64,
>(
    stream: &mut ChunkStream,
    items: &mut I,
    hash: H,
    result: Result<Option<Vec<R>>, LoadFailure>,
)
    requires
        old(stream)@.phase == ChunkPhase::FinalCheck || old(stream)@.phase == ChunkPhase::Done,
        call_ensures(ChunkStream::next_chunk::<R, I, H>, (stream, items, hash), result),
    ensures
        !(result matches Ok(Some(_))),
        final(stream)@.phase == ChunkPhase::Done,
        old(stream)@.phase == ChunkPhase::Done ==> result is Ok,
        old(stream)@.phase == ChunkPhase::FinalCheck ==> exists|h: u64|
            {
                &&& #[trigger] hash.ensures((), h)
                &&& result is Ok <==> old(stream)@.seen == old(stream)@.records && h
                    == old(stream)@.hash
            },
{
}

/// A pull fails where the second read sees a record otherwise than the first one did,
/// or cannot go on, and never before such an item: everything in front of it was
/// seen alike.
pub proof fn law_pull_fails_only_where_the_reads_disagree<
    R,
    I: Iterator<Item = Result<SourceItem<R>, LoadFailure>>,
    H: FnOnce() -> u64,
>(
    stream: &mut ChunkStream,
    items: &mut I,
    hash: H,
    result: Result<Option<Vec<R>>, LoadFailure>,
)
    requires
        old(stream)@.phase == ChunkPhase::Streaming,
        old(stream)@.chunk_rows >= 1,
        call_ensures(ChunkStream::next_chunk::<R, I, H>, (stream, items, hash), result),
        all_agree(
            <I as IteratorSpec>::remaining(old(items)),
            old(stream)@.rejected_lines,
        ),
    ensures
        result is Err ==> {
            &&& survivors_of(<I as IteratorSpec>::remaining(old(items))).len() == 0
            &&& old(stream)@.yielded_any
            &&& exists|h: u64| #[trigger]
                hash.ensures((), h) && !(old(stream)@.seen + records_in(
                    <I as IteratorSpec>::remaining(old(items)),
                ) == old(stream)@.records && h == old(stream)@.hash)
        },
{
    let before = <I as IteratorSpec>::remaining(old(items));
    let from = old(stream)@;
    lemma_scan_agreement(
        from.path,
        from.rejected_lines,
        from.chunk_rows,
        before,
        Seq::<R>::empty(),
        from.seen,
    );
    lemma_scan(
        from.path,
        from.rejected_lines,
        from.chunk_rows,
        before,
        Seq::<R>::empty(),
        from.seen,
    );
    assert(Seq::<R>::empty() + survivors_of(before) =~= survivors_of(before));
}

/// Whether the second read sees an item as the first one did: it could be read, and it
/// is rejected exactly where its line was.
pub open spec fn seen_alike<R>(
    item: Result<SourceItem<R>, LoadFailure>,
    rejected_lines: Set<u64>,
) -> bool {
    &&& item is Ok
    &&& item->Ok_0 matches SourceItem::Rejected { line } ==> rejected_lines.contains(line)
    &&& item->Ok_0 matches SourceItem::Record { line, rejected_now, record } ==> (rejected_now
        <==> rejected_lines.contains(line))
}

/// Whether a failure is that of an item that the second read does not see as the first
/// one did: the read's own failure, or that of a changed source, with the line.
pub open spec fn tells_unlike<R>(
    path: Seq<char>,
    item: Result<SourceItem<R>, LoadFailure>,
    code: Seq<char>,
    message: Seq<char>,
) -> bool {
    let unlike = |line: u64|
        code == "source_changed_during_load"@ && message == "source "@ + path
            + " changed during the load: "@ + ("the record at line "@ + decimal(line as nat)
            + " no longer matches its first-pass outcome"@);
    match item {
        Err(failure) => code == failure.code@ && message == failure.message@,
        Ok(SourceItem::Blank) => false,
        Ok(SourceItem::Rejected { line }) => unlike(line),
        Ok(SourceItem::Record { line, rejected_now, record }) => unlike(line),
    }
}

proof fn lemma_scan_holds_items_alike<R>(
    path: Seq<char>,
    rejected_lines: Set<u64>,
    chunk_rows: nat,
    items: Seq<Result<SourceItem<R>, LoadFailure>>,
    survivors: Seq<R>,
    seen: nat,
)
    ensures
        match scan(path, rejected_lines, chunk_rows, items, survivors, seen) {
            ScanEnd::Full { survivors: chunk, seen: after, rest } => {
                &&& rest.len() <= items.len()
                &&& rest == items.skip(items.len() - rest.len())
                &&& forall|i: int|
                    0 <= i < items.len() - rest.len() ==> seen_alike(
                        #[trigger] items[i],
                        rejected_lines,
                    )
            },
            ScanEnd::Exhausted { .. } => forall|i: int|
                0 <= i < items.len() ==> seen_alike(#[trigger] items[i], rejected_lines),
            ScanEnd::Failed { failure, .. } => exists|i: int|
                {
                    &&& 0 <= i < items.len()
                    &&& !seen_alike(#[trigger] items[i], rejected_lines)
                    &&& tells_unlike(path, items[i], failure.code, failure.message)
                    &&& forall|k: int|
                        0 <= k < i ==> seen_alike(#[trigger] items[k], rejected_lines)
                },
        },
    decreases items.len(),
{
    if items.len() > 0 {
        let rest = items.drop_first();
        let end = scan(path, rejected_lines, chunk_rows, items, survivors, seen);
        assert forall|i: int| 0 < i < items.len() implies #[trigger] items[i] == rest[i - 1] by {}
        assert(items.skip(1) =~= rest);
        if !seen_alike(items[0], rejected_lines) {
            assert(end is Failed);
        } else {
            let more = match items[0] {
                Ok(SourceItem::Record { line, rejected_now, record }) => if rejected_now {
                    survivors
                } else {
                    survivors.push(record)
                },
                _ => survivors,
            };
            let counted = if items[0]->Ok_0 is Blank {
                seen
            } else {
                seen + 1
            };
            lemma_scan_holds_items_alike(path, rejected_lines, chunk_rows, rest, more, counted);
            match end {
                ScanEnd::Full { survivors: chunk, seen: after, rest: left } => {
                    assert(left =~= items.skip(items.len() - left.len()));
                },
                ScanEnd::Exhausted { .. } => {},
                ScanEnd::Failed { failure, .. } => {
                    let i = choose|i: int|
                        {
                            &&& 0 <= i < rest.len()
                            &&& !seen_alike(#[trigger] rest[i], rejected_lines)
                            &&& tells_unlike(path, rest[i], failure.code, failure.message)
                            &&& forall|k: int|
                                0 <= k < i ==> seen_alike(#[trigger] rest[k], rejected_lines)
                        };
                    assert(items[i + 1] == rest[i]);
                },
            }
        }
    }
}

/// A pull holds every item it passes to the first read, and leaves those behind them
/// as they are. It fails at the first that is not seen alike, and tells it; and where
/// there is none, only by another number of records or other bytes at the end.
pub proof fn law_pull_holds_every_item_to_the_first_read<
    R,
    I: Iterator<Item = Result<SourceItem<R>, LoadFailure>>,
    H: FnOnce() -> u64,
>(
    stream: &mut ChunkStream,
    items: &mut I,
    hash: H,
    result: Result<Option<Vec<R>>, LoadFailure>,
)
    requires
        old(stream)@.phase == ChunkPhase::Streaming,
        old(stream)@.chunk_rows >= 1,
        call_ensures(ChunkStream::next_chunk::<R, I, H>, (stream, items, hash), result),
    ensures
        ({
            let all = <I as IteratorSpec>::remaining(old(items));
            let left = <I as IteratorSpec>::remaining(final(items));
            let lines = old(stream)@.rejected_lines;
            &&& result is Ok ==> {
                &&& left.len() <= all.len()
                &&& left == all.skip(all.len() - left.len())
                &&& forall|i: int|
                    0 <= i < all.len() - left.len() ==> seen_alike(#[trigger] all[i], lines)
            }
            &&& result matches Err(raised) ==> {
                ||| exists|i: int|
                    {
                        &&& 0 <= i < all.len()
                        &&& !seen_alike(#[trigger] all[i], lines)
                        &&& tells_unlike(
                            old(stream)@.path,
                            all[i],
                            raised.code@,
                            raised.message@,
                        )
                        &&& forall|k: int| 0 <= k < i ==> seen_alike(#[trigger] all[k], lines)
                    }
                ||| {
                    &&& forall|i: int| 0 <= i < all.len() ==> seen_alike(#[trigger] all[i], lines)
                    &&& raised.code@ == "source_changed_during_load"@
                    &&& raised.message@ == "source "@ + old(stream)@.path
                        + " changed during the load: "@ + (if final(stream)@.seen
                        != old(stream)@.records {
                        "it now has "@ + decimal(final(stream)@.seen) + " records instead of "@
                            + decimal(old(stream)@.records)
                    } else {
                        "its bytes no longer match the first pass"@
                    })
                }
            }
        }),
{
    let all = <I as IteratorSpec>::remaining(old(items));
    let from = old(stream)@;
    lemma_scan_holds_items_alike(
        from.path,
        from.rejected_lines,
        from.chunk_rows,
        all,
        Seq::<R>::empty(),
        from.seen,
    );
    let left = <I as IteratorSpec>::remaining(final(items));
    if left.len() == 0 {
        assert(left =~= all.skip(all.len() as int));
    }
    if let Err(raised) = result {
        assert(raised@.code == raised.code@ && raised@.message == raised.message@);
    }
}

/// A stream that fails its last check tells what changed: the number of records, or
/// else the bytes.
pub proof fn law_last_check_tells_what_changed<
    R,
    I: Iterator<Item = Result<SourceItem<R>, LoadFailure>>,
    H: FnOnce() -> u64,
>(
    stream: &mut ChunkStream,
    items: &mut I,
    hash: H,
    raised: LoadFailure,
)
    requires
        old(stream)@.phase == ChunkPhase::FinalCheck,
        call_ensures(
            ChunkStream::next_chunk::<R, I, H>,
            (stream, items, hash),
            Err::<Option<Vec<R>>, LoadFailure>(raised),
        ),
    ensures
        raised.code@ == "source_changed_during_load"@,
        raised.message@ == "source "@ + old(stream)@.path + " changed during the load: "@ + (
        if old(stream)@.seen != old(stream)@.records {
            "it now has "@ + decimal(old(stream)@.seen) + " records instead of "@ + decimal(
                old(stream)@.records,
            )
        } else {
            "its bytes no longer match the first pass"@
        }),
{
    assert(raised@.code == raised.code@ && raised@.message == raised.message@);
}

/// The survivors of a read are its records that are not rejected, all of them and in
/// source order; its records are all that is not blank.
pub proof fn law_survivors_are_the_records_not_rejected<R>(
    items: Seq<Result<SourceItem<R>, LoadFailure>>,
    more: Result<SourceItem<R>, LoadFailure>,
)
    ensures
        survivors_of(Seq::<Result<SourceItem<R>, LoadFailure>>::empty()).len() == 0,
        records_in(Seq::<Result<SourceItem<R>, LoadFailure>>::empty()) == 0,
        survivors_of(items.push(more)) == (match more {
            Ok(SourceItem::Record { line, rejected_now: false, record }) => survivors_of(
                items,
            ).push(record),
            _ => survivors_of(items),
        }),
        records_in(items.push(more)) == records_in(items) + (if more matches Ok(SourceItem::Blank) {
            0nat
        } else {
            1
        }),
    decreases items.len(),
{
    let longer = items.push(more);
    if items.len() == 0 {
        assert(longer.drop_first() =~= items);
        assert(survivors_of(items) =~= Seq::<R>::empty());
        if let Ok(SourceItem::Record { line, rejected_now, record }) = more {
            assert(survivors_of(longer) =~= if rejected_now {
                Seq::<R>::empty()
            } else {
                Seq::<R>::empty().push(record)
            });
        }
    } else {
        let rest = items.drop_first();
        assert(longer.drop_first() =~= rest.push(more));
        law_survivors_are_the_records_not_rejected(rest, more);
        assert(longer[0] == items[0]);
        if let Ok(SourceItem::Record { line, rejected_now, record }) = items[0] {
            if !rejected_now {
                assert(survivors_of(items) == seq![record] + survivors_of(rest));
                assert(survivors_of(longer) == seq![record] + survivors_of(rest.push(more)));
                if let Ok(SourceItem::Record { line: at, rejected_now: no, record: last }) = more {
                    if !no {
                        assert(seq![record] + survivors_of(rest).push(last) =~= (seq![record]
                            + survivors_of(rest)).push(last));
                    }
                }
            }
        }
    }
}

} // verus!
