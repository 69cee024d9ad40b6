//! The first read of a local file: it resolves everything about the whole
//! input before any record is written. Records stream through; what is kept
//! are counts, field names and the lines of rejected records.
use crate::failure::{bare_failure, ExecutionFailure, FailureView, LoadFailure};
use crate::json::{object_entries, rendered_json};
use crate::lines::{
    lemma_line_handed, lemma_line_withheld, lines_appended, LineWrite, LineWriter, RecordObserver,
};
use crate::load::SourceRead;
use crate::local_file::{
    fieldless_jsonl, jsonl_read_failed, keys_of, law_field_names_are_the_key_union, CsvPass,
    JsonlPass, JsonlPassView,
};
use crate::rejection::{
    entry_lines, entry_texts, in_line_order, lemma_merged_lines_contain, merged_lines,
    rejection_entry, rejection_tree, rendered_entries, rendered_lines, spill_tree, ArtifactEntry,
    RejectedRecord, RejectionSink, SinkView,
};
use crate::schema::PinnedSchemaWrite;
use crate::source::{
    csv_item_is, jsonl_line_is, CsvItem, CsvReadError, JsonRecord, JsonlLine, TextRecord,
};
use crate::stream::{
    law_unchanged_source_streams_through, records_in, rejected_at, stream_run, survives_at,
    survivors_of, ChunkPhase, ChunkStream, PassOneExpectations, SourceItem, StreamView,
};
use crate::text::{decimal, texts};
use serde_json::Value;
use vstd::prelude::*;
use vstd::std_specs::iter::IteratorSpec;

verus! {

/// What the schema engine resolves of a whole input: how chunks are built, the
/// decision to report, and the pinned schema file to write.
pub struct Resolution<K> {
    pub plan: K,
    pub decision: Value,
    pub pinned_schema_write: Option<PinnedSchemaWrite>,
}

/// The second read of a source, which builds its chunks by a plan.
pub struct SecondRead<K> {
    pub plan: K,
    pub stream: ChunkStream,
}

/// Whether an item of a CSV reader is rejected so: one that does not parse is,
/// and of a record the observer decides.
pub open spec fn csv_verdict<O: RecordObserver<TextRecord, Option<RejectedRecord>>>(
    judge: O::Judge,
    item: CsvItem,
    rejected: Option<RejectedRecord>,
) -> bool {
    match item {
        CsvItem::Rejected(rejection) => rejected == Some(rejection),
        CsvItem::Record(record) => O::may_judge(judge, record, rejected),
    }
}

/// What reading the records of a CSV file came to: for each of them its
/// classification and whether it was rejected.
pub open spec fn csv_read<O: RecordObserver<TextRecord, Option<RejectedRecord>>>(
    records: Seq<Result<csv::StringRecord, CsvReadError>>,
    field_count: nat,
    judge: O::Judge,
    items: Seq<CsvItem>,
    rejected: Seq<Option<RejectedRecord>>,
) -> bool {
    &&& items.len() == records.len()
    &&& rejected.len() == records.len()
    &&& forall|i: int|
        0 <= i < records.len() ==> csv_item_is(#[trigger] records[i], field_count, items[i])
            && csv_verdict::<O>(judge, items[i], rejected[i])
}

/// What an observer sees of the items of a CSV reader: every record, in order.
pub open spec fn csv_observed(
    items: Seq<CsvItem>,
    rejected: Seq<Option<RejectedRecord>>,
) -> Seq<(TextRecord, Option<RejectedRecord>)>
    decreases items.len(),
{
    if items.len() == 0 {
        seq![]
    } else {
        let before = csv_observed(items.drop_last(), rejected.drop_last());
        match items.last() {
            CsvItem::Record(record) => before.push((record, rejected.last())),
            CsvItem::Rejected(_) => before,
        }
    }
}

/// Whether the sink recorded just these rejections, in order: its other
/// failures are those of the writes of their lines.
pub open spec fn sink_recorded<E>(before: SinkView<E>, lines: Seq<u64>, after: SinkView<E>) -> bool {
    &&& after == (SinkView { lines: before.lines + lines, io_error: after.io_error, ..before })
    &&& before.io_error is Some ==> after.io_error == before.io_error
}

/// Whether a read source is what a resolution and the counts come to.
pub open spec fn is_source_read<E, K, H: FnOnce() -> u64>(
    path: Seq<char>,
    source_bytes: u64,
    source_rows: nat,
    chunk_rows: usize,
    resolution: Resolution<K>,
    hash: H,
    sink: SinkView<E>,
    read: SourceRead<SecondRead<K>>,
) -> bool {
    &&& read.schema_decision == resolution.decision
    &&& read.pinned_schema_write == resolution.pinned_schema_write
    &&& read.source_bytes == source_bytes
    &&& read.source_rows == source_rows
    &&& read.rejected_count == sink.lines.len()
    &&& read.chunks.plan == resolution.plan
    &&& exists|h: u64|
        {
            &&& #[trigger] hash.ensures((), h)
            &&& read.chunks.stream@ == (StreamView {
                path,
                chunk_rows: chunk_rows as nat,
                rejected_lines: sink.lines.to_set(),
                records: source_rows,
                hash: h,
                seen: 0,
                yielded_any: false,
                phase: ChunkPhase::NotStarted,
            })
        }
}

proof fn lemma_no_more_lines_than_items(rejected: Seq<Option<RejectedRecord>>)
    ensures
        rendered_lines(rejected).len() <= rejected.len(),
    decreases rejected.len(),
{
    if rejected.len() > 0 {
        lemma_no_more_lines_than_items(rejected.drop_last());
    }
}

fn assemble_read<E, K, H: FnOnce() -> u64>(
    path: &str,
    source_bytes: u64,
    source_rows: u64,
    chunk_rows: usize,
    resolution: Resolution<K>,
    hash: H,
    sink: &RejectionSink<E>,
) -> (read: SourceRead<SecondRead<K>>)
    requires
        chunk_rows >= 1,
        hash.requires(()),
    ensures
        is_source_read(
            path@,
            source_bytes,
            source_rows as nat,
            chunk_rows,
            resolution,
            hash,
            sink@,
            read,
        ),
{
    let h: u64 = hash();
    let expectations = PassOneExpectations::new(sink.rejected_lines(), source_rows, h);
    let stream = ChunkStream::new(path.to_owned(), chunk_rows, expectations);
    proof {
        assert(hash.ensures((), h));
    }
    SourceRead {
        schema_decision: resolution.decision,
        pinned_schema_write: resolution.pinned_schema_write,
        source_bytes,
        source_rows,
        rejected_count: sink.count(),
        chunks: SecondRead { plan: resolution.plan, stream },
    }
}

/// The first read of a CSV file, after its header. Each record is classified;
/// what does not parse is rejected, and the observer sees every other record
/// and may reject it. Rejections go to the sink in source order, and `append`
/// writes their lines. At the end `finish` resolves the schema from what the
/// observer saw.
pub fn read_csv<
    E,
    K,
    I: Iterator<Item = Result<csv::StringRecord, CsvReadError>>,
    O: RecordObserver<TextRecord, Option<RejectedRecord>>,
    A: LineWriter<E>,
    F: FnOnce(O) -> Result<Resolution<K>, ExecutionFailure>,
    H: FnOnce() -> u64,
>(
    path: &str,
    source_bytes: u64,
    field_count: usize,
    chunk_rows: usize,
    records: I,
    observer: O,
    append: &mut A,
    finish: F,
    hash: H,
    sink: &mut RejectionSink<E>,
) -> (result: Result<SourceRead<SecondRead<K>>, ExecutionFailure>)
    requires
        chunk_rows >= 1,
        records.obeys_prophetic_iter_laws(),
        records.decrease() is Some,
        records.remaining().len() <= u64::MAX,
        observer.ready(),
        old(append).ready(),
        forall|seen: O| #[trigger] finish.requires((seen,)),
        forall|seen: O, resolution: Resolution<K>| #[trigger]
            finish.ensures((seen,), Ok(resolution)) ==> hash.requires(()),
    ensures
        exists|
            items: Seq<CsvItem>,
            rejected: Seq<Option<RejectedRecord>>,
            writes: Seq<LineWrite<E>>,
            seen: O,
            finished: Result<Resolution<K>, ExecutionFailure>,
        |
            {
                &&& #[trigger] csv_read::<O>(
                    records.remaining(),
                    field_count as nat,
                    observer.judge(),
                    items,
                    rejected,
                )
                &&& sink_recorded(old(sink)@, rendered_lines(rejected), final(sink)@)
                &&& #[trigger] lines_appended(
                    old(sink)@.io_error,
                    entry_texts(rendered_entries(rejected)),
                    writes,
                    final(sink)@.io_error,
                )
                &&& final(append).handed() == old(append).handed() + writes
                &&& #[trigger] finish.ensures((seen,), finished)
                &&& seen.judge() == observer.judge()
                &&& seen.observed() == observer.observed() + csv_observed(items, rejected)
                &&& match finished {
                    Err(failure) => result matches Err(raised) && raised == (ExecutionFailure {
                        rejected_count: raised.rejected_count,
                        ..failure
                    }) && raised.rejected_count == final(sink)@.lines.len(),
                    Ok(resolution) => result matches Ok(read) && is_source_read(
                        path@,
                        source_bytes,
                        records.remaining().len(),
                        chunk_rows,
                        resolution,
                        hash,
                        final(sink)@,
                        read,
                    ),
                }
            },
        final(append).ready(),
        final(append).target() == old(append).target(),
        old(sink)@.lines.len() == 0 ==> final(sink)@.lines.len() <= records.remaining().len(),
{
    let ghost all = records.remaining();
    let ghost judge = observer.judge();
    let mut source = records;
    let mut seen = observer;
    let mut pass = CsvPass::new(field_count);
    let ghost mut read: int = 0;
    let ghost mut items: Seq<CsvItem> = seq![];
    let ghost mut rejected: Seq<Option<RejectedRecord>> = seq![];
    let ghost mut writes: Seq<LineWrite<E>> = seq![];
    proof {
        assert(all.skip(0) =~= all);
        assert(old(sink)@.lines + rendered_lines(rejected) =~= old(sink)@.lines);
        assert(append.handed() =~= old(append).handed() + writes);
        assert(seen.observed() =~= observer.observed() + csv_observed(items, rejected));
        assert(entry_texts(rendered_entries(rejected)) =~= seq![]);
    }
    loop
        invariant
            <I as IteratorSpec>::obeys_prophetic_iter_laws(&source),
            <I as IteratorSpec>::decrease(&source) is Some,
            all == records.remaining(),
            all.len() <= u64::MAX,
            0 <= read <= all.len(),
            <I as IteratorSpec>::remaining(&source) == all.skip(read),
            judge == observer.judge(),
            seen.ready(),
            seen.judge() == judge,
            seen.observed() == observer.observed() + csv_observed(items, rejected),
            append.ready(),
            append.target() == old(append).target(),
            append.handed() == old(append).handed() + writes,
            pass.fields() == field_count,
            pass.parsed() + pass.rejected() == read,
            csv_read::<O>(all.take(read), field_count as nat, judge, items, rejected),
            sink_recorded(old(sink)@, rendered_lines(rejected), sink@),
            lines_appended(
                old(sink)@.io_error,
                entry_texts(rendered_entries(rejected)),
                writes,
                sink@.io_error,
            ),
        ensures
            read == all.len(),
        decreases <I as IteratorSpec>::decrease(&source)->0,
    {
        let record = match source.next() {
            None => {
                break;
            },
            Some(record) => record,
        };
        proof {
            assert(record == all[read]);
            assert(all.skip(read).drop_first() =~= all.skip(read + 1));
        }
        let item = pass.on_record(record);
        let ghost classified = item;
        let rejection = match item {
            CsvItem::Rejected(rejection) => Some(rejection),
            CsvItem::Record(text) => seen.observe(&text),
        };
        let ghost before_items = items;
        let ghost before_rejected = rejected;
        proof {
            items = items.push(classified);
            rejected = rejected.push(rejection);
            assert(csv_verdict::<O>(judge, classified, rejection));
            assert(all.take(read + 1).drop_last() =~= all.take(read));
            assert forall|i: int| 0 <= i < all.take(read + 1).len() implies csv_item_is(
                #[trigger] all.take(read + 1)[i],
                field_count as nat,
                items[i],
            ) && csv_verdict::<O>(judge, items[i], rejected[i]) by {
                if i < read {
                    assert(all.take(read)[i] == all.take(read + 1)[i]);
                    assert(items[i] == before_items[i]);
                    assert(rejected[i] == before_rejected[i]);
                }
            }
            assert(rejected.drop_last() =~= before_rejected);
            assert(items.drop_last() =~= before_items);
            assert(seen.observed() =~= observer.observed() + csv_observed(items, rejected));
        }
        if let Some(rejection) = &rejection {
            let ghost texts = entry_texts(rendered_entries(before_rejected));
            let ghost text = rejection_entry(*rejection).1;
            proof {
                assert(entry_texts(rendered_entries(rejected)) =~= texts.push(text));
            }
            match sink.record(rejection) {
                Some(line) => {
                    let done = append.write_line(line.as_str());
                    proof {
                        lemma_line_handed(texts, writes, text, done);
                        writes = writes.push(LineWrite { line: text, outcome: done });
                        assert(append.handed() =~= old(append).handed() + writes);
                    }
                    match done {
                        Ok(_) => {},
                        Err(error) => {
                            sink.absorb(error);
                        },
                    }
                },
                None => {
                    proof {
                        lemma_line_withheld(
                            old(sink)@.io_error,
                            texts,
                            writes,
                            sink@.io_error->0,
                            text,
                        );
                    }
                },
            }
            proof {
                assert(sink@.lines =~= old(sink)@.lines + rendered_lines(rejected));
            }
        }
        proof {
            read = read + 1;
        }
    }
    proof {
        assert(all.take(read) =~= all);
        assert(csv_read::<O>(all, field_count as nat, judge, items, rejected));
        lemma_no_more_lines_than_items(rejected);
    }
    let rows: u64 = pass.source_rows();
    let ghost observed = seen;
    let finished = finish(seen);
    proof {
        assert(finish.ensures((observed,), finished));
    }
    match finished {
        Err(failure) => Err(failure.with_rejected_count(sink.count())),
        Ok(resolution) => Ok(
            assemble_read(path, source_bytes, rows, chunk_rows, resolution, hash, sink),
        ),
    }
}

/// Whether a line was put aside so: of a record the observer decides, and
/// nothing else is.
pub open spec fn jsonl_verdict<O: RecordObserver<JsonRecord, bool>>(
    judge: O::Judge,
    line: JsonlLine,
    spilled: bool,
) -> bool {
    match line {
        JsonlLine::Record(record) => O::may_judge(judge, record, spilled),
        _ => !spilled,
    }
}

/// What reading the lines of a JSONL file came to: for each of them its
/// classification and whether it was put aside.
pub open spec fn jsonl_read<O: RecordObserver<JsonRecord, bool>>(
    lines: Seq<Result<Vec<u8>, String>>,
    judge: O::Judge,
    classified: Seq<JsonlLine>,
    spilled: Seq<bool>,
) -> bool {
    &&& classified.len() == lines.len()
    &&& spilled.len() == lines.len()
    &&& forall|i: int|
        0 <= i < lines.len() ==> #[trigger] lines[i] is Ok && jsonl_line_is(
            lines[i]->Ok_0@,
            (i + 1) as u64,
            classified[i],
        ) && jsonl_verdict::<O>(judge, classified[i], spilled[i])
}

/// What an observer sees of the lines of a JSONL file: every record, in order.
pub open spec fn jsonl_observed(classified: Seq<JsonlLine>, spilled: Seq<bool>) -> Seq<
    (JsonRecord, bool),
>
    decreases classified.len(),
{
    if classified.len() == 0 {
        seq![]
    } else {
        let before = jsonl_observed(classified.drop_last(), spilled.drop_last());
        match classified.last() {
            JsonlLine::Record(record) => before.push((record, spilled.last())),
            _ => before,
        }
    }
}

/// The state of the first read after these lines.
pub open spec fn pass_over(classified: Seq<JsonlLine>) -> JsonlPassView
    decreases classified.len(),
{
    if classified.len() == 0 {
        JsonlPassView { lines: 0, parsed: 0, rejected: 0, field_names: seq![] }
    } else {
        pass_over(classified.drop_last()).after(classified.last())
    }
}

/// The source lines of those that do not parse.
pub open spec fn unparsed_lines(classified: Seq<JsonlLine>) -> Seq<u64>
    decreases classified.len(),
{
    if classified.len() == 0 {
        seq![]
    } else {
        let before = unparsed_lines(classified.drop_last());
        match classified.last() {
            JsonlLine::Rejected(rejection) => before.push(rejection.line),
            _ => before,
        }
    }
}

/// The artifact lines of those that do not parse.
pub open spec fn unparsed_entries(classified: Seq<JsonlLine>) -> Seq<ArtifactEntry>
    decreases classified.len(),
{
    if classified.len() == 0 {
        seq![]
    } else {
        let before = unparsed_entries(classified.drop_last());
        match classified.last() {
            JsonlLine::Rejected(rejection) => before.push(rejection_entry(rejection)),
            _ => before,
        }
    }
}

/// The spill lines of the records that were put aside.
pub open spec fn spill_texts(classified: Seq<JsonlLine>, spilled: Seq<bool>) -> Seq<Seq<char>>
    decreases classified.len(),
{
    if classified.len() == 0 {
        seq![]
    } else {
        let before = spill_texts(classified.drop_last(), spilled.drop_last());
        match classified.last() {
            JsonlLine::Record(record) => if spilled.last() {
                before.push(
                    rendered_json(spill_tree(record.line, object_entries(record.object))),
                )
            } else {
                before
            },
            _ => before,
        }
    }
}

/// How many lines were put aside.
pub open spec fn spilled_count(spilled: Seq<bool>) -> nat
    decreases spilled.len(),
{
    if spilled.len() == 0 {
        0
    } else {
        spilled_count(spilled.drop_last()) + if spilled.last() {
            1nat
        } else {
            0
        }
    }
}

/// The failure of a first read that established its counts and nothing else.
pub open spec fn counted_failure(
    failure: LoadFailure,
    pass: JsonlPassView,
    rejected_count: u64,
) -> ExecutionFailure {
    ExecutionFailure {
        source_rows: Some((pass.parsed + pass.rejected) as u64),
        rejected_count,
        ..bare_failure(failure)
    }
}

/// The first of two failures.
pub open spec fn first_failure<E>(first: Option<E>, second: Option<E>) -> Option<E> {
    match first {
        Some(error) => Some(error),
        None => second,
    }
}

/// What happened in the first read of a JSONL file: how many lines were read,
/// what they were, which of them were put aside, and what was handed to the
/// artifact and to the spill before the spill was closed.
#[verifier::reject_recursive_types(E)]
#[verifier::reject_recursive_types(B)]
#[verifier::reject_recursive_types(O)]
pub struct JsonlTrace<E, B, O> {
    pub read: int,
    pub classified: Seq<JsonlLine>,
    pub spilled: Seq<bool>,
    pub observer: O,
    pub writes: Seq<LineWrite<E>>,
    pub append_error: Option<E>,
    pub spill: B,
    pub spill_writes: Seq<LineWrite<E>>,
    pub spill_error: Option<E>,
    pub closed: Result<(), E>,
}

impl<E, B, O> JsonlTrace<E, B, O> {
    /// The first failure of writing the artifact, and the spill and closing it.
    pub open spec fn io_error(self) -> Option<E> {
        let closing = match self.closed {
            Ok(_) => None,
            Err(error) => Some(error),
        };
        first_failure(self.append_error, first_failure(self.spill_error, closing))
    }
}

/// Whether a spill was handed to a function that closes it, which closed it.
pub open spec fn was_closed<E, B, Z: FnOnce(B) -> Result<(), E>>(close_spill: Z, spill: B) -> bool {
    exists|closed: Result<(), E>| #[trigger] close_spill.ensures((spill,), closed) && closed is Ok
}

/// Whether the lines of a JSONL file may be read so. The observer sees every
/// record once and in order, the line of everything that does not parse goes to
/// the artifact, and that of every record put aside to the spill, which is then
/// closed.
pub open spec fn jsonl_traced<
    E,
    O: RecordObserver<JsonRecord, bool>,
    B: LineWriter<E>,
    Z: FnOnce(B) -> Result<(), E>,
>(
    lines: Seq<Result<Vec<u8>, String>>,
    observer: O,
    append_spill: B,
    close_spill: Z,
    before: SinkView<E>,
    trace: JsonlTrace<E, B, O>,
) -> bool {
    &&& 0 <= trace.read <= lines.len()
    &&& trace.read < lines.len() ==> lines[trace.read] is Err
    &&& jsonl_read::<O>(lines.take(trace.read), observer.judge(), trace.classified, trace.spilled)
    &&& trace.observer.judge() == observer.judge()
    &&& trace.observer.observed() == observer.observed() + jsonl_observed(
        trace.classified,
        trace.spilled,
    )
    &&& lines_appended(
        before.io_error,
        entry_texts(unparsed_entries(trace.classified)),
        trace.writes,
        trace.append_error,
    )
    &&& lines_appended(
        None,
        spill_texts(trace.classified, trace.spilled),
        trace.spill_writes,
        trace.spill_error,
    )
    &&& trace.spill.target() == append_spill.target()
    &&& trace.spill.handed() == append_spill.handed() + trace.spill_writes
    &&& close_spill.ensures((trace.spill,), trace.closed)
}

/// How the first read of a JSONL file ends, after these lines: with a line
/// that cannot be read, without any field, with the schema engine's failure,
/// or with a resolved source. Records that were put aside become rejections
/// only in the last case, by the merge; in every other the artifact keeps
/// what did not parse.
pub open spec fn jsonl_end<
    E,
    K,
    B,
    O,
    F: FnOnce(O, &Vec<String>) -> Result<Resolution<K>, ExecutionFailure>,
    M: FnOnce(&Resolution<K>) -> Result<Vec<u64>, E>,
    H: FnOnce() -> u64,
>(
    path: Seq<char>,
    source_bytes: u64,
    chunk_rows: usize,
    lines: Seq<Result<Vec<u8>, String>>,
    trace: JsonlTrace<E, B, O>,
    finish: F,
    merge: M,
    hash: H,
    before: SinkView<E>,
    after: SinkView<E>,
    result: Result<SourceRead<SecondRead<K>>, ExecutionFailure>,
) -> bool {
    let pass = pass_over(trace.classified);
    let kept = before.lines + unparsed_lines(trace.classified);
    let unmerged = SinkView { lines: kept, io_error: trace.io_error(), ..before };
    if trace.read < lines.len() {
        &&& after == unmerged
        &&& result matches Err(raised) && raised == counted_failure(
            raised.failure,
            pass,
            kept.len() as u64,
        ) && raised.failure@ == jsonl_read_failed(path, pass.lines, lines[trace.read]->Err_0@)
    } else if pass.field_names.len() == 0 {
        &&& after == unmerged
        &&& result matches Err(raised) && raised == counted_failure(
            raised.failure,
            pass,
            kept.len() as u64,
        ) && raised.failure@ == fieldless_jsonl(path)
    } else {
        exists|names: &Vec<String>, finished: Result<Resolution<K>, ExecutionFailure>|
            {
                &&& #[trigger] finish.ensures((trace.observer, names), finished)
                &&& texts(names@) == pass.field_names
                &&& match finished {
                    Err(failure) => {
                        &&& after == unmerged
                        &&& result == Err::<SourceRead<SecondRead<K>>, _>(
                            ExecutionFailure { rejected_count: kept.len() as u64, ..failure },
                        )
                    },
                    Ok(resolution) => {
                        &&& result matches Ok(read) && is_source_read(
                            path,
                            source_bytes,
                            pass.parsed + pass.rejected,
                            chunk_rows,
                            resolution,
                            hash,
                            after,
                            read,
                        )
                        &&& merged_or_kept(
                            unmerged,
                            spilled_count(trace.spilled),
                            resolution,
                            merge,
                            after,
                        )
                    },
                }
            }
    }
}

/// Whether the sink holds what it should once the source was resolved: the
/// merged lines where records were put aside, unless something failed.
pub open spec fn merged_or_kept<E, K, M: FnOnce(&Resolution<K>) -> Result<Vec<u64>, E>>(
    unmerged: SinkView<E>,
    spilled: nat,
    resolution: Resolution<K>,
    merge: M,
    after: SinkView<E>,
) -> bool {
    if spilled == 0 || unmerged.io_error is Some {
        after == unmerged
    } else {
        exists|merged: Result<Vec<u64>, E>|
            {
                &&& #[trigger] merge.ensures((&resolution,), merged)
                &&& after == match merged {
                    Ok(lines) => SinkView { lines: lines@, ..unmerged },
                    Err(error) => SinkView { io_error: Some(error), ..unmerged },
                }
            }
    }
}

/// The first read of a JSONL file. Each line is classified; what does not parse
/// is rejected at once, through the sink and `append`. Records that the observer
/// finds at fault are put aside through `append_spill`, because only the whole
/// input tells whether its shape is right: once `finish` resolved the schema,
/// `merge` puts them into the artifact, and without that they are dropped.
/// `close_spill` comes before either.
pub fn read_jsonl<
    E,
    K,
    I: Iterator<Item = Result<Vec<u8>, String>>,
    O: RecordObserver<JsonRecord, bool>,
    A: LineWriter<E>,
    B: LineWriter<E>,
    Z: FnOnce(B) -> Result<(), E>,
    F: FnOnce(O, &Vec<String>) -> Result<Resolution<K>, ExecutionFailure>,
    M: FnOnce(&Resolution<K>) -> Result<Vec<u64>, E>,
    H: FnOnce() -> u64,
>(
    path: &str,
    source_bytes: u64,
    chunk_rows: usize,
    lines: I,
    observer: O,
    append: &mut A,
    append_spill: B,
    close_spill: Z,
    finish: F,
    merge: M,
    hash: H,
    sink: &mut RejectionSink<E>,
) -> (result: Result<SourceRead<SecondRead<K>>, ExecutionFailure>)
    requires
        chunk_rows >= 1,
        lines.obeys_prophetic_iter_laws(),
        lines.decrease() is Some,
        lines.remaining().len() <= u64::MAX,
        observer.ready(),
        old(append).ready(),
        append_spill.ready(),
        forall|spill: B| #[trigger] close_spill.requires((spill,)),
        forall|seen: O, names: &Vec<String>|
            names@.len() > 0 ==> #[trigger] finish.requires((seen, names)),
        forall|spill: B, seen: O, names: &Vec<String>, resolution: Resolution<K>|
            {
                &&& #[trigger] was_closed(close_spill, spill)
                &&& spill.handed().len() > append_spill.handed().len()
                &&& #[trigger] finish.ensures((seen, names), Ok(resolution))
            } ==> merge.requires((&resolution,)),
        forall|seen: O, names: &Vec<String>, resolution: Resolution<K>| #[trigger]
            finish.ensures((seen, names), Ok(resolution)) ==> hash.requires(()),
    ensures
        exists|trace: JsonlTrace<E, B, O>|
            {
                &&& #[trigger] jsonl_traced(
                    lines.remaining(),
                    observer,
                    append_spill,
                    close_spill,
                    old(sink)@,
                    trace,
                )
                &&& final(append).handed() == old(append).handed() + trace.writes
                &&& jsonl_end(
                    path@,
                    source_bytes,
                    chunk_rows,
                    lines.remaining(),
                    trace,
                    finish,
                    merge,
                    hash,
                    old(sink)@,
                    final(sink)@,
                    result,
                )
            },
        final(append).ready(),
        final(append).target() == old(append).target(),
{
    let ghost all = lines.remaining();
    let ghost judge = observer.judge();
    let mut source = lines;
    let mut seen = observer;
    let mut aside = append_spill;
    let mut pass = JsonlPass::new();
    let mut spill = sink.spill();
    let mut broken: Option<String> = None;
    let ghost mut read: int = 0;
    let ghost mut classified: Seq<JsonlLine> = seq![];
    let ghost mut spilled: Seq<bool> = seq![];
    let ghost mut writes: Seq<LineWrite<E>> = seq![];
    let ghost mut spill_writes: Seq<LineWrite<E>> = seq![];
    let ghost before = sink@;
    proof {
        assert(all.skip(0) =~= all);
        assert(before.lines + unparsed_lines(classified) =~= before.lines);
        assert(append.handed() =~= old(append).handed() + writes);
        assert(aside.handed() =~= append_spill.handed() + spill_writes);
        assert(seen.observed() =~= observer.observed() + jsonl_observed(classified, spilled));
        assert(entry_texts(unparsed_entries(classified)) =~= seq![]);
    }
    loop
        invariant_except_break
            broken is None,
            <I as IteratorSpec>::remaining(&source) == all.skip(read),
        invariant
            <I as IteratorSpec>::obeys_prophetic_iter_laws(&source),
            <I as IteratorSpec>::decrease(&source) is Some,
            all == lines.remaining(),
            all.len() <= u64::MAX,
            0 <= read <= all.len(),
            judge == observer.judge(),
            seen.ready(),
            seen.judge() == judge,
            seen.observed() == observer.observed() + jsonl_observed(classified, spilled),
            append.ready(),
            append.target() == old(append).target(),
            append.handed() == old(append).handed() + writes,
            aside.ready(),
            aside.target() == append_spill.target(),
            aside.handed() == append_spill.handed() + spill_writes,
            before == old(sink)@,
            pass.wf(),
            pass@ == pass_over(classified),
            pass@.lines == read,
            spill.entries == spilled_count(spilled),
            spill.entries == spill_texts(classified, spilled).len(),
            spill.entries <= read,
            jsonl_read::<O>(all.take(read), judge, classified, spilled),
            sink_recorded(before, unparsed_lines(classified), sink@),
            lines_appended(
                before.io_error,
                entry_texts(unparsed_entries(classified)),
                writes,
                sink@.io_error,
            ),
            lines_appended(None, spill_texts(classified, spilled), spill_writes, spill.io_error),
        ensures
            match broken {
                Some(error) => read < all.len() && all[read] == Err::<Vec<u8>, String>(error),
                None => read == all.len(),
            },
        decreases <I as IteratorSpec>::decrease(&source)->0,
    {
        let bytes = match source.next() {
            None => {
                break;
            },
            Some(Err(error)) => {
                proof {
                    assert(all[read] == Err::<Vec<u8>, String>(error));
                }
                broken = Some(error);
                break;
            },
            Some(Ok(bytes)) => bytes,
        };
        proof {
            assert(all[read] == Ok::<Vec<u8>, String>(bytes));
            assert(all.skip(read).drop_first() =~= all.skip(read + 1));
        }
        let line = pass.on_line(bytes.as_slice());
        let ghost before_classified = classified;
        let ghost before_spilled = spilled;
        let ghost texts = entry_texts(unparsed_entries(classified));
        let ghost aside_texts = spill_texts(classified, spilled);
        let mut put_aside = false;
        let ghost kind = line;
        match &line {
            JsonlLine::Blank => {},
            JsonlLine::Rejected(rejection) => {
                let ghost text = rejection_entry(*rejection).1;
                match sink.record(rejection) {
                    Some(line) => {
                        let done = append.write_line(line.as_str());
                        proof {
                            lemma_line_handed(texts, writes, text, done);
                            writes = writes.push(LineWrite { line: text, outcome: done });
                            assert(append.handed() =~= old(append).handed() + writes);
                        }
                        match done {
                            Ok(_) => {},
                            Err(error) => {
                                sink.absorb(error);
                            },
                        }
                    },
                    None => {
                        proof {
                            lemma_line_withheld(
                                before.io_error,
                                texts,
                                writes,
                                sink@.io_error->0,
                                text,
                            );
                        }
                    },
                }
            },
            JsonlLine::Record(record) => {
                put_aside = seen.observe(record);
                if put_aside {
                    let ghost text = rendered_json(
                        spill_tree(record.line, object_entries(record.object)),
                    );
                    match spill.record(record.line, &record.object) {
                        Some(line) => {
                            let done = aside.write_line(line.as_str());
                            proof {
                                lemma_line_handed(aside_texts, spill_writes, text, done);
                                spill_writes = spill_writes.push(
                                    LineWrite { line: text, outcome: done },
                                );
                                assert(aside.handed() =~= append_spill.handed() + spill_writes);
                            }
                            match done {
                                Ok(_) => {},
                                Err(error) => {
                                    spill.absorb(error);
                                },
                            }
                        },
                        None => {
                            proof {
                                lemma_line_withheld(
                                    None,
                                    aside_texts,
                                    spill_writes,
                                    spill.io_error->0,
                                    text,
                                );
                            }
                        },
                    }
                }
            },
        }
        proof {
            classified = classified.push(kind);
            spilled = spilled.push(put_aside);
            assert(classified.drop_last() =~= before_classified);
            assert(spilled.drop_last() =~= before_spilled);
            assert(jsonl_verdict::<O>(judge, kind, put_aside));
            assert forall|i: int| 0 <= i < all.take(read + 1).len() implies #[trigger] all.take(
                read + 1,
            )[i] is Ok && jsonl_line_is(
                all.take(read + 1)[i]->Ok_0@,
                (i + 1) as u64,
                classified[i],
            ) && jsonl_verdict::<O>(judge, classified[i], spilled[i]) by {
                if i < read {
                    assert(all.take(read)[i] == all.take(read + 1)[i]);
                    assert(classified[i] == before_classified[i]);
                    assert(spilled[i] == before_spilled[i]);
                }
            }
            assert(sink@.lines =~= before.lines + unparsed_lines(classified));
            assert(seen.observed() =~= observer.observed() + jsonl_observed(classified, spilled));
            match kind {
                JsonlLine::Rejected(rejection) => {
                    assert(entry_texts(unparsed_entries(classified)) =~= texts.push(
                        rejection_entry(rejection).1,
                    ));
                },
                _ => {
                    assert(unparsed_entries(classified) == unparsed_entries(before_classified));
                },
            }
            read = read + 1;
        }
    }
    let ghost spill_error = spill.io_error;
    let ghost append_error = sink@.io_error;
    let ghost put = aside;
    let closed = close_spill(aside);
    let ghost trace = JsonlTrace {
        read,
        classified,
        spilled,
        observer: seen,
        writes,
        append_error,
        spill: put,
        spill_writes,
        spill_error,
        closed,
    };
    proof {
        assert(close_spill.ensures((put,), closed));
        assert(jsonl_traced(all, observer, append_spill, close_spill, before, trace));
    }
    match closed {
        Ok(_) => {
            proof {
                assert(was_closed(close_spill, put));
            }
        },
        Err(error) => {
            spill.absorb(error);
        },
    }
    if let Some(error) = &broken {
        sink.discard(spill);
        return Err(pass.read_failure(path, error.as_str(), sink.count()));
    }
    let rows: u64 = pass.source_rows();
    let names = match pass.finish(path, sink.count()) {
        Ok(names) => names,
        Err(failure) => {
            sink.discard(spill);
            return Err(failure);
        },
    };
    proof {
        assert(texts(names@).len() == names@.len());
    }
    let ghost observed = seen;
    let finished = finish(seen, &names);
    proof {
        assert(finish.ensures((observed, &names), finished));
    }
    let resolution = match finished {
        Ok(resolution) => resolution,
        Err(failure) => {
            sink.discard(spill);
            return Err(failure.with_rejected_count(sink.count()));
        },
    };
    if sink.begin_merge(spill) {
        let merged = merge(&resolution);
        proof {
            assert(merge.ensures((&resolution,), merged));
        }
        sink.finish_merge(merged);
    }
    Ok(assemble_read(path, source_bytes, rows, chunk_rows, resolution, hash, sink))
}

/// The source line of a CSV item.
pub open spec fn csv_item_line(item: CsvItem) -> u64 {
    match item {
        CsvItem::Record(record) => record.line,
        CsvItem::Rejected(rejection) => rejection.line,
    }
}

/// What the second read makes of an item that the first one judged so.
pub open spec fn seen_again(item: CsvItem, rejected: bool) -> SourceItem<TextRecord> {
    match item {
        CsvItem::Rejected(rejection) => SourceItem::Rejected { line: rejection.line },
        CsvItem::Record(record) => SourceItem::Record {
            line: record.line,
            rejected_now: rejected,
            record,
        },
    }
}

proof fn lemma_rendered_lines_contain(rejected: Seq<Option<RejectedRecord>>, line: u64)
    ensures
        rendered_lines(rejected).contains(line) <==> exists|i: int|
            0 <= i < rejected.len() && (#[trigger] rejected[i] matches Some(rejection)
                && rejection.line == line),
    decreases rejected.len(),
{
    if rejected.len() > 0 {
        let shorter = rejected.drop_last();
        lemma_rendered_lines_contain(shorter, line);
        let before = rendered_lines(shorter);
        let lines = rendered_lines(rejected);
        if before.contains(line) {
            let k = choose|k: int| 0 <= k < before.len() && before[k] == line;
            assert(lines[k] == line);
            let i = choose|i: int|
                0 <= i < shorter.len() && (#[trigger] shorter[i] matches Some(rejection)
                    && rejection.line == line);
            assert(rejected[i] == shorter[i]);
        }
        if let Some(rejection) = rejected.last() {
            assert(lines == before.push(rejection.line));
            if rejection.line == line {
                assert(lines[before.len() as int] == line);
                assert(rejected[rejected.len() - 1] == Some(rejection));
            }
        }
        if lines.contains(line) && !before.contains(line) {
            let k = choose|k: int| 0 <= k < lines.len() && lines[k] == line;
            if k < before.len() {
                assert(before[k] == line);
            }
        }
        assert forall|i: int|
            0 <= i < rejected.len() && (#[trigger] rejected[i] matches Some(rejection)
                && rejection.line == line) implies lines.contains(line) by {
            if i < shorter.len() {
                assert(shorter[i] == rejected[i]);
                assert(before.contains(line));
            }
        }
    }
}

proof fn lemma_every_item_is_a_record(second: Seq<Result<SourceItem<TextRecord>, LoadFailure>>)
    requires
        forall|i: int|
            0 <= i < second.len() ==> (#[trigger] second[i] matches Ok(item) && !(item is Blank)),
    ensures
        records_in(second) == second.len(),
    decreases second.len(),
{
    if second.len() > 0 {
        let rest = second.drop_first();
        assert forall|i: int| 0 <= i < rest.len() implies (#[trigger] rest[i] matches Ok(item)
            && !(item is Blank)) by {
            assert(rest[i] == second[i + 1]);
        }
        assert(second[0] matches Ok(item) && !(item is Blank));
        lemma_every_item_is_a_record(rest);
    }
}

/// A CSV file that did not change between the two reads is loaded: the second
/// read, which judges every record as the first one did, hands out exactly the
/// records that the first one did not reject. Rejections carry the line of
/// their record, and no record shares the line of a rejected one.
pub proof fn law_second_csv_read_reproduces_the_first(
    items: Seq<CsvItem>,
    rejected: Seq<Option<RejectedRecord>>,
    second: Seq<Result<SourceItem<TextRecord>, LoadFailure>>,
    stream: StreamView,
)
    requires
        rejected.len() == items.len(),
        second.len() == items.len(),
        forall|i: int|
            0 <= i < items.len() ==> #[trigger] second[i] == Ok::<_, LoadFailure>(
                seen_again(items[i], rejected[i] is Some),
            ),
        forall|i: int|
            0 <= i < items.len() && items[i] is Rejected ==> #[trigger] rejected[i] is Some,
        forall|i: int|
            0 <= i < items.len() ==> (#[trigger] rejected[i] matches Some(rejection)
                ==> rejection.line == csv_item_line(items[i])),
        forall|i: int, j: int|
            0 <= i < items.len() && 0 <= j < items.len() && (#[trigger] rejected[i]) is Some && (
            #[trigger] rejected[j]) is None ==> csv_item_line(items[i]) != csv_item_line(items[j]),
        stream.chunk_rows >= 1,
        stream.seen == 0,
        stream.records == items.len(),
        stream.rejected_lines == rendered_lines(rejected).to_set(),
    ensures
        stream_run(stream, second).end == Ok::<nat, FailureView>(stream.records),
        stream_run(stream, second).chunks.flatten() == survivors_of(second),
{
    assert forall|i: int| 0 <= i < second.len() implies (#[trigger] second[i] matches Ok(item)
        && !(item is Blank)) by {}
    lemma_every_item_is_a_record(second);
    assert forall|line: u64| #[trigger] stream.rejected_lines.contains(line) <==> exists|i: int|
        0 <= i < second.len() && rejected_at(#[trigger] second[i], line) by {
        lemma_rendered_lines_contain(rejected, line);
        if stream.rejected_lines.contains(line) {
            let i = choose|i: int|
                0 <= i < rejected.len() && (#[trigger] rejected[i] matches Some(rejection)
                    && rejection.line == line);
            assert(rejected_at(second[i], line));
        }
        if exists|i: int| 0 <= i < second.len() && rejected_at(#[trigger] second[i], line) {
            let i = choose|i: int| 0 <= i < second.len() && rejected_at(#[trigger] second[i], line);
            assert(rejected[i] is Some);
            assert(rejected[i]->0.line == line);
        }
    }
    assert forall|i: int, j: int, line: u64|
        0 <= i < second.len() && 0 <= j < second.len() && #[trigger] rejected_at(
            second[i],
            line,
        ) implies !#[trigger] survives_at(second[j], line) by {
        assert(rejected[i] is Some);
        if survives_at(second[j], line) {
            assert(rejected[j] is None);
        }
    }
    law_unchanged_source_streams_through(stream, second);
}

/// The artifact of a first read of a JSONL file holds one line for each line
/// that does not parse, in source order. `bytes` are the lines of the file.
pub proof fn law_unparsed_lines_are_in_source_order(
    bytes: Seq<Seq<u8>>,
    classified: Seq<JsonlLine>,
)
    requires
        bytes.len() <= u64::MAX,
        classified.len() == bytes.len(),
        forall|i: int|
            0 <= i < bytes.len() ==> jsonl_line_is(
                bytes[i],
                (i + 1) as u64,
                #[trigger] classified[i],
            ),
    ensures
        entry_lines(unparsed_entries(classified)) == unparsed_lines(classified),
        entry_texts(unparsed_entries(classified)).len() == unparsed_lines(classified).len(),
        in_line_order(unparsed_lines(classified)),
        forall|k: int|
            0 <= k < unparsed_lines(classified).len() ==> #[trigger] unparsed_lines(classified)[k]
                <= classified.len(),
    decreases classified.len(),
{
    if classified.len() > 0 {
        let shorter = classified.drop_last();
        assert forall|i: int| 0 <= i < shorter.len() implies jsonl_line_is(
            bytes.drop_last()[i],
            (i + 1) as u64,
            #[trigger] shorter[i],
        ) by {
            assert(shorter[i] == classified[i]);
        }
        law_unparsed_lines_are_in_source_order(bytes.drop_last(), shorter);
        let last = classified.len() - 1;
        assert(jsonl_line_is(bytes[last], (last + 1) as u64, classified[last]));
        let before = unparsed_lines(shorter);
        let lines = unparsed_lines(classified);
        assert forall|k: int| 0 <= k < lines.len() implies #[trigger] lines[k]
            <= classified.len() by {
            if k < before.len() {
                assert(lines[k] == before[k]);
            }
        }
        assert forall|i: int, j: int| 0 <= i <= j < lines.len() implies #[trigger] lines[i]
            <= #[trigger] lines[j] by {
            assert(i < before.len() ==> lines[i] == before[i]);
            assert(j < before.len() ==> lines[j] == before[j]);
        }
    }
    assert(entry_lines(unparsed_entries(classified)) =~= unparsed_lines(classified));
}

/// What the second read makes of a line that the first one judged so.
pub open spec fn line_seen_again(line: JsonlLine, rejected: bool) -> SourceItem<JsonRecord> {
    match line {
        JsonlLine::Blank => SourceItem::Blank,
        JsonlLine::Rejected(rejection) => SourceItem::Rejected { line: rejection.line },
        JsonlLine::Record(record) => SourceItem::Record {
            line: record.line,
            rejected_now: rejected,
            record,
        },
    }
}

proof fn lemma_one_more_record<R>(
    items: Seq<Result<SourceItem<R>, LoadFailure>>,
    item: Result<SourceItem<R>, LoadFailure>,
)
    ensures
        records_in(items.push(item)) == records_in(items) + if item matches Ok(SourceItem::Blank) {
            0nat
        } else {
            1
        },
    decreases items.len(),
{
    let more = items.push(item);
    if items.len() == 0 {
        assert(more.drop_first() =~= items);
        assert(records_in(items) == 0);
    } else {
        lemma_one_more_record(items.drop_first(), item);
        assert(more.drop_first() =~= items.drop_first().push(item));
    }
}

proof fn lemma_lines_seen_again(
    classified: Seq<JsonlLine>,
    judged: Seq<Option<RejectedRecord>>,
    second: Seq<Result<SourceItem<JsonRecord>, LoadFailure>>,
)
    requires
        judged.len() == classified.len(),
        second.len() == classified.len(),
        forall|i: int|
            0 <= i < classified.len() ==> #[trigger] second[i] == Ok::<_, LoadFailure>(
                line_seen_again(classified[i], judged[i] is Some),
            ),
    ensures
        records_in(second) == pass_over(classified).parsed + pass_over(classified).rejected,
    decreases classified.len(),
{
    if classified.len() > 0 {
        let shorter = second.drop_last();
        assert forall|i: int| 0 <= i < shorter.len() implies #[trigger] shorter[i] == Ok::<
            _,
            LoadFailure,
        >(line_seen_again(classified.drop_last()[i], judged.drop_last()[i] is Some)) by {
            assert(shorter[i] == second[i]);
        }
        lemma_lines_seen_again(classified.drop_last(), judged.drop_last(), shorter);
        lemma_one_more_record(shorter, second.last());
        assert(shorter.push(second.last()) =~= second);
        assert(second.last() == second[second.len() - 1]);
    }
}

proof fn lemma_unparsed_lines_contain(classified: Seq<JsonlLine>, line: u64)
    ensures
        unparsed_lines(classified).contains(line) <==> exists|i: int|
            0 <= i < classified.len() && (#[trigger] classified[i] matches JsonlLine::Rejected(
                rejection,
            ) && rejection.line == line),
    decreases classified.len(),
{
    if classified.len() > 0 {
        let shorter = classified.drop_last();
        lemma_unparsed_lines_contain(shorter, line);
        let before = unparsed_lines(shorter);
        let lines = unparsed_lines(classified);
        if before.contains(line) {
            let k = choose|k: int| 0 <= k < before.len() && before[k] == line;
            assert(lines[k] == line);
            let i = choose|i: int|
                0 <= i < shorter.len() && (#[trigger] shorter[i] matches JsonlLine::Rejected(
                    rejection,
                ) && rejection.line == line);
            assert(classified[i] == shorter[i]);
        }
        if let JsonlLine::Rejected(rejection) = classified.last() {
            assert(lines == before.push(rejection.line));
            if rejection.line == line {
                assert(lines[before.len() as int] == line);
                assert(classified[classified.len() - 1] == classified.last());
            }
        }
        if lines.contains(line) && !before.contains(line) {
            let k = choose|k: int| 0 <= k < lines.len() && lines[k] == line;
            if k < before.len() {
                assert(before[k] == line);
            }
        }
        assert forall|i: int|
            0 <= i < classified.len() && (#[trigger] classified[i] matches JsonlLine::Rejected(
                rejection,
            ) && rejection.line == line) implies lines.contains(line) by {
            if i < shorter.len() {
                assert(shorter[i] == classified[i]);
                assert(before.contains(line));
            }
        }
    }
}

/// A JSONL file that did not change between the two reads is loaded: the second
/// read, which judges every record as the first one did in the end, hands out
/// exactly the records that are no rejections. `bytes` are the lines of the
/// file, and `judged` the rejections that records which were put aside became.
pub proof fn law_second_jsonl_read_reproduces_the_first(
    bytes: Seq<Seq<u8>>,
    classified: Seq<JsonlLine>,
    judged: Seq<Option<RejectedRecord>>,
    second: Seq<Result<SourceItem<JsonRecord>, LoadFailure>>,
    stream: StreamView,
)
    requires
        bytes.len() <= u64::MAX,
        classified.len() == bytes.len(),
        judged.len() == bytes.len(),
        second.len() == bytes.len(),
        forall|i: int|
            0 <= i < bytes.len() ==> jsonl_line_is(
                bytes[i],
                (i + 1) as u64,
                #[trigger] classified[i],
            ),
        forall|i: int|
            0 <= i < bytes.len() ==> (#[trigger] judged[i] matches Some(rejection)
                ==> classified[i] is Record && rejection.line == i + 1),
        forall|i: int|
            0 <= i < bytes.len() ==> #[trigger] second[i] == Ok::<_, LoadFailure>(
                line_seen_again(classified[i], judged[i] is Some),
            ),
        stream.chunk_rows >= 1,
        stream.seen == 0,
        stream.records == pass_over(classified).parsed + pass_over(classified).rejected,
        stream.rejected_lines == merged_lines(
            unparsed_lines(classified),
            rendered_lines(judged),
        ).to_set(),
    ensures
        stream_run(stream, second).end == Ok::<nat, FailureView>(stream.records),
        stream_run(stream, second).chunks.flatten() == survivors_of(second),
{
    lemma_lines_seen_again(classified, judged, second);
    assert forall|i: int| 0 <= i < second.len() implies #[trigger] second[i] is Ok by {}
    assert forall|i: int, line: u64| 0 <= i < second.len() && #[trigger] rejected_at(
        second[i],
        line,
    ) implies line == i + 1 by {
        assert(jsonl_line_is(bytes[i], (i + 1) as u64, classified[i]));
    }
    assert forall|i: int, line: u64| 0 <= i < second.len() && #[trigger] survives_at(
        second[i],
        line,
    ) implies line == i + 1 by {
        assert(jsonl_line_is(bytes[i], (i + 1) as u64, classified[i]));
    }
    assert forall|line: u64| #[trigger] stream.rejected_lines.contains(line) <==> exists|i: int|
        0 <= i < second.len() && rejected_at(#[trigger] second[i], line) by {
        lemma_merged_lines_contain(unparsed_lines(classified), rendered_lines(judged), line);
        lemma_unparsed_lines_contain(classified, line);
        lemma_rendered_lines_contain(judged, line);
        if unparsed_lines(classified).contains(line) {
            let i = choose|i: int|
                0 <= i < classified.len() && (#[trigger] classified[i] matches JsonlLine::Rejected(
                    rejection,
                ) && rejection.line == line);
            assert(rejected_at(second[i], line));
        }
        if rendered_lines(judged).contains(line) {
            let i = choose|i: int|
                0 <= i < judged.len() && (#[trigger] judged[i] matches Some(rejection)
                    && rejection.line == line);
            assert(jsonl_line_is(bytes[i], (i + 1) as u64, classified[i]));
            assert(rejected_at(second[i], line));
        }
        if exists|i: int| 0 <= i < second.len() && rejected_at(#[trigger] second[i], line) {
            let i = choose|i: int| 0 <= i < second.len() && rejected_at(#[trigger] second[i], line);
            assert(line == i + 1);
            if classified[i] is Record {
                assert(judged[i] is Some);
            }
        }
    }
    assert forall|i: int, j: int, line: u64|
        0 <= i < second.len() && 0 <= j < second.len() && #[trigger] rejected_at(
            second[i],
            line,
        ) implies !#[trigger] survives_at(second[j], line) by {
        if survives_at(second[j], line) {
            assert(i == j);
        }
    }
    law_unchanged_source_streams_through(stream, second);
}

/// Whether these are, in order, all the places below a bound that were chosen.
pub open spec fn places_where(places: Seq<int>, bound: int, chosen: spec_fn(int) -> bool) -> bool {
    &&& forall|k: int|
        0 <= k < places.len() ==> 0 <= #[trigger] places[k] < bound && chosen(places[k])
    &&& forall|a: int, b: int|
        0 <= a < b < places.len() ==> #[trigger] places[a] < #[trigger] places[b]
    &&& forall|i: int| 0 <= i < bound && #[trigger] chosen(i) ==> places.contains(i)
}

proof fn lemma_place_added(places: Seq<int>, bound: int, chosen: spec_fn(int) -> bool) -> (more: Seq<
    int,
>)
    requires
        0 <= bound,
        places_where(places, bound, chosen),
    ensures
        more == (if chosen(bound) {
            places.push(bound)
        } else {
            places
        }),
        places_where(more, bound + 1, chosen),
{
    let more = if chosen(bound) {
        places.push(bound)
    } else {
        places
    };
    assert forall|k: int| 0 <= k < more.len() implies 0 <= #[trigger] more[k] < bound + 1 && chosen(
        more[k],
    ) by {
        if k < places.len() {
            assert(more[k] == places[k]);
        }
    }
    assert forall|a: int, b: int| 0 <= a < b < more.len() implies #[trigger] more[a]
        < #[trigger] more[b] by {
        assert(more[a] == places[a]);
        if b < places.len() {
            assert(more[b] == places[b]);
        }
    }
    assert forall|i: int| 0 <= i < bound + 1 && #[trigger] chosen(i) implies more.contains(i) by {
        if i < bound {
            let k = choose|k: int| 0 <= k < places.len() && places[k] == i;
            assert(more[k] == i);
        } else {
            assert(more[places.len() as int] == i);
        }
    }
    more
}

proof fn lemma_rejected_places(rejected: Seq<Option<RejectedRecord>>, n: int) -> (places: Seq<int>)
    requires
        0 <= n <= rejected.len(),
    ensures
        places_where(places, n, |i: int| rejected[i] is Some),
        rendered_lines(rejected.take(n)).len() == places.len(),
        rendered_entries(rejected.take(n)).len() == places.len(),
        forall|k: int|
            0 <= k < places.len() ==> rendered_lines(rejected.take(n))[k]
                == rejected[#[trigger] places[k]]->0.line && rendered_entries(rejected.take(n))[k].1
                == rendered_json(rejection_tree(rejected[places[k]]->0@)),
    decreases n,
{
    let chosen = |i: int| rejected[i] is Some;
    if n == 0 {
        seq![]
    } else {
        let before = lemma_rejected_places(rejected, n - 1);
        assert(places_where(before, n - 1, chosen));
        let places = lemma_place_added(before, n - 1, chosen);
        assert(rejected.take(n).drop_last() =~= rejected.take(n - 1));
        assert(rejected.take(n).last() == rejected[n - 1]);
        assert forall|k: int| 0 <= k < places.len() implies rendered_lines(rejected.take(n))[k]
            == rejected[#[trigger] places[k]]->0.line && rendered_entries(rejected.take(n))[k].1
            == rendered_json(rejection_tree(rejected[places[k]]->0@)) by {
            if k < before.len() {
                assert(places[k] == before[k]);
            }
        }
        places
    }
}

proof fn lemma_observed_places(
    items: Seq<CsvItem>,
    rejected: Seq<Option<RejectedRecord>>,
    n: int,
) -> (places: Seq<int>)
    requires
        items.len() == rejected.len(),
        0 <= n <= items.len(),
    ensures
        places_where(places, n, |i: int| items[i] is Record),
        csv_observed(items.take(n), rejected.take(n)).len() == places.len(),
        forall|k: int|
            0 <= k < places.len() ==> csv_observed(items.take(n), rejected.take(n))[k] == (
                items[#[trigger] places[k]]->Record_0,
                rejected[places[k]],
            ),
    decreases n,
{
    let chosen = |i: int| items[i] is Record;
    if n == 0 {
        seq![]
    } else {
        let before = lemma_observed_places(items, rejected, n - 1);
        assert(places_where(before, n - 1, chosen));
        let places = lemma_place_added(before, n - 1, chosen);
        assert(items.take(n).drop_last() =~= items.take(n - 1));
        assert(rejected.take(n).drop_last() =~= rejected.take(n - 1));
        assert(items.take(n).last() == items[n - 1]);
        assert(rejected.take(n).last() == rejected[n - 1]);
        assert forall|k: int| 0 <= k < places.len() implies csv_observed(
            items.take(n),
            rejected.take(n),
        )[k] == (items[#[trigger] places[k]]->Record_0, rejected[places[k]]) by {
            if k < before.len() {
                assert(places[k] == before[k]);
            }
        }
        places
    }
}

/// Whether a first read of a CSV file came to this. `items` are what the records
/// are, `rejected` what became of each, `refused` and `observed` the places of the
/// rejected ones and of those that the observer saw, and `seen` the observer at the
/// end.
pub open spec fn csv_read_tells<
    E,
    K,
    O: RecordObserver<TextRecord, Option<RejectedRecord>>,
    F: FnOnce(O) -> Result<Resolution<K>, ExecutionFailure>,
    H: FnOnce() -> u64,
>(
    path: Seq<char>,
    source_bytes: u64,
    field_count: usize,
    chunk_rows: usize,
    all: Seq<Result<csv::StringRecord, CsvReadError>>,
    observer: O,
    handed_before: Seq<LineWrite<E>>,
    handed_after: Seq<LineWrite<E>>,
    finish: F,
    hash: H,
    before: SinkView<E>,
    after: SinkView<E>,
    result: Result<SourceRead<SecondRead<K>>, ExecutionFailure>,
    items: Seq<CsvItem>,
    rejected: Seq<Option<RejectedRecord>>,
    refused: Seq<int>,
    observed: Seq<int>,
    seen: O,
    finished: Result<Resolution<K>, ExecutionFailure>,
) -> bool {
    let known = before.lines.len();
    let written = handed_before.len();
    &&& items.len() == all.len() && rejected.len() == all.len()
    &&& forall|i: int|
        0 <= i < all.len() ==> {
            &&& csv_item_is(#[trigger] all[i], field_count as nat, items[i])
            &&& items[i] matches CsvItem::Rejected(rejection) ==> rejected[i] == Some(
                rejection,
            )
            &&& items[i] matches CsvItem::Record(record) ==> O::may_judge(
                observer.judge(),
                record,
                rejected[i],
            )
        }
    &&& places_where(refused, all.len() as int, |i: int| rejected[i] is Some)
    &&& places_where(observed, all.len() as int, |i: int| items[i] is Record)
    &&& after.lines.len() == known + refused.len()
    &&& after.lines.take(known as int) == before.lines
    &&& forall|k: int|
        0 <= k < refused.len() ==> after.lines[known + k]
            == rejected[#[trigger] refused[k]]->0.line
    &&& handed_after.len() <= written + refused.len()
    &&& handed_after.take(written as int) == handed_before
    &&& forall|k: int|
        0 <= k < handed_after.len() - written ==> handed_after[written
            + k].line == rendered_json(
            rejection_tree(rejected[#[trigger] refused[k]]->0@),
        )
    &&& before.io_error is Some ==> handed_after == handed_before
        && after.io_error == before.io_error
    &&& before.io_error is None && after.io_error is Some ==> handed_after.len() > written
        && handed_after.last().outcome == Err::<(), E>(after.io_error->0)
    &&& forall|k: int|
        written <= k < handed_after.len() - 1 ==> (#[trigger] handed_after[k]).outcome is Ok
    &&& before.io_error is None && after.io_error is None ==> handed_after.len() == written + refused.len()
    &&& seen.observed().len() == observer.observed().len() + observed.len()
    &&& forall|k: int|
        0 <= k < observed.len() ==> seen.observed()[observer.observed().len() + k] == (
            items[#[trigger] observed[k]]->Record_0,
            rejected[observed[k]],
        )
    &&& finish.ensures((seen,), finished)
    &&& result is Ok <==> finished is Ok
    &&& finished matches Err(failure) ==> result->Err_0.failure == failure.failure
        && result->Err_0.source_rows == failure.source_rows
        && result->Err_0.schema_decision == failure.schema_decision
        && result->Err_0.rejected_count == after.lines.len()
    &&& finished matches Ok(resolution) ==> {
        let read = result->Ok_0;
        &&& read.schema_decision == resolution.decision
        &&& read.pinned_schema_write == resolution.pinned_schema_write
        &&& read.source_bytes == source_bytes
        &&& read.source_rows == all.len()
        &&& read.rejected_count == after.lines.len()
        &&& read.chunks.plan == resolution.plan
        &&& read.chunks.stream@.path == path
        &&& read.chunks.stream@.chunk_rows == chunk_rows
        &&& read.chunks.stream@.records == all.len()
        &&& read.chunks.stream@.seen == 0 && !read.chunks.stream@.yielded_any
        &&& read.chunks.stream@.phase == ChunkPhase::NotStarted
        &&& hash.ensures((), read.chunks.stream@.hash)
        &&& forall|line: u64| #[trigger]
            read.chunks.stream@.rejected_lines.contains(line) <==> after.lines.contains(line)
    }
}

/// The first read of a CSV file classifies every record, rejects those that do not
/// parse, and lets the observer judge each of the others once, in source order. The
/// sink notes the lines of all the rejected ones in that order, and their artifact
/// lines are written as long as that does not fail.
pub proof fn law_first_csv_read_judges_every_record<
    E,
    K,
    I: Iterator<Item = Result<csv::StringRecord, CsvReadError>>,
    O: RecordObserver<TextRecord, Option<RejectedRecord>>,
    A: LineWriter<E>,
    F: FnOnce(O) -> Result<Resolution<K>, ExecutionFailure>,
    H: FnOnce() -> u64,
>(
    path: &str,
    source_bytes: u64,
    field_count: usize,
    chunk_rows: usize,
    records: I,
    observer: O,
    append: &mut A,
    finish: F,
    hash: H,
    sink: &mut RejectionSink<E>,
    result: Result<SourceRead<SecondRead<K>>, ExecutionFailure>,
)
    requires
        call_ensures(
            read_csv::<E, K, I, O, A, F, H>,
            (
                path,
                source_bytes,
                field_count,
                chunk_rows,
                records,
                observer,
                append,
                finish,
                hash,
                sink,
            ),
            result,
        ),
    ensures
        exists|
            items: Seq<CsvItem>,
            rejected: Seq<Option<RejectedRecord>>,
            refused: Seq<int>,
            observed: Seq<int>,
            seen: O,
            finished: Result<Resolution<K>, ExecutionFailure>,
        | #[trigger]
            csv_read_tells(
                path@,
                source_bytes,
                field_count,
                chunk_rows,
                records.remaining(),
                observer,
                old(append).handed(),
                final(append).handed(),
                finish,
                hash,
                old(sink)@,
                final(sink)@,
                result,
                items,
                rejected,
                refused,
                observed,
                seen,
                finished,
            ),
{
    let all = records.remaining();
    let (items, rejected, writes, seen, finished) = choose|
        items: Seq<CsvItem>,
        rejected: Seq<Option<RejectedRecord>>,
        writes: Seq<LineWrite<E>>,
        seen: O,
        finished: Result<Resolution<K>, ExecutionFailure>,
    |
        {
            &&& #[trigger] csv_read::<O>(
                all,
                field_count as nat,
                observer.judge(),
                items,
                rejected,
            )
            &&& sink_recorded(old(sink)@, rendered_lines(rejected), final(sink)@)
            &&& #[trigger] lines_appended(
                old(sink)@.io_error,
                entry_texts(rendered_entries(rejected)),
                writes,
                final(sink)@.io_error,
            )
            &&& final(append).handed() == old(append).handed() + writes
            &&& #[trigger] finish.ensures((seen,), finished)
            &&& seen.judge() == observer.judge()
            &&& seen.observed() == observer.observed() + csv_observed(items, rejected)
            &&& match finished {
                Err(failure) => result matches Err(raised) && raised == (ExecutionFailure {
                    rejected_count: raised.rejected_count,
                    ..failure
                }) && raised.rejected_count == final(sink)@.lines.len(),
                Ok(resolution) => result matches Ok(read) && is_source_read(
                    path@,
                    source_bytes,
                    all.len(),
                    chunk_rows,
                    resolution,
                    hash,
                    final(sink)@,
                    read,
                ),
            }
        };
    let refused = lemma_rejected_places(rejected, rejected.len() as int);
    let observed = lemma_observed_places(items, rejected, items.len() as int);
    assert(rejected.take(rejected.len() as int) =~= rejected);
    assert(items.take(items.len() as int) =~= items);
    let known = old(sink)@.lines.len() as int;
    let written = old(append).handed().len() as int;
    assert(final(sink)@.lines.take(known) =~= old(sink)@.lines);
    assert(final(append).handed().take(written) =~= old(append).handed());
    let texts_due = entry_texts(rendered_entries(rejected));
    lemma_appended_lines(old(sink)@.io_error, texts_due, writes, final(sink)@.io_error);
    assert forall|k: int| 0 <= k < final(append).handed().len() - written implies final(append).handed()[written + k].line == rendered_json(
        rejection_tree(rejected[#[trigger] refused[k]]->0@),
    ) by {
        assert(final(append).handed()[written + k] == writes[k]);
        assert(texts_due[k] == rendered_entries(rejected)[k].1);
    }
    assert forall|k: int| 0 <= k < observed.len() implies seen.observed()[observer.observed().len()
        + k] == (items[#[trigger] observed[k]]->Record_0, rejected[observed[k]]) by {
        assert(seen.observed()[observer.observed().len() + k] == csv_observed(items, rejected)[k]);
    }
    assert forall|k: int| 0 <= k < refused.len() implies final(sink)@.lines[known + k]
        == rejected[#[trigger] refused[k]]->0.line by {
        assert(final(sink)@.lines[known + k] == rendered_lines(rejected)[k]);
    }
    assert(final(append).handed() == old(append).handed() + writes);
    if writes.len() == 0 {
        assert(final(append).handed() =~= old(append).handed());
    }
    assert forall|k: int| written <= k < final(append).handed().len() - 1 implies (
    #[trigger] final(append).handed()[k]).outcome is Ok by {
        assert(final(append).handed()[k] == writes[k - written]);
        assert(!(writes[k - written].outcome is Err));
    }
    assert(csv_read_tells(
        path@,
        source_bytes,
        field_count,
        chunk_rows,
        records.remaining(),
        observer,
        old(append).handed(),
        final(append).handed(),
        finish,
        hash,
        old(sink)@,
        final(sink)@,
        result,
        items,
        rejected,
        refused,
        observed,
        seen,
        finished,
    ));
}

proof fn lemma_appended_lines<E>(
    before: Option<E>,
    due: Seq<Seq<char>>,
    writes: Seq<LineWrite<E>>,
    after: Option<E>,
)
    requires
        lines_appended(before, due, writes, after),
    ensures
        writes.len() <= due.len(),
        forall|k: int| 0 <= k < writes.len() ==> (#[trigger] writes[k]).line == due[k],
        before is Some ==> writes.len() == 0 && after == before,
        before is None && after is None ==> writes.len() == due.len(),
        before is None && after is Some ==> writes.len() > 0,
        forall|k: int|
            0 <= k < writes.len() ==> ((#[trigger] writes[k]).outcome is Err <==> k == writes.len()
                - 1 && before is None && after is Some),
        before is None && after is Some ==> writes.last().outcome == Err::<(), E>(after->0),
{
    if before is None && after is Some {
        let fewer = writes.drop_last();
        assert forall|k: int| 0 <= k < writes.len() implies (#[trigger] writes[k]).line == due[k]
            && (writes[k].outcome is Err <==> k == writes.len() - 1) by {
            if k < writes.len() - 1 {
                assert(fewer[k] == writes[k]);
            }
        }
    }
}

/// What was counted and put aside in the first lines of a JSONL file: the places of
/// its records, of what does not parse, and of the records put aside.
pub struct JsonlPlaces {
    pub records: Seq<int>,
    pub unparsed: Seq<int>,
    pub aside: Seq<int>,
}

proof fn lemma_jsonl_places(classified: Seq<JsonlLine>, spilled: Seq<bool>, n: int) -> (places:
    JsonlPlaces)
    requires
        spilled.len() == classified.len(),
        0 <= n <= classified.len(),
        forall|i: int|
            0 <= i < classified.len() ==> (#[trigger] spilled[i] ==> classified[i] is Record),
    ensures
        places_where(places.records, n, |i: int| classified[i] is Record),
        places_where(places.unparsed, n, |i: int| classified[i] is Rejected),
        places_where(places.aside, n, |i: int| spilled[i]),
        ({
            let first = classified.take(n);
            let judged = spilled.take(n);
            &&& pass_over(first).lines == n
            &&& pass_over(first).parsed == places.records.len()
            &&& pass_over(first).rejected == places.unparsed.len()
            &&& unparsed_lines(first).len() == places.unparsed.len()
            &&& unparsed_entries(first).len() == places.unparsed.len()
            &&& jsonl_observed(first, judged).len() == places.records.len()
            &&& spill_texts(first, judged).len() == places.aside.len()
            &&& spilled_count(judged) == places.aside.len()
            &&& forall|k: int|
                0 <= k < places.records.len() ==> jsonl_observed(first, judged)[k] == (
                    classified[#[trigger] places.records[k]]->Record_0,
                    spilled[places.records[k]],
                )
            &&& forall|k: int|
                0 <= k < places.unparsed.len() ==> unparsed_lines(first)[k]
                    == classified[#[trigger] places.unparsed[k]]->Rejected_0.line
                    && unparsed_entries(first)[k].1 == rendered_json(
                    rejection_tree(classified[places.unparsed[k]]->Rejected_0@),
                )
            &&& forall|k: int|
                0 <= k < places.aside.len() ==> {
                    let record = classified[#[trigger] places.aside[k]]->Record_0;
                    spill_texts(first, judged)[k] == rendered_json(
                        spill_tree(record.line, object_entries(record.object)),
                    )
                }
        }),
    decreases n,
{
    let record = |i: int| classified[i] is Record;
    let unreadable = |i: int| classified[i] is Rejected;
    let put_aside = |i: int| spilled[i];
    if n == 0 {
        JsonlPlaces { records: seq![], unparsed: seq![], aside: seq![] }
    } else {
        let before = lemma_jsonl_places(classified, spilled, n - 1);
        assert(places_where(before.records, n - 1, record));
        assert(places_where(before.unparsed, n - 1, unreadable));
        assert(places_where(before.aside, n - 1, put_aside));
        let records = lemma_place_added(before.records, n - 1, record);
        let unparsed = lemma_place_added(before.unparsed, n - 1, unreadable);
        let aside = lemma_place_added(before.aside, n - 1, put_aside);
        let first = classified.take(n);
        let judged = spilled.take(n);
        assert(first.drop_last() =~= classified.take(n - 1));
        assert(judged.drop_last() =~= spilled.take(n - 1));
        assert(first.last() == classified[n - 1]);
        assert(judged.last() == spilled[n - 1]);
        assert forall|k: int| 0 <= k < records.len() implies jsonl_observed(first, judged)[k] == (
            classified[#[trigger] records[k]]->Record_0,
            spilled[records[k]],
        ) by {
            if k < before.records.len() {
                assert(records[k] == before.records[k]);
            }
        }
        assert forall|k: int| 0 <= k < unparsed.len() implies unparsed_lines(first)[k]
            == classified[#[trigger] unparsed[k]]->Rejected_0.line && unparsed_entries(first)[k].1
            == rendered_json(rejection_tree(classified[unparsed[k]]->Rejected_0@)) by {
            if k < before.unparsed.len() {
                assert(unparsed[k] == before.unparsed[k]);
            }
        }
        assert forall|k: int| 0 <= k < aside.len() implies ({
            let record = classified[#[trigger] aside[k]]->Record_0;
            spill_texts(first, judged)[k] == rendered_json(
                spill_tree(record.line, object_entries(record.object)),
            )
        }) by {
            if k < before.aside.len() {
                assert(aside[k] == before.aside[k]);
            }
        }
        JsonlPlaces { records, unparsed, aside }
    }
}

proof fn lemma_fields_of_the_records(classified: Seq<JsonlLine>, name: Seq<char>)
    ensures
        pass_over(classified).field_names.no_duplicates(),
        pass_over(classified).field_names.contains(name) <==> exists|i: int|
            {
                &&& 0 <= i < classified.len()
                &&& #[trigger] classified[i] is Record
                &&& keys_of(object_entries(classified[i]->Record_0.object)).contains(name)
            },
    decreases classified.len(),
{
    if classified.len() > 0 {
        let shorter = classified.drop_last();
        let last = classified.len() - 1;
        lemma_fields_of_the_records(shorter, name);
        if let JsonlLine::Record(record) = classified[last] {
            law_field_names_are_the_key_union(
                pass_over(shorter).field_names,
                keys_of(object_entries(record.object)),
            );
        }
        if pass_over(shorter).field_names.contains(name) {
            let i = choose|i: int|
                {
                    &&& 0 <= i < shorter.len()
                    &&& #[trigger] shorter[i] is Record
                    &&& keys_of(object_entries(shorter[i]->Record_0.object)).contains(name)
                };
            assert(classified[i] == shorter[i]);
        }
        if exists|i: int|
            {
                &&& 0 <= i < classified.len()
                &&& #[trigger] classified[i] is Record
                &&& keys_of(object_entries(classified[i]->Record_0.object)).contains(name)
            } {
            let i = choose|i: int|
                {
                    &&& 0 <= i < classified.len()
                    &&& #[trigger] classified[i] is Record
                    &&& keys_of(object_entries(classified[i]->Record_0.object)).contains(name)
                };
            if i < last {
                assert(shorter[i] == classified[i]);
            }
        }
    }
}

/// Whether the lines of a JSONL file were read so, with these places of its records,
/// of what does not parse, and of the records put aside.
pub open spec fn jsonl_read_tells<
    E,
    O: RecordObserver<JsonRecord, bool>,
    B: LineWriter<E>,
    Z: FnOnce(B) -> Result<(), E>,
>(
    all: Seq<Result<Vec<u8>, String>>,
    observer: O,
    append_spill: B,
    close_spill: Z,
    handed_before: Seq<LineWrite<E>>,
    handed_after: Seq<LineWrite<E>>,
    before: SinkView<E>,
    trace: JsonlTrace<E, B, O>,
    places: JsonlPlaces,
) -> bool {
    let n = trace.read;
    let written = handed_before.len();
    let spilled = append_spill.handed().len();
    &&& 0 <= n <= all.len()
    &&& n < all.len() ==> all[n] is Err
    &&& trace.classified.len() == n && trace.spilled.len() == n
    &&& forall|i: int|
        0 <= i < n ==> {
            &&& #[trigger] all[i] is Ok
            &&& jsonl_line_is(all[i]->Ok_0@, (i + 1) as u64, trace.classified[i])
            &&& trace.classified[i] matches JsonlLine::Record(record) ==> O::may_judge(
                observer.judge(),
                record,
                trace.spilled[i],
            )
            &&& trace.spilled[i] ==> trace.classified[i] is Record
        }
    &&& places_where(places.records, n, |i: int| trace.classified[i] is Record)
    &&& places_where(places.unparsed, n, |i: int| trace.classified[i] is Rejected)
    &&& places_where(places.aside, n, |i: int| trace.spilled[i])
    &&& trace.observer.observed().len() == observer.observed().len()
        + places.records.len()
    &&& forall|k: int|
        0 <= k < places.records.len()
            ==> trace.observer.observed()[observer.observed().len() + k] == (
            trace.classified[#[trigger] places.records[k]]->Record_0,
            trace.spilled[places.records[k]],
        )
    &&& handed_after.len() <= written + places.unparsed.len()
    &&& handed_after.take(written as int) == handed_before
    &&& forall|k: int|
        0 <= k < handed_after.len() - written ==> handed_after[written
            + k].line == rendered_json(
            rejection_tree(
                trace.classified[#[trigger] places.unparsed[k]]->Rejected_0@,
            ),
        )
    &&& before.io_error is None && trace.append_error is None ==> handed_after.len() == written + places.unparsed.len()
    &&& before.io_error is Some ==> handed_after == handed_before && trace.append_error
        == before.io_error
    &&& before.io_error is None && trace.append_error is Some ==> handed_after.len() > written
        && handed_after.last().outcome == Err::<(), E>(trace.append_error->0)
    &&& forall|k: int|
        written <= k < handed_after.len() - 1 ==> (#[trigger] handed_after[k]).outcome is Ok
    &&& trace.spill_error is Some ==> trace.spill.handed().len() > spilled
        && trace.spill.handed().last().outcome == Err::<(), E>(trace.spill_error->0)
    &&& forall|k: int|
        spilled <= k < trace.spill.handed().len() - 1
            ==> (#[trigger] trace.spill.handed()[k]).outcome is Ok
    &&& trace.spill.handed().len() <= spilled + places.aside.len()
    &&& trace.spill_error is None ==> trace.spill.handed().len() == spilled
        + places.aside.len()
    &&& forall|k: int|
        0 <= k < trace.spill.handed().len() - spilled ==> {
            let record = trace.classified[#[trigger] places.aside[k]]->Record_0;
            trace.spill.handed()[spilled + k].line == rendered_json(
                spill_tree(record.line, object_entries(record.object)),
            )
        }
    &&& close_spill.ensures((trace.spill,), trace.closed)
    &&& trace.spill.target() == append_spill.target()
}

/// Whether a first read of a JSONL file ends so. Its rows are its records and what does not
/// parse. A line that cannot be read fails it, and so does a source without any
/// field; otherwise the schema is resolved, from the very fields of the records.
/// Only a resolved source has the records that were put aside merged into its
/// artifact, where there are any and nothing failed; else the sink holds what does
/// not parse, and the first failure of the artifact, of the spill, or of closing it.
pub open spec fn jsonl_end_tells<
    E,
    K,
    B,
    O,
    F: FnOnce(O, &Vec<String>) -> Result<Resolution<K>, ExecutionFailure>,
    M: FnOnce(&Resolution<K>) -> Result<Vec<u64>, E>,
    H: FnOnce() -> u64,
>(
    path: Seq<char>,
    source_bytes: u64,
    chunk_rows: usize,
    lines: Seq<Result<Vec<u8>, String>>,
    trace: JsonlTrace<E, B, O>,
    places: JsonlPlaces,
    finish: F,
    merge: M,
    hash: H,
    before: SinkView<E>,
    after: SinkView<E>,
    result: Result<SourceRead<SecondRead<K>>, ExecutionFailure>,
) -> bool {
    let rows = places.records.len() + places.unparsed.len();
    let known = before.lines.len();
    let failed = trace.append_error is Some || trace.spill_error is Some
        || trace.closed is Err;
    let fields = exists|i: int|
        {
            &&& 0 <= i < trace.read
            &&& #[trigger] trace.classified[i] is Record
            &&& object_entries(trace.classified[i]->Record_0.object).len() > 0
        };
    &&& trace.read < lines.len() ==> {
        &&& result matches Err(raised)
        &&& raised.source_rows == Some(rows as u64)
        &&& raised.rejected_count == known + places.unparsed.len()
        &&& raised.failure.code@ == "source_read_failed"@
        &&& raised.failure.message@ == "failed to read JSONL source "@ + path
            + " after line "@ + decimal(trace.read as nat) + ": "@
            + lines[trace.read]->Err_0@
    }
    &&& trace.read == lines.len() && !fields ==> {
        &&& result matches Err(raised)
        &&& raised.source_rows == Some(rows as u64)
        &&& raised.rejected_count == known + places.unparsed.len()
        &&& raised.failure.code@ == "malformed_jsonl"@
        &&& raised.failure.message@ == "JSONL source "@ + path
            + " must include at least one record with fields"@
    }
    &&& trace.read == lines.len() && fields ==> exists|
        names: &Vec<String>,
        finished: Result<Resolution<K>, ExecutionFailure>,
    |
        {
            &&& #[trigger] finish.ensures((trace.observer, names), finished)
            &&& names@.len() > 0
            &&& texts(names@).no_duplicates()
            &&& result is Ok <==> finished is Ok
            &&& finished matches Err(failure) ==> result->Err_0.failure
                == failure.failure && result->Err_0.source_rows == failure.source_rows
                && result->Err_0.rejected_count == known + places.unparsed.len()
            &&& finished matches Ok(resolution) ==> {
                let read = result->Ok_0;
                &&& read.schema_decision == resolution.decision
                &&& read.pinned_schema_write == resolution.pinned_schema_write
                &&& read.source_bytes == source_bytes
                &&& read.source_rows == rows
                &&& read.rejected_count == after.lines.len()
                &&& read.chunks.plan == resolution.plan
                &&& read.chunks.stream@.path == path
                &&& read.chunks.stream@.chunk_rows == chunk_rows
                &&& read.chunks.stream@.records == rows
                &&& read.chunks.stream@.seen == 0 && !read.chunks.stream@.yielded_any
                &&& read.chunks.stream@.phase == ChunkPhase::NotStarted
                &&& hash.ensures((), read.chunks.stream@.hash)
                &&& forall|line: u64| #[trigger]
                    read.chunks.stream@.rejected_lines.contains(line)
                        <==> after.lines.contains(line)
                &&& places.aside.len() > 0 && !failed ==> exists|
                    merged: Result<Vec<u64>, E>,
                |
                    {
                        &&& #[trigger] merge.ensures((&resolution,), merged)
                        &&& merged matches Ok(kept) ==> after.lines == kept@
                            && after.io_error is None
                        &&& merged matches Err(error) ==> after.io_error == Some(error)
                            && after.lines.len() == known + places.unparsed.len()
                            && after.lines.take(known as int) == before.lines
                    }
            }
        }
    &&& result is Err || places.aside.len() == 0 || failed ==> {
        &&& after.lines.len() == known + places.unparsed.len()
        &&& after.lines.take(known as int) == before.lines
        &&& forall|k: int|
            0 <= k < places.unparsed.len() ==> after.lines[known + k]
                == trace.classified[#[trigger] places.unparsed[k]]->Rejected_0.line
        &&& after.io_error == (if trace.append_error is Some {
            trace.append_error
        } else if trace.spill_error is Some {
            trace.spill_error
        } else if trace.closed is Err {
            Some(trace.closed->Err_0)
        } else {
            None
        })
    }
}

/// The first read of a JSONL file classifies every line up to the first that cannot
/// be read, and lets the observer judge each record once, in source order. What does
/// not parse goes to the artifact, and what the observer finds at fault to the spill,
/// in that order, as long as writing does not fail; then the spill is closed. How it
/// ends is told by the lines that were read.
pub proof fn law_first_jsonl_read_judges_every_record<
    E,
    K,
    I: Iterator<Item = Result<Vec<u8>, String>>,
    O: RecordObserver<JsonRecord, bool>,
    A: LineWriter<E>,
    B: LineWriter<E>,
    Z: FnOnce(B) -> Result<(), E>,
    F: FnOnce(O, &Vec<String>) -> Result<Resolution<K>, ExecutionFailure>,
    M: FnOnce(&Resolution<K>) -> Result<Vec<u64>, E>,
    H: FnOnce() -> u64,
>(
    path: &str,
    source_bytes: u64,
    chunk_rows: usize,
    lines: I,
    observer: O,
    append: &mut A,
    append_spill: B,
    close_spill: Z,
    finish: F,
    merge: M,
    hash: H,
    sink: &mut RejectionSink<E>,
    result: Result<SourceRead<SecondRead<K>>, ExecutionFailure>,
)
    requires
        lines.remaining().len() <= u64::MAX,
        old(sink)@.lines.len() + lines.remaining().len() <= u64::MAX,
        call_ensures(
            read_jsonl::<E, K, I, O, A, B, Z, F, M, H>,
            (
                path,
                source_bytes,
                chunk_rows,
                lines,
                observer,
                append,
                append_spill,
                close_spill,
                finish,
                merge,
                hash,
                sink,
            ),
            result,
        ),
    ensures
        exists|trace: JsonlTrace<E, B, O>, places: JsonlPlaces|
            {
                &&& #[trigger] jsonl_read_tells(
                    lines.remaining(),
                    observer,
                    append_spill,
                    close_spill,
                    old(append).handed(),
                    final(append).handed(),
                    old(sink)@,
                    trace,
                    places,
                )
                &&& jsonl_end_tells(
                    path@,
                    source_bytes,
                    chunk_rows,
                    lines.remaining(),
                    trace,
                    places,
                    finish,
                    merge,
                    hash,
                    old(sink)@,
                    final(sink)@,
                    result,
                )
            },
{
    let all = lines.remaining();
    let trace = choose|trace: JsonlTrace<E, B, O>|
        {
            &&& #[trigger] jsonl_traced(
                all,
                observer,
                append_spill,
                close_spill,
                old(sink)@,
                trace,
            )
            &&& final(append).handed() == old(append).handed() + trace.writes
            &&& jsonl_end(
                path@,
                source_bytes,
                chunk_rows,
                all,
                trace,
                finish,
                merge,
                hash,
                old(sink)@,
                final(sink)@,
                result,
            )
        };
    let n = trace.read;
    let first = all.take(n);
    assert forall|i: int| 0 <= i < n implies ({
        &&& #[trigger] all[i] is Ok
        &&& jsonl_line_is(all[i]->Ok_0@, (i + 1) as u64, trace.classified[i])
        &&& trace.classified[i] matches JsonlLine::Record(record) ==> O::may_judge(
            observer.judge(),
            record,
            trace.spilled[i],
        )
        &&& trace.spilled[i] ==> trace.classified[i] is Record
    }) by {
        assert(first[i] == all[i]);
        assert(first[i] is Ok);
    }
    assert forall|i: int| 0 <= i < trace.classified.len() && #[trigger] trace.spilled[i] implies
        trace.classified[i] is Record by {
        assert(all[i] is Ok);
    }
    let places = lemma_jsonl_places(trace.classified, trace.spilled, n);
    assert(trace.classified.take(n) =~= trace.classified);
    assert(trace.spilled.take(n) =~= trace.spilled);
    let written = old(append).handed().len() as int;
    let spilled = append_spill.handed().len() as int;
    assert(final(append).handed().take(written) =~= old(append).handed());
    let due = entry_texts(unparsed_entries(trace.classified));
    lemma_appended_lines(old(sink)@.io_error, due, trace.writes, trace.append_error);
    lemma_appended_lines(
        None,
        spill_texts(trace.classified, trace.spilled),
        trace.spill_writes,
        trace.spill_error,
    );
    assert forall|k: int| 0 <= k < final(append).handed().len() - written implies final(append).handed()[written + k].line == rendered_json(
        rejection_tree(trace.classified[#[trigger] places.unparsed[k]]->Rejected_0@),
    ) by {
        assert(final(append).handed()[written + k] == trace.writes[k]);
        assert(due[k] == unparsed_entries(trace.classified)[k].1);
    }
    assert forall|k: int| 0 <= k < trace.spill.handed().len() - spilled implies ({
        let record = trace.classified[#[trigger] places.aside[k]]->Record_0;
        trace.spill.handed()[spilled + k].line == rendered_json(
            spill_tree(record.line, object_entries(record.object)),
        )
    }) by {
        assert(trace.spill.handed()[spilled + k] == trace.spill_writes[k]);
    }
    assert forall|k: int| 0 <= k < places.records.len() implies
        trace.observer.observed()[observer.observed().len() + k] == (
        trace.classified[#[trigger] places.records[k]]->Record_0,
        trace.spilled[places.records[k]],
    ) by {
        assert(trace.observer.observed()[observer.observed().len() + k] == jsonl_observed(
            trace.classified,
            trace.spilled,
        )[k]);
    }
    assert forall|k: int| written <= k < final(append).handed().len() - 1 implies (
    #[trigger] final(append).handed()[k]).outcome is Ok by {
        assert(final(append).handed()[k] == trace.writes[k - written]);
        assert(!(trace.writes[k - written].outcome is Err));
    }
    assert forall|k: int| spilled <= k < trace.spill.handed().len() - 1 implies (
    #[trigger] trace.spill.handed()[k]).outcome is Ok by {
        assert(trace.spill.handed()[k] == trace.spill_writes[k - spilled]);
        assert(!(trace.spill_writes[k - spilled].outcome is Err));
    }
    if trace.writes.len() == 0 {
        assert(final(append).handed() =~= old(append).handed());
    }
    assert(jsonl_read_tells(
        lines.remaining(),
        observer,
        append_spill,
        close_spill,
        old(append).handed(),
        final(append).handed(),
        old(sink)@,
        trace,
        places,
    ));
    lemma_jsonl_end_tells(
        path@,
        source_bytes,
        chunk_rows,
        lines.remaining(),
        trace,
        places,
        finish,
        merge,
        hash,
        old(sink)@,
        final(sink)@,
        result,
    );
}

proof fn lemma_jsonl_end_tells<
    E,
    K,
    B,
    O,
    F: FnOnce(O, &Vec<String>) -> Result<Resolution<K>, ExecutionFailure>,
    M: FnOnce(&Resolution<K>) -> Result<Vec<u64>, E>,
    H: FnOnce() -> u64,
>(
    path: Seq<char>,
    source_bytes: u64,
    chunk_rows: usize,
    lines: Seq<Result<Vec<u8>, String>>,
    trace: JsonlTrace<E, B, O>,
    places: JsonlPlaces,
    finish: F,
    merge: M,
    hash: H,
    before: SinkView<E>,
    after: SinkView<E>,
    result: Result<SourceRead<SecondRead<K>>, ExecutionFailure>,
)
    requires
        jsonl_end(
            path,
            source_bytes,
            chunk_rows,
            lines,
            trace,
            finish,
            merge,
            hash,
            before,
            after,
            result,
        ),
        0 <= trace.read <= lines.len() <= u64::MAX,
        before.lines.len() + lines.len() <= u64::MAX,
        trace.classified.len() == trace.read,
        trace.spilled.len() == trace.read,
        forall|i: int|
            0 <= i < trace.read ==> (#[trigger] trace.spilled[i] ==> trace.classified[i] is Record),
        places_where(places.records, trace.read, |i: int| trace.classified[i] is Record),
        places_where(places.unparsed, trace.read, |i: int| trace.classified[i] is Rejected),
        places_where(places.aside, trace.read, |i: int| trace.spilled[i]),
    ensures
        jsonl_end_tells(
            path,
            source_bytes,
            chunk_rows,
            lines,
            trace,
            places,
            finish,
            merge,
            hash,
            before,
            after,
            result,
        ),
{
    let n = trace.read;
    let known = before.lines.len() as int;
    let found = lemma_jsonl_places(trace.classified, trace.spilled, n);
    lemma_places_are_unique(
        found.records,
        places.records,
        n,
        |i: int| trace.classified[i] is Record,
        |i: int| trace.classified[i] is Record,
    );
    lemma_places_are_unique(
        found.unparsed,
        places.unparsed,
        n,
        |i: int| trace.classified[i] is Rejected,
        |i: int| trace.classified[i] is Rejected,
    );
    lemma_places_are_unique(
        found.aside,
        places.aside,
        n,
        |i: int| trace.spilled[i],
        |i: int| trace.spilled[i],
    );
    lemma_places_fit(places.unparsed, n, |i: int| trace.classified[i] is Rejected);
    assert(trace.classified.take(n) =~= trace.classified);
    assert(trace.spilled.take(n) =~= trace.spilled);
    let pass = pass_over(trace.classified);
    let kept = before.lines + unparsed_lines(trace.classified);
    assert(kept.take(known) =~= before.lines);
    assert forall|k: int| 0 <= k < places.unparsed.len() implies kept[known + k]
        == trace.classified[#[trigger] places.unparsed[k]]->Rejected_0.line by {
        assert(kept[known + k] == unparsed_lines(trace.classified)[k]);
    }
    let fields = exists|i: int|
        {
            &&& 0 <= i < trace.read
            &&& #[trigger] trace.classified[i] is Record
            &&& object_entries(trace.classified[i]->Record_0.object).len() > 0
        };
    assert(fields <==> pass.field_names.len() > 0) by {
        if fields {
            let i = choose|i: int|
                {
                    &&& 0 <= i < trace.read
                    &&& #[trigger] trace.classified[i] is Record
                    &&& object_entries(trace.classified[i]->Record_0.object).len() > 0
                };
            let keys = keys_of(object_entries(trace.classified[i]->Record_0.object));
            assert(keys.contains(keys[0]));
            lemma_fields_of_the_records(trace.classified, keys[0]);
            assert(pass.field_names.contains(keys[0]));
        }
        if pass.field_names.len() > 0 {
            let name = pass.field_names[0];
            assert(pass.field_names.contains(name));
            lemma_fields_of_the_records(trace.classified, name);
            let i = choose|i: int|
                {
                    &&& 0 <= i < trace.classified.len()
                    &&& #[trigger] trace.classified[i] is Record
                    &&& keys_of(object_entries(trace.classified[i]->Record_0.object)).contains(name)
                };
            assert(object_entries(trace.classified[i]->Record_0.object).len() > 0);
        }
    }
    lemma_fields_of_the_records(trace.classified, seq![]);
    if let Err(raised) = result {
        assert(raised.failure@.code == raised.failure.code@ && raised.failure@.message
            == raised.failure.message@);
    }
}

proof fn lemma_places_fit(places: Seq<int>, bound: int, chosen: spec_fn(int) -> bool)
    requires
        0 <= bound,
        places_where(places, bound, chosen),
    ensures
        places.len() <= bound,
    decreases bound,
{
    if places.len() > 0 {
        let shorter = places.drop_last();
        assert forall|i: int| 0 <= i < places.last() && #[trigger] chosen(
            i,
        ) implies shorter.contains(i) by {
            let k = choose|k: int| 0 <= k < places.len() && places[k] == i;
            assert(shorter[k] == i);
        }
        assert(places_where(shorter, places.last(), chosen)) by {
            assert forall|k: int| 0 <= k < shorter.len() implies 0 <= #[trigger] shorter[k]
                < places.last() && chosen(shorter[k]) by {
                assert(shorter[k] == places[k]);
                assert(places[k] < places[places.len() - 1]);
            }
        }
        lemma_places_fit(shorter, places.last(), chosen);
    }
}

proof fn lemma_places_are_unique(
    a: Seq<int>,
    b: Seq<int>,
    bound: int,
    chosen: spec_fn(int) -> bool,
    alike: spec_fn(int) -> bool,
)
    requires
        0 <= bound,
        forall|i: int| 0 <= i < bound ==> #[trigger] chosen(i) == alike(i),
        places_where(a, bound, chosen),
        places_where(b, bound, alike),
    ensures
        a == b,
    decreases bound,
{
    if bound == 0 {
        if a.len() > 0 {
            assert(0 <= a[0] && a[0] < bound);
        }
        if b.len() > 0 {
            assert(0 <= b[0] && b[0] < bound);
        }
        assert(a =~= b);
    } else {
        let last = bound - 1;
        let shorter_a = if chosen(last) {
            a.drop_last()
        } else {
            a
        };
        let shorter_b = if chosen(last) {
            b.drop_last()
        } else {
            b
        };
        lemma_last_place(a, bound, chosen);
        lemma_last_place(b, bound, alike);
        lemma_places_are_unique(shorter_a, shorter_b, last, chosen, alike);
        if chosen(last) {
            assert(a =~= shorter_a.push(last));
            assert(b =~= shorter_b.push(last));
        }
    }
}

proof fn lemma_last_place(places: Seq<int>, bound: int, chosen: spec_fn(int) -> bool)
    requires
        0 < bound,
        places_where(places, bound, chosen),
    ensures
        chosen(bound - 1) ==> places.len() > 0 && places.last() == bound - 1 && places_where(
            places.drop_last(),
            bound - 1,
            chosen,
        ),
        !chosen(bound - 1) ==> places_where(places, bound - 1, chosen),
{
    let last = bound - 1;
    if chosen(last) {
        let at = choose|k: int| 0 <= k < places.len() && places[k] == last;
        if at < places.len() - 1 {
            assert(places[at] < places[places.len() - 1]);
        }
        let shorter = places.drop_last();
        assert forall|k: int| 0 <= k < shorter.len() implies 0 <= #[trigger] shorter[k] < last
            && chosen(shorter[k]) by {
            assert(shorter[k] == places[k]);
            assert(places[k] < places[places.len() - 1]);
        }
        assert forall|i: int| 0 <= i < last && #[trigger] chosen(i) implies shorter.contains(
            i,
        ) by {
            let k = choose|k: int| 0 <= k < places.len() && places[k] == i;
            assert(shorter[k] == i);
        }
    } else {
        assert forall|k: int| 0 <= k < places.len() implies 0 <= #[trigger] places[k] < last
            && chosen(places[k]) by {}
    }
}

} // verus!
