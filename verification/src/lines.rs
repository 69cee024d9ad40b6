//! Handed-in writers of lines and observers of records that remember what was
//! handed to them.
use vstd::prelude::*;

verus! {

/// A line that was handed to a writer, and what came of it.
pub struct LineWrite<E> {
    pub line: Seq<char>,
    pub outcome: Result<(), E>,
}

/// Writes lines, one after another.
pub trait LineWriter<E> {
    /// What writes the lines.
    type Target;

    /// What writes the lines.
    spec fn target(&self) -> Self::Target;

    /// The lines handed over so far, in order.
    spec fn handed(&self) -> Seq<LineWrite<E>>;

    /// Whether a line can be handed over.
    spec fn ready(&self) -> bool;

    /// Whether writing a line may end so.
    spec fn may_end(target: Self::Target, line: Seq<char>, outcome: Result<(), E>) -> bool;

    /// Writes a line.
    fn write_line(&mut self, line: &str) -> (outcome: Result<(), E>)
        requires
            old(self).ready(),
        ensures
            final(self).ready(),
            final(self).target() == old(self).target(),
            final(self).handed() == old(self).handed().push(LineWrite { line: line@, outcome }),
            Self::may_end(old(self).target(), line@, outcome),
    ;
}

/// A writer that calls a function.
#[verifier::reject_recursive_types(E)]
pub struct CallingWriter<E, F: FnMut(&str) -> Result<(), E>> {
    function: F,
    calls: Ghost<Seq<LineWrite<E>>>,
}

impl<E, F: FnMut(&str) -> Result<(), E>> CallingWriter<E, F> {
    /// A writer to which nothing was handed yet.
    pub fn new(function: F) -> (writer: CallingWriter<E, F>)
        ensures
            writer.target() == function,
            writer.handed() == Seq::<LineWrite<E>>::empty(),
            (forall|text: &str| #[trigger] function.requires((text,))) ==> writer.ready(),
            forall|line: Seq<char>, outcome: Result<(), E>| #[trigger]
                Self::may_end(function, line, outcome) ==> exists|text: &str|
                    #[trigger] function.ensures((text,), outcome) && text@ == line,
    {
        CallingWriter { function, calls: Ghost(Seq::empty()) }
    }
}

impl<E, F: FnMut(&str) -> Result<(), E>> LineWriter<E> for CallingWriter<E, F> {
    type Target = F;

    closed spec fn target(&self) -> F {
        self.function
    }

    closed spec fn handed(&self) -> Seq<LineWrite<E>> {
        self.calls@
    }

    open spec fn ready(&self) -> bool {
        forall|text: &str| #[trigger] self.target().requires((text,))
    }

    open spec fn may_end(target: F, line: Seq<char>, outcome: Result<(), E>) -> bool {
        exists|text: &str| #[trigger] target.ensures((text,), outcome) && text@ == line
    }

    fn write_line(&mut self, line: &str) -> Result<(), E> {
        proof {
            assert(self.target().requires((line,)));
        }
        let outcome = (self.function)(line);
        proof {
            assert(self.function.ensures((line,), outcome));
        }
        self.calls = Ghost(self.calls@.push(LineWrite { line: line@, outcome }));
        outcome
    }
}

/// Whether just these lines were written, in order.
pub open spec fn all_written<E>(texts: Seq<Seq<char>>, writes: Seq<LineWrite<E>>) -> bool {
    &&& writes.len() == texts.len()
    &&& forall|i: int|
        0 <= i < writes.len() ==> (#[trigger] writes[i]).line == texts[i]
            && writes[i].outcome is Ok
}

/// Whether lines were handed over in order as long as writing did not fail: with
/// a failure from before none, else all up to the first that failed. `before` and
/// `after` are the first failure so far.
pub open spec fn lines_appended<E>(
    before: Option<E>,
    texts: Seq<Seq<char>>,
    writes: Seq<LineWrite<E>>,
    after: Option<E>,
) -> bool {
    match (before, after) {
        (Some(first), _) => writes.len() == 0 && after == Some(first),
        (None, None) => all_written(texts, writes),
        (None, Some(error)) => {
            &&& 0 < writes.len() <= texts.len()
            &&& all_written(texts.take(writes.len() - 1), writes.drop_last())
            &&& writes.last().line == texts[writes.len() - 1]
            &&& writes.last().outcome == Err::<(), E>(error)
        },
    }
}

/// One more line to append after a failure is not handed over.
pub proof fn lemma_line_withheld<E>(
    before: Option<E>,
    texts: Seq<Seq<char>>,
    writes: Seq<LineWrite<E>>,
    error: E,
    text: Seq<char>,
)
    requires
        lines_appended(before, texts, writes, Some(error)),
    ensures
        lines_appended(before, texts.push(text), writes, Some(error)),
{
    if before is None {
        assert(texts.push(text).take(writes.len() - 1) =~= texts.take(writes.len() - 1));
    }
}

/// One more line to append is handed over where nothing failed before.
pub proof fn lemma_line_handed<E>(
    texts: Seq<Seq<char>>,
    writes: Seq<LineWrite<E>>,
    text: Seq<char>,
    outcome: Result<(), E>,
)
    requires
        lines_appended(None, texts, writes, None),
    ensures
        lines_appended(
            None,
            texts.push(text),
            writes.push(LineWrite { line: text, outcome }),
            match outcome {
                Ok(_) => None,
                Err(error) => Some(error),
            },
        ),
{
    let more = writes.push(LineWrite { line: text, outcome });
    assert(more.drop_last() =~= writes);
    assert(texts.push(text).take(more.len() - 1) =~= texts);
}

/// Looks at records one after another, and judges each.
pub trait RecordObserver<R, V> {
    /// What judges the records.
    type Judge;

    /// What judges the records.
    spec fn judge(&self) -> Self::Judge;

    /// The records observed so far with their verdicts, in order.
    spec fn observed(&self) -> Seq<(R, V)>;

    /// Whether a record can be observed.
    spec fn ready(&self) -> bool;

    /// Whether a record may be judged so.
    spec fn may_judge(judge: Self::Judge, record: R, verdict: V) -> bool;

    /// Observes a record.
    fn observe(&mut self, record: &R) -> (verdict: V)
        requires
            old(self).ready(),
        ensures
            final(self).ready(),
            final(self).judge() == old(self).judge(),
            final(self).observed() == old(self).observed().push((*record, verdict)),
            Self::may_judge(old(self).judge(), *record, verdict),
    ;
}

/// An observer that calls a function.
#[verifier::reject_recursive_types(R)]
#[verifier::reject_recursive_types(V)]
pub struct CallingObserver<R, V, F: FnMut(&R) -> V> {
    function: F,
    calls: Ghost<Seq<(R, V)>>,
}

impl<R, V, F: FnMut(&R) -> V> CallingObserver<R, V, F> {
    /// An observer that has seen nothing yet.
    pub fn new(function: F) -> (observer: CallingObserver<R, V, F>)
        ensures
            observer.judge() == function,
            observer.observed() == Seq::<(R, V)>::empty(),
            (forall|record: &R| #[trigger] function.requires((record,))) ==> observer.ready(),
            forall|record: R, verdict: V| #[trigger]
                Self::may_judge(function, record, verdict) ==> function.ensures(
                    (&record,),
                    verdict,
                ),
    {
        CallingObserver { function, calls: Ghost(Seq::empty()) }
    }
}

impl<R, V, F: FnMut(&R) -> V> RecordObserver<R, V> for CallingObserver<R, V, F> {
    type Judge = F;

    closed spec fn judge(&self) -> F {
        self.function
    }

    closed spec fn observed(&self) -> Seq<(R, V)> {
        self.calls@
    }

    open spec fn ready(&self) -> bool {
        forall|record: &R| #[trigger] self.judge().requires((record,))
    }

    open spec fn may_judge(judge: F, record: R, verdict: V) -> bool {
        judge.ensures((&record,), verdict)
    }

    fn observe(&mut self, record: &R) -> V {
        proof {
            assert(self.judge().requires((record,)));
        }
        let verdict = (self.function)(record);
        self.calls = Ghost(self.calls@.push((*record, verdict)));
        verdict
    }
}

/// A writer that calls a function hands it every line as it is, and gives back what
/// came of it.
pub proof fn law_calling_writer_calls_its_function<E, F: FnMut(&str) -> Result<(), E>>(
    function: F,
    fresh: CallingWriter<E, F>,
    writer: &mut CallingWriter<E, F>,
    line: &str,
    outcome: Result<(), E>,
)
    requires
        call_ensures(CallingWriter::<E, F>::new, (function,), fresh),
        call_ensures(
            <CallingWriter<E, F> as LineWriter<E>>::write_line,
            (writer, line),
            outcome,
        ),
    ensures
        fresh.target() == function && fresh.handed().len() == 0,
        final(writer).target() == old(writer).target(),
        final(writer).handed().len() == old(writer).handed().len() + 1,
        final(writer).handed().drop_last() == old(writer).handed(),
        final(writer).handed().last().line == line@,
        final(writer).handed().last().outcome == outcome,
        exists|text: &str|
            #[trigger] old(writer).target().ensures((text,), outcome) && text@ == line@,
{
    assert(final(writer).handed().drop_last() =~= old(writer).handed());
}

/// An observer that calls a function hands it every record as it is, and gives back
/// its verdict.
pub proof fn law_calling_observer_calls_its_function<R, V, F: FnMut(&R) -> V>(
    function: F,
    fresh: CallingObserver<R, V, F>,
    observer: &mut CallingObserver<R, V, F>,
    record: R,
    verdict: V,
)
    requires
        call_ensures(CallingObserver::<R, V, F>::new, (function,), fresh),
        call_ensures(
            <CallingObserver<R, V, F> as RecordObserver<R, V>>::observe,
            (observer, &record),
            verdict,
        ),
    ensures
        fresh.judge() == function && fresh.observed().len() == 0,
        final(observer).judge() == old(observer).judge(),
        final(observer).observed() == old(observer).observed().push((record, verdict)),
        old(observer).judge().ensures((&record,), verdict),
{
}

} // verus!
