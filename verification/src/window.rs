//! The bounded window of concurrent chunk writes: when to pull the next
//! chunk, when to wait for a write, when to stop, and which failure to
//! surface. The caller runs the writes and reports their completions.
use crate::count::NonZeroCount;
use crate::destination::DestinationWriteFailure;
use crate::failure::LoadFailure;
use crate::retry::RetryAttempt;
use vstd::prelude::*;

verus! {

/// What the caller does next.
#[derive(Clone, Copy, Debug, PartialEq, Eq, Structural)]
pub enum WindowStep {
    /// Pull the next chunk from the source.
    Pull,
    /// Wait for one of the writes in flight to complete.
    Await,
    /// Nothing is in flight and nothing more will be: end the session.
    Finish,
}

/// What a pull from the source gave.
pub enum SourcePull {
    Exhausted,
    Chunk,
    Failed(LoadFailure),
}

/// How a write ended, or that its writer panicked, with the panic's payload.
pub enum SlotOutcome<P> {
    Written,
    Failed(DestinationWriteFailure),
    Panicked(P),
}

/// A completed write: its chunk, the failed attempts of its retries, and how
/// it ended.
pub struct SlotCompletion<P> {
    pub chunk_index: u64,
    pub attempts: Vec<RetryAttempt>,
    pub outcome: SlotOutcome<P>,
}

/// How the session ends.
pub enum WindowEnd<P> {
    Commit { chunk_count: u64 },
    Abandon { failure: LoadFailure },
    Panicked { payload: P },
}

/// The state of a window of concurrent writes.
pub struct WriteWindow<P> {
    window: u64,
    dispatched: u64,
    in_flight: u64,
    source_done: bool,
    halted: bool,
    write_failures: Vec<(u64, DestinationWriteFailure)>,
    source_failure: Option<LoadFailure>,
    writer_panic: Option<P>,
    pending: Ghost<Set<u64>>,
    written: Ghost<Set<u64>>,
}

/// A window of concurrent writes as its mathematical state: the bound, the
/// chunks dispatched, those among them that are in flight or written, and
/// what went wrong.
pub struct WindowView<P> {
    pub window: nat,
    pub dispatched: nat,
    pub pending: Set<u64>,
    pub written: Set<u64>,
    pub source_done: bool,
    pub write_failures: Seq<(u64, DestinationWriteFailure)>,
    pub source_failure: Option<LoadFailure>,
    pub writer_panic: Option<P>,
}

impl<P> View for WriteWindow<P> {
    type V = WindowView<P>;

    closed spec fn view(&self) -> WindowView<P> {
        WindowView {
            window: self.window as nat,
            dispatched: self.dispatched as nat,
            pending: self.pending@,
            written: self.written@,
            source_done: self.source_done,
            write_failures: self.write_failures@,
            source_failure: self.source_failure,
            writer_panic: self.writer_panic,
        }
    }
}

impl<P> WindowView<P> {
    /// Once a write failed for good, a pull failed or a writer panicked, no
    /// further chunk is dispatched.
    pub open spec fn halted(self) -> bool {
        self.write_failures.len() > 0 || self.source_failure is Some || self.writer_panic is Some
    }

    /// What the caller does next: pull while there is a free slot and reason
    /// to, else wait while anything is in flight.
    pub open spec fn step(self) -> WindowStep {
        if !self.halted() && !self.source_done && self.pending.len() < self.window {
            WindowStep::Pull
        } else if self.pending.len() > 0 {
            WindowStep::Await
        } else {
            WindowStep::Finish
        }
    }

    /// Whether the write of a chunk ended in a failure.
    pub open spec fn failed(self, chunk_index: u64) -> bool {
        exists|k: int|
            0 <= k < self.write_failures.len() && (#[trigger] self.write_failures[k]).0
                == chunk_index
    }

    /// What holds in every state: the writes in flight never exceed the
    /// window, every dispatched chunk is in flight, written or failed unless
    /// a writer panicked, no chunk failed twice, and none that failed is in
    /// flight or written.
    pub open spec fn consistent(self) -> bool {
        &&& self.window >= 1
        &&& self.pending.finite()
        &&& self.pending.len() <= self.window
        &&& forall|c: u64| #[trigger] self.pending.contains(c) ==> c < self.dispatched
        &&& forall|c: u64| #[trigger] self.written.contains(c) ==> c < self.dispatched
        &&& forall|k: int|
            0 <= k < self.write_failures.len() ==> (#[trigger] self.write_failures[k]).0
                < self.dispatched
        &&& forall|c: u64| #[trigger]
            self.written.contains(c) ==> !self.pending.contains(c) && !self.failed(c)
        &&& forall|k: int|
            0 <= k < self.write_failures.len() ==> !self.pending.contains(
                (#[trigger] self.write_failures[k]).0,
            )
        &&& forall|k: int, l: int|
            0 <= k < l < self.write_failures.len() ==> (#[trigger] self.write_failures[k]).0 != (
            #[trigger] self.write_failures[l]).0
        &&& self.writer_panic is None ==> forall|c: u64|
            c < self.dispatched ==> #[trigger] self.pending.contains(c) || self.written.contains(c)
                || self.failed(c)
    }

    /// The state after a pull.
    pub open spec fn after_pull(self, pull: SourcePull) -> WindowView<P> {
        match pull {
            SourcePull::Exhausted => WindowView { source_done: true, ..self },
            SourcePull::Chunk => WindowView {
                dispatched: self.dispatched + 1,
                pending: self.pending.insert(self.dispatched as u64),
                ..self
            },
            SourcePull::Failed(failure) => WindowView { source_failure: Some(failure), ..self },
        }
    }

    /// The state after a write completed.
    pub open spec fn after_completion(self, chunk_index: u64, outcome: SlotOutcome<P>) -> WindowView<
        P,
    > {
        let landed = WindowView { pending: self.pending.remove(chunk_index), ..self };
        match outcome {
            SlotOutcome::Written => WindowView {
                written: self.written.insert(chunk_index),
                ..landed
            },
            SlotOutcome::Failed(failure) => WindowView {
                write_failures: self.write_failures.push((chunk_index, failure)),
                ..landed
            },
            SlotOutcome::Panicked(payload) => WindowView {
                writer_panic: match self.writer_panic {
                    Some(first) => Some(first),
                    None => Some(payload),
                },
                ..landed
            },
        }
    }

    /// A pull keeps the state consistent.
    pub proof fn lemma_pull_keeps_consistent(self, pull: SourcePull)
        requires
            self.consistent(),
            self.step() == WindowStep::Pull,
            self.dispatched < u64::MAX,
        ensures
            self.after_pull(pull).consistent(),
            pull is Chunk ==> !self.pending.contains(self.dispatched as u64),
    {
        let after = self.after_pull(pull);
        let chunk_index = self.dispatched as u64;
        assert(forall|c: u64| #[trigger] self.failed(c) <==> after.failed(c));
        assert forall|c: u64| after.writer_panic is None && c < after.dispatched implies #[trigger]
            after.pending.contains(c) || after.written.contains(c) || after.failed(c) by {
            if c < self.dispatched {
                assert(self.pending.contains(c) || self.written.contains(c) || self.failed(c));
            }
        }
    }

    /// A completion of a write in flight keeps the state consistent.
    pub proof fn lemma_completion_keeps_consistent(self, chunk_index: u64, outcome: SlotOutcome<P>)
        requires
            self.consistent(),
            self.pending.contains(chunk_index),
        ensures
            self.after_completion(chunk_index, outcome).consistent(),
    {
        let after = self.after_completion(chunk_index, outcome);
        assert forall|c: u64| #[trigger]
            after.failed(c) <==> self.failed(c) || (outcome is Failed && c == chunk_index) by {
            if self.failed(c) {
                let k = choose|k: int|
                    0 <= k < self.write_failures.len() && (#[trigger] self.write_failures[k]).0
                        == c;
                assert(after.write_failures[k].0 == c);
            }
            if outcome is Failed {
                assert(after.write_failures[self.write_failures.len() as int].0 == chunk_index);
            }
            if after.failed(c) && !(outcome is Failed && c == chunk_index) {
                let k = choose|k: int|
                    0 <= k < after.write_failures.len() && (#[trigger] after.write_failures[k]).0
                        == c;
                assert(self.write_failures[k].0 == c);
            }
        }
        assert forall|c: u64| after.writer_panic is None && c < after.dispatched implies #[trigger]
            after.pending.contains(c) || after.written.contains(c) || after.failed(c) by {
            assert(self.pending.contains(c) || self.written.contains(c) || self.failed(c));
        }
    }

    /// Whether this is how the session ends: a panic comes before any
    /// failure, the failed write with the lowest chunk index before every
    /// other, and any failed write before a failed pull.
    pub open spec fn ends_in(self, end: WindowEnd<P>) -> bool {
        match self.writer_panic {
            Some(payload) => end == (WindowEnd::Panicked { payload }),
            None => if self.write_failures.len() > 0 {
                exists|k: int|
                    {
                        &&& 0 <= k < self.write_failures.len()
                        &&& forall|l: int|
                            0 <= l < self.write_failures.len() ==> self.write_failures[k].0 <= (
                            #[trigger] self.write_failures[l]).0
                        &&& end == WindowEnd::<P>::Abandon {
                            failure: (#[trigger] self.write_failures[k]).1.failure,
                        }
                    }
            } else {
                match self.source_failure {
                    Some(failure) => end == WindowEnd::<P>::Abandon { failure },
                    None => end == WindowEnd::<P>::Commit { chunk_count: self.dispatched as u64 },
                }
            },
        }
    }
}

impl<P> WriteWindow<P> {
    /// Whether the state is one that a window can be in.
    pub closed spec fn wf(self) -> bool {
        &&& self@.consistent()
        &&& self.in_flight == self@.pending.len()
        &&& self.halted == self@.halted()
    }

    /// In every state of a window the writes in flight number at most the
    /// window, and the chunk states are consistent.
    pub proof fn law_window_is_bounded(self)
        requires
            self.wf(),
        ensures
            self@.consistent(),
            self@.pending.len() <= self@.window,
            self@.dispatched <= u64::MAX,
    {
    }

    /// A window with nothing dispatched.
    pub fn new(parallelism: NonZeroCount) -> (window: WriteWindow<P>)
        ensures
            window.wf(),
            window@ == (WindowView::<P> {
                window: parallelism.number() as nat,
                dispatched: 0,
                pending: Set::empty(),
                written: Set::empty(),
                source_done: false,
                write_failures: seq![],
                source_failure: None,
                writer_panic: None,
            }),
    {
        WriteWindow {
            window: parallelism.get(),
            dispatched: 0,
            in_flight: 0,
            source_done: false,
            halted: false,
            write_failures: Vec::new(),
            source_failure: None,
            writer_panic: None,
            pending: Ghost(Set::empty()),
            written: Ghost(Set::empty()),
        }
    }

    /// What the caller does next.
    pub fn next_step(&self) -> (step: WindowStep)
        requires
            self.wf(),
        ensures
            step == self@.step(),
    {
        if !self.halted && !self.source_done && self.in_flight < self.window {
            WindowStep::Pull
        } else if self.in_flight > 0 {
            WindowStep::Await
        } else {
            WindowStep::Finish
        }
    }

    /// Takes what a pull gave. A chunk occupies a slot, and its index, which
    /// its write is reported under, is returned.
    pub fn pulled(&mut self, pull: SourcePull) -> (dispatched: Option<u64>)
        requires
            old(self).wf(),
            old(self)@.step() == WindowStep::Pull,
            old(self)@.dispatched < u64::MAX,
        ensures
            final(self).wf(),
            final(self)@ == old(self)@.after_pull(pull),
            dispatched == match pull {
                SourcePull::Chunk => Some(old(self)@.dispatched as u64),
                _ => None,
            },
    {
        match pull {
            SourcePull::Exhausted => {
                self.source_done = true;
                None
            },
            SourcePull::Chunk => {
                let chunk_index: u64 = self.dispatched;
                self.dispatched = self.dispatched + 1;
                self.in_flight = self.in_flight + 1;
                self.pending = Ghost(self.pending@.insert(chunk_index));
                proof {
                    old(self)@.lemma_pull_keeps_consistent(pull);
                }
                Some(chunk_index)
            },
            SourcePull::Failed(failure) => {
                self.source_failure = Some(failure);
                self.halted = true;
                None
            },
        }
    }

    /// Takes the completion of one of the writes in flight, and adds its
    /// failed attempts to the log.
    pub fn completed(
        &mut self,
        completion: SlotCompletion<P>,
        retry_attempts: &mut Vec<RetryAttempt>,
    )
        requires
            old(self).wf(),
            old(self)@.pending.contains(completion.chunk_index),
        ensures
            final(self).wf(),
            final(self)@ == old(self)@.after_completion(
                completion.chunk_index,
                completion.outcome,
            ),
            final(retry_attempts)@ == old(retry_attempts)@ + completion.attempts@,
    {
        let mut attempts = completion.attempts;
        retry_attempts.append(&mut attempts);
        let chunk_index: u64 = completion.chunk_index;
        let ghost before = self@;
        proof {
            assert(before.pending.len() > 0);
        }
        self.in_flight = self.in_flight - 1;
        self.pending = Ghost(self.pending@.remove(chunk_index));
        proof {
            before.lemma_completion_keeps_consistent(chunk_index, completion.outcome);
        }
        match completion.outcome {
            SlotOutcome::Written => {
                self.written = Ghost(self.written@.insert(chunk_index));
            },
            SlotOutcome::Failed(failure) => {
                self.write_failures.push((chunk_index, failure));
                self.halted = true;
            },
            SlotOutcome::Panicked(payload) => {
                if self.writer_panic.is_none() {
                    self.writer_panic = Some(payload);
                }
                self.halted = true;
            },
        }
    }

    /// Ends the window once nothing is in flight and nothing more will be.
    pub fn finish(self) -> (end: WindowEnd<P>)
        requires
            self.wf(),
            self@.step() == WindowStep::Finish,
        ensures
            self@.ends_in(end),
    {
        if let Some(payload) = self.writer_panic {
            return WindowEnd::Panicked { payload };
        }
        let mut write_failures = self.write_failures;
        if write_failures.len() > 0 {
            let mut lowest: usize = 0;
            let mut next: usize = 1;
            while next < write_failures.len()
                invariant
                    0 < next <= write_failures.len(),
                    lowest < next,
                    forall|l: int|
                        0 <= l < next ==> write_failures@[lowest as int].0 <= (
                        #[trigger] write_failures@[l]).0,
                decreases write_failures.len() - next,
            {
                if write_failures[next].0 < write_failures[lowest].0 {
                    lowest = next;
                }
                next = next + 1;
            }
            let ghost all = write_failures@;
            let (_, failure) = write_failures.remove(lowest);
            proof {
                assert(all[lowest as int].1.failure == failure.failure);
            }
            return WindowEnd::Abandon { failure: failure.failure };
        }
        match self.source_failure {
            Some(failure) => WindowEnd::Abandon { failure },
            None => WindowEnd::Commit { chunk_count: self.dispatched },
        }
    }
}

/// A halted window pulls nothing more and stays halted, whatever completes.
pub proof fn law_halted_window_dispatches_nothing<P>(
    state: WindowView<P>,
    chunk_index: u64,
    outcome: SlotOutcome<P>,
)
    requires
        state.halted(),
    ensures
        state.step() != WindowStep::Pull,
        state.after_completion(chunk_index, outcome).halted(),
        state.after_completion(chunk_index, outcome).dispatched == state.dispatched,
{
}

/// A session is committed only when the source was exhausted and every
/// dispatched chunk was written.
pub proof fn law_commit_means_every_chunk_was_written<P>(state: WindowView<P>, chunk_count: u64)
    requires
        state.consistent(),
        state.dispatched <= u64::MAX,
        state.step() == WindowStep::Finish,
        state.ends_in(WindowEnd::<P>::Commit { chunk_count }),
    ensures
        chunk_count == state.dispatched,
        state.source_done,
        forall|c: u64| c < chunk_count ==> #[trigger] state.written.contains(c),
{
    assert(state.pending.len() == 0);
    assert forall|c: u64| c < chunk_count implies #[trigger] state.written.contains(c) by {
        if state.pending.contains(c) {
            assert(state.pending.len() > 0);
        }
        assert(!state.failed(c));
        assert(state.pending.contains(c) || state.written.contains(c) || state.failed(c));
    }
}

/// Whatever order the writes completed in, the failure that is surfaced is
/// that of the failed chunk with the lowest index.
pub proof fn law_lowest_failed_chunk_is_surfaced<P>(
    state: WindowView<P>,
    lowest: int,
    failure: LoadFailure,
)
    requires
        state.consistent(),
        state.writer_panic is None,
        0 <= lowest < state.write_failures.len(),
        forall|l: int|
            0 <= l < state.write_failures.len() ==> state.write_failures[lowest].0 <= (
            #[trigger] state.write_failures[l]).0,
        state.ends_in(WindowEnd::<P>::Abandon { failure }),
    ensures
        failure == state.write_failures[lowest].1.failure,
{
    let k = choose|k: int|
        {
            &&& 0 <= k < state.write_failures.len()
            &&& forall|l: int|
                0 <= l < state.write_failures.len() ==> state.write_failures[k].0 <= (
                #[trigger] state.write_failures[l]).0
            &&& WindowEnd::<P>::Abandon { failure } == WindowEnd::<P>::Abandon {
                failure: (#[trigger] state.write_failures[k]).1.failure,
            }
        };
    assert(state.write_failures[k].0 <= state.write_failures[lowest].0);
    assert(state.write_failures[lowest].0 <= state.write_failures[k].0);
    if k != lowest {
        assert(state.write_failures[k].0 != state.write_failures[lowest].0);
    }
}

/// What happens to a window: a pull, or the completion of a write.
pub enum WindowEvent<P> {
    Pulled(SourcePull),
    Completed { chunk_index: u64, outcome: SlotOutcome<P> },
}

/// Whether an event takes a window from one state to another: it pulls when the
/// window says so, and only writes in flight complete.
pub open spec fn window_moves<P>(
    before: WindowView<P>,
    event: WindowEvent<P>,
    after: WindowView<P>,
) -> bool {
    match event {
        WindowEvent::Pulled(pull) => {
            &&& before.step() == WindowStep::Pull
            &&& before.dispatched < u64::MAX
            &&& after == before.after_pull(pull)
        },
        WindowEvent::Completed { chunk_index, outcome } => {
            &&& before.pending.contains(chunk_index)
            &&& after == before.after_completion(chunk_index, outcome)
        },
    }
}

/// A new window, over a whole write phase with these events.
pub open spec fn window_run<P>(
    parallelism: nat,
    states: Seq<WindowView<P>>,
    events: Seq<WindowEvent<P>>,
) -> bool {
    &&& parallelism >= 1
    &&& states.len() == events.len() + 1
    &&& states[0] == (WindowView::<P> {
        window: parallelism,
        dispatched: 0,
        pending: Set::empty(),
        written: Set::empty(),
        source_done: false,
        write_failures: seq![],
        source_failure: None,
        writer_panic: None,
    })
    &&& forall|i: int|
        0 <= i < events.len() ==> window_moves(states[i], #[trigger] events[i], states[i + 1])
}

/// How many chunks the events pull.
pub open spec fn chunks_pulled<P>(events: Seq<WindowEvent<P>>) -> nat
    decreases events.len(),
{
    if events.len() == 0 {
        0
    } else {
        chunks_pulled(events.drop_last()) + match events.last() {
            WindowEvent::Pulled(SourcePull::Chunk) => 1nat,
            _ => 0,
        }
    }
}

/// In a whole write phase no more writes are in flight than the window allows,
/// and each chunk is dispatched under its place in the stream: as many are
/// dispatched as were pulled.
pub proof fn law_window_run_is_bounded<P>(
    parallelism: nat,
    states: Seq<WindowView<P>>,
    events: Seq<WindowEvent<P>>,
    at: int,
)
    requires
        window_run(parallelism, states, events),
        0 <= at <= events.len(),
    ensures
        states[at].consistent(),
        states[at].window == parallelism,
        states[at].pending.len() <= parallelism,
        states[at].dispatched == chunks_pulled(events.take(at)),
    decreases at,
{
    if at > 0 {
        law_window_run_is_bounded(parallelism, states, events, at - 1);
        let before = states[at - 1];
        let event = events[at - 1];
        assert(window_moves(before, event, states[at]));
        assert(events.take(at).drop_last() =~= events.take(at - 1));
        assert(events.take(at).last() == event);
        match event {
            WindowEvent::Pulled(pull) => {
                before.lemma_pull_keeps_consistent(pull);
            },
            WindowEvent::Completed { chunk_index, outcome } => {
                before.lemma_completion_keeps_consistent(chunk_index, outcome);
            },
        }
    }
}

/// Once a write phase has halted, nothing is pulled any more, whatever still
/// completes.
pub proof fn law_nothing_is_pulled_after_a_failure<P>(
    parallelism: nat,
    states: Seq<WindowView<P>>,
    events: Seq<WindowEvent<P>>,
    failed: int,
    later: int,
)
    requires
        window_run(parallelism, states, events),
        0 <= failed <= later <= events.len(),
        states[failed].halted(),
    ensures
        states[later].halted(),
        states[later].dispatched == states[failed].dispatched,
        later < events.len() ==> events[later] is Completed,
    decreases later,
{
    if failed < later {
        law_nothing_is_pulled_after_a_failure(parallelism, states, events, failed, later - 1);
        assert(window_moves(states[later - 1], events[later - 1], states[later]));
    }
    if later < events.len() {
        assert(window_moves(states[later], events[later], states[later + 1]));
    }
}

/// A window pulls whenever it has a free slot, the source may have more, and nothing
/// went wrong; else it waits while a write is in flight, and ends once none is.
pub proof fn law_window_pulls_while_there_is_room<P>(window: WriteWindow<P>, step: WindowStep)
    requires
        window.wf(),
        call_ensures(WriteWindow::<P>::next_step, (&window,), step),
    ensures
        ({
            let clean = window@.write_failures.len() == 0 && window@.source_failure is None
                && window@.writer_panic is None;
            &&& step == WindowStep::Pull <==> clean && !window@.source_done && window@.pending.len()
                < window@.window
            &&& step == WindowStep::Await <==> step != WindowStep::Pull && window@.pending.len() > 0
            &&& step == WindowStep::Finish <==> step != WindowStep::Pull && window@.pending.len()
                == 0
        }),
{
}

/// A new window has as many slots as the load's parallelism, all of them free.
pub proof fn law_new_window_is_empty<P>(parallelism: NonZeroCount, window: WriteWindow<P>)
    requires
        call_ensures(WriteWindow::<P>::new, (parallelism,), window),
    ensures
        window.wf(),
        window@.window == parallelism.number(),
        window@.dispatched == 0 && window@.pending.len() == 0,
        !window@.source_done && window@.write_failures.len() == 0,
        window@.source_failure is None && window@.writer_panic is None,
{
}

/// A pulled chunk takes a slot under the next index in stream order. The end of the
/// source is noted, and so is its failure; neither takes a slot.
pub proof fn law_pulled_chunk_takes_a_slot<P>(
    window: &mut WriteWindow<P>,
    pull: SourcePull,
    dispatched: Option<u64>,
)
    requires
        old(window).wf(),
        old(window)@.step() == WindowStep::Pull,
        old(window)@.dispatched < u64::MAX,
        call_ensures(WriteWindow::<P>::pulled, (window, pull), dispatched),
    ensures
        final(window)@.window == old(window)@.window,
        final(window)@.written == old(window)@.written,
        final(window)@.write_failures == old(window)@.write_failures,
        final(window)@.writer_panic == old(window)@.writer_panic,
        pull is Chunk ==> {
            let index = old(window)@.dispatched as u64;
            &&& dispatched == Some(index)
            &&& final(window)@.dispatched == old(window)@.dispatched + 1
            &&& !old(window)@.pending.contains(index)
            &&& final(window)@.pending == old(window)@.pending.insert(index)
            &&& final(window)@.source_done == old(window)@.source_done
            &&& final(window)@.source_failure == old(window)@.source_failure
        },
        !(pull is Chunk) ==> dispatched is None && final(window)@.dispatched
            == old(window)@.dispatched && final(window)@.pending == old(window)@.pending,
        pull is Exhausted ==> final(window)@.source_done && final(window)@.source_failure
            == old(window)@.source_failure,
        pull matches SourcePull::Failed(failure) ==> final(window)@.source_failure == Some(failure)
            && final(window)@.source_done == old(window)@.source_done,
{
    old(window)@.lemma_pull_keeps_consistent(pull);
}

/// A completed write frees its slot and is noted as written, failed or panicked, of
/// which the first panic is kept; its retries are added to the log.
pub proof fn law_completed_write_frees_its_slot<P>(
    window: &mut WriteWindow<P>,
    completion: SlotCompletion<P>,
    retry_attempts: &mut Vec<RetryAttempt>,
)
    requires
        old(window).wf(),
        old(window)@.pending.contains(completion.chunk_index),
        call_ensures(WriteWindow::<P>::completed, (window, completion, retry_attempts), ()),
    ensures
        final(retry_attempts)@ == old(retry_attempts)@ + completion.attempts@,
        final(window)@.pending == old(window)@.pending.remove(completion.chunk_index),
        final(window)@.window == old(window)@.window,
        final(window)@.dispatched == old(window)@.dispatched,
        final(window)@.source_done == old(window)@.source_done,
        final(window)@.source_failure == old(window)@.source_failure,
        completion.outcome is Written ==> final(window)@.written == old(window)@.written.insert(
            completion.chunk_index,
        ),
        !(completion.outcome is Written) ==> final(window)@.written == old(window)@.written,
        completion.outcome matches SlotOutcome::Failed(failure) ==> final(window)@.write_failures
            == old(window)@.write_failures.push((completion.chunk_index, failure)),
        !(completion.outcome is Failed) ==> final(window)@.write_failures
            == old(window)@.write_failures,
        old(window)@.writer_panic is Some ==> final(window)@.writer_panic
            == old(window)@.writer_panic,
        old(window)@.writer_panic is None ==> match completion.outcome {
            SlotOutcome::Panicked(payload) => final(window)@.writer_panic == Some(payload),
            _ => final(window)@.writer_panic is None,
        },
{
}

/// A window ends in a commit of all its chunks exactly where nothing went wrong. A
/// panic comes before every failure, and a failed write before a failed pull.
pub proof fn law_window_ends_by_what_went_wrong<P>(window: WriteWindow<P>, end: WindowEnd<P>)
    requires
        window.wf(),
        window@.step() == WindowStep::Finish,
        call_ensures(WriteWindow::<P>::finish, (window,), end),
    ensures
        window@.writer_panic matches Some(first) ==> (end matches WindowEnd::Panicked { payload }
            && payload == first),
        window@.writer_panic is None && window@.write_failures.len() > 0 ==> (end matches
            WindowEnd::Abandon { failure } && exists|k: int|
            {
                &&& 0 <= k < window@.write_failures.len()
                &&& failure == (#[trigger] window@.write_failures[k]).1.failure
                &&& forall|l: int|
                    0 <= l < window@.write_failures.len() ==> window@.write_failures[k].0 <= (
                    #[trigger] window@.write_failures[l]).0
            }),
        window@.writer_panic is None && window@.write_failures.len() == 0 ==> {
            &&& window@.source_failure matches Some(raised) ==> (end matches WindowEnd::Abandon {
                failure,
            } && failure == raised)
            &&& window@.source_failure is None ==> (end matches WindowEnd::Commit { chunk_count }
                && chunk_count == window@.dispatched)
        },
{
}

} // verus!
