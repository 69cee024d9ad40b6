//! The retry engine of the write phase: one loop that re-attempts a failed
//! unit while its failure is transient and attempts are left, waiting through
//! a sleeper in between, and recording the failed attempts of retried units.
use crate::count::NonZeroCount;
use crate::destination::{DestinationWriteFailure, Transience};
use crate::json::{
    entry_trees, entry_value, json_array, json_number, json_object, json_text, json_tree, lacks,
    lemma_object_of_different_keys, lemma_object_shows_its_entries, number_tree, object_of, shows,
    trees, with_field, JsonTree,
};
use crate::text::decimal;
use serde_json::Value;
use vstd::arithmetic::power2::{lemma2_to64, lemma_pow2_unfold, pow2};
use vstd::prelude::*;

verus! {

pub const DEFAULT_MAX_ATTEMPTS: u64 = 3;

pub const DEFAULT_INITIAL_DELAY_MS: u64 = 200;

pub const DEFAULT_MAX_DELAY_MS: u64 = 5000;

/// How many attempts each retry unit has in all, and the bounds of the
/// exponential backoff between them.
#[derive(Clone, Copy, Debug)]
pub struct RetryPolicy {
    pub max_attempts: NonZeroCount,
    pub initial_delay_ms: u64,
    pub max_delay_ms: u64,
}

impl Default for RetryPolicy {
    fn default() -> (policy: RetryPolicy)
        ensures
            policy.max_attempts.number() == DEFAULT_MAX_ATTEMPTS,
            policy.initial_delay_ms == DEFAULT_INITIAL_DELAY_MS,
            policy.max_delay_ms == DEFAULT_MAX_DELAY_MS,
    {
        let max_attempts = match NonZeroCount::new(DEFAULT_MAX_ATTEMPTS) {
            Some(count) => count,
            None => NonZeroCount::one(),
        };
        RetryPolicy {
            max_attempts,
            initial_delay_ms: DEFAULT_INITIAL_DELAY_MS,
            max_delay_ms: DEFAULT_MAX_DELAY_MS,
        }
    }
}

/// The wait before an attempt: the initial delay doubles with each attempt
/// after the second, and never exceeds the maximum.
pub open spec fn backoff_ms(policy: RetryPolicy, attempt: nat) -> u64 {
    let doublings = if attempt >= 2 {
        (attempt - 2) as nat
    } else {
        0
    };
    let delay = policy.initial_delay_ms * pow2(doublings);
    if delay <= policy.max_delay_ms {
        delay as u64
    } else {
        policy.max_delay_ms
    }
}

/// The wait before attempt `attempt`.
pub fn delay_before_attempt_ms(policy: &RetryPolicy, attempt: u64) -> (delay_ms: u64)
    ensures
        delay_ms == backoff_ms(*policy, attempt as nat),
{
    let doublings: u64 = if attempt >= 2 {
        attempt - 2
    } else {
        0
    };
    let initial: u64 = policy.initial_delay_ms;
    let cap: u64 = policy.max_delay_ms;
    proof {
        lemma2_to64();
    }
    if initial == 0 {
        return 0;
    }
    let mut delay: u64 = if initial <= cap {
        initial
    } else {
        cap
    };
    let mut doubled: u64 = 0;
    while doubled < doublings && delay < cap
        invariant
            initial > 0,
            doubled <= doublings,
            delay == if initial * pow2(doubled as nat) <= cap {
                initial * pow2(doubled as nat)
            } else {
                cap as int
            },
        decreases doublings - doubled,
    {
        proof {
            lemma_pow2_unfold((doubled + 1) as nat);
            let p = pow2(doubled as nat);
            assert(initial * (2 * p) == 2 * (initial * p)) by (nonlinear_arith);
        }
        if delay > cap / 2 {
            delay = cap;
        } else {
            delay = 2 * delay;
        }
        doubled = doubled + 1;
    }
    proof {
        lemma_product_grows(initial as nat, doubled as nat, doublings as nat);
    }
    delay
}

/// More doublings never make a delay shorter.
proof fn lemma_product_grows(initial: nat, fewer: nat, more: nat)
    requires
        fewer <= more,
    ensures
        initial * pow2(fewer) <= initial * pow2(more),
    decreases more - fewer,
{
    if fewer < more {
        lemma_product_grows(initial, fewer, (more - 1) as nat);
        lemma_pow2_unfold(more);
        let p = pow2((more - 1) as nat);
        assert(initial * p <= initial * (2 * p)) by (nonlinear_arith)
            requires
                p >= 0,
        ;
    }
}

/// The backoff never shrinks from one attempt to a later one.
pub proof fn law_backoff_never_shrinks(policy: RetryPolicy, earlier: nat, later: nat)
    requires
        earlier <= later,
    ensures
        backoff_ms(policy, earlier) <= backoff_ms(policy, later),
{
    let fewer = if earlier >= 2 {
        (earlier - 2) as nat
    } else {
        0
    };
    let more = if later >= 2 {
        (later - 2) as nat
    } else {
        0
    };
    lemma_product_grows(policy.initial_delay_ms as nat, fewer, more);
}

/// The backoff never exceeds the maximum delay.
pub proof fn law_backoff_is_capped(policy: RetryPolicy, attempt: nat)
    ensures
        backoff_ms(policy, attempt) <= policy.max_delay_ms,
{
}

/// Each wait is twice the one before it, as long as the cap does not bite.
pub proof fn law_backoff_doubles(policy: RetryPolicy, attempt: nat)
    requires
        attempt >= 2,
        backoff_ms(policy, attempt + 1) < policy.max_delay_ms,
    ensures
        backoff_ms(policy, attempt + 1) == 2 * backoff_ms(policy, attempt),
{
    lemma_pow2_unfold((attempt - 1) as nat);
    let p = pow2((attempt - 2) as nat);
    let initial = policy.initial_delay_ms;
    assert(initial * (2 * p) == 2 * (initial * p)) by (nonlinear_arith);
    lemma_product_grows(initial as nat, (attempt - 2) as nat, (attempt - 1) as nat);
}

/// Performs the waits between attempts, one after another.
pub trait Sleeper {
    /// The waits performed so far, in order.
    spec fn waits(&self) -> Seq<u64>;

    /// Waits for a number of milliseconds.
    fn sleep_ms(&mut self, delay_ms: u64)
        ensures
            final(self).waits() == old(self).waits().push(delay_ms),
    ;
}

/// A sleeper that waits by calling a function.
pub struct CallingSleeper<F: Fn(u64)> {
    sleep: F,
    performed: Ghost<Seq<u64>>,
}

impl<F: Fn(u64)> CallingSleeper<F> {
    #[verifier::type_invariant]
    spec fn takes_any_delay(self) -> bool {
        forall|delay_ms: u64| #[trigger] self.sleep.requires((delay_ms,))
    }

    /// The function that waits.
    pub closed spec fn function(self) -> F {
        self.sleep
    }

    /// A sleeper that has not waited yet.
    pub fn new(sleep: F) -> (sleeper: CallingSleeper<F>)
        requires
            forall|delay_ms: u64| #[trigger] sleep.requires((delay_ms,)),
        ensures
            sleeper.waits() == Seq::<u64>::empty(),
            sleeper.function() == sleep,
    {
        CallingSleeper { sleep, performed: Ghost(Seq::empty()) }
    }
}

impl<F: Fn(u64)> Sleeper for CallingSleeper<F> {
    closed spec fn waits(&self) -> Seq<u64> {
        self.performed@
    }

    fn sleep_ms(&mut self, delay_ms: u64)
        ensures
            final(self).function() == old(self).function(),
            exists|done: ()| #[trigger] old(self).function().ensures((delay_ms,), done),
    {
        proof {
            use_type_invariant(&*self);
        }
        let done = (self.sleep)(delay_ms);
        proof {
            assert(self.sleep.ensures((delay_ms,), done));
        }
        self.performed = Ghost(self.performed@.push(delay_ms));
    }
}

/// A sleeper that records the waits instead of performing them.
pub struct RecordingSleeper {
    recorded_ms: Vec<u64>,
}

impl RecordingSleeper {
    /// A sleeper with nothing recorded.
    pub fn new() -> (sleeper: RecordingSleeper)
        ensures
            sleeper.waits() == Seq::<u64>::empty(),
    {
        RecordingSleeper { recorded_ms: Vec::new() }
    }

    /// The recorded waits, in order.
    pub fn slept_ms(&self) -> (waits: Vec<u64>)
        ensures
            waits@ == self.waits(),
    {
        let mut waits: Vec<u64> = Vec::new();
        let mut i: usize = 0;
        while i < self.recorded_ms.len()
            invariant
                i <= self.recorded_ms.len(),
                waits@ == self.recorded_ms@.take(i as int),
            decreases self.recorded_ms.len() - i,
        {
            waits.push(self.recorded_ms[i]);
            i = i + 1;
            proof {
                assert(self.recorded_ms@.take(i as int) =~= self.recorded_ms@.take(
                    i as int - 1,
                ).push(self.recorded_ms@[i as int - 1]));
            }
        }
        proof {
            assert(self.recorded_ms@.take(i as int) =~= self.recorded_ms@);
        }
        waits
    }
}

impl Sleeper for RecordingSleeper {
    closed spec fn waits(&self) -> Seq<u64> {
        self.recorded_ms@
    }

    fn sleep_ms(&mut self, delay_ms: u64) {
        self.recorded_ms.push(delay_ms);
    }
}

/// The operation that is re-attempted as a whole with the same input: opening
/// the session, or writing one chunk, counted from zero in stream order.
#[derive(Clone, Copy, Debug, PartialEq, Eq, Structural)]
pub enum RetryUnit {
    Begin,
    WriteChunk { chunk_index: u64 },
}

/// One failed attempt of a unit that was retried. `delay_before_retry_ms` is
/// the wait that followed, absent on a last failure that no retry followed.
#[derive(Debug)]
pub struct RetryAttempt {
    pub unit: RetryUnit,
    pub attempt: u64,
    pub code: &'static str,
    pub message: String,
    pub delay_before_retry_ms: Option<u64>,
}

/// Whether an attempt failed in a way that may be attempted again.
pub open spec fn failed_transiently<T>(outcome: Result<T, DestinationWriteFailure>) -> bool {
    outcome is Err && outcome->Err_0.transience == Transience::Transient
}

/// The outcomes of the attempts of one unit: every one but the last failed
/// transiently, the last ended the unit, and the policy allows as many.
pub open spec fn unit_outcomes<T>(
    policy: RetryPolicy,
    outcomes: Seq<Result<T, DestinationWriteFailure>>,
) -> bool {
    &&& 1 <= outcomes.len() <= policy.max_attempts.number()
    &&& forall|i: int| 0 <= i < outcomes.len() - 1 ==> failed_transiently(#[trigger] outcomes[i])
    &&& failed_transiently(outcomes.last()) ==> outcomes.len() == policy.max_attempts.number()
}

/// The log entry of the failed attempt at a position among the outcomes.
pub open spec fn attempt_entry<T>(
    policy: RetryPolicy,
    unit: RetryUnit,
    outcomes: Seq<Result<T, DestinationWriteFailure>>,
    i: int,
) -> RetryAttempt {
    RetryAttempt {
        unit,
        attempt: (i + 1) as u64,
        code: outcomes[i]->Err_0.failure.code,
        message: outcomes[i]->Err_0.failure.message,
        delay_before_retry_ms: if i + 1 < outcomes.len() {
            Some(backoff_ms(policy, (i + 2) as nat))
        } else {
            None
        },
    }
}

/// What one unit adds to the log: nothing where there was no retry, else
/// every failed attempt.
pub open spec fn unit_log<T>(
    policy: RetryPolicy,
    unit: RetryUnit,
    outcomes: Seq<Result<T, DestinationWriteFailure>>,
) -> Seq<RetryAttempt> {
    let failed = if outcomes.last() is Ok {
        outcomes.len() - 1
    } else {
        outcomes.len() as int
    };
    if outcomes.len() <= 1 {
        seq![]
    } else {
        Seq::new(failed as nat, |i: int| attempt_entry(policy, unit, outcomes, i))
    }
}

/// The waits between that many attempts.
pub open spec fn unit_waits(policy: RetryPolicy, attempts: nat) -> Seq<u64> {
    Seq::new((attempts - 1) as nat, |i: int| backoff_ms(policy, (i + 2) as nat))
}

/// One attempt of an operation as it happened: what was attempted, the waits
/// that had been performed when it began, and its outcome.
pub struct Attempt<G, T> {
    pub target: G,
    pub waits: Seq<u64>,
    pub outcome: Result<T, DestinationWriteFailure>,
}

/// What can be attempted again and again with the same input. It remembers
/// every attempt.
pub trait Operation<T> {
    /// What the attempts are at.
    type Target;

    /// What the next attempt is at.
    spec fn target(&self) -> Self::Target;

    /// The attempts made so far, in order.
    spec fn attempted(&self) -> Seq<Attempt<Self::Target, T>>;

    /// Whether an attempt can be made.
    spec fn ready(&self) -> bool;

    /// Whether an attempt at a target may end so.
    spec fn may_give(target: Self::Target, outcome: Result<T, DestinationWriteFailure>) -> bool;

    /// Makes one attempt. The sleeper tells how long was waited before it.
    fn attempt<S: Sleeper>(&mut self, sleeper: &S) -> (outcome: Result<T, DestinationWriteFailure>)
        requires
            old(self).ready(),
        ensures
            final(self).ready(),
            final(self).target() == old(self).target(),
            final(self).attempted() == old(self).attempted().push(
                Attempt { target: old(self).target(), waits: sleeper.waits(), outcome },
            ),
            Self::may_give(old(self).target(), outcome),
    ;
}

/// An operation that is attempted by calling a function.
#[verifier::reject_recursive_types(T)]
pub struct CallingOperation<T, F: FnMut() -> Result<T, DestinationWriteFailure>> {
    function: F,
    made: Ghost<Seq<Attempt<F, T>>>,
}

impl<T, F: FnMut() -> Result<T, DestinationWriteFailure>> CallingOperation<T, F> {
    /// An operation that was not attempted yet.
    pub fn new(function: F) -> (operation: CallingOperation<T, F>)
        ensures
            operation.target() == function,
            operation.attempted() == Seq::<Attempt<F, T>>::empty(),
            function.requires(()) ==> operation.ready(),
            forall|outcome: Result<T, DestinationWriteFailure>| #[trigger]
                Self::may_give(function, outcome) ==> function.ensures((), outcome),
    {
        CallingOperation { function, made: Ghost(Seq::empty()) }
    }
}

impl<T, F: FnMut() -> Result<T, DestinationWriteFailure>> Operation<T> for CallingOperation<T, F> {
    type Target = F;

    closed spec fn target(&self) -> F {
        self.function
    }

    closed spec fn attempted(&self) -> Seq<Attempt<F, T>> {
        self.made@
    }

    open spec fn ready(&self) -> bool {
        self.target().requires(())
    }

    open spec fn may_give(target: F, outcome: Result<T, DestinationWriteFailure>) -> bool {
        target.ensures((), outcome)
    }

    fn attempt<S: Sleeper>(&mut self, sleeper: &S) -> Result<T, DestinationWriteFailure> {
        let outcome = (self.function)();
        self.made = Ghost(
            self.made@.push(Attempt { target: self.function, waits: sleeper.waits(), outcome }),
        );
        outcome
    }
}

/// The attempts of one unit with these outcomes: the first one at once, and
/// each further one after its backoff.
pub open spec fn unit_attempts<G, T>(
    policy: RetryPolicy,
    target: G,
    waits: Seq<u64>,
    outcomes: Seq<Result<T, DestinationWriteFailure>>,
) -> Seq<Attempt<G, T>> {
    Seq::new(
        outcomes.len(),
        |i: int|
            Attempt {
                target,
                waits: waits + unit_waits(policy, (i + 1) as nat),
                outcome: outcomes[i],
            },
    )
}

/// Whether each outcome is one that the operation may give.
pub open spec fn outcomes_of<T, O: Operation<T>>(
    target: O::Target,
    outcomes: Seq<Result<T, DestinationWriteFailure>>,
) -> bool {
    forall|i: int| 0 <= i < outcomes.len() ==> O::may_give(target, #[trigger] outcomes[i])
}

/// Runs one unit to its end: attempts the operation until it succeeds, fails
/// terminally, or has used up its attempts, with the backoff wait before each
/// further attempt. The last outcome is returned as it came, and the failed
/// attempts of a retried unit are added to `attempts`.
pub fn run_unit<T, S: Sleeper, O: Operation<T>>(
    policy: &RetryPolicy,
    unit: RetryUnit,
    attempts: &mut Vec<RetryAttempt>,
    sleeper: &mut S,
    operation: &mut O,
) -> (result: Result<T, DestinationWriteFailure>)
    requires
        old(operation).ready(),
    ensures
        final(operation).ready(),
        final(operation).target() == old(operation).target(),
        exists|outcomes: Seq<Result<T, DestinationWriteFailure>>|
            {
                &&& #[trigger] unit_outcomes(*policy, outcomes)
                &&& outcomes_of::<T, O>(old(operation).target(), outcomes)
                &&& result == outcomes.last()
                &&& final(operation).attempted() == old(operation).attempted() + unit_attempts(
                    *policy,
                    old(operation).target(),
                    old(sleeper).waits(),
                    outcomes,
                )
                &&& final(attempts)@ == old(attempts)@ + unit_log(*policy, unit, outcomes)
                &&& final(sleeper).waits() == old(sleeper).waits() + unit_waits(
                    *policy,
                    outcomes.len(),
                )
            },
{
    let max_attempts: u64 = policy.max_attempts.get();
    let mut attempt: u64 = 1;
    let ghost mut outcomes: Seq<Result<T, DestinationWriteFailure>> = seq![];
    let ghost logged_before = attempts@;
    let ghost waits_before = sleeper.waits();
    let ghost target = operation.target();
    let ghost made_before = operation.attempted();
    proof {
        assert(operation.attempted() =~= made_before + unit_attempts(
            *policy,
            target,
            waits_before,
            outcomes,
        ));
    }
    loop
        invariant
            operation.ready(),
            operation.target() == target,
            target == old(operation).target(),
            made_before == old(operation).attempted(),
            operation.attempted() == made_before + unit_attempts(
                *policy,
                target,
                waits_before,
                outcomes,
            ),
            logged_before == old(attempts)@,
            waits_before == old(sleeper).waits(),
            max_attempts == policy.max_attempts.number(),
            1 <= attempt <= max_attempts,
            outcomes.len() == attempt - 1,
            outcomes_of::<T, O>(target, outcomes),
            forall|i: int| 0 <= i < outcomes.len() ==> failed_transiently(#[trigger] outcomes[i]),
            attempts@ == logged_before + Seq::new(
                outcomes.len(),
                |i: int|
                    RetryAttempt {
                        unit,
                        attempt: (i + 1) as u64,
                        code: outcomes[i]->Err_0.failure.code,
                        message: outcomes[i]->Err_0.failure.message,
                        delay_before_retry_ms: Some(backoff_ms(*policy, (i + 2) as nat)),
                    },
            ),
            sleeper.waits() == waits_before + unit_waits(*policy, attempt as nat),
        decreases max_attempts - attempt,
    {
        let outcome = operation.attempt(&*sleeper);
        let ghost earlier = outcomes;
        proof {
            outcomes = outcomes.push(outcome);
            assert forall|i: int| 0 <= i < outcomes.len() implies O::may_give(
                target,
                #[trigger] outcomes[i],
            ) by {
                if i < earlier.len() {
                    assert(outcomes[i] == earlier[i]);
                }
            }
            assert(outcomes.last() == outcome);
            assert(forall|i: int| 0 <= i < earlier.len() ==> outcomes[i] == earlier[i]);
            assert(operation.attempted() =~= made_before + unit_attempts(
                *policy,
                target,
                waits_before,
                outcomes,
            ));
        }
        let failure = match outcome {
            Ok(value) => {
                proof {
                    assert(attempts@ =~= logged_before + unit_log(*policy, unit, outcomes));
                    assert(unit_outcomes(*policy, outcomes));
                }
                return Ok(value);
            },
            Err(failure) => failure,
        };
        if failure.transience == Transience::Transient && attempt < max_attempts {
            let delay_ms: u64 = delay_before_attempt_ms(policy, attempt + 1);
            attempts.push(
                RetryAttempt {
                    unit,
                    attempt,
                    code: failure.failure.code,
                    message: failure.failure.message.clone(),
                    delay_before_retry_ms: Some(delay_ms),
                },
            );
            sleeper.sleep_ms(delay_ms);
            attempt = attempt + 1;
            proof {
                assert(attempts@ =~= logged_before + Seq::new(
                    outcomes.len(),
                    |i: int|
                        RetryAttempt {
                            unit,
                            attempt: (i + 1) as u64,
                            code: outcomes[i]->Err_0.failure.code,
                            message: outcomes[i]->Err_0.failure.message,
                            delay_before_retry_ms: Some(backoff_ms(*policy, (i + 2) as nat)),
                        },
                ));
                assert(sleeper.waits() =~= waits_before + unit_waits(*policy, attempt as nat));
            }
        } else {
            if attempt > 1 {
                attempts.push(
                    RetryAttempt {
                        unit,
                        attempt,
                        code: failure.failure.code,
                        message: failure.failure.message.clone(),
                        delay_before_retry_ms: None,
                    },
                );
            }
            proof {
                assert(attempts@ =~= logged_before + unit_log(*policy, unit, outcomes));
                assert(unit_outcomes(*policy, outcomes));
            }
            return Err(failure);
        }
    }
}

/// Where an entry stands in the report: opening the session before every
/// chunk, chunks by their index, attempts of one unit by their number.
pub open spec fn report_position(attempt: RetryAttempt) -> (u8, u64, u64) {
    match attempt.unit {
        RetryUnit::Begin => (0, 0, attempt.attempt),
        RetryUnit::WriteChunk { chunk_index } => (1, chunk_index, attempt.attempt),
    }
}

/// Lexicographic order of positions.
pub open spec fn not_after(a: (u8, u64, u64), b: (u8, u64, u64)) -> bool {
    a.0 < b.0 || (a.0 == b.0 && (a.1 < b.1 || (a.1 == b.1 && a.2 <= b.2)))
}

/// The entries with one more put behind all that do not come after it.
pub open spec fn insert_in_order(ordered: Seq<RetryAttempt>, entry: RetryAttempt) -> Seq<
    RetryAttempt,
>
    decreases ordered.len(),
{
    if ordered.len() == 0 || not_after(report_position(ordered.last()), report_position(entry)) {
        ordered.push(entry)
    } else {
        insert_in_order(ordered.drop_last(), entry).push(ordered.last())
    }
}

/// The log in report order; entries at one position keep their order.
pub open spec fn in_report_order(log: Seq<RetryAttempt>) -> Seq<RetryAttempt>
    decreases log.len(),
{
    if log.len() == 0 {
        log
    } else {
        insert_in_order(in_report_order(log.drop_last()), log.last())
    }
}

/// Whether no entry comes after a later one.
pub open spec fn ordered(log: Seq<RetryAttempt>) -> bool {
    forall|i: int, j: int|
        0 <= i < j < log.len() ==> not_after(
            report_position(#[trigger] log[i]),
            report_position(#[trigger] log[j]),
        )
}

/// Whether no two entries stand at the same position.
pub open spec fn positions_differ(log: Seq<RetryAttempt>) -> bool {
    forall|i: int, j: int|
        0 <= i < j < log.len() ==> report_position(#[trigger] log[i]) != report_position(
            #[trigger] log[j],
        )
}

/// The report object of one attempt.
pub open spec fn attempt_tree(attempt: RetryAttempt) -> JsonTree {
    let operation = match attempt.unit {
        RetryUnit::Begin => seq![("operation"@, JsonTree::Text("begin"@))],
        RetryUnit::WriteChunk { chunk_index } => seq![
            ("operation"@, JsonTree::Text("write_chunk"@)),
            ("chunk_index"@, number_tree(chunk_index as nat)),
        ],
    };
    let failure = seq![
        ("attempt"@, number_tree(attempt.attempt as nat)),
        (
            "error"@,
            object_of(
                seq![
                    ("code"@, JsonTree::Text(attempt.code@)),
                    ("message"@, JsonTree::Text(attempt.message@)),
                ],
            ),
        ),
    ];
    let delay = match attempt.delay_before_retry_ms {
        Some(delay_ms) => seq![("delay_before_retry_ms"@, number_tree(delay_ms as nat))],
        None => seq![],
    };
    object_of(operation + failure + delay)
}

/// The retry story of a report: the policy, then the log in report order.
pub open spec fn retry_tree(policy: RetryPolicy, log: Seq<RetryAttempt>) -> JsonTree {
    object_of(
        seq![
            ("max_attempts"@, number_tree(policy.max_attempts.number() as nat)),
            ("initial_delay_ms"@, number_tree(policy.initial_delay_ms as nat)),
            ("max_delay_ms"@, number_tree(policy.max_delay_ms as nat)),
            (
                "attempts"@,
                JsonTree::Array(in_report_order(log).map_values(|a: RetryAttempt| attempt_tree(a))),
            ),
        ],
    )
}

impl RetryAttempt {
    /// Where this entry stands in the report.
    pub fn unit_order(&self) -> (position: (u8, u64, u64))
        ensures
            position == report_position(*self),
    {
        match self.unit {
            RetryUnit::Begin => (0, 0, self.attempt),
            RetryUnit::WriteChunk { chunk_index } => (1, chunk_index, self.attempt),
        }
    }

    /// The entry as the report states it.
    pub fn report_value(&self) -> (value: Value)
        ensures
            json_tree(value) == attempt_tree(*self),
    {
        let fields = match self.unit {
            RetryUnit::Begin => with_field(
                Vec::new(),
                "operation",
                json_text("begin".to_owned()),
            ),
            RetryUnit::WriteChunk { chunk_index } => with_field(
                with_field(Vec::new(), "operation", json_text("write_chunk".to_owned())),
                "chunk_index",
                json_number(chunk_index),
            ),
        };
        let error = with_field(
            with_field(Vec::new(), "code", json_text(self.code.to_owned())),
            "message",
            json_text(self.message.clone()),
        );
        proof {
            assert(entry_trees(error@) =~= seq![
                ("code"@, JsonTree::Text(self.code@)),
                ("message"@, JsonTree::Text(self.message@)),
            ]);
        }
        let fields = with_field(fields, "attempt", json_number(self.attempt));
        let mut fields = with_field(fields, "error", json_object(error));
        if let Some(delay_ms) = self.delay_before_retry_ms {
            fields = with_field(fields, "delay_before_retry_ms", json_number(delay_ms));
        }
        proof {
            let operation = match self.unit {
                RetryUnit::Begin => seq![("operation"@, JsonTree::Text("begin"@))],
                RetryUnit::WriteChunk { chunk_index } => seq![
                    ("operation"@, JsonTree::Text("write_chunk"@)),
                    ("chunk_index"@, number_tree(chunk_index as nat)),
                ],
            };
            let failure = seq![
                ("attempt"@, number_tree(self.attempt as nat)),
                (
                    "error"@,
                    object_of(
                        seq![
                            ("code"@, JsonTree::Text(self.code@)),
                            ("message"@, JsonTree::Text(self.message@)),
                        ],
                    ),
                ),
            ];
            let delay = match self.delay_before_retry_ms {
                Some(delay_ms) => seq![("delay_before_retry_ms"@, number_tree(delay_ms as nat))],
                None => seq![],
            };
            assert(entry_trees(fields@) =~= operation + failure + delay);
        }
        json_object(fields)
    }
}

/// An entry goes where everything before it does not come after it, and
/// everything behind it does.
proof fn lemma_insertion_point(ordered: Seq<RetryAttempt>, entry: RetryAttempt, at: int)
    requires
        0 <= at <= ordered.len(),
        at == 0 || not_after(report_position(ordered[at - 1]), report_position(entry)),
        forall|j: int|
            at <= j < ordered.len() ==> !not_after(
                report_position(#[trigger] ordered[j]),
                report_position(entry),
            ),
    ensures
        insert_in_order(ordered, entry) == ordered.insert(at, entry),
    decreases ordered.len(),
{
    if at == ordered.len() {
        assert(ordered.insert(at, entry) =~= ordered.push(entry));
    } else {
        let shorter = ordered.drop_last();
        lemma_insertion_point(shorter, entry, at);
        assert(ordered.insert(at, entry) =~= shorter.insert(at, entry).push(ordered.last()));
    }
}

/// The log entries at the given places.
spec fn picked(log: Seq<RetryAttempt>, places: Seq<usize>) -> Seq<RetryAttempt> {
    places.map_values(|p: usize| log[p as int])
}

/// The places of the log's entries, in report order.
fn report_places(log: &[RetryAttempt]) -> (places: Vec<usize>)
    ensures
        forall|i: int| 0 <= i < places@.len() ==> #[trigger] places@[i] < log@.len(),
        picked(log@, places@) == in_report_order(log@),
{
    let mut places: Vec<usize> = Vec::new();
    let mut next: usize = 0;
    proof {
        assert(log@.take(0) =~= seq![]);
        assert(picked(log@, places@) =~= in_report_order(log@.take(0)));
    }
    while next < log.len()
        invariant
            next <= log.len(),
            places.len() == next,
            forall|i: int| 0 <= i < places@.len() ==> #[trigger] places@[i] < log@.len(),
            picked(log@, places@) == in_report_order(log@.take(next as int)),
        decreases log.len() - next,
    {
        let position = log[next].unit_order();
        let mut at: usize = places.len();
        let mut settled = false;
        while at > 0 && !settled
            invariant
                next < log.len(),
                at <= places.len(),
                position == report_position(log@[next as int]),
                forall|i: int| 0 <= i < places@.len() ==> #[trigger] places@[i] < log@.len(),
                forall|j: int|
                    at <= j < places@.len() ==> !not_after(
                        report_position(log@[#[trigger] places@[j] as int]),
                        position,
                    ),
                settled ==> at > 0 && not_after(
                    report_position(log@[places@[at - 1] as int]),
                    position,
                ),
            decreases if settled { 0 } else { at as int },
        {
            let before = log[places[at - 1]].unit_order();
            if before.0 < position.0 || (before.0 == position.0 && (before.1 < position.1 || (
            before.1 == position.1 && before.2 <= position.2))) {
                settled = true;
            } else {
                at = at - 1;
            }
        }
        let ghost ordered = picked(log@, places@);
        proof {
            let entry = log@[next as int];
            assert forall|j: int| at <= j < ordered.len() implies !not_after(
                report_position(#[trigger] ordered[j]),
                report_position(entry),
            ) by {
                assert(ordered[j] == log@[places@[j] as int]);
            }
            lemma_insertion_point(ordered, entry, at as int);
            assert(log@.take(next as int + 1).drop_last() =~= log@.take(next as int));
            assert(log@.take(next as int + 1).last() == entry);
        }
        places.insert(at, next);
        proof {
            assert(picked(log@, places@) =~= ordered.insert(at as int, log@[next as int]));
        }
        next = next + 1;
    }
    proof {
        assert(log@.take(next as int) =~= log@);
    }
    places
}

/// The retry story of a report.
pub fn report_value(policy: &RetryPolicy, attempts: &[RetryAttempt]) -> (value: Value)
    ensures
        json_tree(value) == retry_tree(*policy, attempts@),
{
    let places = report_places(attempts);
    let mut entries: Vec<Value> = Vec::new();
    let mut i: usize = 0;
    while i < places.len()
        invariant
            i <= places.len(),
            entries.len() == i,
            forall|j: int| 0 <= j < places@.len() ==> #[trigger] places@[j] < attempts@.len(),
            forall|j: int|
                0 <= j < i ==> json_tree(#[trigger] entries@[j]) == attempt_tree(
                    attempts@[places@[j] as int],
                ),
        decreases places.len() - i,
    {
        entries.push(attempts[places[i]].report_value());
        i = i + 1;
    }
    proof {
        assert(trees(entries@) =~= in_report_order(attempts@).map_values(
            |a: RetryAttempt| attempt_tree(a),
        )) by {
            assert(picked(attempts@, places@).len() == places@.len());
            assert forall|j: int| 0 <= j < places@.len() implies trees(entries@)[j]
                == in_report_order(attempts@).map_values(|a: RetryAttempt| attempt_tree(a))[j] by {
                assert(picked(attempts@, places@)[j] == attempts@[places@[j] as int]);
            }
        }
    }
    let fields = with_field(Vec::new(), "max_attempts", json_number(policy.max_attempts.get()));
    let fields = with_field(fields, "initial_delay_ms", json_number(policy.initial_delay_ms));
    let fields = with_field(fields, "max_delay_ms", json_number(policy.max_delay_ms));
    let fields = with_field(fields, "attempts", json_array(entries));
    proof {
        assert(entry_trees(fields@) =~= seq![
            ("max_attempts"@, number_tree(policy.max_attempts.number() as nat)),
            ("initial_delay_ms"@, number_tree(policy.initial_delay_ms as nat)),
            ("max_delay_ms"@, number_tree(policy.max_delay_ms as nat)),
            (
                "attempts"@,
                JsonTree::Array(
                    in_report_order(attempts@).map_values(|a: RetryAttempt| attempt_tree(a)),
                ),
            ),
        ]);
    }
    json_object(fields)
}

/// The retry story, where there is one to tell.
pub fn report_when_attempted(policy: &RetryPolicy, attempts: &[RetryAttempt]) -> (value: Option<
    Value,
>)
    ensures
        match value {
            Some(story) => attempts@.len() > 0 && json_tree(story) == retry_tree(
                *policy,
                attempts@,
            ),
            None => attempts@.len() == 0,
        },
{
    if attempts.len() > 0 {
        Some(report_value(policy, attempts))
    } else {
        None
    }
}

proof fn lemma_insertion_keeps_order(log: Seq<RetryAttempt>, entry: RetryAttempt)
    requires
        ordered(log),
    ensures
        ordered(insert_in_order(log, entry)),
        insert_in_order(log, entry).to_multiset() == log.to_multiset().insert(entry),
        insert_in_order(log, entry).len() == log.len() + 1,
        forall|x: RetryAttempt|
            #[trigger] insert_in_order(log, entry).contains(x) <==> log.contains(x) || x == entry,
    decreases log.len(),
{
    broadcast use vstd::seq_lib::group_to_multiset_ensures;

    let result = insert_in_order(log, entry);
    if log.len() == 0 || not_after(report_position(log.last()), report_position(entry)) {
        assert(result == log.push(entry));
        assert forall|i: int, j: int| 0 <= i < j < result.len() implies not_after(
            report_position(#[trigger] result[i]),
            report_position(#[trigger] result[j]),
        ) by {
            if j == log.len() && i < log.len() - 1 {
                assert(not_after(report_position(log[i]), report_position(log.last())));
            }
        }
        assert forall|x: RetryAttempt| result.contains(x) implies log.contains(x) || x == entry by {
            let i = choose|i: int| 0 <= i < result.len() && result[i] == x;
            if i < log.len() {
                assert(log[i] == x);
            }
        }
        assert forall|x: RetryAttempt| log.contains(x) || x == entry implies result.contains(x) by {
            if log.contains(x) {
                let i = choose|i: int| 0 <= i < log.len() && log[i] == x;
                assert(result[i] == x);
            } else {
                assert(result[log.len() as int] == x);
            }
        }
    } else {
        let shorter = log.drop_last();
        let inner = insert_in_order(shorter, entry);
        assert(ordered(shorter));
        lemma_insertion_keeps_order(shorter, entry);
        assert(result == inner.push(log.last()));
        assert(shorter.push(log.last()) =~= log);
        assert forall|i: int, j: int| 0 <= i < j < result.len() implies not_after(
            report_position(#[trigger] result[i]),
            report_position(#[trigger] result[j]),
        ) by {
            if j == inner.len() {
                assert(inner.contains(inner[i]));
                if inner[i] != entry {
                    let k = choose|k: int| 0 <= k < shorter.len() && shorter[k] == inner[i];
                    assert(not_after(report_position(log[k]), report_position(log.last())));
                }
            }
        }
        assert(result.to_multiset() =~= log.to_multiset().insert(entry));
        assert forall|x: RetryAttempt| result.contains(x) implies log.contains(x) || x == entry by {
            let i = choose|i: int| 0 <= i < result.len() && result[i] == x;
            if i < inner.len() {
                assert(inner.contains(x));
                if x != entry {
                    let k = choose|k: int| 0 <= k < shorter.len() && shorter[k] == x;
                    assert(log[k] == x);
                }
            } else {
                assert(log[log.len() - 1] == x);
            }
        }
        assert forall|x: RetryAttempt| log.contains(x) || x == entry implies result.contains(x) by {
            if x == log.last() {
                assert(result[inner.len() as int] == x);
            } else {
                if log.contains(x) {
                    let k = choose|k: int| 0 <= k < log.len() && log[k] == x;
                    assert(shorter[k] == x);
                }
                assert(inner.contains(x));
                let i = choose|i: int| 0 <= i < inner.len() && inner[i] == x;
                assert(result[i] == x);
            }
        }
    }
}

/// The report lists every logged attempt exactly once, opening the session
/// first, then chunks by index, then attempts by number.
pub proof fn law_report_order_sorts_the_log(log: Seq<RetryAttempt>)
    ensures
        ordered(in_report_order(log)),
        in_report_order(log).to_multiset() == log.to_multiset(),
        in_report_order(log).len() == log.len(),
    decreases log.len(),
{
    broadcast use vstd::seq_lib::group_to_multiset_ensures;

    if log.len() > 0 {
        law_report_order_sorts_the_log(log.drop_last());
        lemma_insertion_keeps_order(in_report_order(log.drop_last()), log.last());
        assert(log.drop_last().push(log.last()) =~= log);
    }
}

/// A log that is already in order, as a serial load writes it, is reported
/// as it stands.
pub proof fn law_ordered_log_is_reported_as_written(log: Seq<RetryAttempt>)
    requires
        ordered(log),
    ensures
        in_report_order(log) == log,
    decreases log.len(),
{
    if log.len() > 0 {
        let shorter = log.drop_last();
        law_ordered_log_is_reported_as_written(shorter);
        if shorter.len() > 0 {
            assert(not_after(
                report_position(log[log.len() - 2]),
                report_position(log[log.len() - 1]),
            ));
        }
        assert(shorter.push(log.last()) =~= log);
    }
}

proof fn lemma_strictly_ordered_logs_agree(a: Seq<RetryAttempt>, b: Seq<RetryAttempt>)
    requires
        ordered(a),
        ordered(b),
        positions_differ(a),
        a.to_multiset() == b.to_multiset(),
    ensures
        a == b,
    decreases a.len(),
{
    broadcast use vstd::seq_lib::group_to_multiset_ensures;

    assert(a.len() == a.to_multiset().len());
    assert(b.len() == b.to_multiset().len());
    if a.len() == 0 {
        assert(a =~= b);
    } else {
        let x = a.last();
        let y = b.last();
        assert(a.to_multiset().count(x) > 0) by {
            assert(a.contains(x));
        }
        assert(b.to_multiset().count(y) > 0) by {
            assert(b.contains(y));
        }
        assert(b.contains(x));
        assert(a.contains(y));
        let i = choose|i: int| 0 <= i < a.len() && a[i] == y;
        let j = choose|j: int| 0 <= j < b.len() && b[j] == x;
        if i != a.len() - 1 {
            assert(not_after(report_position(a[i]), report_position(a[a.len() - 1])));
            assert(report_position(a[i]) != report_position(a[a.len() - 1]));
            if j != b.len() - 1 {
                assert(not_after(report_position(b[j]), report_position(b[b.len() - 1])));
            }
            assert(report_position(x) == report_position(y));
        }
        assert(x == y);
        let shorter_a = a.drop_last();
        let shorter_b = b.drop_last();
        assert(shorter_a.push(x) =~= a);
        assert(shorter_b.push(x) =~= b);
        assert(shorter_a.to_multiset() =~= a.to_multiset().remove(x));
        assert(shorter_b.to_multiset() =~= b.to_multiset().remove(x));
        lemma_strictly_ordered_logs_agree(shorter_a, shorter_b);
    }
}

/// The report does not depend on the order in which concurrent writes
/// completed: two logs of the same attempts, no two of them at one position,
/// are reported alike.
pub proof fn law_report_ignores_completion_order(a: Seq<RetryAttempt>, b: Seq<RetryAttempt>)
    requires
        a.to_multiset() == b.to_multiset(),
        positions_differ(a),
    ensures
        in_report_order(a) == in_report_order(b),
{
    law_report_order_sorts_the_log(a);
    law_report_order_sorts_the_log(b);
    lemma_order_keeps_positions_apart(a);
    lemma_strictly_ordered_logs_agree(in_report_order(a), in_report_order(b));
}

proof fn lemma_order_keeps_positions_apart(log: Seq<RetryAttempt>)
    requires
        positions_differ(log),
    ensures
        positions_differ(in_report_order(log)),
    decreases log.len(),
{
    if log.len() > 0 {
        let shorter = log.drop_last();
        lemma_order_keeps_positions_apart(shorter);
        law_report_order_sorts_the_log(shorter);
        let sorted = in_report_order(shorter);
        let entry = log.last();
        assert forall|i: int| 0 <= i < sorted.len() implies report_position(#[trigger] sorted[i])
            != report_position(entry) by {
            broadcast use vstd::seq_lib::group_to_multiset_ensures;

            assert(sorted.contains(sorted[i]));
            assert(shorter.to_multiset().count(sorted[i]) > 0);
            assert(shorter.contains(sorted[i]));
            let k = choose|k: int| 0 <= k < shorter.len() && shorter[k] == sorted[i];
            assert(report_position(log[k]) != report_position(log[log.len() - 1]));
        }
        lemma_insertion_keeps_positions_apart(sorted, entry);
    }
}

proof fn lemma_insertion_keeps_positions_apart(log: Seq<RetryAttempt>, entry: RetryAttempt)
    requires
        ordered(log),
        positions_differ(log),
        forall|i: int|
            0 <= i < log.len() ==> report_position(#[trigger] log[i]) != report_position(entry),
    ensures
        positions_differ(insert_in_order(log, entry)),
    decreases log.len(),
{
    let result = insert_in_order(log, entry);
    if !(log.len() == 0 || not_after(report_position(log.last()), report_position(entry))) {
        let shorter = log.drop_last();
        let inner = insert_in_order(shorter, entry);
        lemma_insertion_keeps_positions_apart(shorter, entry);
        lemma_insertion_keeps_order(shorter, entry);
        assert forall|i: int, j: int| 0 <= i < j < result.len() implies report_position(
            #[trigger] result[i],
        ) != report_position(#[trigger] result[j]) by {
            if j == inner.len() {
                assert(inner.contains(inner[i]));
                if inner[i] != entry {
                    let k = choose|k: int| 0 <= k < shorter.len() && shorter[k] == inner[i];
                    assert(report_position(log[k]) != report_position(log[log.len() - 1]));
                } else {
                    assert(report_position(log[log.len() - 1]) != report_position(entry));
                }
            }
        }
    }
}

/// A unit that was not retried tells no story: it logs nothing and waits for
/// nothing.
pub proof fn law_single_attempt_leaves_no_trace<T>(
    policy: RetryPolicy,
    unit: RetryUnit,
    outcomes: Seq<Result<T, DestinationWriteFailure>>,
)
    requires
        unit_outcomes(policy, outcomes),
        policy.max_attempts.number() == 1 || !failed_transiently(outcomes[0]),
    ensures
        outcomes.len() == 1,
        unit_log(policy, unit, outcomes).len() == 0,
        unit_waits(policy, outcomes.len()).len() == 0,
{
}

/// A retried unit that fails in the end logs every attempt it made.
pub proof fn law_retried_failure_logs_every_attempt<T>(
    policy: RetryPolicy,
    unit: RetryUnit,
    outcomes: Seq<Result<T, DestinationWriteFailure>>,
)
    requires
        unit_outcomes(policy, outcomes),
        outcomes.len() > 1,
        outcomes.last() is Err,
    ensures
        unit_log(policy, unit, outcomes).len() == outcomes.len(),
        unit_log(policy, unit, outcomes).last().delay_before_retry_ms is None,
{
}

/// What the attempts come to decides how many there are: of two units under one
/// policy whose attempts agree as far as both go, neither goes on longer.
pub proof fn law_outcomes_decide_the_attempts<T>(
    policy: RetryPolicy,
    a: Seq<Result<T, DestinationWriteFailure>>,
    b: Seq<Result<T, DestinationWriteFailure>>,
)
    requires
        unit_outcomes(policy, a),
        unit_outcomes(policy, b),
        forall|i: int| 0 <= i < a.len() && i < b.len() ==> #[trigger] a[i] == #[trigger] b[i],
    ensures
        a == b,
{
    if a.len() < b.len() {
        assert(a[a.len() - 1] == b[a.len() - 1]);
        assert(failed_transiently(b[a.len() - 1]));
    }
    if b.len() < a.len() {
        assert(a[b.len() - 1] == b[b.len() - 1]);
        assert(failed_transiently(a[b.len() - 1]));
    }
    assert(a =~= b);
}

/// The first attempt of a unit is made at once, each further one exactly one
/// backoff wait after the one before, and no wait follows the last.
pub proof fn law_one_wait_between_two_attempts<G, T>(
    policy: RetryPolicy,
    target: G,
    waits: Seq<u64>,
    outcomes: Seq<Result<T, DestinationWriteFailure>>,
)
    requires
        unit_outcomes(policy, outcomes),
    ensures
        ({
            let made = unit_attempts(policy, target, waits, outcomes);
            &&& made.len() == outcomes.len()
            &&& made[0].waits == waits
            &&& forall|i: int|
                0 < i < made.len() ==> (#[trigger] made[i]).waits == made[i - 1].waits.push(
                    backoff_ms(policy, (i + 1) as nat),
                )
            &&& made.last().waits == waits + unit_waits(policy, outcomes.len())
        }),
{
    let made = unit_attempts(policy, target, waits, outcomes);
    assert(made[0].waits =~= waits);
    assert forall|i: int| 0 < i < made.len() implies (#[trigger] made[i]).waits == made[i
        - 1].waits.push(backoff_ms(policy, (i + 1) as nat)) by {
        assert(made[i].waits =~= made[i - 1].waits.push(backoff_ms(policy, (i + 1) as nat)));
    }
}

/// The log of one unit is in report order.
pub proof fn law_unit_log_is_ordered<T>(
    policy: RetryPolicy,
    unit: RetryUnit,
    outcomes: Seq<Result<T, DestinationWriteFailure>>,
)
    requires
        unit_outcomes(policy, outcomes),
    ensures
        ordered(unit_log(policy, unit, outcomes)),
        positions_differ(unit_log(policy, unit, outcomes)),
{
}

/// The wait before the second attempt is the initial delay, and each further one
/// twice the wait before it; but none is longer than the maximum.
pub proof fn law_waits_double_up_to_the_maximum(
    policy: RetryPolicy,
    attempt: u64,
    wait: u64,
    next: u64,
)
    requires
        attempt < u64::MAX,
        call_ensures(delay_before_attempt_ms, (&policy, attempt), wait),
        call_ensures(delay_before_attempt_ms, (&policy, (attempt + 1) as u64), next),
    ensures
        attempt <= 2 ==> wait == if policy.initial_delay_ms <= policy.max_delay_ms {
            policy.initial_delay_ms
        } else {
            policy.max_delay_ms
        },
        attempt >= 2 ==> next == if 2 * wait <= policy.max_delay_ms {
            2 * wait
        } else {
            policy.max_delay_ms as int
        },
{
    lemma2_to64();
    let initial = policy.initial_delay_ms;
    assert(initial * pow2(0) == initial) by (nonlinear_arith)
        requires
            pow2(0) == 1,
    ;
    if attempt >= 2 {
        lemma_pow2_unfold((attempt - 1) as nat);
        let p = pow2((attempt - 2) as nat);
        assert(initial * (2 * p) == 2 * (initial * p)) by (nonlinear_arith);
        lemma_product_grows(initial as nat, (attempt - 2) as nat, (attempt - 1) as nat);
    }
}

/// By default a unit has three attempts, with waits from 200 up to 5000
/// milliseconds.
pub proof fn law_default_policy(policy: RetryPolicy)
    requires
        call_ensures(<RetryPolicy as Default>::default, (), policy),
    ensures
        policy.max_attempts.number() == 3,
        policy.initial_delay_ms == 200,
        policy.max_delay_ms == 5000,
{
}

/// A unit is attempted until it succeeds, fails for good, or has used up its
/// attempts, and what it comes to is its last attempt. Only transient failures are
/// followed by another attempt, each after one wait.
pub proof fn law_unit_is_retried_while_that_may_help<T, S: Sleeper, O: Operation<T>>(
    policy: RetryPolicy,
    unit: RetryUnit,
    attempts: &mut Vec<RetryAttempt>,
    sleeper: &mut S,
    operation: &mut O,
    result: Result<T, DestinationWriteFailure>,
)
    requires
        call_ensures(run_unit::<T, S, O>, (&policy, unit, attempts, sleeper, operation), result),
    ensures
        ({
            let before = old(operation).attempted().len() as int;
            let made = final(operation).attempted();
            let count = made.len() - before;
            &&& 1 <= count <= policy.max_attempts.number()
            &&& made.take(before) == old(operation).attempted()
            &&& forall|i: int| before <= i < made.len() ==> (#[trigger] made[i]).target
                == old(operation).target()
            &&& made.last().outcome == result
            &&& forall|i: int|
                before <= i < made.len() - 1 ==> (#[trigger] made[i]).outcome is Err
                    && made[i].outcome->Err_0.transience == Transience::Transient
            &&& (result matches Err(failure) && failure.transience == Transience::Transient)
                ==> count == policy.max_attempts.number()
            &&& final(sleeper).waits().len() == old(sleeper).waits().len() + count - 1
            &&& forall|i: int|
                0 <= i < count - 1 ==> #[trigger] final(sleeper).waits()[old(sleeper).waits().len()
                    + i] == backoff_ms(policy, (i + 2) as nat)
        }),
{
    let outcomes = choose|outcomes: Seq<Result<T, DestinationWriteFailure>>|
        {
            &&& #[trigger] unit_outcomes(policy, outcomes)
            &&& outcomes_of::<T, O>(old(operation).target(), outcomes)
            &&& result == outcomes.last()
            &&& final(operation).attempted() == old(operation).attempted() + unit_attempts(
                policy,
                old(operation).target(),
                old(sleeper).waits(),
                outcomes,
            )
            &&& final(attempts)@ == old(attempts)@ + unit_log(policy, unit, outcomes)
            &&& final(sleeper).waits() == old(sleeper).waits() + unit_waits(policy, outcomes.len())
        };
    let before = old(operation).attempted();
    let made = final(operation).attempted();
    assert(made.take(before.len() as int) =~= before);
    assert forall|i: int| before.len() <= i < made.len() implies (#[trigger] made[i]).target
        == old(operation).target() && made[i].outcome == outcomes[i - before.len()] by {}
    assert(made.last() == made[made.len() - 1]);
    assert forall|i: int| before.len() <= i < made.len() - 1 implies (#[trigger] made[i]).outcome
        is Err && made[i].outcome->Err_0.transience == Transience::Transient by {
        assert(failed_transiently(outcomes[i - before.len()]));
    }
}

/// A unit that was attempted once leaves no trace in the log. One that was retried
/// logs every attempt that failed, in order, with its number, its failure's code and
/// message, and the wait that followed it, if any did.
pub proof fn law_retries_are_logged_attempt_by_attempt<T, S: Sleeper, O: Operation<T>>(
    policy: RetryPolicy,
    unit: RetryUnit,
    attempts: &mut Vec<RetryAttempt>,
    sleeper: &mut S,
    operation: &mut O,
    result: Result<T, DestinationWriteFailure>,
)
    requires
        call_ensures(run_unit::<T, S, O>, (&policy, unit, attempts, sleeper, operation), result),
    ensures
        ({
            let before = old(operation).attempted().len() as int;
            let made = final(operation).attempted();
            let count = made.len() - before;
            let logged = old(attempts)@.len() as int;
            let log = final(attempts)@;
            &&& log.take(logged) == old(attempts)@
            &&& log.len() - logged == if count == 1 {
                0
            } else if result is Ok {
                count - 1
            } else {
                count
            }
            &&& forall|i: int|
                logged <= i < log.len() ==> {
                    let entry = #[trigger] log[i];
                    let failure = made[before + i - logged].outcome->Err_0.failure;
                    &&& entry.unit == unit
                    &&& entry.attempt == i - logged + 1
                    &&& entry.code@ == failure.code@
                    &&& entry.message@ == failure.message@
                    &&& i - logged + 1 < count ==> entry.delay_before_retry_ms == Some(
                        backoff_ms(policy, (i - logged + 2) as nat),
                    )
                    &&& i - logged + 1 == count ==> entry.delay_before_retry_ms is None
                }
        }),
{
    let outcomes = choose|outcomes: Seq<Result<T, DestinationWriteFailure>>|
        {
            &&& #[trigger] unit_outcomes(policy, outcomes)
            &&& outcomes_of::<T, O>(old(operation).target(), outcomes)
            &&& result == outcomes.last()
            &&& final(operation).attempted() == old(operation).attempted() + unit_attempts(
                policy,
                old(operation).target(),
                old(sleeper).waits(),
                outcomes,
            )
            &&& final(attempts)@ == old(attempts)@ + unit_log(policy, unit, outcomes)
            &&& final(sleeper).waits() == old(sleeper).waits() + unit_waits(policy, outcomes.len())
        };
    let before = old(operation).attempted();
    let made = final(operation).attempted();
    let old_log = old(attempts)@;
    let log = final(attempts)@;
    assert(log.take(old_log.len() as int) =~= old_log);
    assert forall|i: int| before.len() <= i < made.len() implies (#[trigger] made[i]).outcome
        == outcomes[i - before.len()] by {}
    assert forall|i: int| old_log.len() <= i < log.len() implies #[trigger] log[i]
        == attempt_entry(policy, unit, outcomes, i - old_log.len()) by {}
    assert forall|i: int| old_log.len() <= i < log.len() implies ({
        let entry = #[trigger] log[i];
        let at = i - old_log.len();
        entry.attempt == at + 1 && made[before.len() + at].outcome == outcomes[at]
    }) by {
        let at = i - old_log.len();
        assert(log[i] == attempt_entry(policy, unit, outcomes, at));
        assert(made[before.len() + at].outcome == outcomes[at]);
    }
}

/// In the report opening the session comes before every chunk, chunks come by their
/// index, and attempts of one unit by their number.
pub proof fn law_report_positions(attempt: RetryAttempt, position: (u8, u64, u64))
    requires
        call_ensures(RetryAttempt::unit_order, (&attempt,), position),
    ensures
        attempt.unit matches RetryUnit::Begin ==> position == (0u8, 0u64, attempt.attempt),
        attempt.unit matches RetryUnit::WriteChunk { chunk_index } ==> position == (
            1u8,
            chunk_index,
            attempt.attempt,
        ),
{
}

proof fn lemma_attempt_shows(attempt: RetryAttempt)
    ensures
        ({
            let shown = attempt_tree(attempt);
            &&& shown matches JsonTree::Object(entries) && entries.len() == 3 + (if attempt.unit
                is WriteChunk {
                1int
            } else {
                0
            }) + (if attempt.delay_before_retry_ms is Some {
                1int
            } else {
                0
            })
            &&& match attempt.unit {
                RetryUnit::Begin => shows(shown, "operation"@, JsonTree::Text("begin"@)) && lacks(
                    shown,
                    "chunk_index"@,
                ),
                RetryUnit::WriteChunk { chunk_index } => shows(
                    shown,
                    "operation"@,
                    JsonTree::Text("write_chunk"@),
                ) && shows(shown, "chunk_index"@, number_tree(chunk_index as nat)),
            }
            &&& shows(shown, "attempt"@, number_tree(attempt.attempt as nat))
            &&& shown matches JsonTree::Object(entries) && entry_value(entries, "error"@) matches
                Some(error) && shows(error, "code"@, JsonTree::Text(attempt.code@)) && shows(
                error,
                "message"@,
                JsonTree::Text(attempt.message@),
            )
            &&& match attempt.delay_before_retry_ms {
                Some(delay_ms) => shows(
                    shown,
                    "delay_before_retry_ms"@,
                    number_tree(delay_ms as nat),
                ),
                None => lacks(shown, "delay_before_retry_ms"@),
            }
        }),
{
    reveal_strlit("operation");
    reveal_strlit("chunk_index");
    reveal_strlit("attempt");
    reveal_strlit("error");
    reveal_strlit("delay_before_retry_ms");
    reveal_strlit("code");
    reveal_strlit("message");
    assert("operation"@.len() == 9 && "chunk_index"@.len() == 11 && "attempt"@.len() == 7
        && "error"@.len() == 5 && "delay_before_retry_ms"@.len() == 21);
    let told = seq![
        ("code"@, JsonTree::Text(attempt.code@)),
        ("message"@, JsonTree::Text(attempt.message@)),
    ];
    assert(told[0].0.len() != told[1].0.len());
    lemma_object_shows_its_entries(told);
    assert(told[0].0 == "code"@ && told[1].0 == "message"@);
    let operation = match attempt.unit {
        RetryUnit::Begin => seq![("operation"@, JsonTree::Text("begin"@))],
        RetryUnit::WriteChunk { chunk_index } => seq![
            ("operation"@, JsonTree::Text("write_chunk"@)),
            ("chunk_index"@, number_tree(chunk_index as nat)),
        ],
    };
    let failure = seq![
        ("attempt"@, number_tree(attempt.attempt as nat)),
        ("error"@, object_of(told)),
    ];
    let delay = match attempt.delay_before_retry_ms {
        Some(delay_ms) => seq![("delay_before_retry_ms"@, number_tree(delay_ms as nat))],
        None => seq![],
    };
    let entries = operation + failure + delay;
    let n = operation.len() as int;
    assert(entries[0] == operation[0]);
    assert(entries[n] == failure[0] && entries[n + 1] == failure[1]);
    if n == 2 {
        assert(entries[1] == operation[1]);
    }
    if delay.len() > 0 {
        assert(entries[n + 2] == delay[0]);
    }
    assert forall|i: int, j: int| 0 <= i < j < entries.len() implies (#[trigger] entries[i]).0 != (
    #[trigger] entries[j]).0 by {
        assert(entries[i].0.len() != entries[j].0.len());
    }
    lemma_object_shows_its_entries(entries);
    lemma_object_of_different_keys(entries);
    assert(entries[0].0 == "operation"@);
    assert(entries[n].0 == "attempt"@);
    assert(entries[n + 1].0 == "error"@);
    assert(attempt_tree(attempt) == object_of(entries));
    if attempt.unit == RetryUnit::Begin {
        assert forall|i: int| 0 <= i < entries.len() implies (#[trigger] entries[i]).0
            != "chunk_index"@ by {
            assert(entries[i].0.len() != "chunk_index"@.len());
        }
        assert(lacks(object_of(entries), "chunk_index"@));
    } else {
        assert(entries[1].0 == "chunk_index"@);
    }
    if attempt.delay_before_retry_ms is None {
        assert forall|i: int| 0 <= i < entries.len() implies (#[trigger] entries[i]).0
            != "delay_before_retry_ms"@ by {
            assert(entries[i].0.len() != "delay_before_retry_ms"@.len());
        }
        assert(lacks(object_of(entries), "delay_before_retry_ms"@));
    } else {
        assert(entries[n + 2].0 == "delay_before_retry_ms"@);
    }
}

/// A failed attempt is reported with its operation, the chunk where it was one, its
/// number, its error, and the wait that followed where one did.
pub proof fn law_attempt_is_reported_as_it_was(attempt: RetryAttempt, value: Value)
    requires
        call_ensures(RetryAttempt::report_value, (&attempt,), value),
    ensures
        ({
            let shown = json_tree(value);
            &&& shown matches JsonTree::Object(entries) && entries.len() == 3 + (if attempt.unit
                is WriteChunk {
                1int
            } else {
                0
            }) + (if attempt.delay_before_retry_ms is Some {
                1int
            } else {
                0
            })
            &&& attempt.unit matches RetryUnit::Begin ==> shows(
                shown,
                "operation"@,
                JsonTree::Text("begin"@),
            ) && lacks(shown, "chunk_index"@)
            &&& attempt.unit matches RetryUnit::WriteChunk { chunk_index } ==> shows(
                shown,
                "operation"@,
                JsonTree::Text("write_chunk"@),
            ) && shows(shown, "chunk_index"@, JsonTree::Number(decimal(chunk_index as nat)))
            &&& shows(shown, "attempt"@, JsonTree::Number(decimal(attempt.attempt as nat)))
            &&& shown matches JsonTree::Object(entries) && entry_value(entries, "error"@) matches
                Some(error) && shows(error, "code"@, JsonTree::Text(attempt.code@)) && shows(
                error,
                "message"@,
                JsonTree::Text(attempt.message@),
            )
            &&& attempt.delay_before_retry_ms matches Some(delay_ms) ==> shows(
                shown,
                "delay_before_retry_ms"@,
                JsonTree::Number(decimal(delay_ms as nat)),
            )
            &&& attempt.delay_before_retry_ms is None ==> lacks(shown, "delay_before_retry_ms"@)
        }),
{
    lemma_attempt_shows(attempt);
}

/// The retry story shows the policy and every logged attempt just once: opening the
/// session first, then chunks by their index, then attempts by their number. There
/// is a story to tell exactly where an attempt was logged.
pub proof fn law_retry_story_tells_every_attempt_in_order(
    policy: RetryPolicy,
    attempts: &[RetryAttempt],
    value: Value,
    told: Option<Value>,
)
    requires
        call_ensures(report_value, (&policy, attempts), value),
        call_ensures(report_when_attempted, (&policy, attempts), told),
    ensures
        told is Some <==> attempts@.len() > 0,
        told matches Some(story) ==> json_tree(story) == json_tree(value),
        json_tree(value) matches JsonTree::Object(entries) && entries.len() == 4 && entries[0].0
            == "max_attempts"@ && entries[1].0 == "initial_delay_ms"@ && entries[2].0
            == "max_delay_ms"@ && entries[3].0 == "attempts"@,
        shows(
            json_tree(value),
            "max_attempts"@,
            JsonTree::Number(decimal(policy.max_attempts.number() as nat)),
        ),
        shows(
            json_tree(value),
            "initial_delay_ms"@,
            JsonTree::Number(decimal(policy.initial_delay_ms as nat)),
        ),
        shows(
            json_tree(value),
            "max_delay_ms"@,
            JsonTree::Number(decimal(policy.max_delay_ms as nat)),
        ),
        exists|sorted: Seq<RetryAttempt>|
            {
                &&& #[trigger] sorted.to_multiset() == attempts@.to_multiset()
                &&& forall|i: int, j: int|
                    0 <= i < j < sorted.len() ==> {
                        let (a, b) = (#[trigger] sorted[i], #[trigger] sorted[j]);
                        match (a.unit, b.unit) {
                            (RetryUnit::Begin, RetryUnit::Begin) => a.attempt <= b.attempt,
                            (RetryUnit::Begin, _) => true,
                            (_, RetryUnit::Begin) => false,
                            (
                                RetryUnit::WriteChunk { chunk_index: c },
                                RetryUnit::WriteChunk { chunk_index: d },
                            ) => c < d || (c == d && a.attempt <= b.attempt),
                        }
                    }
                &&& shows(
                    json_tree(value),
                    "attempts"@,
                    JsonTree::Array(
                        sorted.map_values(|a: RetryAttempt| attempt_tree(a)),
                    ),
                )
            },
{
    reveal_strlit("max_attempts");
    reveal_strlit("initial_delay_ms");
    reveal_strlit("max_delay_ms");
    reveal_strlit("attempts");
    let sorted = in_report_order(attempts@);
    law_report_order_sorts_the_log(attempts@);
    let listed = sorted.map_values(|a: RetryAttempt| attempt_tree(a));
    let entries = seq![
        ("max_attempts"@, number_tree(policy.max_attempts.number() as nat)),
        ("initial_delay_ms"@, number_tree(policy.initial_delay_ms as nat)),
        ("max_delay_ms"@, number_tree(policy.max_delay_ms as nat)),
        ("attempts"@, JsonTree::Array(listed)),
    ];
    assert("max_attempts"@[4] == 'a' && "max_delay_ms"@[4] == 'd');
    assert forall|i: int, j: int| 0 <= i < j < entries.len() implies (#[trigger] entries[i]).0 != (
    #[trigger] entries[j]).0 by {
        if entries[i].0.len() == entries[j].0.len() {
            assert(entries[i].0[4] != entries[j].0[4]);
        }
    }
    lemma_object_shows_its_entries(entries);
    lemma_object_of_different_keys(entries);
    assert(entries[0].0 == "max_attempts"@ && entries[1].0 == "initial_delay_ms"@ && entries[2].0
        == "max_delay_ms"@ && entries[3].0 == "attempts"@);
    assert forall|i: int, j: int| 0 <= i < j < sorted.len() implies ({
        let (a, b) = (#[trigger] sorted[i], #[trigger] sorted[j]);
        match (a.unit, b.unit) {
            (RetryUnit::Begin, RetryUnit::Begin) => a.attempt <= b.attempt,
            (RetryUnit::Begin, _) => true,
            (_, RetryUnit::Begin) => false,
            (
                RetryUnit::WriteChunk { chunk_index: c },
                RetryUnit::WriteChunk { chunk_index: d },
            ) => c < d || (c == d && a.attempt <= b.attempt),
        }
    }) by {
        assert(not_after(report_position(sorted[i]), report_position(sorted[j])));
    }
}

/// A recording sleeper has slept what was asked of it, in order, and gives that back.
pub proof fn law_sleeper_records_every_wait(
    sleeper: &mut RecordingSleeper,
    delay_ms: u64,
    recorded: RecordingSleeper,
    waits: Vec<u64>,
)
    requires
        call_ensures(<RecordingSleeper as Sleeper>::sleep_ms, (sleeper, delay_ms), ()),
        call_ensures(RecordingSleeper::slept_ms, (&recorded,), waits),
    ensures
        final(sleeper).waits() == old(sleeper).waits().push(delay_ms),
        waits@ == recorded.waits(),
{
}

/// A sleeper that calls a function waits by calling it with the very delay; an
/// operation that calls one is attempted by calling it, and gives back what came of
/// it.
pub proof fn law_calling_waits_and_attempts_call_their_functions<
    F: Fn(u64),
    T,
    G: FnMut() -> Result<T, DestinationWriteFailure>,
    S: Sleeper,
>(
    sleep: F,
    fresh: CallingSleeper<F>,
    sleeper: &mut CallingSleeper<F>,
    delay_ms: u64,
    function: G,
    unused: CallingOperation<T, G>,
    operation: &mut CallingOperation<T, G>,
    other: S,
    outcome: Result<T, DestinationWriteFailure>,
)
    requires
        call_ensures(CallingSleeper::<F>::new, (sleep,), fresh),
        call_ensures(<CallingSleeper<F> as Sleeper>::sleep_ms, (sleeper, delay_ms), ()),
        call_ensures(CallingOperation::<T, G>::new, (function,), unused),
        call_ensures(
            <CallingOperation<T, G> as Operation<T>>::attempt::<S>,
            (operation, &other),
            outcome,
        ),
    ensures
        fresh.waits().len() == 0 && fresh.function() == sleep,
        final(sleeper).waits() == old(sleeper).waits().push(delay_ms),
        exists|done: ()| #[trigger] old(sleeper).function().ensures((delay_ms,), done),
        unused.attempted().len() == 0 && unused.target() == function,
        old(operation).target().ensures((), outcome),
        final(operation).attempted().len() == old(operation).attempted().len() + 1,
        final(operation).attempted().last().outcome == outcome,
{
}

} // verus!
