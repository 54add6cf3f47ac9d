//! The per-delivery tracer: a state machine that owns one decoded task,
//! its effective options and retry counter, and decides the observable
//! effects of one execution — status events, ETA sleep, and the terminal
//! acknowledge-or-retry operation.
use vstd::prelude::*;
use vstd::arithmetic::mul::lemma_mul_inequality;
use vstd::arithmetic::power2::lemma_pow2_strictly_increases;
use vstd::arithmetic::power2::pow2;
use crate::options::TaskOptions;
use crate::protocol::MessageBody;

verus! {

/// How one attempt of the task's execute operation ended: success, deadline
/// expiry, a failure the task marked retryable, or a plain failure.
#[derive(Clone, Copy, PartialEq, Eq, Structural, Debug)]
pub enum ExecOutcome {
    Success,
    TimedOut,
    RetryableFailure,
    Failure,
}

/// An observable effect of handling one delivery, in the order the worker
/// performs them. `Ack` and `RetryMessage` are the terminal broker
/// operations; `RetryMessage(None)` asks for redelivery as soon as possible.
#[derive(Clone, Copy, PartialEq, Eq, Debug)]
pub enum Effect {
    IncreasePrefetch,
    DecreasePrefetch,
    EmitPending,
    SleepUntil(u64),
    Execute,
    Ack,
    RetryMessage(Option<u64>),
    EmitFinished,
}

/// The shape of an effect, used to count occurrences; both terminal broker
/// operations share one kind.
#[derive(Clone, Copy, PartialEq, Eq, Structural, Debug)]
pub enum EffectKind {
    IncreasePrefetch,
    DecreasePrefetch,
    EmitPending,
    Sleep,
    Execute,
    Terminal,
    EmitFinished,
}

pub open spec fn effect_kind(e: Effect) -> EffectKind {
    match e {
        Effect::IncreasePrefetch => EffectKind::IncreasePrefetch,
        Effect::DecreasePrefetch => EffectKind::DecreasePrefetch,
        Effect::EmitPending => EffectKind::EmitPending,
        Effect::SleepUntil(_) => EffectKind::Sleep,
        Effect::Execute => EffectKind::Execute,
        Effect::Ack => EffectKind::Terminal,
        Effect::RetryMessage(_) => EffectKind::Terminal,
        Effect::EmitFinished => EffectKind::EmitFinished,
    }
}

/// 1 when the effect has the given kind, else 0.
pub open spec fn effect_hit(e: Effect, k: EffectKind) -> nat {
    if effect_kind(e) == k {
        1nat
    } else {
        0nat
    }
}

/// How many effects of the given kind a sequence holds.
pub open spec fn count_matching(s: Seq<Effect>, k: EffectKind) -> nat
    decreases s.len(),
{
    if s.len() == 0 {
        0nat
    } else {
        count_matching(s.drop_last(), k) + effect_hit(s.last(), k)
    }
}

pub proof fn lemma_count_matching_add(a: Seq<Effect>, b: Seq<Effect>, k: EffectKind)
    ensures
        count_matching(a + b, k) == count_matching(a, k) + count_matching(b, k),
    decreases b.len(),
{
    if b.len() == 0 {
        assert(a + b =~= a);
    } else {
        lemma_count_matching_add(a, b.drop_last(), k);
        assert((a + b).drop_last() =~= a + b.drop_last());
        assert((a + b).last() == b.last());
    }
}

pub proof fn lemma_count_matching_one(e: Effect, k: EffectKind)
    ensures
        count_matching(seq![e], k) == effect_hit(e, k),
{
    reveal_with_fuel(count_matching, 3);
    assert(seq![e].drop_last() =~= Seq::<Effect>::empty());
}

pub proof fn lemma_count_matching_two(d: Effect, e: Effect, k: EffectKind)
    ensures
        count_matching(seq![d, e], k) == effect_hit(d, k) + effect_hit(e, k),
{
    assert(seq![d, e].drop_last() =~= seq![d]);
    lemma_count_matching_one(d, k);
}

/// A delivery is delayed when its headers carry an ETA that is still in the
/// future at the moment of evaluation.
pub open spec fn is_delayed_spec(eta: Option<u64>, now: u64) -> bool {
    match eta {
        Some(t) => now < t,
        None => false,
    }
}

/// Whether another retry is allowed: always when no cap is set, else only
/// while the recovered retry count is below the cap.
pub open spec fn should_retry_spec(retries: u64, max_retries: Option<u64>) -> bool {
    match max_retries {
        None => true,
        Some(m) => retries < m,
    }
}

/// The backoff before retry number `retries + 1`: the minimum delay doubled
/// once per prior retry, capped by the maximum delay.
pub open spec fn retry_delay_spec(retries: u64, min_delay: u64, max_delay: u64) -> u64 {
    let grown = (min_delay as nat) * pow2(retries as nat);
    if grown > max_delay {
        max_delay
    } else {
        grown as u64
    }
}

/// The absolute time of the next attempt: now plus the backoff, saturating
/// at the largest representable timestamp.
pub open spec fn retry_eta_spec(now: u64, delay: u64) -> u64 {
    if now + delay > u64::MAX {
        u64::MAX
    } else {
        (now + delay) as u64
    }
}

/// Compute the backoff before the next retry.
pub fn retry_delay(retries: u64, min_delay: u64, max_delay: u64) -> (r: u64)
    ensures
        r == retry_delay_spec(retries, min_delay, max_delay),
{
    if min_delay == 0 {
        proof {
            assert((min_delay as nat) * pow2(retries as nat) == 0) by (nonlinear_arith)
                requires
                    min_delay == 0,
            ;
        }
        return 0;
    }
    let mut d: u64 = if min_delay > max_delay {
        max_delay
    } else {
        min_delay
    };
    let mut i: u64 = 0;
    proof {
        vstd::arithmetic::power2::lemma2_to64();
    }
    while i < retries && d < max_delay
        invariant
            min_delay >= 1,
            i <= retries,
            d == retry_delay_spec(i, min_delay, max_delay),
        decreases retries - i,
    {
        let ghost grown = (min_delay as nat) * pow2(i as nat);
        assert(d == grown) by {
            assert(grown <= max_delay);
        }
        assert(pow2((i + 1) as nat) == 2 * pow2(i as nat)) by {
            vstd::arithmetic::power2::lemma_pow2_unfold((i + 1) as nat);
        }
        assert((min_delay as nat) * (2 * pow2(i as nat)) == 2 * ((min_delay as nat) * pow2(
            i as nat,
        ))) by (nonlinear_arith);
        if d > max_delay / 2 {
            d = max_delay;
        } else {
            d = d * 2;
        }
        i = i + 1;
    }
    proof {
        if i < retries {
            // the delay saturated at the cap; it stays there for every
            // later retry because the doubled backoff only grows
            assert(d == max_delay);
            assert((min_delay as nat) * pow2(i as nat) >= max_delay);
            lemma_pow2_strictly_increases(i as nat, retries as nat);
            lemma_mul_inequality(pow2(i as nat) as int, pow2(retries as nat) as int, min_delay as int);
            assert((min_delay as nat) * pow2(retries as nat) >= (min_delay as nat) * pow2(i as nat))
                by (nonlinear_arith)
                requires pow2(retries as nat) >= pow2(i as nat);
        }
    }
    d
}

/// Compute the absolute retry time, saturating on overflow.
pub fn retry_eta(now: u64, delay: u64) -> (r: u64)
    ensures
        r == retry_eta_spec(now, delay),
{
    if now <= u64::MAX - delay {
        now + delay
    } else {
        u64::MAX
    }
}

/// The terminal state a trace reaches: success, a scheduled retry, a
/// retryable failure with retries exhausted, a deadline expiry with retries
/// exhausted, or a plain failure.
#[derive(Clone, Copy, PartialEq, Eq, Debug)]
pub enum TraceResult {
    Success,
    RetryScheduled { eta: u64 },
    Exhausted,
    TimedOut,
    Failed,
}

/// The terminal state reached from one execute outcome: a retryable failure
/// or deadline expiry schedules a retry while the cap allows it, and
/// otherwise ends the trace so that the message is acknowledged.
pub open spec fn trace_result_spec(
    outcome: ExecOutcome,
    retries: u64,
    opts: TaskOptions,
    now: u64,
) -> TraceResult {
    match outcome {
        ExecOutcome::Success => TraceResult::Success,
        ExecOutcome::Failure => TraceResult::Failed,
        ExecOutcome::TimedOut => if should_retry_spec(retries, opts.max_retries) {
            TraceResult::RetryScheduled {
                eta: retry_eta_spec(
                    now,
                    retry_delay_spec(retries, opts.min_retry_delay, opts.max_retry_delay),
                ),
            }
        } else {
            TraceResult::TimedOut
        },
        ExecOutcome::RetryableFailure => if should_retry_spec(retries, opts.max_retries) {
            TraceResult::RetryScheduled {
                eta: retry_eta_spec(
                    now,
                    retry_delay_spec(retries, opts.min_retry_delay, opts.max_retry_delay),
                ),
            }
        } else {
            TraceResult::Exhausted
        },
    }
}

/// The one terminal broker operation a trace result calls for: a scheduled
/// retry returns the message with its ETA, every other terminal state
/// acknowledges it.
pub open spec fn terminal_effect_spec(r: TraceResult) -> Effect {
    match r {
        TraceResult::RetryScheduled { eta } => Effect::RetryMessage(Some(eta)),
        _ => Effect::Ack,
    }
}

/// The effects before execution: the `Pending` event, then the ETA sleep
/// when the delivery is delayed.
pub open spec fn prologue_effects_spec(delayed: bool, eta: Option<u64>) -> Seq<Effect> {
    if delayed {
        seq![Effect::EmitPending, Effect::SleepUntil(eta->0)]
    } else {
        seq![Effect::EmitPending]
    }
}

/// The effects after execution: the terminal broker operation, then the
/// `Finished` event.
pub open spec fn epilogue_effects_spec(r: TraceResult) -> Seq<Effect> {
    seq![terminal_effect_spec(r), Effect::EmitFinished]
}

/// Every observable effect of one complete trace, in order.
pub open spec fn trace_effects_spec(delayed: bool, eta: Option<u64>, r: TraceResult) -> Seq<
    Effect,
> {
    prologue_effects_spec(delayed, eta) + seq![Effect::Execute] + epilogue_effects_spec(r)
}

/// The life phases of a tracer: constructed, executing, terminal.
#[derive(Clone, Copy, PartialEq, Eq, Structural, Debug)]
pub enum TracerState {
    Armed,
    Running,
    Done,
}

/// The per-delivery execution state machine. It owns the decoded body, the
/// effective options, the retry counter recovered from the headers, and the
/// recorded ETA; `begin` and `finish` drive it through its one trace.
pub struct Tracer {
    pub task_name: String,
    pub id: String,
    pub eta: Option<u64>,
    pub retries: u64,
    pub options: TaskOptions,
    pub body: MessageBody,
    pub state: TracerState,
}

impl Tracer {
    /// Arm a tracer for one delivery.
    pub fn new(
        task_name: String,
        id: String,
        eta: Option<u64>,
        retries: u64,
        options: TaskOptions,
        body: MessageBody,
    ) -> (r: Self)
        ensures
            r.task_name@ == task_name@,
            r.id@ == id@,
            r.eta == eta,
            r.retries == retries,
            r.options == options,
            r.body == body,
            r.state is Armed,
    {
        Tracer { task_name, id, eta, retries, options, body, state: TracerState::Armed }
    }

    /// Whether this delivery's ETA is still in the future.
    pub fn is_delayed(&self, now: u64) -> (r: bool)
        ensures
            r == is_delayed_spec(self.eta, now),
    {
        match self.eta {
            Some(t) => now < t,
            None => false,
        }
    }

    /// The absolute time at which a retry of this delivery should run.
    pub fn retry_eta(&self, now: u64) -> (r: u64)
        ensures
            r == retry_eta_spec(
                now,
                retry_delay_spec(self.retries, self.options.min_retry_delay, self.options.max_retry_delay),
            ),
    {
        let delay = retry_delay(self.retries, self.options.min_retry_delay, self.options.max_retry_delay);
        retry_eta(now, delay)
    }

    /// Start the trace: emit `Pending`, and sleep until the ETA when the
    /// delivery is delayed.
    pub fn begin(&mut self, now: u64) -> (v: Vec<Effect>)
        requires
            old(self).state is Armed,
        ensures
            final(self).state is Running,
            final(self).task_name@ == old(self).task_name@,
            final(self).id@ == old(self).id@,
            final(self).eta == old(self).eta,
            final(self).retries == old(self).retries,
            final(self).options == old(self).options,
            final(self).body == old(self).body,
            v@ == prologue_effects_spec(is_delayed_spec(old(self).eta, now), old(self).eta),
    {
        self.state = TracerState::Running;
        let mut v: Vec<Effect> = Vec::new();
        v.push(Effect::EmitPending);
        let delayed = self.is_delayed(now);
        if delayed {
            match self.eta {
                Some(t) => {
                    v.push(Effect::SleepUntil(t));
                },
                None => {},
            }
            assert(v@ =~= prologue_effects_spec(true, self.eta));
        } else {
            assert(v@ =~= prologue_effects_spec(false, self.eta));
        }
        v
    }

    /// End the trace with the outcome of the execute operation: decide the
    /// terminal state, perform its broker operation, and emit `Finished`.
    pub fn finish(&mut self, outcome: ExecOutcome, now: u64) -> (r: (TraceResult, Vec<Effect>))
        requires
            old(self).state is Running,
        ensures
            final(self).state is Done,
            final(self).task_name@ == old(self).task_name@,
            final(self).id@ == old(self).id@,
            final(self).eta == old(self).eta,
            final(self).retries == old(self).retries,
            final(self).options == old(self).options,
            final(self).body == old(self).body,
            r.0 == trace_result_spec(outcome, old(self).retries, old(self).options, now),
            r.1@ == epilogue_effects_spec(r.0),
    {
        self.state = TracerState::Done;
        let result = match outcome {
            ExecOutcome::Success => TraceResult::Success,
            ExecOutcome::Failure => TraceResult::Failed,
            ExecOutcome::TimedOut => {
                if should_retry(self.retries, self.options.max_retries) {
                    TraceResult::RetryScheduled { eta: self.retry_eta(now) }
                } else {
                    TraceResult::TimedOut
                }
            },
            ExecOutcome::RetryableFailure => {
                if should_retry(self.retries, self.options.max_retries) {
                    TraceResult::RetryScheduled { eta: self.retry_eta(now) }
                } else {
                    TraceResult::Exhausted
                }
            },
        };
        let mut v: Vec<Effect> = Vec::new();
        match result {
            TraceResult::RetryScheduled { eta } => {
                v.push(Effect::RetryMessage(Some(eta)));
            },
            _ => {
                v.push(Effect::Ack);
            },
        }
        v.push(Effect::EmitFinished);
        assert(v@ =~= epilogue_effects_spec(result));
        (result, v)
    }
}

/// Whether another retry is allowed under the given cap.
pub fn should_retry(retries: u64, max_retries: Option<u64>) -> (r: bool)
    ensures
        r == should_retry_spec(retries, max_retries),
{
    match max_retries {
        None => true,
        Some(m) => retries < m,
    }
}

/// Every complete trace emits exactly one `Pending` event, exactly one
/// `Finished` event, and exactly one terminal broker operation.
pub proof fn lemma_trace_events_once(delayed: bool, eta: Option<u64>, r: TraceResult)
    ensures
        count_matching(trace_effects_spec(delayed, eta, r), EffectKind::EmitPending) == 1,
        count_matching(trace_effects_spec(delayed, eta, r), EffectKind::EmitFinished) == 1,
        count_matching(trace_effects_spec(delayed, eta, r), EffectKind::Terminal) == 1,
{
    let p = prologue_effects_spec(delayed, eta);
    let x = seq![Effect::Execute];
    let e = epilogue_effects_spec(r);
    lemma_count_matching_add(p + x, e, EffectKind::EmitPending);
    lemma_count_matching_add(p, x, EffectKind::EmitPending);
    lemma_count_matching_add(p + x, e, EffectKind::EmitFinished);
    lemma_count_matching_add(p, x, EffectKind::EmitFinished);
    lemma_count_matching_add(p + x, e, EffectKind::Terminal);
    lemma_count_matching_add(p, x, EffectKind::Terminal);
    if delayed {
        lemma_count_matching_two(Effect::EmitPending, Effect::SleepUntil(eta->0), EffectKind::EmitPending);
        lemma_count_matching_two(Effect::EmitPending, Effect::SleepUntil(eta->0), EffectKind::EmitFinished);
        lemma_count_matching_two(Effect::EmitPending, Effect::SleepUntil(eta->0), EffectKind::Terminal);
    } else {
        lemma_count_matching_one(Effect::EmitPending, EffectKind::EmitPending);
        lemma_count_matching_one(Effect::EmitPending, EffectKind::EmitFinished);
        lemma_count_matching_one(Effect::EmitPending, EffectKind::Terminal);
    }
    lemma_count_matching_one(Effect::Execute, EffectKind::EmitPending);
    lemma_count_matching_one(Effect::Execute, EffectKind::EmitFinished);
    lemma_count_matching_one(Effect::Execute, EffectKind::Terminal);
    lemma_count_matching_two(terminal_effect_spec(r), Effect::EmitFinished, EffectKind::EmitPending);
    lemma_count_matching_two(terminal_effect_spec(r), Effect::EmitFinished, EffectKind::EmitFinished);
    lemma_count_matching_two(terminal_effect_spec(r), Effect::EmitFinished, EffectKind::Terminal);
}

/// A delivery whose retry count has reached the cap and whose execution
/// fails retryably (or times out) is acknowledged, never retried.
pub proof fn lemma_retries_exhausted_acks(
    outcome: ExecOutcome,
    retries: u64,
    opts: TaskOptions,
    now: u64,
)
    requires
        opts.max_retries is Some,
        retries >= opts.max_retries->0,
        outcome is RetryableFailure || outcome is TimedOut,
    ensures
        !(trace_result_spec(outcome, retries, opts, now) is RetryScheduled),
        terminal_effect_spec(trace_result_spec(outcome, retries, opts, now)) == Effect::Ack,
{
}

/// While the retry cap allows it, a retryable failure or deadline expiry is
/// scheduled for retry exactly one backoff later: the minimum delay doubled
/// once per prior retry and capped by the maximum delay. The bound on `now`
/// only keeps the scheduled time inside the machine range.
pub proof fn lemma_retry_schedule(outcome: ExecOutcome, retries: u64, opts: TaskOptions, now: u64)
    requires
        outcome is RetryableFailure || outcome is TimedOut,
        should_retry_spec(retries, opts.max_retries),
        now + retry_delay_spec(retries, opts.min_retry_delay, opts.max_retry_delay) <= u64::MAX,
    ensures
        trace_result_spec(outcome, retries, opts, now) == (TraceResult::RetryScheduled {
            eta: (now + retry_delay_spec(
                retries,
                opts.min_retry_delay,
                opts.max_retry_delay,
            )) as u64,
        }),
        terminal_effect_spec(trace_result_spec(outcome, retries, opts, now))
            == Effect::RetryMessage(
            Some(
                (now + retry_delay_spec(
                    retries,
                    opts.min_retry_delay,
                    opts.max_retry_delay,
                )) as u64,
            ),
        ),
{
}

/// A delivery whose ETA is in the past (or now) is not delayed.
pub proof fn lemma_past_eta_not_delayed(eta: u64, now: u64)
    requires
        eta <= now,
    ensures
        !is_delayed_spec(Some(eta), now),
{
}

} // verus!
