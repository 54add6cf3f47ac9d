//! The dispatcher's handling of one delivery: given the outcome of each
//! fallible stage (decoding, registry lookup, the prefetch adjustment and
//! the traced execution), it decides the ordered broker effects and the
//! error to surface, so that every delivery is acknowledged or retried
//! exactly once and prefetch adjustments stay balanced.
use vstd::prelude::*;
use crate::errors::ErrorKind;
use crate::tracer::Effect;
use crate::tracer::EffectKind;
use crate::tracer::TraceResult;
use crate::tracer::count_matching;
use crate::tracer::epilogue_effects_spec;
use crate::tracer::lemma_count_matching_add;
use crate::tracer::lemma_count_matching_one;
use crate::tracer::lemma_count_matching_two;
use crate::tracer::lemma_trace_events_once;
use crate::tracer::prologue_effects_spec;
use crate::tracer::terminal_effect_spec;
use crate::tracer::trace_effects_spec;

verus! {

/// What reached the dispatcher for one slot of the delivery stream: a
/// transport failure, a delivery that would not decode, a decoded message
/// naming an unregistered task, or a traced execution with its stage
/// outcomes.
pub enum DeliveryInput {
    /// The stream yielded a transport error: there is no delivery to settle.
    BrokerFailure,
    /// The delivery did not decode into a message.
    Malformed,
    /// The message named a task absent from the registry.
    UnknownTask(String),
    /// A tracer was built. `delayed` records whether the ETA was in the
    /// future on arrival, `prefetch_ok` whether the prefetch increase (only
    /// attempted for delayed deliveries) succeeded, `eta` the recorded ETA,
    /// and `result` the terminal state of the trace.
    Traced { delayed: bool, prefetch_ok: bool, eta: Option<u64>, result: TraceResult },
}

/// A delivery is only ever delayed because of an ETA in its headers, so a
/// traced input marked delayed carries one.
pub open spec fn wf_delivery_input(d: DeliveryInput) -> bool {
    match d {
        DeliveryInput::Traced { delayed, eta, .. } => delayed ==> eta is Some,
        _ => true,
    }
}

/// The ordered broker effects of one delivery.
pub open spec fn delivery_effects_spec(d: DeliveryInput) -> Seq<Effect> {
    match d {
        DeliveryInput::BrokerFailure => Seq::<Effect>::empty(),
        DeliveryInput::Malformed => seq![Effect::Ack],
        DeliveryInput::UnknownTask(_) => seq![Effect::Ack],
        DeliveryInput::Traced { delayed, prefetch_ok, eta, result } => {
            if delayed && !prefetch_ok {
                seq![Effect::RetryMessage(None)]
            } else if delayed {
                seq![Effect::IncreasePrefetch] + trace_effects_spec(true, eta, result) + seq![
                    Effect::DecreasePrefetch,
                ]
            } else {
                trace_effects_spec(false, eta, result)
            }
        },
    }
}

/// The error the dispatcher surfaces for one delivery, if any. Errors of a
/// traced execution were already settled by the tracer's terminal operation
/// and are not surfaced again.
pub open spec fn delivery_error_spec(d: DeliveryInput) -> Option<ErrorKind> {
    match d {
        DeliveryInput::BrokerFailure => Some(ErrorKind::BrokerError),
        DeliveryInput::Malformed => Some(ErrorKind::ProtocolError),
        DeliveryInput::UnknownTask(name) => Some(ErrorKind::UnregisteredTask(name)),
        DeliveryInput::Traced { delayed, prefetch_ok, .. } => {
            if delayed && !prefetch_ok {
                Some(ErrorKind::BrokerError)
            } else {
                None
            }
        },
    }
}

/// Settle one delivery: return the ordered broker effects and the error to
/// surface. A delivery that cannot be decoded or names an unknown task is
/// acknowledged (redelivery cannot fix it); a delayed delivery whose
/// prefetch increase failed is returned for immediate redelivery; a traced
/// delivery performs its trace effects, bracketed by the prefetch
/// adjustments when it was delayed.
pub fn try_handle_delivery(d: DeliveryInput) -> (r: (Vec<Effect>, Option<ErrorKind>))
    requires
        wf_delivery_input(d),
    ensures
        r.0@ == delivery_effects_spec(d),
        r.1 == delivery_error_spec(d),
{
    match d {
        DeliveryInput::BrokerFailure => {
            let v: Vec<Effect> = Vec::new();
            assert(v@ =~= delivery_effects_spec(DeliveryInput::BrokerFailure));
            (v, Some(ErrorKind::BrokerError))
        },
        DeliveryInput::Malformed => {
            let mut v: Vec<Effect> = Vec::new();
            v.push(Effect::Ack);
            assert(v@ =~= delivery_effects_spec(DeliveryInput::Malformed));
            (v, Some(ErrorKind::ProtocolError))
        },
        DeliveryInput::UnknownTask(name) => {
            let mut v: Vec<Effect> = Vec::new();
            v.push(Effect::Ack);
            assert(v@ =~= seq![Effect::Ack]);
            (v, Some(ErrorKind::UnregisteredTask(name)))
        },
        DeliveryInput::Traced { delayed, prefetch_ok, eta, result } => {
            let ghost din = DeliveryInput::Traced { delayed, prefetch_ok, eta, result };
            let mut v: Vec<Effect> = Vec::new();
            if delayed && !prefetch_ok {
                v.push(Effect::RetryMessage(None));
                assert(v@ =~= delivery_effects_spec(din));
                return (v, Some(ErrorKind::BrokerError));
            }
            if delayed {
                v.push(Effect::IncreasePrefetch);
            }
            v.push(Effect::EmitPending);
            if delayed {
                match eta {
                    Some(t) => {
                        v.push(Effect::SleepUntil(t));
                    },
                    None => {},
                }
            }
            v.push(Effect::Execute);
            match result {
                TraceResult::RetryScheduled { eta: retry_at } => {
                    v.push(Effect::RetryMessage(Some(retry_at)));
                },
                _ => {
                    v.push(Effect::Ack);
                },
            }
            v.push(Effect::EmitFinished);
            if delayed {
                v.push(Effect::DecreasePrefetch);
                assert(v@ =~= delivery_effects_spec(din));
            } else {
                assert(v@ =~= delivery_effects_spec(din));
            }
            (v, None)
        },
    }
}

/// Settle one delivery and swallow the error after handing it back as a log
/// line, so that a bad message never poisons the consume loop.
pub fn handle_delivery(d: DeliveryInput) -> (r: (Vec<Effect>, Option<&'static str>))
    requires
        wf_delivery_input(d),
    ensures
        r.0@ == delivery_effects_spec(d),
        match delivery_error_spec(d) {
            Some(e) => r.1 matches Some(l) && l@ == crate::errors::label_spec(e),
            None => r.1 is None,
        },
{
    let (v, e) = try_handle_delivery(d);
    match e {
        Some(kind) => (v, Some(kind.label())),
        None => (v, None),
    }
}

/// Every delivery that reaches the dispatcher — everything but a bare
/// transport failure, where there is nothing to settle — causes exactly one
/// terminal broker operation: one acknowledge or one retry.
pub proof fn lemma_one_terminal_operation(d: DeliveryInput)
    requires
        !(d is BrokerFailure),
    ensures
        count_matching(delivery_effects_spec(d), EffectKind::Terminal) == 1,
{
    lemma_delivery_counts(d);
}

/// Over any delivery, prefetch increases and decreases balance: both happen
/// exactly once for a delayed delivery whose prefetch increase succeeded,
/// and never otherwise.
pub proof fn lemma_prefetch_balanced(d: DeliveryInput)
    ensures
        count_matching(delivery_effects_spec(d), EffectKind::IncreasePrefetch) == count_matching(
            delivery_effects_spec(d),
            EffectKind::DecreasePrefetch,
        ),
{
    lemma_delivery_counts(d);
}

/// The exact effect counts of one delivery, for every stage outcome.
pub proof fn lemma_delivery_counts(d: DeliveryInput)
    ensures
        !(d is BrokerFailure) ==> count_matching(delivery_effects_spec(d), EffectKind::Terminal)
            == 1,
        d is BrokerFailure ==> count_matching(delivery_effects_spec(d), EffectKind::Terminal)
            == 0,
        count_matching(delivery_effects_spec(d), EffectKind::IncreasePrefetch) == count_matching(
            delivery_effects_spec(d),
            EffectKind::DecreasePrefetch,
        ),
        count_matching(delivery_effects_spec(d), EffectKind::EmitPending) == count_matching(
            delivery_effects_spec(d),
            EffectKind::EmitFinished,
        ),
        count_matching(delivery_effects_spec(d), EffectKind::EmitPending) == (
        if (d matches DeliveryInput::Traced { delayed, prefetch_ok, .. } && (!delayed
            || prefetch_ok)) {
            1nat
        } else {
            0nat
        }),
{
    reveal_with_fuel(count_matching, 3);
    match d {
        DeliveryInput::BrokerFailure => {
        },
        DeliveryInput::Malformed => {
            lemma_count_matching_one(Effect::Ack, EffectKind::Terminal);
            lemma_count_matching_one(Effect::Ack, EffectKind::IncreasePrefetch);
            lemma_count_matching_one(Effect::Ack, EffectKind::DecreasePrefetch);
            lemma_count_matching_one(Effect::Ack, EffectKind::EmitPending);
            lemma_count_matching_one(Effect::Ack, EffectKind::EmitFinished);
        },
        DeliveryInput::UnknownTask(_) => {
            lemma_count_matching_one(Effect::Ack, EffectKind::Terminal);
            lemma_count_matching_one(Effect::Ack, EffectKind::IncreasePrefetch);
            lemma_count_matching_one(Effect::Ack, EffectKind::DecreasePrefetch);
            lemma_count_matching_one(Effect::Ack, EffectKind::EmitPending);
            lemma_count_matching_one(Effect::Ack, EffectKind::EmitFinished);
        },
        DeliveryInput::Traced { delayed, prefetch_ok, eta, result } => {
            if delayed && !prefetch_ok {
                lemma_count_matching_one(Effect::RetryMessage(None), EffectKind::Terminal);
                lemma_count_matching_one(Effect::RetryMessage(None), EffectKind::IncreasePrefetch);
                lemma_count_matching_one(Effect::RetryMessage(None), EffectKind::DecreasePrefetch);
                lemma_count_matching_one(Effect::RetryMessage(None), EffectKind::EmitPending);
                lemma_count_matching_one(Effect::RetryMessage(None), EffectKind::EmitFinished);
            } else if delayed {
                let inc = seq![Effect::IncreasePrefetch];
                let t = trace_effects_spec(true, eta, result);
                let dec = seq![Effect::DecreasePrefetch];
                lemma_trace_events_once(true, eta, result);
                lemma_trace_counts_prefetch(true, eta, result);
                lemma_count_matching_add(inc + t, dec, EffectKind::Terminal);
                lemma_count_matching_add(inc, t, EffectKind::Terminal);
                lemma_count_matching_one(Effect::IncreasePrefetch, EffectKind::Terminal);
                lemma_count_matching_one(Effect::DecreasePrefetch, EffectKind::Terminal);
                lemma_count_matching_add(inc + t, dec, EffectKind::IncreasePrefetch);
                lemma_count_matching_add(inc, t, EffectKind::IncreasePrefetch);
                lemma_count_matching_one(Effect::IncreasePrefetch, EffectKind::IncreasePrefetch);
                lemma_count_matching_one(Effect::DecreasePrefetch, EffectKind::IncreasePrefetch);
                lemma_count_matching_add(inc + t, dec, EffectKind::DecreasePrefetch);
                lemma_count_matching_add(inc, t, EffectKind::DecreasePrefetch);
                lemma_count_matching_one(Effect::IncreasePrefetch, EffectKind::DecreasePrefetch);
                lemma_count_matching_one(Effect::DecreasePrefetch, EffectKind::DecreasePrefetch);
                lemma_count_matching_add(inc + t, dec, EffectKind::EmitPending);
                lemma_count_matching_add(inc, t, EffectKind::EmitPending);
                lemma_count_matching_one(Effect::IncreasePrefetch, EffectKind::EmitPending);
                lemma_count_matching_one(Effect::DecreasePrefetch, EffectKind::EmitPending);
                lemma_count_matching_add(inc + t, dec, EffectKind::EmitFinished);
                lemma_count_matching_add(inc, t, EffectKind::EmitFinished);
                lemma_count_matching_one(Effect::IncreasePrefetch, EffectKind::EmitFinished);
                lemma_count_matching_one(Effect::DecreasePrefetch, EffectKind::EmitFinished);
            } else {
                lemma_trace_events_once(false, eta, result);
                lemma_trace_counts_prefetch(false, eta, result);
            }
        },
    }
}

/// A trace by itself never touches the prefetch count: those adjustments
/// are the dispatcher's, bracketing the trace of a delayed delivery.
pub proof fn lemma_trace_counts_prefetch(delayed: bool, eta: Option<u64>, r: TraceResult)
    ensures
        count_matching(trace_effects_spec(delayed, eta, r), EffectKind::IncreasePrefetch) == 0,
        count_matching(trace_effects_spec(delayed, eta, r), EffectKind::DecreasePrefetch) == 0,
{
    let p = prologue_effects_spec(delayed, eta);
    let x = seq![Effect::Execute];
    let e = epilogue_effects_spec(r);
    lemma_count_matching_add(p + x, e, EffectKind::IncreasePrefetch);
    lemma_count_matching_add(p, x, EffectKind::IncreasePrefetch);
    lemma_count_matching_add(p + x, e, EffectKind::DecreasePrefetch);
    lemma_count_matching_add(p, x, EffectKind::DecreasePrefetch);
    if delayed {
        lemma_count_matching_two(
            Effect::EmitPending,
            Effect::SleepUntil(eta->0),
            EffectKind::IncreasePrefetch,
        );
        lemma_count_matching_two(
            Effect::EmitPending,
            Effect::SleepUntil(eta->0),
            EffectKind::DecreasePrefetch,
        );
    } else {
        lemma_count_matching_one(Effect::EmitPending, EffectKind::IncreasePrefetch);
        lemma_count_matching_one(Effect::EmitPending, EffectKind::DecreasePrefetch);
    }
    lemma_count_matching_one(Effect::Execute, EffectKind::IncreasePrefetch);
    lemma_count_matching_one(Effect::Execute, EffectKind::DecreasePrefetch);
    lemma_count_matching_two(
        terminal_effect_spec(r),
        Effect::EmitFinished,
        EffectKind::IncreasePrefetch,
    );
    lemma_count_matching_two(
        terminal_effect_spec(r),
        Effect::EmitFinished,
        EffectKind::DecreasePrefetch,
    );
}

} // verus!
