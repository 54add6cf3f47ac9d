use celery::celery::Celery;
use celery::codec::decode_body;
use celery::codec::encode_body;
use celery::consume::ConsumeState;
use celery::consume::LoopAction;
use celery::consume::LoopEvent;
use celery::consume::Phase;
use celery::dispatch::try_handle_delivery;
use celery::dispatch::DeliveryInput;
use celery::errors::ErrorKind;
use celery::events::TaskEvent;
use celery::events::TaskStatus;
use celery::options::TaskOptions;
use celery::options::TaskOptionsOverrides;
use celery::protocol::Headers;
use celery::protocol::Kwarg;
use celery::protocol::Message;
use celery::protocol::MessageBody;
use celery::tracer::retry_delay;
use celery::tracer::should_retry;
use celery::tracer::Effect;
use celery::tracer::ExecOutcome;
use celery::tracer::TraceResult;
use celery::tracer::Tracer;

fn body(args: Vec<u64>, kwargs: Vec<Kwarg>) -> MessageBody {
    MessageBody { args, kwargs }
}

fn message(task: &str, id: &str, eta: Option<u64>, retries: Option<u64>, raw: Vec<u8>) -> Message {
    Message {
        headers: Headers {
            task: task.to_owned(),
            id: id.to_owned(),
            eta,
            retries,
            expires: None,
        },
        raw_body: raw,
    }
}

fn count_terminal(ops: &[Effect]) -> usize {
    ops.iter()
        .filter(|e| matches!(e, Effect::Ack | Effect::RetryMessage(_)))
        .count()
}

fn count_kind(ops: &[Effect], inc: bool) -> usize {
    ops.iter()
        .filter(|e| {
            if inc {
                matches!(e, Effect::IncreasePrefetch)
            } else {
                matches!(e, Effect::DecreasePrefetch)
            }
        })
        .count()
}

#[test]
fn options_overrides_right_biased() {
    let base = TaskOptions {
        timeout: Some(10),
        max_retries: None,
        min_retry_delay: 1,
        max_retry_delay: 100,
    };
    let task = TaskOptionsOverrides {
        timeout: Some(3),
        max_retries: Some(7),
        min_retry_delay: None,
        max_retry_delay: Some(50),
    };
    let eff = base.overrides(&task);
    assert_eq!(eff.timeout, Some(3));
    assert_eq!(eff.max_retries, Some(7));
    assert_eq!(eff.min_retry_delay, 1);
    assert_eq!(eff.max_retry_delay, 50);
}

#[test]
fn options_overrides_identity_when_empty() {
    let base = TaskOptions {
        timeout: Some(4),
        max_retries: Some(2),
        min_retry_delay: 5,
        max_retry_delay: 60,
    };
    let eff = base.overrides(&TaskOptionsOverrides::empty());
    assert_eq!(eff.timeout, Some(4));
    assert_eq!(eff.max_retries, Some(2));
    assert_eq!(eff.min_retry_delay, 5);
    assert_eq!(eff.max_retry_delay, 60);
}

#[test]
fn task_event_wraps_status() {
    let ev = TaskEvent::new(TaskStatus::Pending);
    assert_eq!(ev.status, TaskStatus::Pending);
    let ev = TaskEvent::new(TaskStatus::Finished);
    assert_eq!(ev.status, TaskStatus::Finished);
}

#[test]
fn register_task_twice_fails() {
    let mut app = Celery::new("app".to_owned());
    assert!(app
        .register_task("add".to_owned(), TaskOptionsOverrides::empty())
        .is_ok());
    let second = app.register_task("add".to_owned(), TaskOptionsOverrides::empty());
    assert_eq!(
        second,
        Err(ErrorKind::TaskAlreadyExists("add".to_owned()))
    );
    // a different name still registers
    assert!(app
        .register_task("mul_two".to_owned(), TaskOptionsOverrides::empty())
        .is_ok());
}

#[test]
fn encode_body_exact_bytes() {
    let b = body(vec![2, 3], Vec::new());
    assert_eq!(encode_body(&b), b"[[2,3],{},{}]".to_vec());
    let b = body(Vec::new(), Vec::new());
    assert_eq!(encode_body(&b), b"[[],{},{}]".to_vec());
    let b = body(
        vec![0, 18446744073709551615],
        vec![Kwarg { key: b"x".to_vec(), value: 7 }],
    );
    assert_eq!(
        encode_body(&b),
        b"[[0,18446744073709551615],{\"x\":7},{}]".to_vec()
    );
}

#[test]
fn body_round_trip() {
    let b = body(
        vec![2, 3, 0, 18446744073709551615],
        vec![
            Kwarg { key: b"retries".to_vec(), value: 1 },
            Kwarg { key: b"x-9_Z".to_vec(), value: 0 },
        ],
    );
    let bytes = encode_body(&b);
    let back = decode_body(&bytes).expect("canonical body decodes");
    assert_eq!(back.args, vec![2, 3, 0, 18446744073709551615]);
    assert_eq!(back.kwargs.len(), 2);
    assert_eq!(back.kwargs[0].key, b"retries".to_vec());
    assert_eq!(back.kwargs[0].value, 1);
    assert_eq!(back.kwargs[1].key, b"x-9_Z".to_vec());
    assert_eq!(back.kwargs[1].value, 0);
}

#[test]
fn decode_then_encode_restores_the_bytes() {
    let bytes = b"[[5,0,77],{\"a\":1,\"b-c\":22},{}]".to_vec();
    let decoded = decode_body(&bytes).expect("canonical body decodes");
    assert_eq!(encode_body(&decoded), bytes);
}

#[test]
fn decode_accepts_whitespace_and_embed() {
    // separators as common JSON writers emit them
    let decoded = decode_body(&b"[[2, 3], {}, {}]".to_vec()).expect("spaced body decodes");
    assert_eq!(decoded.args, vec![2, 3]);
    assert!(decoded.kwargs.is_empty());
    // whitespace around every token, and a non-empty options object
    let spaced = b" [ [ 1 , 2 ] , { \"a\" : 3 } , { \"chain\" : 0 } ] ".to_vec();
    let decoded = decode_body(&spaced).expect("spaced body with embed decodes");
    assert_eq!(decoded.args, vec![1, 2]);
    assert_eq!(decoded.kwargs.len(), 1);
    assert_eq!(decoded.kwargs[0].key, b"a".to_vec());
    assert_eq!(decoded.kwargs[0].value, 3);
    // a non-empty embed object is tolerated and ignored
    let decoded = decode_body(&b"[[5],{},{\"origin\":7}]".to_vec()).expect("embed tolerated");
    assert_eq!(decoded.args, vec![5]);
    assert!(decoded.kwargs.is_empty());
}

#[test]
fn decode_rejects_malformed_bodies() {
    assert!(decode_body(&Vec::new()).is_none());
    assert!(decode_body(&b"[2,3]".to_vec()).is_none());
    assert!(decode_body(&b"[[01],{},{}]".to_vec()).is_none());
    assert!(decode_body(&b"[[1,],{},{}]".to_vec()).is_none());
    assert!(decode_body(&b"[[1],{},{}]x".to_vec()).is_none());
    assert!(decode_body(&b"[[18446744073709551616],{},{}]".to_vec()).is_none());
    assert!(decode_body(&b"[[1],{\"\":2},{}]".to_vec()).is_none());
    assert!(decode_body(&b"[[2,3],{},{}]".to_vec()).is_some());
}

#[test]
fn happy_path_traces_and_acks() {
    let mut app = Celery::new("app".to_owned());
    app.register_task("add".to_owned(), TaskOptionsOverrides::empty())
        .unwrap();
    let m = app.prepare_task_message(
        "add".to_owned(),
        "1".to_owned(),
        &body(vec![2, 3], Vec::new()),
    );
    assert_eq!(m.raw_body, b"[[2,3],{},{}]".to_vec());
    let mut tracer = app.get_task_tracer(m).expect("registered task resolves");
    assert_eq!(tracer.body.args, vec![2, 3]);
    assert_eq!(tracer.retries, 0);
    assert!(!tracer.is_delayed(1000));
    let pre = tracer.begin(1000);
    assert_eq!(pre, vec![Effect::EmitPending]);
    let (result, post) = tracer.finish(ExecOutcome::Success, 1000);
    assert_eq!(result, TraceResult::Success);
    assert_eq!(post, vec![Effect::Ack, Effect::EmitFinished]);
}

#[test]
fn unknown_task_is_acked_with_error() {
    let app = Celery::new("app".to_owned());
    let m = message("unknown", "2", None, None, b"[[],{},{}]".to_vec());
    let got = app.get_task_tracer(m);
    assert_eq!(got.err(), Some(ErrorKind::UnregisteredTask("unknown".to_owned())));
    let (ops, err) = try_handle_delivery(DeliveryInput::UnknownTask("unknown".to_owned()));
    assert_eq!(ops, vec![Effect::Ack]);
    assert_eq!(err, Some(ErrorKind::UnregisteredTask("unknown".to_owned())));
}

#[test]
fn malformed_body_is_protocol_error() {
    let mut app = Celery::new("app".to_owned());
    app.register_task("add".to_owned(), TaskOptionsOverrides::empty())
        .unwrap();
    let m = message("add", "3", None, None, b"not json".to_vec());
    assert_eq!(app.get_task_tracer(m).err(), Some(ErrorKind::ProtocolError));
    let (ops, err) = try_handle_delivery(DeliveryInput::Malformed);
    assert_eq!(ops, vec![Effect::Ack]);
    assert_eq!(err, Some(ErrorKind::ProtocolError));
}

#[test]
fn retry_backoff_doubles_and_caps() {
    assert_eq!(retry_delay(0, 1, 4), 1);
    assert_eq!(retry_delay(1, 1, 4), 2);
    assert_eq!(retry_delay(2, 1, 4), 4);
    assert_eq!(retry_delay(3, 1, 4), 4);
    assert_eq!(retry_delay(100, 1, 4), 4);
    assert_eq!(retry_delay(5, 0, 3600), 0);
    assert_eq!(retry_delay(0, 10, 4), 4);
}

#[test]
fn retry_with_backoff_until_exhausted() {
    let mut app = Celery::new("app".to_owned());
    app.register_task(
        "flaky".to_owned(),
        TaskOptionsOverrides {
            timeout: None,
            max_retries: Some(2),
            min_retry_delay: Some(1),
            max_retry_delay: Some(4),
        },
    )
    .unwrap();
    let now = 1000;

    // first attempt: retries = 0, schedule at now + 1
    let m = message("flaky", "9", None, None, b"[[],{},{}]".to_vec());
    let mut t = app.get_task_tracer(m).unwrap();
    assert_eq!(t.retry_eta(now), now + 1);
    t.begin(now);
    let (r, ops) = t.finish(ExecOutcome::RetryableFailure, now);
    assert_eq!(r, TraceResult::RetryScheduled { eta: now + 1 });
    assert_eq!(
        ops,
        vec![Effect::RetryMessage(Some(now + 1)), Effect::EmitFinished]
    );

    // redelivery with retries = 1: schedule at now + 2
    let m = message("flaky", "9", None, Some(1), b"[[],{},{}]".to_vec());
    let mut t = app.get_task_tracer(m).unwrap();
    t.begin(now);
    let (r, _) = t.finish(ExecOutcome::RetryableFailure, now);
    assert_eq!(r, TraceResult::RetryScheduled { eta: now + 2 });

    // redelivery with retries = 2 == max: ack, terminal
    let m = message("flaky", "9", None, Some(2), b"[[],{},{}]".to_vec());
    let mut t = app.get_task_tracer(m).unwrap();
    t.begin(now);
    let (r, ops) = t.finish(ExecOutcome::RetryableFailure, now);
    assert_eq!(r, TraceResult::Exhausted);
    assert_eq!(ops, vec![Effect::Ack, Effect::EmitFinished]);
}

#[test]
fn retries_at_cap_lead_to_ack_not_retry() {
    assert!(!should_retry(2, Some(2)));
    assert!(should_retry(1, Some(2)));
    assert!(should_retry(1000, None));
    let (ops, _) = try_handle_delivery(DeliveryInput::Traced {
        delayed: false,
        prefetch_ok: true,
        eta: None,
        result: TraceResult::Exhausted,
    });
    assert_eq!(
        ops,
        vec![Effect::EmitPending, Effect::Execute, Effect::Ack, Effect::EmitFinished]
    );
}

#[test]
fn timeout_is_handled_as_retry() {
    let mut app = Celery::new("app".to_owned());
    app.register_task(
        "slow".to_owned(),
        TaskOptionsOverrides {
            timeout: Some(1),
            max_retries: None,
            min_retry_delay: Some(1),
            max_retry_delay: Some(4),
        },
    )
    .unwrap();
    let m = message("slow", "4", None, None, b"[[],{},{}]".to_vec());
    let mut t = app.get_task_tracer(m).unwrap();
    assert_eq!(t.options.timeout, Some(1));
    t.begin(500);
    let (r, ops) = t.finish(ExecOutcome::TimedOut, 501);
    assert_eq!(r, TraceResult::RetryScheduled { eta: 502 });
    assert_eq!(
        ops,
        vec![Effect::RetryMessage(Some(502)), Effect::EmitFinished]
    );
}

#[test]
fn past_eta_is_not_delayed() {
    let t = Tracer::new(
        "add".to_owned(),
        "5".to_owned(),
        Some(900),
        0,
        TaskOptions::default_options(),
        body(Vec::new(), Vec::new()),
    );
    assert!(!t.is_delayed(900));
    assert!(!t.is_delayed(1000));
    assert!(t.is_delayed(899));
    let none = Tracer::new(
        "add".to_owned(),
        "6".to_owned(),
        None,
        0,
        TaskOptions::default_options(),
        body(Vec::new(), Vec::new()),
    );
    assert!(!none.is_delayed(0));
}

#[test]
fn delayed_delivery_effect_order() {
    let (ops, err) = try_handle_delivery(DeliveryInput::Traced {
        delayed: true,
        prefetch_ok: true,
        eta: Some(1002),
        result: TraceResult::Success,
    });
    assert_eq!(
        ops,
        vec![
            Effect::IncreasePrefetch,
            Effect::EmitPending,
            Effect::SleepUntil(1002),
            Effect::Execute,
            Effect::Ack,
            Effect::EmitFinished,
            Effect::DecreasePrefetch,
        ]
    );
    assert_eq!(err, None);
    assert_eq!(count_terminal(&ops), 1);
    assert_eq!(count_kind(&ops, true), count_kind(&ops, false));
}

#[test]
fn prefetch_increase_failure_returns_message() {
    let (ops, err) = try_handle_delivery(DeliveryInput::Traced {
        delayed: true,
        prefetch_ok: false,
        eta: Some(1002),
        result: TraceResult::Success,
    });
    assert_eq!(ops, vec![Effect::RetryMessage(None)]);
    assert_eq!(err, Some(ErrorKind::BrokerError));
    assert_eq!(count_kind(&ops, true), 0);
    assert_eq!(count_kind(&ops, false), 0);
}

#[test]
fn every_settled_delivery_has_one_terminal_operation() {
    let inputs = vec![
        DeliveryInput::Malformed,
        DeliveryInput::UnknownTask("nope".to_owned()),
        DeliveryInput::Traced {
            delayed: false,
            prefetch_ok: true,
            eta: None,
            result: TraceResult::Failed,
        },
        DeliveryInput::Traced {
            delayed: true,
            prefetch_ok: true,
            eta: Some(7),
            result: TraceResult::RetryScheduled { eta: 9 },
        },
        DeliveryInput::Traced {
            delayed: true,
            prefetch_ok: false,
            eta: Some(7),
            result: TraceResult::Success,
        },
    ];
    for d in inputs {
        let (ops, _) = try_handle_delivery(d);
        assert_eq!(count_terminal(&ops), 1);
        assert_eq!(count_kind(&ops, true), count_kind(&ops, false));
    }
    let (ops, err) = try_handle_delivery(DeliveryInput::BrokerFailure);
    assert_eq!(ops, Vec::new());
    assert_eq!(err, Some(ErrorKind::BrokerError));
}

#[test]
fn handle_delivery_swallows_the_error_into_a_label() {
    let (ops, label) = celery::dispatch::handle_delivery(DeliveryInput::Malformed);
    assert_eq!(ops, vec![Effect::Ack]);
    assert_eq!(label, Some("protocol error"));
    let (_, label) = celery::dispatch::handle_delivery(DeliveryInput::Traced {
        delayed: false,
        prefetch_ok: true,
        eta: None,
        result: TraceResult::Success,
    });
    assert_eq!(label, None);
}

#[test]
fn consume_loop_counts_pending_tasks() {
    let mut st = ConsumeState::init();
    assert_eq!(st.step(LoopEvent::Delivery), LoopAction::SpawnHandler);
    assert_eq!(st.step(LoopEvent::Task(TaskStatus::Pending)), LoopAction::NoAction);
    assert_eq!(st.pending_tasks, 1);
    assert_eq!(st.step(LoopEvent::Task(TaskStatus::Finished)), LoopAction::NoAction);
    assert_eq!(st.pending_tasks, 0);
    assert_eq!(st.phase, Phase::Main);
}

#[test]
fn warm_shutdown_drains_to_zero() {
    let mut st = ConsumeState::init();
    st.step(LoopEvent::Task(TaskStatus::Pending));
    st.step(LoopEvent::Task(TaskStatus::Pending));
    assert_eq!(st.step(LoopEvent::Signal), LoopAction::WarmShutdownNotice);
    assert_eq!(st.phase, Phase::Warm);
    st.step(LoopEvent::Task(TaskStatus::Finished));
    assert_eq!(st.phase, Phase::Warm);
    st.step(LoopEvent::Task(TaskStatus::Finished));
    assert_eq!(st.phase, Phase::DoneOk);
    assert_eq!(st.pending_tasks, 0);
}

#[test]
fn signal_with_nothing_pending_ends_normally() {
    let mut st = ConsumeState::init();
    assert_eq!(st.step(LoopEvent::Signal), LoopAction::WarmShutdownNotice);
    assert_eq!(st.phase, Phase::DoneOk);
    assert_eq!(st.pending_tasks, 0);
}

#[test]
fn second_interrupt_forces_shutdown() {
    let mut st = ConsumeState::init();
    st.step(LoopEvent::Task(TaskStatus::Pending));
    assert_eq!(st.step(LoopEvent::Signal), LoopAction::WarmShutdownNotice);
    assert_eq!(st.phase, Phase::Warm);
    assert_eq!(st.step(LoopEvent::Signal), LoopAction::ForcedShutdownNotice);
    assert_eq!(st.phase, Phase::DoneForced);
    // the in-flight task was neither acked nor retried by this worker:
    // its pending count is simply abandoned
    assert_eq!(st.pending_tasks, 1);
}

#[test]
fn builder_sets_every_option() {
    let app = Celery::builder("worker".to_owned())
        .default_queue_name("jobs".to_owned())
        .task_timeout(30)
        .task_max_retries(5)
        .task_min_retry_delay(2)
        .task_max_retry_delay(120)
        .build();
    assert_eq!(app.name, "worker".to_owned());
    assert_eq!(app.default_queue_name, "jobs".to_owned());
    assert_eq!(app.task_options.timeout, Some(30));
    assert_eq!(app.task_options.max_retries, Some(5));
    assert_eq!(app.task_options.min_retry_delay, 2);
    assert_eq!(app.task_options.max_retry_delay, 120);
    let plain = Celery::new("worker".to_owned());
    assert_eq!(plain.default_queue_name, "celery".to_owned());
    assert_eq!(plain.task_options.max_retry_delay, 3600);
}

#[test]
fn message_retry_count_defaults_to_zero() {
    let m = message("add", "7", None, None, Vec::new());
    assert_eq!(m.retry_count(), 0);
    let m = message("add", "7", None, Some(3), Vec::new());
    assert_eq!(m.retry_count(), 3);
}

#[test]
fn error_labels_are_stable() {
    assert_eq!(ErrorKind::Retry.label(), "retry");
    assert_eq!(ErrorKind::BrokerError.label(), "broker error");
    assert_eq!(ErrorKind::ForcedShutdown.label(), "forced shutdown");
}
