use torustiq::channel::ChannelError;
use torustiq::params::ParamMap;
use torustiq::pipeline::{ConnectError, DeliverError, Pipeline, StartError, Worker};
use torustiq::record::RecordEnvelope;
use torustiq::registry::RegistrationError;
use torustiq::runner::{RunnerAction, RunnerEvent, RunnerState};
use torustiq::stage::{ConfigurationError, StageConfiguration, StageHandle, StageKind};

fn config(kind: StageKind, module: &str, exclusive: bool) -> StageConfiguration {
    StageConfiguration::new(kind, String::from(module), exclusive, ParamMap::new())
}

fn record(text: &str) -> RecordEnvelope {
    RecordEnvelope::from_text(text)
}

/// Runs a source that reads the given inputs and then meets the end of its
/// input.
fn run_source(pipeline: &mut Pipeline, worker: Worker, inputs: Vec<&str>) {
    let Worker { mut runner, receiver: _, mut action } = worker;
    let mut inputs = inputs.into_iter();
    while let RunnerAction::PullInput = action {
        let event = match inputs.next() {
            Some(line) => RunnerEvent::Input(record(line)),
            None => RunnerEvent::EndOfInput,
        };
        action = pipeline.advance(&mut runner, event);
    }
    assert!(matches!(action, RunnerAction::Terminate));
    assert!(runner.is_terminated());
}

/// Runs a worker over what is queued for it, with `logic` as its processing
/// logic, until its queue is empty. Returns the worker's failure count.
fn run_queued(
    pipeline: &mut Pipeline,
    worker: Worker,
    logic: &mut dyn FnMut(RecordEnvelope) -> Result<Vec<RecordEnvelope>, String>,
) -> u64 {
    let Worker { mut runner, receiver, mut action } = worker;
    loop {
        let event = match action {
            RunnerAction::Poll => match pipeline.recv(receiver.as_ref().unwrap()) {
                Some(r) => RunnerEvent::Received(r),
                None => break,
            },
            RunnerAction::Process(r) => match logic(r) {
                Ok(out) => RunnerEvent::Processed(out),
                Err(_) => RunnerEvent::ProcessingFailed,
            },
            other => panic!("unexpected action {:?}", other),
        };
        action = pipeline.advance(&mut runner, event);
    }
    assert_eq!(runner.state(), RunnerState::Running);
    runner.failed()
}

#[test]
fn a_new_pipeline_is_empty() {
    let p = Pipeline::new();
    assert_eq!(p.len(), 0);
    assert!(p.lookup(1).is_none());
    assert_eq!(p.pending(1), None);
    assert!(!p.is_terminated(1));
    assert_eq!(p.downstream(1), None);
}

#[test]
fn configure_creates_a_channel_for_buffering_kinds_only() {
    let mut p = Pipeline::new();
    let src = p.configure(config(StageKind::Source, "stdio", false)).unwrap();
    let tr = p.configure(config(StageKind::Transform, "lua", false)).unwrap();
    let dst = p.configure(config(StageKind::Destination, "stdio", false)).unwrap();
    let lis = p.configure(config(StageKind::Listener, "prometheus", false)).unwrap();
    assert_eq!((src, tr, dst, lis), (1, 2, 3, 4));
    assert_eq!(p.pending(src), None);
    assert_eq!(p.pending(tr), Some(0));
    assert_eq!(p.pending(dst), Some(0));
    assert_eq!(p.pending(lis), Some(0));
    assert_eq!(p.len(), 4);
}

#[test]
fn a_refused_configuration_changes_nothing() {
    let mut p = Pipeline::new();
    let first = p.configure(config(StageKind::Transform, "python", true)).unwrap();
    assert_eq!(
        p.configure(config(StageKind::Destination, "python", true)),
        Err(RegistrationError::MultipleInstancesNotSupported(first))
    );
    assert_eq!(p.len(), 1);
    assert_eq!(p.pending(2), None);
    assert_eq!(
        p.configure(config(StageKind::Destination, "stdio", false).with_handle(first)),
        Err(RegistrationError::DuplicateRegistration(first))
    );
    assert_eq!(p.lookup(first).unwrap().kind, StageKind::Transform);
}

#[test]
fn parameters_are_read_back_by_handle() {
    let mut params = ParamMap::new();
    params.insert(String::from("format"), String::from("%R | %M"));
    let mut p = Pipeline::new();
    let h = p
        .configure(StageConfiguration::new(StageKind::Destination, String::from("stdio"), false, params))
        .unwrap();
    assert_eq!(p.get_param(h, "format"), Some(&String::from("%R | %M")));
    assert_eq!(p.get_param(h, "file"), None);
    assert_eq!(p.get_param(h + 1, "format"), None);
}

#[test]
fn connect_checks_both_ends() {
    let mut p = Pipeline::new();
    let src = p.configure(config(StageKind::Source, "stdio", false)).unwrap();
    let tr = p.configure(config(StageKind::Transform, "lua", false)).unwrap();
    let dst = p.configure(config(StageKind::Destination, "stdio", false)).unwrap();
    assert_eq!(p.connect(9, dst), Err(ConnectError::UnknownStage(9)));
    assert_eq!(p.connect(src, 9), Err(ConnectError::UnknownStage(9)));
    assert_eq!(p.connect(dst, tr), Err(ConnectError::NotAProducer(dst)));
    assert_eq!(p.connect(tr, src), Err(ConnectError::NotAConsumer(src)));
    assert_eq!(p.connect(src, tr), Ok(()));
    assert_eq!(p.connect(src, dst), Err(ConnectError::AlreadyConnected(src)));
    assert_eq!(p.connect(tr, dst), Ok(()));
    assert_eq!(p.downstream(src), Some(tr));
    assert_eq!(p.downstream(tr), Some(dst));
    assert_eq!(p.downstream(dst), None);
}

#[test]
fn deliver_needs_a_known_and_connected_stage() {
    let mut p = Pipeline::new();
    let src = p.configure(config(StageKind::Source, "stdio", false)).unwrap();
    let dst = p.configure(config(StageKind::Destination, "stdio", false)).unwrap();
    assert_eq!(p.deliver(9, record("x")), Err(DeliverError::UnknownStage(9)));
    assert_eq!(p.deliver(src, record("x")), Err(DeliverError::NotConnected(src)));
    assert_eq!(p.pending(dst), Some(0));
    p.connect(src, dst).unwrap();
    assert_eq!(p.deliver(src, record("x")), Ok(()));
    assert_eq!(p.pending(dst), Some(1));
}

#[test]
fn process_queues_a_record_for_the_stage_itself() {
    let mut p = Pipeline::new();
    let src = p.configure(config(StageKind::Source, "stdio", false)).unwrap();
    let dst = p.configure(config(StageKind::Destination, "stdio", false)).unwrap();
    assert_eq!(p.process(dst, record("x")), Ok(()));
    assert_eq!(p.pending(dst), Some(1));
    assert_eq!(p.process(src, record("x")), Err(ChannelError::NoSuchStage(src)));
    assert_eq!(p.process(9, record("x")), Err(ChannelError::NoSuchStage(9)));
}

#[test]
fn start_of_an_unknown_stage_fails_with_its_handle() {
    let mut p = Pipeline::new();
    let e = p.start(42).unwrap_err();
    assert_eq!(e, StartError::NotConfigured(42));
    assert_eq!(e.handle(), 42);
    assert_eq!(e.message(), "Init args for step '42' not found");
}

#[test]
fn start_of_a_source_needs_no_receiver() {
    let mut p = Pipeline::new();
    let src = p.configure(config(StageKind::Source, "stdio", false)).unwrap();
    let w = p.start(src).unwrap();
    assert!(w.receiver.is_none());
    assert!(matches!(w.action, RunnerAction::PullInput));
    assert_eq!(w.runner.state(), RunnerState::Running);
    assert_eq!(w.runner.handle(), src);
    assert_eq!(w.runner.kind(), StageKind::Source);
}

#[test]
fn start_of_a_destination_claims_its_receiver() {
    let mut p = Pipeline::new();
    let dst = p.configure(config(StageKind::Destination, "stdio", false)).unwrap();
    let w = p.start(dst).unwrap();
    assert_eq!(w.receiver.as_ref().map(|r| r.handle()), Some(dst));
    assert!(matches!(w.action, RunnerAction::Poll));
    assert_eq!(w.runner.state(), RunnerState::Running);
    assert!(!p.is_terminated(dst));
}

#[test]
fn a_second_start_terminates_without_running() {
    let mut p = Pipeline::new();
    let dst = p.configure(config(StageKind::Destination, "stdio", false)).unwrap();
    let first = p.start(dst).unwrap();
    let second = p.start(dst).unwrap();
    assert!(second.receiver.is_none());
    assert!(matches!(second.action, RunnerAction::Terminate));
    assert_eq!(second.runner.state(), RunnerState::Terminated);
    assert!(p.is_terminated(dst));
    assert_eq!(first.runner.state(), RunnerState::Running);
}

#[test]
fn terminate_is_news_once() {
    let mut p = Pipeline::new();
    let src = p.configure(config(StageKind::Source, "stdio", false)).unwrap();
    assert!(!p.is_terminated(src));
    assert!(p.terminate(src));
    assert!(p.is_terminated(src));
    assert!(!p.terminate(src));
    assert!(!p.terminate(99));
    assert!(!p.is_terminated(99));
}

#[test]
fn records_delivered_before_start_are_not_lost() {
    let mut p = Pipeline::new();
    let src = p.configure(config(StageKind::Source, "stdio", false)).unwrap();
    let dst = p.configure(config(StageKind::Destination, "stdio", false)).unwrap();
    p.connect(src, dst).unwrap();
    p.deliver(src, record("early 1")).unwrap();
    p.deliver(src, record("early 2")).unwrap();
    let w = p.start(dst).unwrap();
    p.deliver(src, record("late")).unwrap();
    let rx = w.receiver.unwrap();
    assert_eq!(p.recv(&rx), Some(record("early 1")));
    assert_eq!(p.recv(&rx), Some(record("early 2")));
    assert_eq!(p.recv(&rx), Some(record("late")));
    assert_eq!(p.recv(&rx), None);
}

#[test]
fn source_to_destination_keeps_the_order() {
    let mut p = Pipeline::new();
    let src = p.configure(config(StageKind::Source, "stdio", false)).unwrap();
    let dst = p.configure(config(StageKind::Destination, "stdio", false)).unwrap();
    let source = p.start(src).unwrap();
    let destination = p.start(dst).unwrap();
    p.connect(src, dst).unwrap();

    run_source(&mut p, source, vec!["a", "b", "c"]);
    assert!(p.is_terminated(src));

    let mut sink: Vec<Vec<u8>> = Vec::new();
    let failures = run_queued(&mut p, destination, &mut |r: RecordEnvelope| {
        assert!(r.metadata.is_empty());
        sink.push(r.payload);
        Ok(Vec::new())
    });
    assert_eq!(sink, vec![b"a".to_vec(), b"b".to_vec(), b"c".to_vec()]);
    assert_eq!(failures, 0);
    assert_eq!(p.pending(dst), Some(0));
}

#[test]
fn a_failing_record_does_not_halt_the_pipeline() {
    let mut p = Pipeline::new();
    let src = p.configure(config(StageKind::Source, "stdio", false)).unwrap();
    let tr = p.configure(config(StageKind::Transform, "lua", false)).unwrap();
    let dst = p.configure(config(StageKind::Destination, "stdio", false)).unwrap();
    p.connect(src, tr).unwrap();
    p.connect(tr, dst).unwrap();
    let source = p.start(src).unwrap();
    let transform = p.start(tr).unwrap();
    let destination = p.start(dst).unwrap();

    run_source(&mut p, source, vec!["1", "2", "3"]);

    let failures = run_queued(&mut p, transform, &mut |r: RecordEnvelope| {
        if r.payload == b"2" {
            Err(String::from("cannot handle 2"))
        } else {
            Ok(vec![r])
        }
    });
    assert_eq!(failures, 1);
    assert!(!p.is_terminated(tr));

    let mut sink: Vec<Vec<u8>> = Vec::new();
    run_queued(&mut p, destination, &mut |r: RecordEnvelope| {
        sink.push(r.payload);
        Ok(Vec::new())
    });
    assert_eq!(sink, vec![b"1".to_vec(), b"3".to_vec()]);
}

#[test]
fn a_transform_may_emit_several_records_for_one() {
    let mut p = Pipeline::new();
    let tr = p.configure(config(StageKind::Transform, "lua", false)).unwrap();
    let dst = p.configure(config(StageKind::Destination, "stdio", false)).unwrap();
    p.connect(tr, dst).unwrap();
    p.process(tr, record("ab")).unwrap();
    let transform = p.start(tr).unwrap();
    run_queued(&mut p, transform, &mut |r: RecordEnvelope| {
        Ok(r.payload.iter().map(|b| RecordEnvelope::new(vec![*b], Vec::new())).collect())
    });
    let rx = p.start(dst).unwrap().receiver.unwrap();
    assert_eq!(p.recv(&rx), Some(record("a")));
    assert_eq!(p.recv(&rx), Some(record("b")));
    assert_eq!(p.recv(&rx), None);
}

#[test]
fn two_producers_into_one_stage_each_keep_their_order() {
    let mut p = Pipeline::new();
    let a = p.configure(config(StageKind::Source, "stdio", false)).unwrap();
    let b = p.configure(config(StageKind::Source, "source_http", false)).unwrap();
    let dst = p.configure(config(StageKind::Destination, "stdio", false)).unwrap();
    p.connect(a, dst).unwrap();
    p.connect(b, dst).unwrap();
    for i in 0..10u8 {
        p.deliver(a, RecordEnvelope::new(vec![b'a', i], vec![])).unwrap();
        p.deliver(b, RecordEnvelope::new(vec![b'b', i], vec![])).unwrap();
    }
    let rx = p.start(dst).unwrap().receiver.unwrap();
    let mut from_a: Vec<u8> = Vec::new();
    let mut from_b: Vec<u8> = Vec::new();
    while let Some(r) = p.recv(&rx) {
        if r.payload[0] == b'a' {
            from_a.push(r.payload[1]);
        } else {
            from_b.push(r.payload[1]);
        }
    }
    assert_eq!(from_a, (0..10u8).collect::<Vec<u8>>());
    assert_eq!(from_b, (0..10u8).collect::<Vec<u8>>());
}

#[test]
fn handles_of_a_pipeline_are_stage_handles() {
    let mut p = Pipeline::new();
    let h: StageHandle = p.configure(config(StageKind::Listener, "prometheus", false)).unwrap();
    assert_eq!(p.lookup(h).unwrap().module, "prometheus");
}

#[test]
fn install_hands_a_refusal_of_the_module_on() {
    let mut p = Pipeline::new();
    let refused = torustiq::kafka::configure(StageKind::Source, ParamMap::new());
    assert_eq!(p.install(refused), Err(ConfigurationError::KindNotSupported(StageKind::Source)));
    assert_eq!(p.len(), 0);
}

#[test]
fn install_configures_what_the_module_prepared() {
    let mut p = Pipeline::new();
    let prepared = torustiq::kafka::configure(StageKind::Destination, ParamMap::new());
    assert_eq!(p.install(prepared), Ok(1));
    assert_eq!(p.pending(1), Some(0));
    assert_eq!(p.lookup(1).unwrap().module, "kafka");
}

#[test]
fn install_reports_a_refusal_of_the_registry() {
    let mut p = Pipeline::new();
    let first = p.install(Ok(torustiq::python::configure(StageKind::Transform, ParamMap::new()))).unwrap();
    assert_eq!(
        p.install(Ok(torustiq::python::configure(StageKind::Transform, ParamMap::new()))),
        Err(ConfigurationError::Registration(RegistrationError::MultipleInstancesNotSupported(first)))
    );
}

#[test]
fn advance_delivers_what_a_worker_asks_to_deliver() {
    let mut p = Pipeline::new();
    let tr = p.configure(config(StageKind::Transform, "lua", false)).unwrap();
    let dst = p.configure(config(StageKind::Destination, "stdio", false)).unwrap();
    p.connect(tr, dst).unwrap();
    let Worker { mut runner, receiver: _, action } = p.start(tr).unwrap();
    assert!(matches!(action, RunnerAction::Poll));
    assert!(matches!(p.advance(&mut runner, RunnerEvent::Received(record("in"))), RunnerAction::Process(_)));
    let next = p.advance(&mut runner, RunnerEvent::Processed(vec![record("x"), record("y")]));
    assert!(matches!(next, RunnerAction::Poll));
    assert_eq!(p.pending(dst), Some(2));
    assert_eq!(runner.received(), 1);
}

#[test]
fn advance_records_a_termination() {
    let mut p = Pipeline::new();
    let src = p.configure(config(StageKind::Source, "stdio", false)).unwrap();
    let Worker { mut runner, .. } = p.start(src).unwrap();
    assert!(!p.is_terminated(src));
    assert!(matches!(p.advance(&mut runner, RunnerEvent::EndOfInput), RunnerAction::Terminate));
    assert!(p.is_terminated(src));
    assert!(matches!(p.advance(&mut runner, RunnerEvent::EndOfInput), RunnerAction::Idle));
}

#[test]
fn advance_drops_what_an_unconnected_stage_produces() {
    let mut p = Pipeline::new();
    let tr = p.configure(config(StageKind::Transform, "lua", false)).unwrap();
    let Worker { mut runner, .. } = p.start(tr).unwrap();
    p.advance(&mut runner, RunnerEvent::Received(record("in")));
    let next = p.advance(&mut runner, RunnerEvent::Processed(vec![record("lost")]));
    assert!(matches!(next, RunnerAction::Poll));
    assert_eq!(runner.state(), RunnerState::Running);
}

#[test]
fn a_failed_setup_is_a_termination() {
    let mut p = Pipeline::new();
    let tr = p.configure(config(StageKind::Transform, "lua", false)).unwrap();
    let Worker { mut runner, .. } = p.start(tr).unwrap();
    assert!(matches!(p.advance(&mut runner, RunnerEvent::SetupFailed), RunnerAction::Terminate));
    assert!(p.is_terminated(tr));
}

#[test]
fn a_worker_that_started_has_nothing_to_report() {
    let mut p = Pipeline::new();
    let dst = p.configure(config(StageKind::Destination, "stdio", false)).unwrap();
    let src = p.configure(config(StageKind::Source, "stdio", false)).unwrap();
    assert_eq!(p.start(dst).unwrap().start_failure(), None);
    assert_eq!(p.start(src).unwrap().start_failure(), None);
}

#[test]
fn a_worker_without_receiver_reports_the_handle_of_its_stage() {
    let mut p = Pipeline::new();
    p.configure(config(StageKind::Source, "stdio", false)).unwrap();
    let dst = p.configure(config(StageKind::Destination, "stdio", false)).unwrap();
    p.start(dst).unwrap();
    let second = p.start(dst).unwrap();
    assert_eq!(
        second.start_failure(),
        Some(String::from("Record receiver is not registered for step '2'"))
    );
    assert_eq!(
        torustiq::pipeline::receiver_missing_message(40),
        "Record receiver is not registered for step '40'"
    );
}

#[test]
fn a_failed_delivery_is_reported_with_the_handle_of_its_stage() {
    assert_eq!(
        DeliverError::UnknownStage(9).message(),
        "Record was not delivered: step '9' is not configured"
    );
    assert_eq!(
        DeliverError::NotConnected(3).message(),
        "Record was not delivered: step '3' has no next step"
    );
    assert_eq!(DeliverError::NotConnected(3).handle(), 3);
}
